use jcode_core::apply_patch::edit::{apply_update_chunks, seek_sequence};
use jcode_core::apply_patch::hunk::{PatchHunk, UpdateFileChunk};
use jcode_core::apply_patch::parser::parse_apply_patch;
use jcode_core::apply_patch::report::{
    edits_of, freeform_patch_text, short_style_for, touches_of, HunkOutcome, PatchReport,
    MISSING_PATCH_TEXT,
};
use jcode_core::apply_patch::run::PatchRun;
use jcode_core::apply_patch::sections::{diff_sections, patch_paths, FileState, Snapshot};
use jcode_core::apply_patch::steps::{
    action_of, first_stage, next_stage, stage_text, FileAction, Place, Stage, StepEvent,
};
use jcode_core::apply_patch::summary::{build_file_touch_preview, generate_diff_summary};
use jcode_core::apply_patch::tool::ApplyPatchFreeformTool;
use std::collections::BTreeMap;

fn lines(v: &[&str]) -> Vec<String> {
    v.iter().map(|s| s.to_string()).collect()
}

fn chunk(context: Option<&str>, old: &[&str], new: &[&str]) -> UpdateFileChunk {
    UpdateFileChunk {
        change_context: context.map(str::to_string),
        old_lines: lines(old),
        new_lines: lines(new),
        is_end_of_file: false,
    }
}

#[test]
fn test_parse_add_file() {
    let patch =
        "*** Begin Patch\n*** Add File: hello.txt\n+Hello world\n+Second line\n*** End Patch";
    let hunks = parse_apply_patch(patch).unwrap();
    assert_eq!(hunks.len(), 1);
    match &hunks[0] {
        PatchHunk::AddFile { path, contents } => {
            assert_eq!(path, "hello.txt");
            assert_eq!(contents, "Hello world\nSecond line\n");
        }
        _ => panic!("Expected AddFile"),
    }
}

#[test]
fn test_parse_delete_file() {
    let patch = "*** Begin Patch\n*** Delete File: old.txt\n*** End Patch";
    let hunks = parse_apply_patch(patch).unwrap();
    assert_eq!(hunks.len(), 1);
    match &hunks[0] {
        PatchHunk::DeleteFile { path } => {
            assert_eq!(path, "old.txt");
        }
        _ => panic!("Expected DeleteFile"),
    }
}

#[test]
fn test_parse_update_file_simple() {
    let patch = "*** Begin Patch\n*** Update File: test.py\n@@\n foo\n-bar\n+baz\n*** End Patch";
    let hunks = parse_apply_patch(patch).unwrap();
    assert_eq!(hunks.len(), 1);
    match &hunks[0] {
        PatchHunk::UpdateFile { path, chunks, .. } => {
            assert_eq!(path, "test.py");
            assert_eq!(chunks.len(), 1);
            assert_eq!(chunks[0].old_lines, vec!["foo", "bar"]);
            assert_eq!(chunks[0].new_lines, vec!["foo", "baz"]);
        }
        _ => panic!("Expected UpdateFile"),
    }
}

#[test]
fn test_parse_update_with_context() {
    let patch = "*** Begin Patch\n*** Update File: test.py\n@@ def my_func():\n-    pass\n+    return 42\n*** End Patch";
    let hunks = parse_apply_patch(patch).unwrap();
    match &hunks[0] {
        PatchHunk::UpdateFile { chunks, .. } => {
            assert_eq!(chunks[0].change_context, Some("def my_func():".to_string()));
            assert_eq!(chunks[0].old_lines, vec!["    pass"]);
            assert_eq!(chunks[0].new_lines, vec!["    return 42"]);
        }
        _ => panic!("Expected UpdateFile"),
    }
}

#[test]
fn test_parse_update_with_move() {
    let patch = "*** Begin Patch\n*** Update File: old.py\n*** Move to: new.py\n@@\n-old_line\n+new_line\n*** End Patch";
    let hunks = parse_apply_patch(patch).unwrap();
    match &hunks[0] {
        PatchHunk::UpdateFile {
            path,
            move_to,
            chunks,
        } => {
            assert_eq!(path, "old.py");
            assert_eq!(move_to, &Some("new.py".to_string()));
            assert_eq!(chunks.len(), 1);
        }
        _ => panic!("Expected UpdateFile"),
    }
}

#[test]
fn test_parse_multiple_chunks() {
    let patch = "*** Begin Patch\n*** Update File: test.py\n@@\n foo\n-bar\n+BAR\n@@\n baz\n-qux\n+QUX\n*** End Patch";
    let hunks = parse_apply_patch(patch).unwrap();
    match &hunks[0] {
        PatchHunk::UpdateFile { chunks, .. } => {
            assert_eq!(chunks.len(), 2);
            assert_eq!(chunks[0].old_lines, vec!["foo", "bar"]);
            assert_eq!(chunks[0].new_lines, vec!["foo", "BAR"]);
            assert_eq!(chunks[1].old_lines, vec!["baz", "qux"]);
            assert_eq!(chunks[1].new_lines, vec!["baz", "QUX"]);
        }
        _ => panic!("Expected UpdateFile"),
    }
}

#[test]
fn test_parse_end_of_file() {
    let patch = "*** Begin Patch\n*** Update File: test.py\n@@\n last_line\n+new_last_line\n*** End of File\n*** End Patch";
    let hunks = parse_apply_patch(patch).unwrap();
    match &hunks[0] {
        PatchHunk::UpdateFile { chunks, .. } => {
            assert!(chunks[0].is_end_of_file);
        }
        _ => panic!("Expected UpdateFile"),
    }
}

#[test]
fn test_apply_update_simple() {
    let chunks = vec![UpdateFileChunk {
        change_context: None,
        old_lines: vec!["foo".to_string(), "bar".to_string()],
        new_lines: vec!["foo".to_string(), "baz".to_string()],
        is_end_of_file: false,
    }];
    let (old_result, new_result) = apply_update_chunks("f", "foo\nbar\n", &chunks).unwrap();
    assert_eq!(old_result, "foo\nbar\n");
    assert_eq!(new_result, "foo\nbaz\n");
}

#[test]
fn test_apply_update_multiple_chunks() {
    let chunks = vec![
        UpdateFileChunk {
            change_context: None,
            old_lines: vec!["foo".to_string(), "bar".to_string()],
            new_lines: vec!["foo".to_string(), "BAR".to_string()],
            is_end_of_file: false,
        },
        UpdateFileChunk {
            change_context: None,
            old_lines: vec!["baz".to_string(), "qux".to_string()],
            new_lines: vec!["baz".to_string(), "QUX".to_string()],
            is_end_of_file: false,
        },
    ];
    let (old_result, new_result) =
        apply_update_chunks("f", "foo\nbar\nbaz\nqux\n", &chunks).unwrap();
    assert_eq!(old_result, "foo\nbar\nbaz\nqux\n");
    assert_eq!(new_result, "foo\nBAR\nbaz\nQUX\n");
}

#[test]
fn test_apply_update_with_context_header() {
    let chunks = vec![UpdateFileChunk {
        change_context: Some("def baz(self):".to_string()),
        old_lines: vec!["        pass".to_string()],
        new_lines: vec!["        return 42".to_string()],
        is_end_of_file: false,
    }];
    let (_old_result, new_result) = apply_update_chunks(
        "f",
        "class Foo:\n    def bar(self):\n        pass\n    def baz(self):\n        pass\n",
        &chunks,
    )
    .unwrap();
    assert_eq!(
        new_result,
        "class Foo:\n    def bar(self):\n        pass\n    def baz(self):\n        return 42\n"
    );
}

#[test]
fn test_apply_update_append_at_eof() {
    let chunks = vec![UpdateFileChunk {
        change_context: None,
        old_lines: vec![],
        new_lines: vec!["quux".to_string()],
        is_end_of_file: false,
    }];
    let (_old_result, new_result) =
        apply_update_chunks("f", "foo\nbar\nbaz\n", &chunks).unwrap();
    assert_eq!(new_result, "foo\nbar\nbaz\nquux\n");
}

#[test]
fn test_generate_diff_summary_compact_format() {
    let old = "line one\nline two\nline three\n";
    let new = "line one\nchanged two\nline three\n";
    let diff = generate_diff_summary(old, new);

    assert!(diff.contains("2- line two"));
    assert!(diff.contains("2+ changed two"));
    assert!(!diff.contains("line one"));
}

#[test]
fn test_seek_sequence_exact() {
    let lines: Vec<String> = vec!["foo", "bar", "baz"]
        .into_iter()
        .map(String::from)
        .collect();
    let pattern: Vec<String> = vec!["bar", "baz"].into_iter().map(String::from).collect();
    assert_eq!(seek_sequence(&lines, &pattern, 0, false), Some(1));
}

#[test]
fn test_seek_sequence_whitespace_tolerant() {
    let lines: Vec<String> = vec!["foo   ", "bar\t"]
        .into_iter()
        .map(String::from)
        .collect();
    let pattern: Vec<String> = vec!["foo", "bar"].into_iter().map(String::from).collect();
    assert_eq!(seek_sequence(&lines, &pattern, 0, false), Some(0));
}

#[test]
fn test_seek_sequence_eof() {
    let lines: Vec<String> = vec!["a", "b", "c", "d"]
        .into_iter()
        .map(String::from)
        .collect();
    let pattern: Vec<String> = vec!["c", "d"].into_iter().map(String::from).collect();
    assert_eq!(seek_sequence(&lines, &pattern, 0, true), Some(2));
}

#[test]
fn test_parse_no_begin() {
    let result = parse_apply_patch("random text");
    assert!(result.is_err());
}

#[test]
fn test_parse_heredoc_wrapper() {
    let patch = "<<'EOF'\n*** Begin Patch\n*** Add File: test.txt\n+hello\n*** End Patch\nEOF";
    let hunks = parse_apply_patch(patch).unwrap();
    assert_eq!(hunks.len(), 1);
}

#[test]
fn test_parse_update_without_explicit_at() {
    let patch = "*** Begin Patch\n*** Update File: file.py\n import foo\n+bar\n*** End Patch";
    let hunks = parse_apply_patch(patch).unwrap();
    match &hunks[0] {
        PatchHunk::UpdateFile { chunks, .. } => {
            assert_eq!(chunks.len(), 1);
            assert!(chunks[0].change_context.is_none());
        }
        _ => panic!("Expected UpdateFile"),
    }
}

#[test]
fn freeform_tool_declares_the_lark_grammar_marker() {
    let def = ApplyPatchFreeformTool::new().to_definition();
    assert_eq!(def.name, "apply_patch");
    let format = def
        .freeform_format()
        .expect("freeform variant must declare a grammar format");
    assert_eq!(format.kind, "grammar");
    assert_eq!(format.syntax, "lark");
    assert!(
        format.definition.contains("*** Begin Patch"),
        "grammar must constrain the patch envelope: {}",
        format.definition
    );
}

// What malformed patches are told.

fn error_of(patch: &str) -> String {
    parse_apply_patch(patch).unwrap_err().message()
}

#[test]
fn malformed_patches_name_the_line() {
    assert_ne!(error_of("random text"), error_of("*** Begin Patch\n*** Add File: a\n+x"));
    let bad_header = error_of("*** Begin Patch\nnonsense\n*** End Patch");
    assert!(bad_header.contains("2"), "{bad_header}");
    let empty = error_of("*** Begin Patch\n*** Update File: a.txt\n*** End Patch");
    assert!(empty.contains("a.txt"), "{empty}");
    let bad_add = error_of("*** Begin Patch\n*** Add File: a.txt\n+ok\nnot added\n*** End Patch");
    assert!(!bad_add.is_empty());
}

#[test]
fn chunks_that_cannot_be_placed_are_told() {
    let missing = apply_update_chunks("src/a.rs", "one\n", &[chunk(None, &["two"], &["three"])])
        .unwrap_err()
        .message();
    assert_eq!(missing, "Failed to find expected lines in src/a.rs:\ntwo");
    let context = apply_update_chunks("src/a.rs", "one\n", &[chunk(Some("fn x"), &["one"], &[])])
        .unwrap_err()
        .message();
    assert_eq!(context, "Failed to find context 'fn x' in src/a.rs");
}

#[test]
fn lines_outside_the_chunks_stay() {
    let (_, new) =
        apply_update_chunks("f", "a\nb\nc\nd\n", &[chunk(None, &["b"], &["B1", "B2"])]).unwrap();
    assert_eq!(new, "a\nB1\nB2\nc\nd\n");
}

#[test]
fn updated_files_end_in_a_line_feed() {
    let (_, new) = apply_update_chunks("f", "a\nb", &[chunk(None, &["b"], &["c"])]).unwrap();
    assert_eq!(new, "a\nc\n");
}

#[test]
fn a_diff_against_nothing_tells_only_additions() {
    let diff = generate_diff_summary("", "x\ny\n");
    assert_eq!(diff, "1+ x\n2+ y");
    assert_eq!(generate_diff_summary("same\n", "same\n"), "");
    assert_eq!(generate_diff_summary("x\n", ""), "1- x");
}

#[test]
fn previews_are_shortened() {
    assert_eq!(build_file_touch_preview(""), None);
    assert_eq!(build_file_touch_preview("1+ x").as_deref(), Some("1+ x"));
    let long: String = (0..100).map(|n| format!("{n}+ line\n")).collect();
    let preview = build_file_touch_preview(&long).unwrap();
    assert!(preview.len() < long.len());
}

// Carrying out hunks on files in memory.

fn carry_out(
    files: &mut BTreeMap<String, String>,
    hunk: &PatchHunk,
    protected: bool,
) -> HunkOutcome {
    let (from, to) = match hunk {
        PatchHunk::AddFile { path, .. } | PatchHunk::DeleteFile { path } => {
            (path.clone(), String::new())
        }
        PatchHunk::UpdateFile { path, move_to, .. } => {
            (path.clone(), move_to.clone().unwrap_or_default())
        }
    };
    let mut stage = first_stage(hunk);
    loop {
        let path = |place: Place| if place == Place::Source { &from } else { &to };
        let event = match action_of(&stage) {
            FileAction::MakeParent(_) => StepEvent::Done,
            FileAction::Probe(place) => StepEvent::Probed {
                existed: files.contains_key(path(place)),
                old: files.get(path(place)).cloned(),
            },
            FileAction::AskProtected => StepEvent::Protected(protected),
            FileAction::Read => match files.get(&from) {
                Some(content) => StepEvent::Content(content.clone()),
                None => StepEvent::Failed("no such file".to_string()),
            },
            FileAction::Write(place) => {
                files.insert(path(place).clone(), stage_text(hunk, &stage).to_string());
                StepEvent::Done
            }
            FileAction::Remove => match files.remove(&from) {
                Some(_) => StepEvent::Done,
                None => StepEvent::Failed("no such file".to_string()),
            },
            FileAction::Nothing => break,
        };
        stage = next_stage(hunk, stage, event, &from);
    }
    match stage {
        Stage::Done(outcome) => outcome,
        other => panic!("stopped: {other:?}"),
    }
}

fn files_of(pairs: &[(&str, &str)]) -> BTreeMap<String, String> {
    pairs.iter().map(|(k, v)| (k.to_string(), v.to_string())).collect()
}

#[test]
fn a_patch_is_carried_out_and_told_in_both_styles() {
    let mut files = files_of(&[("mod.txt", "alpha\nbeta\n"), ("del.txt", "gone\n")]);
    let patch = "*** Begin Patch\n*** Add File: add.txt\n+new\n*** Update File: \
                 mod.txt\n@@\n-alpha\n+ALPHA\n*** Delete File: del.txt\n*** End Patch";
    let hunks = parse_apply_patch(patch).unwrap();
    let mut report = PatchReport::new();
    for hunk in &hunks {
        let outcome = carry_out(&mut files, hunk, false);
        report.record(hunk, &outcome);
    }
    assert_eq!(files, files_of(&[("add.txt", "new\n"), ("mod.txt", "ALPHA\nbeta\n")]));
    assert_eq!(
        report.body(true),
        "Success. Updated the following files:\nA add.txt\nM mod.txt\nD del.txt"
    );
    let long = report.body(false);
    assert!(long.contains("\u{2713} add.txt: created\n1+ new"));
    assert!(long.contains("\u{2713} mod.txt: modified (1 hunks)"));
    assert_eq!(report.title().as_deref(), Some("3 files"));
}

#[test]
fn apply_patch_refuses_to_delete_a_protected_path() {
    let mut files = files_of(&[("key", "PRIVATE KEY")]);
    let hunk = PatchHunk::DeleteFile { path: "key".to_string() };
    let outcome = carry_out(&mut files, &hunk, true);
    assert!(matches!(outcome, HunkOutcome::Refused));
    assert!(files.contains_key("key"));
    let mut report = PatchReport::new();
    report.record(&hunk, &outcome);
    assert!(report.body(false).contains("refused"));
    assert!(report.body(true).starts_with("error: key: refused"));
}

#[test]
fn apply_patch_still_deletes_ordinary_files() {
    let mut files = files_of(&[("obsolete.rs", "fn old() {}\n")]);
    let hunk = PatchHunk::DeleteFile { path: "obsolete.rs".to_string() };
    assert!(matches!(carry_out(&mut files, &hunk, false), HunkOutcome::Deleted { .. }));
    assert!(files.is_empty());
    assert!(matches!(carry_out(&mut files, &hunk, false), HunkOutcome::DeleteFailed));
}

#[test]
fn a_moved_file_is_at_its_destination_only() {
    let mut files = files_of(&[("old.py", "old_line\n")]);
    let patch = "*** Begin Patch\n*** Update File: old.py\n*** Move to: new.py\n@@\n-old_line\n+new_line\n*** End Patch";
    let hunks = parse_apply_patch(patch).unwrap();
    let outcome = carry_out(&mut files, &hunks[0], false);
    assert_eq!(files, files_of(&[("new.py", "new_line\n")]));
    let mut report = PatchReport::new();
    let diff = report.record(&hunks[0], &outcome);
    assert!(report.body(false).contains("old.py: modified (1 hunks), moved to new.py"));
    assert_eq!(report.body(true), "Success. Updated the following files:\nM old.py");
    let touches = touches_of(&hunks[0], &outcome, &diff, Some("  tidy "));
    assert_eq!(touches.len(), 2);
    assert!(!edits_of(&hunks[0], &outcome).is_empty());
}

#[test]
fn an_update_without_a_file_fails_its_hunk() {
    let mut files = files_of(&[]);
    let hunk = PatchHunk::UpdateFile {
        path: "a".to_string(),
        move_to: None,
        chunks: vec![chunk(None, &["x"], &["y"])],
    };
    let outcome = carry_out(&mut files, &hunk, false);
    let mut report = PatchReport::new();
    report.record(&hunk, &outcome);
    assert_eq!(report.body(true), "error: a: no such file");
}

#[test]
fn a_source_that_stays_is_told() {
    let hunk = PatchHunk::UpdateFile {
        path: "a".to_string(),
        move_to: Some("b".to_string()),
        chunks: vec![chunk(None, &["x"], &["y"])],
    };
    let mut stage = first_stage(&hunk);
    for event in [
        StepEvent::Content("x\n".to_string()),
        StepEvent::Done,
        StepEvent::Probed { existed: false, old: None },
        StepEvent::Done,
        StepEvent::Failed("busy".to_string()),
    ] {
        stage = next_stage(&hunk, stage, event, "a");
    }
    let outcome = match stage {
        Stage::Done(outcome) => outcome,
        other => panic!("{other:?}"),
    };
    assert!(matches!(outcome, HunkOutcome::LeftOriginal { .. }));
    let mut report = PatchReport::new();
    report.record(&hunk, &outcome);
    assert_eq!(report.body(true), "error: a: failed to remove original after writing b");
}

#[test]
fn a_write_that_fails_stops_the_patch() {
    let hunk = PatchHunk::AddFile { path: "a".to_string(), contents: "x\n".to_string() };
    let stage = next_stage(
        &hunk,
        first_stage(&hunk),
        StepEvent::Failed("read-only".to_string()),
        "a",
    );
    assert!(matches!(stage, Stage::Stopped(why) if why == "read-only"));
}

#[test]
fn freeform_tool_reports_missing_patch_text() {
    assert_eq!(freeform_patch_text(Some("a".to_string()), None).unwrap(), "a");
    assert_eq!(freeform_patch_text(None, Some("b".to_string())).unwrap(), "b");
    let missing = freeform_patch_text(None, None).unwrap_err();
    assert_eq!(missing, MISSING_PATCH_TEXT);
    assert!(missing.contains("input"));
}

#[test]
fn gpt_models_get_the_short_style() {
    assert!(short_style_for(Some("GPT-5.4-Codex")));
    assert!(!short_style_for(Some("swe-2")));
    assert!(!short_style_for(None));
}

#[test]
fn patch_paths_are_sorted_and_named_once() {
    let hunks = parse_apply_patch(
        "*** Begin Patch\n*** Delete File: z\n*** Update File: m\n*** Move to: b\n@@\n-x\n+y\n*** Delete File: z\n*** End Patch",
    )
    .unwrap();
    assert_eq!(patch_paths(&hunks), vec!["b", "m", "z"]);
}

#[test]
fn a_simple_move_is_one_section() {
    let hunks = parse_apply_patch(
        "*** Begin Patch\n*** Update File: a\n*** Move to: b\n@@\n-x\n+y\n*** End Patch",
    )
    .unwrap();
    let here = |text: &str| Some(Snapshot { exists: true, text: text.to_string() });
    let gone = || Some(Snapshot { exists: false, text: String::new() });
    let states = vec![
        FileState { path: "a".to_string(), before: here("x\n"), after: gone() },
        FileState { path: "b".to_string(), before: gone(), after: here("y\n") },
    ];
    let sections = diff_sections(&hunks, &states);
    assert_eq!(sections.len(), 1);
    assert_eq!(sections[0].from, "a");
    assert_eq!(sections[0].to, "b");
}

// Whole runs.

fn run_out(files: &mut BTreeMap<String, String>, patch: &str, protected: &str) -> PatchRun {
    let mut run = PatchRun::start(patch, Some(" tidy ".to_string())).expect("a patch");
    while run.action() != FileAction::Nothing {
        let (path, dest) = run.paths();
        let (from, to) = (path.to_string(), dest.unwrap_or_default().to_string());
        let at = |place: Place| if place == Place::Source { &from } else { &to };
        let event = match run.action() {
            FileAction::MakeParent(place) if at(place).starts_with("ro/") => {
                StepEvent::Failed("read-only".to_string())
            }
            FileAction::MakeParent(_) | FileAction::Nothing => StepEvent::Done,
            FileAction::Probe(place) => StepEvent::Probed {
                existed: files.contains_key(at(place)),
                old: files.get(at(place)).cloned(),
            },
            FileAction::AskProtected => StepEvent::Protected(from == protected),
            FileAction::Read => match files.get(&from) {
                Some(content) => StepEvent::Content(content.clone()),
                None => StepEvent::Failed("no such file".to_string()),
            },
            FileAction::Write(place) => {
                files.insert(at(place).clone(), run.text_to_write().to_string());
                StepEvent::Done
            }
            FileAction::Remove => match files.remove(&from) {
                Some(_) => StepEvent::Done,
                None => StepEvent::Failed("no such file".to_string()),
            },
        };
        run.advance(event, &from);
    }
    run
}

#[test]
fn freeform_tool_prints_codex_summary_for_gpt_models() {
    let mut files = files_of(&[("mod.txt", "alpha\nbeta\n"), ("del.txt", "gone\n")]);
    let patch = "*** Begin Patch\n*** Add File: add.txt\n+new\n*** Update File: \
                 mod.txt\n@@\n-alpha\n+ALPHA\n*** Delete File: del.txt\n*** End Patch";
    let run = run_out(&mut files, patch, "");
    assert_eq!(
        run.report().body(short_style_for(Some("GPT-5.4-Codex"))),
        "Success. Updated the following files:\nA add.txt\nM mod.txt\nD del.txt"
    );
    assert_eq!(files, files_of(&[("add.txt", "new\n"), ("mod.txt", "ALPHA\nbeta\n")]));
    assert_eq!(run.edits().len(), 3);
    assert_eq!(run.touches().len(), 3);
    assert_eq!(run.touches()[0].intent.as_deref(), Some("tidy"));
    assert!(run.stopped().is_none());
}

#[test]
fn freeform_tool_executes_the_wrapped_raw_input() {
    let mut files = files_of(&[]);
    let patch = "*** Begin Patch\n*** Add File: created.txt\n+hello freeform\n*** End Patch";
    let text = freeform_patch_text(Some(patch.to_string()), None).unwrap();
    run_out(&mut files, &text, "");
    assert_eq!(files["created.txt"], "hello freeform\n");
}

#[test]
fn freeform_tool_also_accepts_patch_text() {
    let mut files = files_of(&[]);
    let patch = "*** Begin Patch\n*** Add File: created.txt\n+via patch_text\n*** End Patch";
    let text = freeform_patch_text(None, Some(patch.to_string())).unwrap();
    run_out(&mut files, &text, "");
    assert_eq!(files["created.txt"], "via patch_text\n");
}

#[test]
fn later_hunks_see_what_earlier_ones_did() {
    let mut files = files_of(&[("key", "k\n")]);
    let patch = "*** Begin Patch\n*** Add File: a\n+one\n*** Update File: a\n*** Move to: b\n@@\n-one\n+two\n*** Delete File: key\n*** Delete File: a\n*** End Patch";
    let run = run_out(&mut files, patch, "key");
    assert_eq!(files, files_of(&[("b", "two\n"), ("key", "k\n")]));
    let report = run.report();
    assert_eq!(report.results.len(), run.hunks().len());
    assert_eq!(report.added_paths, vec!["a"]);
    assert_eq!(report.modified_paths, vec!["a"]);
    assert_eq!(report.failure_lines.len(), 2);
    assert_eq!(report.touched_paths, vec!["a", "a", "b"]);
}

#[test]
fn a_failed_write_stops_the_whole_patch() {
    let mut files = files_of(&[]);
    let patch =
        "*** Begin Patch\n*** Add File: a\n+1\n*** Add File: ro/b\n+2\n*** Add File: c\n+3\n*** End Patch";
    let run = run_out(&mut files, patch, "");
    assert_eq!(run.stopped(), Some("read-only"));
    assert_eq!(files, files_of(&[("a", "1\n")]));
    assert_eq!(run.report().results.len(), 1);
    assert!(PatchRun::start("no patch", None).is_err());
}
