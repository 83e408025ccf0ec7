use jcode_core::git::checkpoint_run::{CheckpointRun, CheckpointStage};
use jcode_core::git::commit_run::{reply_of, CommitRun, CommitStage, GitReply};
use jcode_core::git::{
    assemble_message, asked_directory, commit_type_error, default_branch_name, description_error,
    listed_paths, model_signature, normalize_repo_path, scope_error, signoff_source, trailer,
    user_signature, GitCheckpointTool, GitCommitInput, GitCommitTool, SignoffSource,
    MODEL_PLACEHOLDER, USER_PLACEHOLDER,
};

#[test]
fn description_error_accepts_valid() {
    assert_eq!(description_error("add a git commit tool"), None);
}

#[test]
fn description_error_rejects_invalid() {
    assert_eq!(
        description_error(""),
        Some("description must be a non-empty string".to_string())
    );
    assert!(
        description_error("  spaced")
            .unwrap()
            .contains("whitespace")
    );
    assert!(
        description_error("ends with period.")
            .unwrap()
            .contains("punctuation")
    );
    assert!(
        description_error("ends with bang!")
            .unwrap()
            .contains("punctuation")
    );
    assert!(
        description_error("Uppercase start")
            .unwrap()
            .contains("lowercase")
    );
    let long = "a".repeat(73);
    assert!(description_error(&long).unwrap().contains("72"));
    assert_eq!(description_error(&"a".repeat(72)), None);
    // Non-ASCII first letters are not flagged as uppercase.
    assert_eq!(description_error("中文描述"), None);
}

#[test]
fn scope_error_validates_pattern() {
    assert_eq!(scope_error(None), None);
    assert_eq!(scope_error(Some("tools")), None);
    assert_eq!(scope_error(Some("app-core/git")), None);
    assert!(scope_error(Some("")).is_some());
    assert!(scope_error(Some("Tools")).is_some());
    assert!(scope_error(Some("with space")).is_some());
    assert!(scope_error(Some("(parens)")).is_some());
}

#[test]
fn commit_type_error_validates_enum() {
    assert_eq!(commit_type_error("feat"), None);
    assert_eq!(commit_type_error("revert"), None);
    assert!(commit_type_error("feature").is_some());
    assert!(commit_type_error("").is_some());
    assert!(commit_type_error("FEAT").is_some());
}

#[test]
fn assemble_message_minimal() {
    let message = assemble_message("feat", None, "add thing", &[], &[], &[], None);
    assert_eq!(message, "feat: add thing\n");
}

#[test]
fn assemble_message_full() {
    let message = assemble_message(
        "fix",
        Some("tools"),
        "correct path staging",
        &["stage relative to repoPath".to_string()],
        &[12],
        &[34, 56],
        Some("Co-Authored-By: Model <model@example.com>"),
    );
    assert_eq!(
        message,
        "fix(tools): correct path staging\n\n- stage relative to repoPath\n\n\
         Closes #12\nRefs: #34\nRefs: #56\n\n\
         Co-Authored-By: Model <model@example.com>\n"
    );
}

#[test]
fn assemble_message_body_only() {
    let subject = ["note", "the", "gate", "order"].join(" ");
    let message = assemble_message(
        "docs",
        None,
        &subject,
        &[
            "branch gate first".to_string(),
            "then staged gate".to_string(),
        ],
        &[],
        &[],
        None,
    );
    assert_eq!(
        message,
        format!("docs: {subject}\n\n- branch gate first\n- then staged gate\n")
    );
}

#[test]
fn assemble_message_skips_blank_lines_and_zero_issues() {
    let message = assemble_message(
        "feat",
        None,
        "add thing",
        &["real bullet".to_string(), "   ".to_string(), String::new()],
        &[0, 7],
        &[0],
        None,
    );
    assert_eq!(message, "feat: add thing\n\n- real bullet\n\nCloses #7\n");
}

#[test]
fn assemble_message_trailer_without_issues() {
    let message = assemble_message(
        "chore",
        None,
        "tidy things",
        &[],
        &[],
        &[],
        Some("Co-Authored-By: Model <model@example.com>"),
    );
    assert_eq!(
        message,
        "chore: tidy things\n\nCo-Authored-By: Model <model@example.com>\n"
    );
}

#[test]
fn assemble_message_issues_without_trailer() {
    let message = assemble_message("fix", None, "correct thing", &[], &[3], &[4], None);
    assert_eq!(message, "fix: correct thing\n\nCloses #3\nRefs: #4\n");
}

#[test]
fn normalize_repo_path_variants() {
    let root = "/repo";
    let base = "/repo/sub";
    assert_eq!(
        normalize_repo_path(root, root, "src/a.rs").unwrap(),
        "src/a.rs"
    );
    assert_eq!(normalize_repo_path(root, base, "a.rs").unwrap(), "sub/a.rs");
    assert_eq!(
        normalize_repo_path(root, root, "./src/a.rs").unwrap(),
        "src/a.rs"
    );
    assert_eq!(
        normalize_repo_path(root, base, "../src/a.rs").unwrap(),
        "src/a.rs"
    );
    assert_eq!(
        normalize_repo_path(root, root, "/repo/src/a.rs").unwrap(),
        "src/a.rs"
    );
    assert_eq!(normalize_repo_path(root, root, "").unwrap(), ".");
    assert!(normalize_repo_path(root, root, "../outside.rs").is_err());
    assert!(normalize_repo_path(root, root, "/etc/passwd").is_err());
}

// Signing off.

#[test]
fn signoff_field_literal_and_user() {
    assert!(matches!(
        signoff_source("name", Some("Literal Name")),
        SignoffSource::Literal { value } if value == "Literal Name"
    ));
    assert!(matches!(
        signoff_source("name", Some(USER_PLACEHOLDER)),
        SignoffSource::GitConfig { key } if key == "user.name"
    ));
    assert!(matches!(
        signoff_source("email", Some(USER_PLACEHOLDER)),
        SignoffSource::GitConfig { key } if key == "user.email"
    ));
    assert_eq!(
        user_signature("user.name", Some("Test User".to_string())).unwrap(),
        "Test User"
    );
    assert_eq!(
        user_signature("user.email", Some("test@example.com".to_string())).unwrap(),
        "test@example.com"
    );
    assert!(matches!(signoff_source("name", None), SignoffSource::Unset));
}

#[test]
fn signoff_field_user_unset_errors() {
    assert!(user_signature("user.name", None)
        .unwrap_err()
        .contains("git config user.name is unset"));
    assert!(user_signature("user.name", Some(String::new())).is_err());
}

#[test]
fn signoff_field_model_unresolved_errors() {
    assert!(matches!(signoff_source("name", Some(MODEL_PLACEHOLDER)), SignoffSource::Model));
    assert!(model_signature(None, None)
        .unwrap_err()
        .contains("${model} has not resolved"));
    assert!(model_signature(Some("m-1"), None).unwrap_err().contains("\"m-1\""));
    assert_eq!(model_signature(Some("m-1"), Some("M".to_string())).unwrap(), "M");
}

#[test]
fn trailer_is_none_when_unconfigured() {
    assert_eq!(trailer(Some("N"), Some("e@x")).as_deref(), Some("Co-Authored-By: N <e@x>"));
    assert_eq!(trailer(Some("N"), None), None);
    assert_eq!(trailer(Some(""), Some("e@x")), None);
    assert_eq!(trailer(None, None), None);
}

#[test]
fn names_and_small_pieces() {
    assert_eq!(GitCommitTool::new().name(), "git_commit");
    assert_eq!(GitCheckpointTool::new().name(), "git_checkpoint");
    assert_eq!(asked_directory(Some("  sub ")).as_deref(), Some("sub"));
    assert_eq!(asked_directory(Some("  ")), None);
    assert_eq!(listed_paths("a\0b c\0\0"), vec!["a", "b c"]);
    assert_eq!(default_branch_name(Some("origin/trunk"), Some("dev")), "trunk");
    assert_eq!(default_branch_name(Some("upstream/trunk"), Some("dev")), "dev");
    assert_eq!(default_branch_name(None, None), "main");
}

#[test]
fn replies_tell_failures() {
    let args = vec!["status".to_string(), "-z".to_string()];
    assert!(matches!(
        reply_of(&args, true, b"main\n", b""),
        GitReply::Printed(s) if s == "main"
    ));
    assert!(matches!(
        reply_of(&args, false, b"", b"fatal: no\n"),
        GitReply::Failed(s) if s == "git status -z failed: fatal: no"
    ));
    // Bytes that are no UTF-8 are replaced.
    assert!(matches!(
        reply_of(&args, true, b"a\xffb", b""),
        GitReply::Printed(s) if s == "a\u{fffd}b"
    ));
}

// Runs against replies.

fn input(paths: &[&str]) -> GitCommitInput {
    GitCommitInput {
        paths: Some(paths.iter().map(|p| p.to_string()).collect()),
        checkpoint: None,
        commit_type: "feat".to_string(),
        scope: None,
        description: "add a".to_string(),
        body: vec![],
        closes: vec![],
        refs: vec![],
        repo_path: None,
        allow_default_branch: false,
        include_pre_staged: false,
        signoff: Some(false),
    }
}

fn printed(s: &str) -> GitReply {
    GitReply::Printed(s.to_string())
}

fn failed(s: &str) -> GitReply {
    GitReply::Failed(s.to_string())
}

fn anchors() -> GitReply {
    GitReply::Anchors { root: "/repo".to_string(), base: "/repo".to_string() }
}

fn run(input: GitCommitInput, replies: Vec<GitReply>) -> (CommitRun, Vec<String>) {
    let mut run = CommitRun::start(input).expect("fields in order");
    let mut commands = Vec::new();
    for reply in replies {
        commands.push(run.command().join(" "));
        run.advance(reply);
    }
    (run, commands)
}

#[test]
fn git_commit_rejects_paths_and_checkpoint() {
    let mut both = input(&["a.rs"]);
    both.description = "x".to_string();
    both.checkpoint = Some("stash@{0}".to_string());
    assert!(CommitRun::start(both).unwrap_err().contains("not both"));
}

#[test]
fn git_commit_rejects_bad_description_and_type_and_scope() {
    for (kind, scope, description) in [
        ("feat", None, "Trailing period."),
        ("feat", None, "Uppercase start"),
        ("feature", None, "ok"),
        ("feat", Some("Bad Scope"), "ok"),
    ] {
        let mut bad = input(&[]);
        bad.commit_type = kind.to_string();
        bad.scope = scope.map(str::to_string);
        bad.description = description.to_string();
        assert!(CommitRun::start(bad).unwrap_err().starts_with("git_commit: "));
    }
}

#[test]
fn git_commit_refuses_default_branch() {
    let replies = || {
        vec![printed("/repo"), printed("main"), failed("no remote"), printed("main")]
    };
    let (refused, _) = run(input(&["a.rs"]), replies());
    assert_eq!(refused.stage(), CommitStage::Refused);
    assert!(refused.told().contains("default branch"));

    let mut allowed = input(&["a.rs"]);
    allowed.allow_default_branch = true;
    let mut all = replies();
    all.extend(vec![
        anchors(),
        printed(""),
        printed(""),
        GitReply::Status(false),
        printed("a.rs\0"),
        printed(""),
        printed("0123456789abcdef"),
    ]);
    let (done, commands) = run(allowed, all);
    assert_eq!(done.stage(), CommitStage::Done);
    assert_eq!(done.told(), "0123456789abcdef");
    assert_eq!(done.report(), "Committed 0123456789 on main\nfeat: add a\n1 file(s)");
    assert!(commands.contains(&"add -- a.rs".to_string()));
    assert!(commands.contains(&"commit -m feat: add a\n".to_string()));
}

#[test]
fn git_commit_refuses_foreign_staged() {
    let replies = || {
        vec![
            printed("/repo"),
            printed("feature"),
            printed("origin/main"),
            anchors(),
            printed("foreign.rs\0"),
        ]
    };
    let mut ours = input(&["ours.rs"]);
    ours.description = "add ours".to_string();
    let (refused, _) = run(ours, replies());
    assert_eq!(refused.stage(), CommitStage::Refused);
    assert!(refused.told().contains("unrelated staged paths"));
    assert!(refused.told().contains("foreign.rs"));

    let mut declared = input(&["ours.rs"]);
    declared.description = "add ours and foreign".to_string();
    declared.include_pre_staged = true;
    let (on, _) = run(declared, replies());
    assert_eq!(on.stage(), CommitStage::AddPaths);
    assert_eq!(on.command(), vec!["add", "--", "ours.rs"]);
}

#[test]
fn git_commit_refuses_empty_stage() {
    let mut nothing = input(&[]);
    nothing.paths = None;
    nothing.description = "nothing here".to_string();
    let (refused, _) = run(
        nothing,
        vec![
            printed("/repo"),
            failed("detached"),
            printed("HEAD"),
            failed("no remote"),
            failed("unset"),
            anchors(),
            printed(""),
            GitReply::Status(true),
        ],
    );
    assert_eq!(refused.branch(), "HEAD");
    assert_eq!(refused.stage(), CommitStage::Refused);
    assert_eq!(refused.told(), "git_commit: nothing staged to commit");
}

#[test]
fn blank_paths_are_left_out_and_outside_paths_refused() {
    let head = || vec![printed("/repo"), printed("feature"), printed("origin/main"), anchors()];
    let mut replies = head();
    replies.push(printed(""));
    let (on, _) = run(input(&["a.rs", "", "  "]), replies);
    assert_eq!(on.command(), vec!["add", "--", "a.rs"]);
    let (refused, _) = run(input(&["../x"]), head());
    assert_eq!(refused.stage(), CommitStage::Refused);
    assert!(refused.told().contains("outside repository root"));
}

#[test]
fn git_checkpoint_then_commit_promotes() {
    let mut promote = input(&[]);
    promote.description = "promote checkpoint".to_string();
    promote.paths = None;
    promote.checkpoint = Some("stash@{0}".to_string());
    promote.signoff = None;
    let (on, commands) = run(
        promote,
        vec![
            printed("/repo"),
            printed("feature"),
            printed("origin/main"),
            printed(""),
            printed("new.rs\0base.txt\0"),
            printed("new.rs\0"),
            printed(""),
            GitReply::Status(false),
            GitReply::Trailer(Some("Co-Authored-By: M <m@x>".to_string())),
            printed("new.rs\0base.txt\0"),
        ],
    );
    assert!(commands.contains(&"checkout stash@{0} -- .".to_string()));
    assert!(commands.contains(&"stash show --name-only -z stash@{0}".to_string()));
    assert_eq!(on.stage(), CommitStage::Commit);
    assert_eq!(on.files(), 2);
    assert_eq!(on.message(), "feat: promote checkpoint\n\nCo-Authored-By: M <m@x>\n");
}

#[test]
fn a_command_that_fails_ends_the_run() {
    let (refused, _) = run(input(&[]), vec![failed("git rev-parse failed: no repo")]);
    assert_eq!(refused.stage(), CommitStage::Refused);
    assert_eq!(refused.told(), "git rev-parse failed: no repo");
}

#[test]
fn git_checkpoint_snapshots_without_clearing() {
    let mut run = CheckpointRun::start("wip: half done".to_string(), true).unwrap();
    let mut commands = Vec::new();
    for reply in [
        printed("/repo"),
        printed("main"),
        printed("wip.rs\0"),
        printed(""),
        printed("0123456789abcdef"),
        printed(""),
        failed("best effort"),
        printed(""),
    ] {
        commands.push(run.command().join(" "));
        run.advance(reply);
    }
    assert_eq!(run.stage(), CheckpointStage::Done);
    assert_eq!(
        commands,
        vec![
            "rev-parse --show-toplevel",
            "symbolic-ref --quiet --short HEAD",
            "ls-files --others --exclude-standard -z",
            "add -- wip.rs",
            "stash create wip: half done",
            "stash store -m wip: half done 0123456789abcdef",
            "reset -q -- wip.rs",
            "stash list -1 --format=%gd",
        ]
    );
    assert_eq!(run.told(), "stash@{0}");
    assert_eq!(run.report(), "Checkpoint stash@{0} (0123456789) on main\nwip: half done");
}

#[test]
fn git_checkpoint_empty_message_rejected() {
    assert!(CheckpointRun::start("  ".to_string(), true).unwrap_err().contains("non-empty"));
}

#[test]
fn git_checkpoint_nothing_to_snapshot_errors() {
    let mut run = CheckpointRun::start("empty".to_string(), false).unwrap();
    for reply in [printed("/repo"), printed("main"), printed("")] {
        run.advance(reply);
    }
    assert_eq!(run.stage(), CheckpointStage::Refused);
    assert!(run.told().contains("nothing to snapshot"));
}

#[test]
fn git_commit_assembles_structured_message() {
    let mut structured = input(&["a.rs"]);
    structured.scope = Some("tools".to_string());
    structured.description = "add structured commit tool".to_string();
    structured.body =
        vec!["structured fields in".to_string(), "message assembled server-side".to_string()];
    structured.closes = vec![18];
    structured.refs = vec![1];
    let (done, _) = run(
        structured,
        vec![
            printed("/repo"),
            printed("feature"),
            failed("no remote"),
            printed("main"),
            anchors(),
            printed(""),
            printed(""),
            GitReply::Status(false),
            printed("a.rs\0"),
            printed(""),
            printed("0123456789abcdef"),
        ],
    );
    assert_eq!(done.stage(), CommitStage::Done);
    assert_eq!(done.files(), 1);
    assert_eq!(
        done.message().trim_end(),
        "feat(tools): add structured commit tool\n\n- structured fields in\n\
         - message assembled server-side\n\nCloses #18\nRefs: #1"
    );
}

#[test]
fn git_commit_works_on_unborn_head() {
    let mut bootstrap = input(&["seed.rs"]);
    bootstrap.commit_type = "chore".to_string();
    bootstrap.description = "bootstrap".to_string();
    bootstrap.allow_default_branch = true;
    let (done, commands) = run(
        bootstrap,
        vec![
            printed("/repo"),
            printed("main"),
            failed("no remote"),
            printed("main"),
            anchors(),
            printed(""),
            printed(""),
            GitReply::Status(false),
            printed("seed.rs\0"),
            printed(""),
            printed("0123456789abcdef"),
        ],
    );
    assert_eq!(commands[1], "symbolic-ref --quiet --short HEAD");
    assert!(done.report().contains("on main"));
    assert!(done.report().contains("chore: bootstrap"));
}
