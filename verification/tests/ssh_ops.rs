use jcode_core::json::reader::{parts_of, tree_of};
use jcode_core::json::{written, Json};
use jcode_core::ssh_ops::codec::{
    decode_request, decode_response, encode_request, encode_response, request_from,
};
use jcode_core::ssh_ops::errands::{errand_of, execute, Errand, Finding, ReadReply, StoreReply};
use jcode_core::ssh_ops::git_summary::{remote_dir_git_summary, CommandReply, GitReplies};
use jcode_core::ssh_ops::paths::{
    browse_entries, list_path, list_path_dir, resolve_remote_path, DirRow, FoundEntry,
};
use jcode_core::timestamp::Timestamp;
use jcode_core::ssh_ops::{
    is_op_line, snoop_live_sessions, SshDirEntry, SshDirGitSummary, SshOp, SshOpContext, SshSessionEntry,
    SshOpOutcome, SshOpRequest, SshOpResponse, SshOpResult, SshSkillInfo, OP_LINE_PREFIX,
};

fn tree(value: &serde_json::Value) -> Json {
    match value {
        serde_json::Value::Null => Json::Null,
        serde_json::Value::Bool(b) => Json::Bool(*b),
        serde_json::Value::Number(n) => Json::Number(n.to_string()),
        serde_json::Value::String(s) => Json::Text(s.clone()),
        serde_json::Value::Array(items) => Json::Array(items.iter().map(tree).collect()),
        serde_json::Value::Object(members) => {
            Json::Object(members.iter().map(|(k, v)| (k.clone(), tree(v))).collect())
        }
    }
}

#[test]
fn documents_are_read_as_serde_json_would() {
    for document in [
        "null",
        " true ",
        "\tfalse",
        "0",
        "-12",
        "18446744073709551615",
        r#""a\n\u0041\ud83d\ude00\"\\/""#,
        "[]",
        "[ ]",
        "{}",
        " { } ",
        r#"[1,"a",[null,[]],{}]"#,
        r#"{"a":{"b":[1 , 2],"c":"}]"},"d":[{"e":"\""}],"f":null}"#,
        "{\n  \"a\" : [\r\n true ,\tfalse ]\n}",
        "{\"\u{e9}\":\"\u{1f600},\"}",
    ] {
        let value: serde_json::Value = serde_json::from_str(document).unwrap();
        let read = tree_of(document.trim_end(), 127).expect("tree");
        assert_eq!(format!("{read:?}"), format!("{:?}", tree(&value)), "{document}");
        assert_eq!(written(&read), value.to_string());
    }
    for text in ["", "nul", "{\"a\"}", "[1,]", "{,}", "[1 2]", "{\"a\":1,}", "{1:2}", "]"] {
        assert!(tree_of(text, 127).is_none(), "{text}");
    }
    assert!(tree_of("[[]]", 2).is_some());
    assert!(tree_of("[[]]", 1).is_none());
    let twice = parts_of(r#"{"a":1,"b": [2] ,"a":"3"}"#, true).expect("parts");
    let twice: Vec<(&str, &str)> =
        twice.iter().map(|(name, text)| (name.as_str(), text.trim())).collect();
    assert_eq!(twice, vec![("a", "1"), ("b", "[2]"), ("a", "\"3\"")]);
}

fn no_git() -> GitReplies {
    GitReplies { work_tree: None, branch: None, status: None, counts: None }
}

fn session_row(seconds: i64) -> SshSessionEntry {
    SshSessionEntry {
        id: "s".to_string(),
        parent_id: Some("p".to_string()),
        short_name: None,
        title: "t".to_string(),
        message_count: 3,
        user_message_count: 2,
        assistant_message_count: 1,
        created_at: Timestamp { seconds: 1, nanos: 2 },
        last_message_time: Timestamp { seconds, nanos: 0 },
        last_active_at: None,
        working_dir: Some("/w".to_string()),
        model: None,
        provider_key: None,
        is_canary: true,
        is_debug: false,
        saved: true,
        save_label: Some("l".to_string()),
        status: Json::Text("Active".to_string()),
        estimated_tokens: 9,
        first_user_prompt: None,
        live_attached: false,
        live_processing: true,
    }
}

#[test]
fn browse_dir_request_roundtrips() {
    let request = SshOpRequest {
        id: 7,
        op: SshOp::BrowseDir {
            path: "/srv/proj".to_string(),
        },
    };
    let line = encode_request(&request);
    assert_eq!(
        line,
        r#"{"__jcode_ssh_op":{"id":7,"op":"browse_dir","path":"/srv/proj"}}"#
    );
    let decoded = decode_request(&line).unwrap();
    assert!(matches!(
        decoded.op,
        SshOp::BrowseDir { ref path } if path == "/srv/proj"
    ));
}

#[test]
fn browse_dir_response_roundtrips() {
    let response = SshOpResponse {
        id: 7,
        outcome: SshOpOutcome::Result(SshOpResult::BrowseDir {
            path: "/srv/proj".to_string(),
            entries: vec![
                SshDirEntry {
                    name: "src".to_string(),
                    is_dir: true,
                    is_symlink: false,
                },
                SshDirEntry {
                    name: "lib".to_string(),
                    is_dir: true,
                    is_symlink: true,
                },
            ],
            git: Some(SshDirGitSummary {
                is_repo: true,
                branch: Some("main".to_string()),
                dirty: 3,
                ahead: 1,
                behind: 2,
            }),
        }),
    };
    let line = encode_response(&response).unwrap();
    let decoded = decode_response(&line).unwrap();
    assert_eq!(decoded.id, 7);
    let SshOpOutcome::Result(SshOpResult::BrowseDir { path, entries, git }) = decoded.outcome
    else {
        panic!("expected browse_dir result");
    };
    assert_eq!(path, "/srv/proj");
    assert_eq!(entries.len(), 2);
    assert!(entries[1].is_symlink);
    let git = git.expect("git summary");
    assert_eq!(git.branch.as_deref(), Some("main"));
    assert_eq!((git.dirty, git.ahead, git.behind), (3, 1, 2));
}

#[test]
fn browse_dir_missing_dir_is_an_error() {
    let ctx = SshOpContext::default();
    let response = execute(
        SshOpRequest { id: 1, op: SshOp::BrowseDir { path: "/definitely/not/here".to_string() } },
        &ctx,
        None,
        Finding::Browsed {
            entries: Err("No such file or directory".to_string()),
            git: no_git(),
        },
    );
    assert!(matches!(response.outcome, SshOpOutcome::Error(_)));
}

#[test]
fn browse_dir_lists_what_was_found() {
    let ctx = SshOpContext::default();
    let found = |name: &str, is_dir: bool| FoundEntry {
        name: name.to_string(),
        is_symlink: Some(false),
        is_dir: Some(is_dir),
        target_is_dir: None,
    };
    let response = execute(
        SshOpRequest { id: 9, op: SshOp::BrowseDir { path: "/tmp/x".to_string() } },
        &ctx,
        None,
        Finding::Browsed {
            entries: Ok(vec![found("a.txt", false), found("zdir", true)]),
            git: no_git(),
        },
    );
    assert_eq!(response.id, 9);
    let SshOpOutcome::Result(SshOpResult::BrowseDir { path, entries, git }) = response.outcome
    else {
        panic!("expected browse_dir result");
    };
    assert_eq!(path, "/tmp/x");
    let names: Vec<&str> = entries.iter().map(|e| e.name.as_str()).collect();
    assert_eq!(names, ["zdir", "a.txt"]);
    assert!(git.is_none());
}

fn all_ops() -> Vec<SshOp> {
    let s = || "s \"1\"\n".to_string();
    vec![
        SshOp::ListSessions,
        SshOp::SessionPreview { session_id: s() },
        SshOp::SetSessionSaved { session_id: s(), saved: true, save_label: Some("l".to_string()) },
        SshOp::SetSessionSaved { session_id: s(), saved: false, save_label: None },
        SshOp::GetTodos { session_id: s() },
        SshOp::ReadConfig,
        SshOp::WriteConfig { content: "a = 1\n".to_string() },
        SshOp::ReadFile { path: "~/x".to_string() },
        SshOp::WriteFile { path: "x".to_string(), content: "\u{1}\t\\".to_string() },
        SshOp::ListPath { prefix: "/e".to_string() },
        SshOp::BrowseDir { path: "/".to_string() },
        SshOp::ListSkills,
    ]
}

#[test]
fn every_request_is_an_op_line_and_reads_back() {
    for (id, op) in all_ops().into_iter().enumerate() {
        let request = SshOpRequest { id: id as u64, op };
        let line = encode_request(&request);
        assert!(is_op_line(line.as_bytes()));
        assert!(!line.contains('\n'));
        let back = decode_request(&line).expect("request");
        assert_eq!(format!("{back:?}"), format!("{request:?}"));
    }
}

#[test]
fn lines_are_written_as_serde_json_would() {
    let line = encode_request(&SshOpRequest {
        id: u64::MAX,
        op: SshOp::WriteFile { path: "p".to_string(), content: "\u{1}\u{8}\u{c}\r\"\\é".to_string() },
    });
    assert_eq!(
        line,
        r#"{"__jcode_ssh_op":{"id":18446744073709551615,"op":"write_file","path":"p","content":"\u0001\b\f\r\"\\é"}}"#
    );
    for c in (0u32..0x250).filter_map(char::from_u32) {
        let text = c.to_string();
        assert_eq!(written(&Json::Text(text.clone())), serde_json::to_string(&text).unwrap());
    }
}

#[test]
fn malformed_requests_are_refused() {
    for line in [
        r#"{"other":{}}"#,
        r#"{"__jcode_ssh_op":{"op":"list_sessions"}}"#,
        r#"{"__jcode_ssh_op":{"id":-1,"op":"list_sessions"}}"#,
        r#"{"__jcode_ssh_op":{"id":1}}"#,
        r#"{"__jcode_ssh_op":{"id":1,"op":"dance"}}"#,
        r#"{"__jcode_ssh_op":{"id":1,"op":"read_file"}}"#,
        r#"{"__jcode_ssh_op":{"id":1,"op":"set_session_saved","session_id":"s","saved":"yes"}}"#,
        r#"{"__jcode_ssh_op":{"id":1,"op":"set_session_saved","session_id":"s","saved":true,"save_label":5}}"#,
        r#"{"__jcode_ssh_op":{"id":1,"op":"list_sessions"}"#,
        "",
    ] {
        assert!(decode_request(line).is_none(), "{line}");
    }
    assert!(decode_request(
        r#"{"__jcode_ssh_op":{"id":1,"op":"set_session_saved","session_id":"s","saved":true,"save_label":null,"more":1}}"#
    )
    .is_some());
}

#[test]
fn a_request_is_made_of_its_members() {
    let member = |name: &str, value: Json| (name.to_string(), value);
    let text = |s: &str| Json::Text(s.to_string());
    let id = || member("id", Json::Number("3".to_string()));
    let request = |members: Vec<(String, Json)>| request_from(&Json::Object(members));
    let saved = request(vec![
        member("saved", Json::Bool(true)),
        member("save_label", text("l")),
        member("session_id", text("s")),
        id(),
        member("op", text("set_session_saved")),
    ])
    .expect("request");
    assert_eq!(saved.id, 3);
    assert!(matches!(
        &saved.op,
        SshOp::SetSessionSaved { session_id, saved: true, save_label: Some(label) }
            if session_id == "s" && label == "l"
    ));
    assert!(request(vec![member("op", text("list_skills"))]).is_none());
    assert!(request(vec![id(), member("op", text("write_file")), member("path", text("/p"))])
        .is_none());
    assert!(request(vec![id(), member("op", text("read_file")), member("path", text("/p"))])
        .is_some());
    assert!(request_from(&Json::Null).is_none());
}

fn carried(payload: &str) -> String {
    format!(r#"{{"__jcode_ssh_op":{payload}}}"#)
}

#[test]
fn members_that_are_read_stand_once() {
    for payload in [
        r#"{"id":1,"id":1,"op":"list_skills"}"#,
        r#"{"id":1,"op":"list_skills","op":"list_skills"}"#,
        r#"{"id":1,"op":"read_file","path":"a","path":"a"}"#,
        r#"{"id":1,"op":"read_file","path":"a","p\u0061th":"b"}"#,
        r#"{"id":1,"op":"set_session_saved","session_id":"s","saved":true,"save_label":null,"save_label":"l"}"#,
    ] {
        assert!(decode_request(&carried(payload)).is_none(), "{payload}");
    }
    // What an operation does not read may stand twice.
    for payload in [
        r#"{"id":1,"op":"list_skills","path":"a","path":"b"}"#,
        r#"{"id":1,"x":1,"x":[2],"op":"read_file","path":"a"}"#,
    ] {
        assert!(decode_request(&carried(payload)).is_some(), "{payload}");
    }
    let twice = r#"{"__jcode_ssh_op":{"id":1,"op":"list_skills"},"__jcode_ssh_op":{}}"#;
    assert!(decode_request(twice).is_none());
    for payload in [
        r#"{"id":1,"id":2,"error":"e"}"#,
        r#"{"id":1,"result":{"read_file":{"path":"a","path":"a","content":"c"}}}"#,
        r#"{"id":1,"result":{"list_skills":[{"name":"n","name":"n","description":"d","path":"p"}]}}"#,
        r#"{"id":1,"result":{"write_file":null,"write_config":null}}"#,
    ] {
        assert!(decode_response(&carried(payload)).is_none(), "{payload}");
    }
}

#[test]
fn the_first_member_tells_how_it_went() {
    let told = |payload: &str| decode_response(&carried(payload)).expect("response").outcome;
    assert!(matches!(
        told(r#"{"id":1,"result":"write_file","error":"e","error":7}"#),
        SshOpOutcome::Result(SshOpResult::WriteFile)
    ));
    assert!(matches!(
        told(r#"{"error":"e","id":1,"result":7}"#),
        SshOpOutcome::Error(e) if e == "e"
    ));
    assert!(matches!(
        told(r#"{"id":1,"result":{"write_config":{}}}"#),
        SshOpOutcome::Result(SshOpResult::WriteConfig)
    ));
}

#[test]
fn records_may_be_arrays_of_their_fields() {
    let line = carried(
        r#"{"id":1,"result":{"browse_dir":["/p",[["src",true,false]],[true,null,1,2,3]]}}"#,
    );
    let SshOpOutcome::Result(SshOpResult::BrowseDir { path, entries, git }) =
        decode_response(&line).expect("response").outcome
    else {
        panic!("expected browse_dir result");
    };
    assert_eq!(path, "/p");
    assert_eq!(entries[0].name, "src");
    assert!(entries[0].is_dir && !entries[0].is_symlink);
    let git = git.expect("git summary");
    assert_eq!((git.branch, git.dirty, git.ahead, git.behind), (None, 1, 2, 3));
    assert!(decode_response(&carried(r#"{"id":1,"result":{"read_file":["p"]}}"#)).is_none());
    let row = r#"["s",null,null,"t",1,1,0,"1970-01-01T00:00:00Z","1970-01-01T00:00:05Z"]"#;
    let rows = carried(&format!(r#"{{"id":1,"result":{{"list_sessions":[{row}]}}}}"#));
    let SshOpOutcome::Result(SshOpResult::ListSessions(rows)) =
        decode_response(&rows).expect("response").outcome
    else {
        panic!("expected rows");
    };
    assert_eq!(rows[0].title, "t");
    assert_eq!(rows[0].last_message_time, Timestamp { seconds: 5, nanos: 0 });
    let bare = decode_request(r#" [ {"op":"list_skills" , "id":4} ] "#).expect("request");
    assert_eq!(bare.id, 4);
    assert!(decode_request(r#"[{"op":"list_skills","id":4},1]"#).is_none());
}

#[test]
fn operations_may_be_told_by_their_number() {
    let op = |n: &str| decode_request(&carried(&format!(r#"{{"id":1,"op":{n},"path":"p"}}"#)));
    assert!(matches!(op("0").expect("request").op, SshOp::ListSessions));
    assert!(matches!(op("6").expect("request").op, SshOp::ReadFile { path } if path == "p"));
    assert!(matches!(op("10").expect("request").op, SshOp::ListSkills));
    for n in ["11", "-1", "1.0", "true", "null"] {
        assert!(op(n).is_none(), "{n}");
    }
}

#[test]
fn what_stands_beside_is_skipped_however_deep() {
    let deep = |n: usize| format!("{}{}", "[".repeat(n), "]".repeat(n));
    let beside = |n: usize| {
        format!(r#"{{"x":{},"__jcode_ssh_op":{{"id":1,"op":"list_skills"}}}}"#, deep(n))
    };
    assert!(decode_request(&beside(5)).is_some());
    assert!(decode_request(&beside(1000)).is_some());
    let inside = |n: usize| carried(&format!(r#"{{"id":1,"op":"list_skills","x":{}}}"#, deep(n)));
    assert!(decode_request(&inside(125)).is_some());
    assert!(decode_request(&inside(126)).is_none());
    assert!(decode_request(&carried(r#"{"id":1,"op":"list_skills","x":1e999}"#)).is_none());
    for line in [
        r#"{"__jcode_ssh_op":{"id":1,"op":"list_skills"},}"#,
        r#"{"__jcode_ssh_op":{"id":1,"op":"list_skills"}} x"#,
        r#"{"__jcode_ssh_op" {"id":1,"op":"list_skills"}}"#,
        r#"{"__jcode_ssh_op":{"id":1 "op":"list_skills"}}"#,
        r#"{"__jcode_ssh_op":{"id":01,"op":"list_skills"}}"#,
    ] {
        assert!(decode_request(line).is_none(), "{line}");
    }
}

#[test]
fn content_with_line_feeds_stays_on_one_line() {
    let content = "a\nb\r\n\u{2028}\"c\\".to_string();
    let request = SshOpRequest { id: 9, op: SshOp::WriteConfig { content: content.clone() } };
    let line = encode_request(&request);
    assert!(!line.contains('\n'));
    let back = decode_request(&line).expect("request");
    assert!(matches!(back.op, SshOp::WriteConfig { content: ref c } if *c == content));
}

#[test]
fn every_response_reads_back() {
    let rows = || vec![Json::Object(vec![("id".to_string(), Json::Text("s".to_string()))])];
    let results = vec![
        SshOpResult::ListSessions(vec![session_row(5)]),
        SshOpResult::SessionPreview { session_id: "s".to_string(), messages: rows() },
        SshOpResult::SetSessionSaved,
        SshOpResult::GetTodos { todos: rows(), goals: vec![], plan: None },
        SshOpResult::GetTodos { todos: vec![], goals: rows(), plan: Some(Json::Bool(true)) },
        SshOpResult::ReadConfig { path: "p".to_string(), content: "c".to_string() },
        SshOpResult::WriteConfig,
        SshOpResult::ReadFile { path: "p".to_string(), content: String::new() },
        SshOpResult::WriteFile,
        SshOpResult::ListPath(vec!["a".to_string(), "b/".to_string()]),
        SshOpResult::BrowseDir { path: "/".to_string(), entries: vec![], git: None },
        SshOpResult::ListSkills(vec![SshSkillInfo {
            name: "n".to_string(),
            description: "d".to_string(),
            path: "p".to_string(),
        }]),
    ];
    let timeless = SshOpResult::ListSessions(vec![session_row(i64::MAX)]);
    let response = SshOpResponse { id: 3, outcome: SshOpOutcome::Result(timeless) };
    assert!(encode_response(&response).is_none());
    for result in results {
        let response = SshOpResponse { id: 3, outcome: SshOpOutcome::Result(result) };
        let line = encode_response(&response).unwrap();
        assert!(is_op_line(line.as_bytes()));
        let back = decode_response(&line).expect("response");
        assert_eq!(format!("{back:?}"), format!("{response:?}"));
    }
    let failed = SshOpResponse { id: 4, outcome: SshOpOutcome::Error("no".to_string()) };
    assert_eq!(encode_response(&failed).unwrap(), r#"{"__jcode_ssh_op":{"id":4,"error":"no"}}"#);
    assert_eq!(
        encode_response(&SshOpResponse {
            id: 5,
            outcome: SshOpOutcome::Result(SshOpResult::WriteFile)
        })
        .unwrap(),
        r#"{"__jcode_ssh_op":{"id":5,"result":"write_file"}}"#
    );
    assert!(decode_response(r#"{"__jcode_ssh_op":{"id":5,"result":"read_file"}}"#).is_none());
    assert!(decode_response(r#"{"__jcode_ssh_op":{"id":5}}"#).is_none());
}

#[test]
fn only_marked_lines_are_ops() {
    assert!(is_op_line(b" \t\r\n\x0c{\"__jcode_ssh_op\":{}}"));
    assert!(is_op_line(OP_LINE_PREFIX.as_bytes()));
    assert!(!is_op_line(b"{\"type\":\"history\"}"));
    assert!(!is_op_line(b"{ \"__jcode_ssh_op\":{}}"));
    assert!(!is_op_line(b"\x0b{\"__jcode_ssh_op\":{}}"));
    assert!(!is_op_line(b""));
}

#[test]
fn live_sessions_are_learned_from_the_stream() {
    let mut ctx = SshOpContext::default();
    snoop_live_sessions(r#"{"type":"history","all_sessions":["a","b",7,"a"]}"#, &mut ctx);
    assert_eq!(ctx.live_sessions, vec!["a", "b"]);
    snoop_live_sessions(r#"{"type":"other","sessions":["c"]}"#, &mut ctx);
    snoop_live_sessions(r#"not json but "all_sessions""#, &mut ctx);
    snoop_live_sessions(r#"{"all_sessions":"x"}"#, &mut ctx);
    assert_eq!(ctx.live_sessions, vec!["a", "b"]);
    snoop_live_sessions(r#"{"all_sessions":[]}"#, &mut ctx);
    assert!(ctx.live_sessions.is_empty());
}

#[test]
fn paths_are_resolved() {
    assert_eq!(resolve_remote_path("~", "/w", Some("/home/u")), "/home/u");
    assert_eq!(resolve_remote_path("~", "/w", None), "~");
    assert_eq!(resolve_remote_path("~/x", "/w", Some("/home/u")), "/home/u/x");
    assert_eq!(resolve_remote_path("~/x", "/w", None), "~/x");
    assert_eq!(resolve_remote_path("x/y", "/w", None), "/w/x/y");
    assert_eq!(resolve_remote_path("x", "/w/", None), "/w/x");
    assert_eq!(resolve_remote_path("/x", "/w", None), "/x");
    assert_eq!(resolve_remote_path("x", "", None), "x");
    let join = |base: &str, path: &str| {
        std::path::Path::new(base).join(path).display().to_string()
    };
    for (base, path) in [("/w", "a"), ("/w/", "a"), ("", "a"), ("/w", ""), ("/w", "/a"), ("w", ".")] {
        assert_eq!(resolve_remote_path(path, base, None), join(base, path));
    }
}

#[test]
fn prefixes_are_completed_in_the_directory_before_the_last_slash() {
    assert_eq!(list_path_dir("ab", "/w", None), "/w");
    assert_eq!(list_path_dir("src/ma", "/w", None), "/w/src");
    assert_eq!(list_path_dir("~/x", "/w", Some("/home/u")), "/home/u");
    assert_eq!(list_path_dir("/ab", "/w", None), "/");
    assert_eq!(list_path_dir("/etc//p", "/w", None), "/etc");
    let row = |name: &str, is_dir: bool| DirRow { name: name.to_string(), is_dir };
    let rows = vec![row("main.rs", false), row("macros", true), row(".mx", false), row("x", true)];
    assert_eq!(list_path("src/m", &rows), vec!["src/macros/", "src/main.rs"]);
    assert_eq!(list_path("src/.", &rows), vec!["src/.mx"]);
    assert_eq!(list_path("", &rows), vec!["macros/", "main.rs", "x/"]);
    let many: Vec<DirRow> = (0..400).map(|n| row(&format!("f{n:03}"), false)).collect();
    let listed = list_path("f", &many);
    assert_eq!(listed.len(), 300);
    assert_eq!(listed[299], "f299");
}

#[test]
fn links_count_as_what_they_lead_to() {
    let entries = browse_entries(&vec![
        FoundEntry {
            name: "b".to_string(),
            is_symlink: Some(true),
            is_dir: Some(false),
            target_is_dir: Some(true),
        },
        FoundEntry {
            name: "a".to_string(),
            is_symlink: Some(true),
            is_dir: Some(false),
            target_is_dir: None,
        },
        FoundEntry { name: "c".to_string(), is_symlink: None, is_dir: None, target_is_dir: None },
    ]);
    let told: Vec<(&str, bool, bool)> =
        entries.iter().map(|e| (e.name.as_str(), e.is_dir, e.is_symlink)).collect();
    assert_eq!(told, vec![("b", true, true), ("a", false, true), ("c", false, false)]);
}

#[test]
fn git_summaries() {
    let ok = |s: &str| Some(CommandReply { success: true, stdout: s.as_bytes().to_vec() });
    let bad = || Some(CommandReply { success: false, stdout: vec![] });
    assert!(remote_dir_git_summary(&no_git()).is_none());
    let full = remote_dir_git_summary(&GitReplies {
        work_tree: ok("true\n"),
        branch: ok("main\n"),
        status: ok(" M a.rs\n?? b\n\nx\n"),
        counts: ok("3\t1\n"),
    })
    .unwrap();
    assert_eq!(full.branch.as_deref(), Some("main"));
    assert_eq!((full.dirty, full.ahead, full.behind), (2, 3, 1));
    let detached = remote_dir_git_summary(&GitReplies {
        work_tree: ok("true"),
        branch: ok("\n"),
        status: bad(),
        counts: ok("x\t"),
    })
    .unwrap();
    assert_eq!(detached.branch.as_deref(), Some("HEAD"));
    assert_eq!((detached.dirty, detached.ahead, detached.behind), (0, 0, 0));
    for outside in [bad(), ok("false\n")] {
        assert!(remote_dir_git_summary(&GitReplies {
            work_tree: outside,
            branch: ok("main\n"),
            status: None,
            counts: None
        })
        .is_none());
    }
}

fn answer(op: SshOp, finding: Finding) -> SshOpOutcome {
    let ctx = SshOpContext { working_dir: "/w".to_string(), live_sessions: vec![] };
    execute(SshOpRequest { id: 1, op }, &ctx, Some("/home/u"), finding).outcome
}

fn error_of(outcome: SshOpOutcome) -> String {
    match outcome {
        SshOpOutcome::Error(message) => message,
        other => panic!("{other:?}"),
    }
}

#[test]
fn failures_are_told() {
    let no = || "no".to_string();
    let path = || "x".to_string();
    assert_eq!(
        error_of(answer(SshOp::ReadFile { path: path() }, Finding::Read(ReadReply::Failed(no())))),
        "Failed to read /w/x: no"
    );
    assert_eq!(
        error_of(answer(
            SshOp::WriteFile { path: path(), content: no() },
            Finding::Written(Err(no()))
        )),
        "Failed to write /w/x: no"
    );
    assert_eq!(
        error_of(answer(SshOp::ListPath { prefix: "d/e".to_string() }, Finding::Listed(Err(no())))),
        "Failed to list /w/d: no"
    );
    assert_eq!(
        error_of(answer(
            SshOp::ReadConfig,
            Finding::Config { path: None, reply: ReadReply::Missing }
        )),
        "No config path on the remote host"
    );
    assert_eq!(
        error_of(answer(
            SshOp::ReadConfig,
            Finding::Config { path: Some(path()), reply: ReadReply::Failed(no()) }
        )),
        "Failed to read config file: no"
    );
    assert_eq!(
        error_of(answer(
            SshOp::WriteConfig { content: no() },
            Finding::ConfigStored(StoreReply::Invalid(no()))
        )),
        "Failed to write remote config: Invalid config TOML: no"
    );
    assert_eq!(
        error_of(answer(
            SshOp::WriteConfig { content: no() },
            Finding::ConfigStored(StoreReply::Failed(no()))
        )),
        "Failed to write remote config: no"
    );
    assert_eq!(
        error_of(answer(
            SshOp::SetSessionSaved { session_id: no(), saved: true, save_label: None },
            Finding::Saved(Err(no()))
        )),
        "set_session_saved failed: no"
    );
}

#[test]
fn a_missing_file_is_no_failure() {
    let outcome = answer(
        SshOp::ReadFile { path: "~/p".to_string() },
        Finding::Read(ReadReply::Missing),
    );
    let SshOpOutcome::Result(SshOpResult::ReadFile { path, content }) = outcome else {
        panic!("expected content");
    };
    assert_eq!((path.as_str(), content.as_str()), ("/home/u/p", ""));
}

#[test]
fn errands_name_resolved_paths() {
    let ctx = SshOpContext { working_dir: "/w".to_string(), live_sessions: vec![] };
    assert!(matches!(
        errand_of(&SshOp::ReadFile { path: "a".to_string() }, &ctx, None),
        Errand::Read { path } if path == "/w/a"
    ));
    assert!(matches!(
        errand_of(&SshOp::ListPath { prefix: "a".to_string() }, &ctx, None),
        Errand::List { dir } if dir == "/w"
    ));
    assert!(matches!(
        errand_of(&SshOp::ListSkills, &ctx, None),
        Errand::Skills { dir } if dir == "/w"
    ));
}
