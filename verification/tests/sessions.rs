use jcode_core::json::{written, Json};
use jcode_core::session_listing::{
    build_remote_preview, collect_session_list_entries, is_session_snapshot, saved_failure,
    session_list_entry, session_of_file, MessageFacts, SessionFacts,
};
use jcode_core::ssh_ops::rows::{
    session_row_from, session_row_json, session_rows_from, session_rows_json,
};
use jcode_core::timestamp::Timestamp;

fn message(is_user: bool, preview: &str, chars: usize) -> MessageFacts {
    MessageFacts {
        is_user,
        preview: preview.to_string(),
        chars,
        time: Timestamp { seconds: 100, nanos: 0 },
    }
}

/// A session whose last message was sent at `seconds`.
fn session(id: &str, seconds: i64, mut visible: Vec<MessageFacts>) -> SessionFacts {
    if let Some(last) = visible.last_mut() {
        last.time = Timestamp { seconds, nanos: 0 };
    }
    SessionFacts {
        id: id.to_string(),
        parent_id: None,
        short_name: None,
        name_in_id: None,
        custom_title: None,
        todo_title: None,
        title: None,
        created_at: Timestamp { seconds: 0, nanos: 0 },
        last_active_at: None,
        working_dir: None,
        model: None,
        provider_key: None,
        is_canary: false,
        is_debug: false,
        saved: false,
        save_label: None,
        status: Json::Text("active".to_string()),
        visible,
    }
}

#[test]
fn snapshots_are_told_by_their_names() {
    assert!(is_session_snapshot("session_1.json"));
    assert!(!is_session_snapshot(".json"));
    assert!(!is_session_snapshot("session_1.json.bak"));
    assert!(!is_session_snapshot("session_1.json.pre-wipe-2.json"));
    assert_eq!(session_of_file("session_1.json").as_deref(), Some("session_1"));
    assert_eq!(session_of_file("imported_1.json"), None);
    assert_eq!(session_of_file("notes.txt"), None);
}

#[test]
fn rows_count_messages_and_tokens() {
    let long = format!("  {}  ", "x".repeat(300));
    let s = session(
        "s1",
        5,
        vec![
            message(false, "hi", 2),
            message(true, &long, 304),
            message(true, "second", 7),
        ],
    );
    let row = session_list_entry(&s, &vec!["s1".to_string()], &vec![]).unwrap();
    assert_eq!(row.message_count, 3);
    assert_eq!(row.user_message_count, 2);
    assert_eq!(row.assistant_message_count, 1);
    assert_eq!(row.estimated_tokens, 78);
    assert_eq!(row.first_user_prompt.as_deref(), Some("x".repeat(200).as_str()));
    assert_eq!(row.last_message_time, Timestamp { seconds: 5, nanos: 0 });
    assert!(row.live_attached);
    assert!(!row.live_processing);
    assert!(session_list_entry(&session("s2", 5, vec![]), &vec![], &vec![]).is_none());
}

#[test]
fn titles_go_by_precedence() {
    let one = || vec![message(true, "p", 1)];
    let mut s = session("session_fox_1", 5, one());
    let title = |s: &SessionFacts| session_list_entry(s, &vec![], &vec![]).unwrap().title;
    assert_eq!(title(&s), "session_fox_1");
    s.name_in_id = Some("fox".to_string());
    assert_eq!(title(&s), "fox");
    s.short_name = Some("own".to_string());
    assert_eq!(title(&s), "own");
    s.title = Some("generated".to_string());
    assert_eq!(title(&s), "generated");
    s.todo_title = Some(format!(" {} ", "t".repeat(100)));
    assert_eq!(title(&s), "t".repeat(72));
    s.custom_title = Some("mine".to_string());
    assert_eq!(title(&s), "mine");
}

#[test]
fn the_latest_session_comes_first() {
    let one = || vec![message(true, "p", 1)];
    let rows = collect_session_list_entries(
        &vec![
            session("old", 1, one()),
            session("new", 9, one()),
            session("empty", 20, vec![]),
            session("mid", 5, one()),
            session("mid2", 5, one()),
        ],
        &vec![],
        &vec![],
    );
    let ids: Vec<&str> = rows.iter().map(|r| r.id.as_str()).collect();
    assert_eq!(ids, vec!["new", "mid", "mid2", "old"]);
}

#[test]
fn a_preview_is_the_end_of_the_conversation() {
    let all: Vec<u32> = (0..50).collect();
    assert_eq!(build_remote_preview(all), (30..50).collect::<Vec<u32>>());
    assert_eq!(build_remote_preview(vec![1, 2]), vec![1, 2]);
    assert_eq!(saved_failure("x"), "set_session_saved failed: x");
}

#[test]
fn rows_are_written_and_read_back() {
    let mut s = session("s1", 1_700_000_000, vec![message(true, "hello", 31)]);
    s.last_active_at = Some(Timestamp { seconds: 1, nanos: 500_000_000 });
    s.model = Some("m".to_string());
    let row = session_list_entry(&s, &vec!["s1".to_string()], &vec![]).unwrap();
    let json = session_row_json(&row).expect("plain times");
    assert_eq!(
        written(&json),
        [
            r#"{"id":"s1","short_name":"s1","title":"s1","message_count":1,"#,
            r#""user_message_count":1,"assistant_message_count":0,"#,
            r#""created_at":"1970-01-01T00:00:00Z","#,
            r#""last_message_time":"2023-11-14T22:13:20Z","#,
            r#""last_active_at":"1970-01-01T00:00:01.500Z","model":"m","#,
            r#""is_canary":false,"is_debug":false,"saved":false,"status":"active","#,
            r#""estimated_tokens":7,"first_user_prompt":"hello","#,
            r#""live_attached":true,"live_processing":false}"#,
        ]
        .concat()
    );
    let back = session_row_from(&json).expect("a row");
    assert_eq!(back.id, "s1");
    assert_eq!(back.parent_id, None);
    assert_eq!(back.last_active_at, s.last_active_at);
    assert_eq!(back.last_message_time, Timestamp { seconds: 1_700_000_000, nanos: 0 });
    assert_eq!(back.estimated_tokens, 7);
    assert!(back.live_attached && !back.live_processing);
    match session_rows_json(&vec![row]).expect("rows") {
        Json::Array(list) => assert_eq!(session_rows_from(&list).expect("rows").len(), 1),
        other => panic!("{other:?}"),
    }
    assert!(session_rows_from(&vec![Json::Null]).is_none());
}

#[test]
fn what_a_row_leaves_out_has_a_default() {
    let text = |s: &str| Json::Text(s.to_string());
    let number = |s: &str| Json::Number(s.to_string());
    let members = |count: Json| {
        Json::Object(
            vec![
                ("id", text("s")),
                ("title", text("t")),
                ("message_count", count),
                ("user_message_count", number("1")),
                ("assistant_message_count", number("0")),
                ("created_at", text("2023-11-14T22:13:20Z")),
                ("last_message_time", text("2023-11-14T23:13:20+01:00")),
            ]
            .into_iter()
            .map(|(name, value)| (name.to_string(), value))
            .collect(),
        )
    };
    let row = session_row_from(&members(number("1"))).expect("a row");
    assert_eq!(row.created_at, row.last_message_time);
    assert_eq!(row.last_active_at, None);
    assert_eq!(row.estimated_tokens, 0);
    assert!(!row.saved);
    assert_eq!(written(&row.status), "null");
    assert!(session_row_from(&members(number("-1"))).is_none());
    assert!(session_row_from(&members(text("1"))).is_none());
}

#[test]
fn a_row_without_a_text_for_its_time_is_not_written() {
    let mut s = session("s1", 5, vec![message(true, "hello", 5)]);
    s.created_at = Timestamp { seconds: i64::MAX, nanos: 0 };
    let row = session_list_entry(&s, &vec![], &vec![]).unwrap();
    assert!(session_row_json(&row).is_none());
}
