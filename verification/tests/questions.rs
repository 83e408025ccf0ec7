use jcode_core::ask_user_question::record::{record_from, record_json};
use jcode_core::ask_user_question::{
    cancelled_result, orphaned_answer, pending_record, prepare_questions, render_outcome,
    PendingAskUserQuestion, PendingQuestions,
};
use jcode_core::json::{written, Json};
use jcode_core::questions::wire::{question_from, question_json, result_from, result_text};
use jcode_core::questions::{
    collect_answers, format_answers, normalize_questions, question_prompt, read_answer,
    strip_recommended_suffix, validate_questions, AskUserQuestion, AskUserQuestionAnswer,
    AskUserQuestionOption, AskUserQuestionResult, AskUserQuestionSelection, MAX_HEADER_LENGTH,
};
use jcode_core::timestamp::Timestamp;

fn option(label: &str) -> AskUserQuestionOption {
    AskUserQuestionOption {
        label: label.to_string(),
        description: None,
        preview: None,
        recommended: None,
    }
}

fn question(header: Option<&str>, options: Vec<AskUserQuestionOption>) -> AskUserQuestion {
    AskUserQuestion {
        question: "pick one".to_string(),
        header: header.map(str::to_string),
        options,
        multi_select: None,
    }
}

fn tree(value: &serde_json::Value) -> Json {
    match value {
        serde_json::Value::Null => Json::Null,
        serde_json::Value::Bool(b) => Json::Bool(*b),
        serde_json::Value::Number(n) => Json::Number(n.to_string()),
        serde_json::Value::String(s) => Json::Text(s.clone()),
        serde_json::Value::Array(items) => Json::Array(items.iter().map(tree).collect()),
        serde_json::Value::Object(members) => {
            Json::Object(members.iter().map(|(k, v)| (k.clone(), tree(v))).collect())
        }
    }
}

fn parse(text: &str) -> Json {
    tree(&serde_json::from_str(text).unwrap())
}

#[test]
fn normalize_fills_default_headers() {
    let mut questions = vec![
        question(None, vec![option("a")]),
        question(Some("Auth"), vec![option("b")]),
        question(None, vec![option("c")]),
    ];
    normalize_questions(&mut questions);
    assert_eq!(questions[0].header.as_deref(), Some("Q1"));
    assert_eq!(questions[1].header.as_deref(), Some("Auth"));
    assert_eq!(questions[2].header.as_deref(), Some("Q3"));
}

#[test]
fn normalize_moves_recommended_option_first() {
    let mut questions = vec![question(
        None,
        vec![
            option("first"),
            AskUserQuestionOption {
                recommended: Some(true),
                ..option("better")
            },
            option("third"),
        ],
    )];
    normalize_questions(&mut questions);
    let labels: Vec<&str> = questions[0]
        .options
        .iter()
        .map(|option| option.label.as_str())
        .collect();
    assert_eq!(labels, vec!["better", "first", "third"]);
    assert_eq!(questions[0].options[0].recommended, Some(true));
    assert_eq!(questions[0].options[1].recommended, None);
}

#[test]
fn normalize_strips_authored_recommended_suffix() {
    let mut questions = vec![question(
        None,
        vec![option("alpha (Recommended)"), option("beta")],
    )];
    normalize_questions(&mut questions);
    assert_eq!(questions[0].options[0].label, "alpha");
}

#[test]
fn validate_rejects_out_of_range_shapes() {
    assert!(!validate_questions(&[]).is_empty());
    assert!(!validate_questions(&[question(None, vec![])]).is_empty());
    assert!(
        !validate_questions(&[question(
            None,
            vec![
                option("a"),
                option("b"),
                option("c"),
                option("d"),
                option("e")
            ]
        )])
        .is_empty()
    );
    assert!(validate_questions(&[question(None, vec![option("a")])]).is_empty());
}

#[test]
fn validate_rejects_duplicate_recommended_and_long_headers() {
    let mut dup = question(
        None,
        vec![
            AskUserQuestionOption {
                recommended: Some(true),
                ..option("a")
            },
            AskUserQuestionOption {
                recommended: Some(true),
                ..option("b")
            },
        ],
    );
    // normalize would collapse flags, so validate the raw authored shape.
    dup.header = Some("x".repeat(MAX_HEADER_LENGTH + 1));
    let errors = validate_questions(&[dup]);
    assert!(errors.iter().any(|e| e.contains("recommended")));
    assert!(errors.iter().any(|e| e.contains("header")));
}

#[test]
fn format_answers_renders_all_kinds() {
    let mut questions = vec![
        question(None, vec![option("a"), option("b")]),
        question(Some("Multi"), vec![option("x"), option("y"), option("z")]),
        question(None, vec![option("only")]),
    ];
    normalize_questions(&mut questions);
    let answers = vec![
        AskUserQuestionAnswer::Option {
            question_index: 0,
            index: 1,
            label: "b".to_string(),
            notes: Some("picked b".to_string()),
        },
        AskUserQuestionAnswer::Multi {
            question_index: 1,
            selected: vec![
                AskUserQuestionSelection {
                    index: 0,
                    label: "x".to_string(),
                },
                AskUserQuestionSelection {
                    index: 2,
                    label: "z".to_string(),
                },
            ],
            notes: None,
        },
        AskUserQuestionAnswer::Custom {
            question_index: 2,
            text: "my own words".to_string(),
            notes: None,
        },
    ];
    let rendered = format_answers(&questions, &answers);
    assert_eq!(
        rendered,
        "Q1: user selected: 2. b (picked b)\nMulti: user selected: x, z\nQ3: user wrote: my own words"
    );
}

#[test]
fn result_round_trips_through_json() {
    let result = AskUserQuestionResult {
        cancelled: true,
        answers: vec![AskUserQuestionAnswer::Custom {
            question_index: 0,
            text: "t".to_string(),
            notes: None,
        }],
    };
    let json = result_text(&result);
    let back: AskUserQuestionResult = result_from(&parse(&json)).unwrap();
    assert_eq!(back, result);
}

#[test]
fn pending_record_round_trips_through_json() {
    let record = PendingAskUserQuestion {
        request_id: "ask_user_question_1".to_string(),
        tool_call_id: Some("call_1".to_string()),
        questions: vec![question(Some("H"), vec![option("a")])],
        asked_at: Timestamp { seconds: 1_700_000_000, nanos: 123_456_789 },
    };
    let json = written(&record_json(&record).unwrap());
    let back: PendingAskUserQuestion = record_from(&parse(&json)).unwrap();
    assert_eq!(back, record);
}

#[test]
fn question_json_omits_defaults() {
    let q = question(None, vec![option("a")]);
    let json: serde_json::Value = serde_json::from_str(&written(&question_json(&q))).unwrap();
    assert!(json.get("header").is_none());
    assert!(json.get("multi_select").is_none());
    assert!(json["options"][0].get("recommended").is_none());
    assert!(json["options"][0].get("description").is_none());
}

#[test]
fn a_time_is_written_as_rfc3339() {
    let mut record = PendingAskUserQuestion {
        request_id: "r".to_string(),
        tool_call_id: None,
        questions: vec![],
        asked_at: Timestamp { seconds: 1_431_648_000, nanos: 0 },
    };
    assert_eq!(
        written(&record_json(&record).unwrap()),
        "{\"request_id\":\"r\",\"questions\":[],\"asked_at\":\"2015-05-15T00:00:00Z\"}"
    );
    record.asked_at = Timestamp { seconds: i64::MAX, nanos: 0 };
    assert!(record_json(&record).is_none());
    assert!(record_from(&parse(
        "{\"request_id\":\"r\",\"questions\":[],\"asked_at\":\"yesterday\"}"
    ))
    .is_none());
}

#[test]
fn results_are_written_as_serde_would() {
    let result = AskUserQuestionResult {
        cancelled: false,
        answers: vec![
            AskUserQuestionAnswer::Option {
                question_index: 0,
                index: 1,
                label: "say \"b\"\n".to_string(),
                notes: Some("n".to_string()),
            },
            AskUserQuestionAnswer::Multi {
                question_index: 1,
                selected: vec![AskUserQuestionSelection { index: 2, label: "z".to_string() }],
                notes: None,
            },
        ],
    };
    assert_eq!(
        result_text(&result),
        concat_lines(&[
            "{\"cancelled\":false,\"answers\":[{\"kind\":\"option\",\"question_index\":0,",
            "\"index\":1,\"label\":\"say \\\"b\\\"\\n\",\"notes\":\"n\"},{\"kind\":\"multi\",",
            "\"question_index\":1,\"selected\":[{\"index\":2,\"label\":\"z\"}]}]}",
        ])
    );
    assert_eq!(result_from(&parse(&result_text(&result))), Some(result));
}

fn concat_lines(parts: &[&str]) -> String {
    parts.concat()
}

#[test]
fn results_may_leave_out_what_is_default() {
    assert_eq!(
        result_from(&parse("{}")),
        Some(AskUserQuestionResult { cancelled: false, answers: vec![] })
    );
    assert_eq!(result_from(&parse("[]")), None);
    assert_eq!(result_from(&parse("{\"cancelled\":1}")), None);
    assert_eq!(result_from(&parse("{\"answers\":[{\"kind\":\"shrug\",\"question_index\":0}]}")), None);
}

#[test]
fn questions_are_read_back() {
    let q = AskUserQuestion {
        question: "which?".to_string(),
        header: Some("H".to_string()),
        options: vec![AskUserQuestionOption {
            label: "a".to_string(),
            description: Some("d".to_string()),
            preview: Some("p".to_string()),
            recommended: Some(true),
        }],
        multi_select: Some(false),
    };
    assert_eq!(question_from(&parse(&written(&question_json(&q)))), Some(q));
    assert_eq!(question_from(&parse("{\"question\":\"q\"}")), None);
}

#[test]
fn the_suffix_is_stripped_once() {
    assert_eq!(strip_recommended_suffix("a (Recommended)"), "a");
    assert_eq!(strip_recommended_suffix("a"), "a");
}

#[test]
fn preparing_refuses_invalid_questions() {
    assert!(prepare_questions(vec![]).is_err());
    let ready = prepare_questions(vec![question(None, vec![option("a (Recommended)")])]).unwrap();
    assert_eq!(ready[0].header.as_deref(), Some("Q1"));
    assert_eq!(ready[0].options[0].label, "a");
}

#[test]
fn a_cancelled_questionnaire_is_told_as_such() {
    let asked = vec![question(Some("H"), vec![option("a")])];
    let told = render_outcome(&asked, &cancelled_result());
    let answered = render_outcome(
        &asked,
        &AskUserQuestionResult {
            cancelled: false,
            answers: vec![AskUserQuestionAnswer::Option {
                question_index: 0,
                index: 0,
                label: "a".to_string(),
                notes: None,
            }],
        },
    );
    assert_ne!(told, answered);
    assert!(answered.contains("H: user selected: 1. a"));
}

#[test]
fn prompts_and_typed_answers() {
    let q = question(Some("H"), vec![option("a"), option("b")]);
    let prompt = question_prompt(&q, 0);
    assert!(prompt.contains("pick one"));
    assert!(prompt.contains("1") && prompt.contains("a"));
    assert_eq!(
        read_answer(&q, 0, Some("2")),
        Some(AskUserQuestionAnswer::Option {
            question_index: 0,
            index: 1,
            label: "b".to_string(),
            notes: None,
        })
    );
    assert_eq!(
        read_answer(&q, 0, Some("something else")),
        Some(AskUserQuestionAnswer::Custom {
            question_index: 0,
            text: "something else".to_string(),
            notes: None,
        })
    );
    let result = collect_answers(&[q], &["1".to_string()]);
    assert!(!result.cancelled);
    assert_eq!(result.answers.len(), 1);
}

#[test]
fn only_cancel_quit_and_the_end_of_input_abort() {
    let asked = [question(None, vec![option("a"), option("b")])];
    for line in ["cancel", " QUIT ", "Cancel"] {
        let result = collect_answers(&asked, &[line.to_string()]);
        assert!(result.cancelled, "{line}");
        assert!(result.answers.is_empty());
    }
    assert!(collect_answers(&asked, &[]).cancelled);
    let mut several = asked[0].clone();
    several.multi_select = Some(true);
    for (line, chosen) in [("1, 2", vec![0, 1]), ("2,2", vec![1, 1])] {
        let result = collect_answers(&[several.clone()], &[line.to_string()]);
        assert!(matches!(
            &result.answers[..],
            [AskUserQuestionAnswer::Multi { selected, .. }]
                if selected.iter().map(|s| s.index).collect::<Vec<_>>() == chosen
        ));
    }
    for line in ["1,foo", "1,3", "1,"] {
        let result = collect_answers(&[several.clone()], &[line.to_string()]);
        assert!(matches!(
            &result.answers[..],
            [AskUserQuestionAnswer::Custom { text, .. }] if text == line
        ));
    }
    for line in ["q", "", "quits", "3", "1,2"] {
        assert_eq!(
            collect_answers(&asked, &[line.to_string()]),
            AskUserQuestionResult {
                cancelled: false,
                answers: vec![AskUserQuestionAnswer::Custom {
                    question_index: 0,
                    text: line.to_string(),
                    notes: None,
                }],
            },
            "{line}"
        );
    }
}

#[test]
fn a_record_needs_a_session() {
    let at = Timestamp { seconds: 5, nanos: 0 };
    assert!(pending_record("", "r", "c", vec![], at).is_none());
    let record = pending_record("s", "r", "", vec![], at).unwrap();
    assert_eq!(record.tool_call_id, None);
    assert_eq!(record.request_id, "r");
}

#[test]
fn a_pending_question_is_answered_once() {
    let mut pending = PendingQuestions::new();
    pending.seed_pending_ask_user_question(
        "s",
        PendingAskUserQuestion {
            request_id: "r1".to_string(),
            tool_call_id: Some("call".to_string()),
            questions: vec![question(Some("H"), vec![option("a")])],
            asked_at: Timestamp { seconds: 5, nanos: 0 },
        },
    );
    assert!(pending.has_pending_ask_user_question("s"));
    assert!(pending.take_response("s", "other").is_none());
    let entry = pending.take_response("s", "r1").expect("entry");
    assert!(!pending.has_pending_ask_user_question("s"));
    assert!(pending.take_response("s", "r1").is_none());
    let _ = orphaned_answer(&entry, &cancelled_result());
}
