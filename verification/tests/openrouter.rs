use jcode_core::json::{written, Json};
use jcode_core::openrouter::retry::{RetryEvent, RetryPhase, RetryRun};
use jcode_core::openrouter::{
    after_failure, attempt_count, is_retryable_error, local_endpoint_troubleshooting_hint,
    parsed_http_status, request_effort, request_url, responses_body, retry_wait_ms, sendable_blocks,
    Effort, MessageBlock, ResponsesRequest, RetryStep, WireApi,
};

#[test]
fn local_endpoint_hint_mentions_ollama_actions() {
    let hint = local_endpoint_troubleshooting_hint("http://localhost:11434/v1", "llama3.2");
    assert!(hint.contains("ollama serve"));
    assert!(hint.contains("ollama pull"));
    assert!(hint.contains("--provider ollama"));
}

#[test]
fn local_endpoint_hint_mentions_lm_studio_server() {
    let hint = local_endpoint_troubleshooting_hint("http://127.0.0.1:1234/v1", "local-model");
    assert!(hint.contains("LM Studio"));
    assert!(hint.contains("Local Server"));
    assert!(hint.contains("/v1/models"));
}

#[test]
fn parsed_http_status_extracts_code() {
    assert_eq!(
        parsed_http_status("status: 402 payment required"),
        Some(402)
    );
    assert_eq!(parsed_http_status("  status:404 not found"), Some(404));
    assert_eq!(parsed_http_status("no status here"), None);
    // Embedded numbers elsewhere must not be misread as a status.
    assert_eq!(parsed_http_status("you requested 65536 tokens"), None);
}

#[test]
fn payment_required_is_not_retryable() {
    let err = "openai-compatible chat request failed\n  endpoint: \
        https://openrouter.ai/api/v1/chat/completions\n  model: openai/gpt-5.4\n  \
        auth: openrouter_api_key\n  status: 402 payment required\n  response: \
        {\"error\":{\"message\":\"this request requires more credits, or fewer \
        max_tokens. you requested up to 65536 tokens, but can only afford 34424\"}}";
    assert!(!is_retryable_error(err, false));
}

#[test]
fn client_errors_are_not_retryable() {
    for status in [400u16, 401, 402, 403, 404, 405, 406, 422] {
        let err = format!("chat request failed\n  status: {status} client error");
        assert!(
            !is_retryable_error(&err, false),
            "status {status} should not be retryable"
        );
        assert!(!is_retryable_error(&err, true));
    }
}

#[test]
fn server_errors_remain_retryable() {
    assert!(is_retryable_error(
        "chat request failed\n  status: 503 service unavailable",
        false
    ));
    assert!(is_retryable_error(
        "chat request failed\n  status: 500 internal server error",
        false
    ));
    // Provider overload messages should still be retried.
    assert!(is_retryable_error("overloaded", false));
}

#[test]
fn http_429_is_retryable_without_rate_limit_words_in_body() {
    assert!(is_retryable_error(
        "chat request failed\n  status: 429 unknown\n  response: {}",
        false
    ));
}

#[test]
fn transient_transport_errors_are_retryable() {
    assert!(is_retryable_error("broken pipe", true));
    assert!(!is_retryable_error("bad request body", false));
}

#[test]
fn urls_name_the_wire_api() {
    assert_eq!(
        request_url(WireApi::Responses, "https://x/v1"),
        "https://x/v1/responses"
    );
    assert_eq!(
        request_url(WireApi::Chat, "https://x/v1"),
        "https://x/v1/chat/completions"
    );
}

#[test]
fn retries_stop() {
    assert_eq!(attempt_count(3), 3);
    assert_eq!(after_failure(0, 3, false, false), RetryStep::GiveUp);
    assert_eq!(after_failure(0, 3, true, false), RetryStep::Retry);
    assert_eq!(
        after_failure(1, 3, true, true),
        RetryStep::RollBackAndRetry { attempt: 3, max: 3 }
    );
    assert_eq!(after_failure(2, 3, true, true), RetryStep::GiveUp);
    assert_eq!(retry_wait_ms(10_000_000, 1), 1_000);
    assert_eq!(retry_wait_ms(500, 1), 500);
}

#[test]
fn a_run_rolls_back_waits_and_tries_anew() {
    let failed = |error: &str, saw_output: bool| RetryEvent::Failed {
        error: error.to_string(),
        transient: false,
        saw_output,
    };
    let mut run = RetryRun::start(3);
    assert_eq!(run.phase(), RetryPhase::Try { fresh_client: false });
    run.advance(&failed("overloaded", true));
    assert_eq!(run.phase(), RetryPhase::RollBack { attempt: 2, max: 3 });
    run.advance(&RetryEvent::Done);
    assert_eq!(run.phase(), RetryPhase::Wait);
    assert_eq!(run.attempt(), 1);
    run.advance(&RetryEvent::Done);
    assert_eq!(run.phase(), RetryPhase::Try { fresh_client: true });
    run.advance(&failed("overloaded", false));
    assert_eq!(run.phase(), RetryPhase::Wait);
    run.advance(&RetryEvent::Done);
    run.advance(&failed("overloaded", false));
    assert_eq!(run.phase(), RetryPhase::GiveUp);
    run.advance(&RetryEvent::Done);
    assert_eq!(run.phase(), RetryPhase::GiveUp);
}

#[test]
fn a_final_status_is_handed_on_at_once() {
    let mut run = RetryRun::start(5);
    run.advance(&RetryEvent::Failed {
        error: "status: 401 unauthorized".to_string(),
        transient: true,
        saw_output: false,
    });
    assert_eq!(run.phase(), RetryPhase::GiveUp);
    let mut run = RetryRun::start(0);
    run.advance(&RetryEvent::Done);
    assert_eq!(run.phase(), RetryPhase::Done);
}

fn asked() -> ResponsesRequest {
    ResponsesRequest {
        model: "m".to_string(),
        system: "be brief".to_string(),
        input: Json::Array(vec![]),
        tools: vec![],
        max_tokens: None,
        effort: None,
        extra: vec![],
    }
}

#[test]
fn a_responses_request_says_what_it_must() {
    assert_eq!(
        written(&responses_body(asked())),
        r#"{"model":"m","instructions":"be brief","input":[],"stream":true,"store":false}"#
    );
    let mut full = asked();
    full.tools = vec![Json::Null];
    full.max_tokens = Some("9".to_string());
    full.effort = Some(Effort { name: "swarm".to_string(), is_swarm: true });
    full.extra = vec![
        ("store".to_string(), Json::Bool(true)),
        ("top_p".to_string(), Json::Number("1".to_string())),
    ];
    let body = responses_body(full);
    assert_eq!(
        written(&body),
        [
            r#"{"model":"m","instructions":"be brief","input":[],"stream":true,"store":true,"#,
            r#""tools":[null],"tool_choice":"auto","max_output_tokens":9,"#,
            r#""reasoning":{"effort":"max","summary":"auto"},"top_p":1}"#,
        ]
        .concat()
    );
    assert_eq!(request_effort(&body).as_deref(), Some("max"));
    let mut none = asked();
    none.effort = Some(Effort { name: "none".to_string(), is_swarm: false });
    assert_eq!(request_effort(&responses_body(none)), None);
}

#[test]
fn images_are_noted_where_they_cannot_be_sent() {
    let blocks = || {
        vec![
            MessageBlock::Text { text: "hi".to_string() },
            MessageBlock::Image { media_type: "image/png".to_string() },
            MessageBlock::Other { position: 2 },
        ]
    };
    assert!(matches!(sendable_blocks(blocks(), true)[1], MessageBlock::Image { .. }));
    let sent = sendable_blocks(blocks(), false);
    assert!(matches!(&sent[0], MessageBlock::Text { text } if text == "hi"));
    assert!(matches!(
        &sent[1],
        MessageBlock::Text { text }
            if text == "[Image omitted: this provider/model does not support image input; media_type=image/png]"
    ));
    assert!(matches!(sent[2], MessageBlock::Other { position: 2 }));
}
