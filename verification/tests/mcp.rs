use jcode_core::json::{written, Json};
use jcode_core::mcp::http::{
    check_headers, classify_modern_error, collect_x_mcp_headers, connection_plan, first_state,
    handshake_result, handshake_version, header_value, initialize_payload, mcp_param_headers,
    message_facts, post_answer, post_body, probe_step, reinitialized_session, request_headers, request_meta, resolve_endpoint,
    roundtrip_step, stream_news, Handshake, HttpEra, PostAnswer, ProbeEvent, ProbeOutcome,
    ProbeState, Reply, RoundtripEvent, RoundtripPhase, RoundtripStep, StreamNews, ToolSchema,
    MODERN_PROTOCOL_VERSION,
};
use jcode_core::mcp::pool::{
    all_tools, connect_failure, connect_report, tool_counts, Admission, ConnectAttempt,
    ServerEntry, SharedMcpPool, FAILED_CONNECT_RETRY_COOLDOWN, NO_HANDLE, SECOND,
};
use jcode_core::mcp::recorded::{find_subslice, read_request, RecordedRequest};
use jcode_core::mcp::sse::SseDecoder;

#[test]
fn sse_decoder_basic_events() {
    let mut dec = SseDecoder::default();
    let events = dec.feed(b"event: message\ndata: {\"a\":1}\n\nevent: ping\ndata: x\n\n");
    assert_eq!(events.len(), 2);
    assert_eq!(events[0].event, "message");
    assert_eq!(events[0].data, "{\"a\":1}");
    assert_eq!(events[1].event, "ping");
}

#[test]
fn sse_decoder_multiline_and_comments() {
    let mut dec = SseDecoder::default();
    let events = dec.feed(b": comment\ndata: line1\ndata: line2\n\n");
    assert_eq!(events.len(), 1);
    assert_eq!(events[0].data, "line1\nline2");
}

#[test]
fn sse_decoder_keeps_empty_data_lines() {
    let mut dec = SseDecoder::default();
    let events = dec.feed(b"data:\ndata: x\n\nevent: ping\n\ndata: y\ndata\n\n");
    assert_eq!(events.len(), 3);
    assert_eq!(events[0].data, "\nx");
    assert_eq!((events[1].event.as_str(), events[1].data.as_str()), ("ping", ""));
    assert_eq!(events[2].data, "y\n");
}

#[test]
fn sse_decoder_split_chunks() {
    let mut dec = SseDecoder::default();
    assert!(dec.feed(b"data: par").is_empty());
    assert!(dec.feed(b"tial\nda").is_empty());
    let events = dec.feed(b"ta: done\n\n");
    assert_eq!(events.len(), 1);
    assert_eq!(events[0].data, "partial\ndone");
}

#[test]
fn cuts_of_a_stream_do_not_matter() {
    let stream = b"event: a\r\ndata: 1\r\n\r\ndata: 2\n: c\ndata: 3\n\n";
    let mut whole = SseDecoder::default();
    let all: Vec<(String, String)> =
        whole.feed(stream).into_iter().map(|e| (e.event, e.data)).collect();
    for cut in 0..stream.len() {
        let mut dec = SseDecoder::default();
        let mut parts = dec.feed(&stream[..cut]);
        parts.extend(dec.feed(&stream[cut..]));
        let parts: Vec<(String, String)> = parts.into_iter().map(|e| (e.event, e.data)).collect();
        assert_eq!(parts, all, "cut at {cut}");
    }
}

#[test]
fn bytes_that_are_no_utf8_are_replaced() {
    let mut dec = SseDecoder::default();
    let events = dec.feed(b"data: a\xffb\n\n");
    assert_eq!(events[0].data, "a\u{fffd}b");
}

#[test]
fn modern_servers_are_told_by_their_refusal() {
    let body = r#"{"error":{"code":-32022,"data":{"supported":["2099-01-01"]}}}"#;
    let unknown = r#"{"error":{"code":-32601}}"#;
    assert_eq!(classify_modern_error(404, unknown).as_deref(), Some(MODERN_PROTOCOL_VERSION));
    assert_eq!(classify_modern_error(400, r#"{"error":{"code":-32600}}"#), None);
    assert_eq!(classify_modern_error(400, "no json"), None);
    assert_eq!(classify_modern_error(400, body).as_deref(), Some("2099-01-01"));
    let ours = format!(
        r#"{{"error":{{"code":-32022,"data":{{"supported":["x","{MODERN_PROTOCOL_VERSION}"]}}}}}}"#
    );
    assert_eq!(classify_modern_error(400, &ours).as_deref(), Some(MODERN_PROTOCOL_VERSION));
}

fn answered(status: u16, session: Option<&str>) -> ProbeEvent {
    ProbeEvent::Answered {
        status,
        shown: format!("{status}"),
        session_id: session.map(str::to_string),
    }
}

fn body(text: &str) -> ProbeEvent {
    ProbeEvent::Body { body: text.to_string() }
}

#[test]
fn a_legacy_server_is_found_by_its_answer() {
    let state = probe_step("m", &first_state(false), &answered(200, Some("sid")));
    let document = r#"{"jsonrpc":"2.0","id":0,"result":{"protocolVersion":"2025-06-18"}}"#;
    let state = probe_step("m", &state, &body(&format!("data: {document}\n\n")));
    let ProbeState::Done { outcome } = state else {
        panic!("not done");
    };
    assert!(matches!(
        &outcome,
        ProbeOutcome::LegacyStreamable { init, protocol_version, .. }
            if init == document && protocol_version == "2025-06-18"
    ));
    let plan = connection_plan(&outcome);
    assert_eq!(plan.era, HttpEra::LegacyStreamable);
    assert_eq!(plan.session_id.as_deref(), Some("sid"));
    assert!(plan.deletes_session);
    assert_eq!(plan.handshake, Handshake::SendInitialized);
}

#[test]
fn a_405_falls_back_to_the_event_stream() {
    let state = probe_step("m", &first_state(false), &answered(405, None));
    let state = probe_step("m", &state, &body("nope"));
    assert!(matches!(state, ProbeState::TryingSse));
    let state = probe_step("m", &state, &answered(200, None));
    assert!(matches!(state, ProbeState::ReadingStream));
    let first = |event: Option<&str>| ProbeEvent::FirstEvent { event: event.map(str::to_string) };
    let done = probe_step("m", &state, &first(Some("endpoint")));
    assert!(matches!(done, ProbeState::Done { outcome: ProbeOutcome::LegacySse }));
    for other in [None, Some("message"), Some("")] {
        assert!(matches!(
            probe_step("m", &state, &first(other)),
            ProbeState::Failed { message } if message == "MCP [m]: SSE probe got no endpoint event"
        ));
    }
}

#[test]
fn the_answer_to_a_handshake_names_a_version() {
    let told = |document: &str| handshake_version(document);
    let rpc = |rest: &str| format!(r#"{{"jsonrpc":"2.0"{rest}}}"#);
    for rest in ["", r#","id":null"#, r#","id":7"#, r#","error":null"#] {
        let document = rpc(&format!(r#"{rest},"result":{{"protocolVersion":"v"}}"#));
        assert_eq!(told(&document), Ok("v".to_string()), "{document}");
    }
    for document in [
        "{".to_string(),
        "7".to_string(),
        r#"{"result":{"protocolVersion":"v"}}"#.to_string(),
        rpc(r#","id":"0","result":{"protocolVersion":"v"}"#),
        rpc(r#","id":-1,"result":{"protocolVersion":"v"}"#),
        rpc(r#","error":{"code":1},"result":{"protocolVersion":"v"}"#),
    ] {
        assert_eq!(told(&document), Err("initialize response is not JSON-RPC".to_string()));
    }
    for rest in ["", r#","result":null"#, r#","error":{"code":1,"message":"m"}"#] {
        assert_eq!(told(&rpc(rest)), Err("initialize response has no result".to_string()));
    }
    for rest in [r#","result":{}"#, r#","result":{"protocolVersion":7}"#] {
        assert_eq!(
            told(&rpc(rest)),
            Err("initialize result has no protocol version".to_string())
        );
    }
    assert_eq!(handshake_result(true, true, Some("v".to_string())), Ok("v".to_string()));
    assert!(handshake_result(true, false, Some("v".to_string())).is_err());
}

#[test]
fn failures_of_the_probe_are_told() {
    let message = |state: ProbeState| match state {
        ProbeState::Failed { message } => message,
        other => panic!("{other:?}"),
    };
    assert_eq!(
        message(probe_step("m", &first_state(false), &ProbeEvent::SendFailed)),
        "MCP [m]: initialize probe failed"
    );
    assert_eq!(
        message(probe_step("m", &first_state(false), &ProbeEvent::TimedOut)),
        "MCP [m]: initialize probe timed out"
    );
    assert_eq!(
        message(probe_step("m", &first_state(false), &answered(500, None))),
        "MCP [m]: initialize probe failed with HTTP 500"
    );
    assert_eq!(
        message(probe_step("m", &ProbeState::TryingSse, &answered(404, None))),
        "MCP [m]: SSE probe got HTTP 404"
    );
    assert_eq!(
        message(probe_step("m", &ProbeState::TryingSse, &ProbeEvent::SendFailed)),
        "MCP [m]: SSE probe failed"
    );
    assert_eq!(
        message(probe_step("m", &ProbeState::TryingSse, &ProbeEvent::TimedOut)),
        "MCP [m]: SSE probe timed out"
    );
    assert!(matches!(
        first_state(true),
        ProbeState::Done { outcome: ProbeOutcome::LegacySse }
    ));
    assert_eq!(initialize_payload(""), None);
}

#[test]
fn headers_are_checked_as_http_would() {
    let pair = |k: &str, v: &str| vec![(k.to_string(), v.to_string())];
    assert!(check_headers(&pair("x-token", "abc \u{e9}")).is_ok());
    assert_eq!(
        check_headers(&pair("bad name", "v")).unwrap_err(),
        "invalid MCP header name: bad name"
    );
    assert_eq!(check_headers(&pair("", "v")).unwrap_err(), "invalid MCP header name: ");
    assert_eq!(
        check_headers(&pair("x", "a\nb")).unwrap_err(),
        "invalid value for MCP header x"
    );
    assert!(check_headers(&pair("x", "a\tb")).is_ok());
    for c in (0u32..256).filter_map(char::from_u32) {
        let name = c.to_string();
        let token = c.is_ascii_alphanumeric() || "!#$%&'*+-.^_`|~".contains(c);
        assert_eq!(check_headers(&pair(&name, "v")).is_ok(), token, "{c:?}");
        let plain = c == '\t' || (!c.is_ascii_control());
        assert_eq!(check_headers(&pair("x", &name)).is_ok(), plain, "{c:?}");
    }
}

#[test]
fn endpoints_are_resolved_against_the_base() {
    let base = "https://h.example:8443/mcp/sse?x=1";
    assert_eq!(resolve_endpoint(base, "https://o/p"), "https://o/p");
    assert_eq!(resolve_endpoint(base, "/messages?s=1"), "https://h.example:8443/messages?s=1");
    assert_eq!(resolve_endpoint(base, "post"), "https://h.example:8443/mcp/post");
    assert_eq!(resolve_endpoint("not a url/", "/x"), "not a url/x");
    assert_eq!(resolve_endpoint("not a url", "x"), "not a url/x");
}

#[test]
fn messages_are_read_for_their_headers() {
    let facts = message_facts(
        r#"{"id":5,"method":"tools/call","params":{"name":"echo","arguments":{}}}"#,
    )
    .unwrap();
    assert_eq!(facts.id, Some(5));
    assert_eq!(facts.method, "tools/call");
    assert!(message_facts("no json").is_none());
    let headers = request_headers("2025-11-25", &facts, None, &vec![]);
    let pair = |k: &str, v: &str| (k.to_string(), v.to_string());
    assert_eq!(
        headers,
        vec![
            pair("accept", "application/json, text/event-stream"),
            pair("content-type", "application/json"),
            pair("mcp-protocol-version", "2025-11-25"),
            pair("mcp-method", "tools/call"),
            pair("mcp-name", "echo"),
        ]
    );
    let legacy = request_headers("v", &facts, Some("sid"), &vec![]);
    assert!(legacy.iter().any(|(k, v)| k == "mcp-session-id" && v == "sid"));
}

#[test]
fn marked_parameters_become_headers() {
    let text = |s: &str| Json::Text(s.to_string());
    let object = |m: Vec<(&str, Json)>| {
        Json::Object(m.into_iter().map(|(k, v)| (k.to_string(), v)).collect())
    };
    let schema = || {
        object(vec![(
            "properties",
            object(vec![
                ("region", object(vec![("x-mcp-header", text("Region"))])),
                ("plain", object(vec![("type", text("string"))])),
            ]),
        )])
    };
    let arguments = object(vec![("region", text("eu")), ("plain", text("p"))]);
    let mut out = Vec::new();
    collect_x_mcp_headers(&schema(), &arguments, &mut out);
    assert_eq!(out.len(), 1);
    assert_eq!(out[0].1, "eu");
    let message = object(vec![
        ("method", text("tools/call")),
        ("params", object(vec![("name", text("t")), ("arguments", arguments)])),
    ]);
    let tools = vec![ToolSchema { name: "t".to_string(), input_schema: schema() }];
    assert_eq!(mcp_param_headers(&tools, &message), out);
    assert_eq!(header_value(&Json::Bool(true)).as_deref(), Some("true"));
    assert_eq!(header_value(&Json::Number("7".to_string())).as_deref(), Some("7"));
    assert_eq!(header_value(&Json::Null), None);
}

#[test]
fn modern_requests_carry_metadata() {
    assert_eq!(
        written(&request_meta("v1", "0.9")),
        concat_parts(&[
            "{\"io.modelcontextprotocol/protocolVersion\":\"v1\",",
            "\"io.modelcontextprotocol/clientInfo\":{\"name\":\"jcode\",\"version\":\"0.9\"},",
            "\"io.modelcontextprotocol/clientCapabilities\":{}}",
        ])
    );
}

fn concat_parts(parts: &[&str]) -> String {
    parts.concat()
}

#[test]
fn answers_are_read_by_status_and_type() {
    assert_eq!(post_answer(500), PostAnswer::Refused { status: 500 });
    assert_eq!(post_answer(202), PostAnswer::Empty);
    assert_eq!(post_answer(204), PostAnswer::Empty);
    assert_eq!(post_answer(200), PostAnswer::ReadBody);
    assert_eq!(post_body("application/json", "{}"), "{}");
    let stream = "event: ping\ndata: x\n\nevent: message\n\ndata: {\"a\":1}\n\n";
    assert_eq!(post_body("text/event-stream; x", stream), "{\"a\":1}");
    assert_eq!(post_body("text/event-stream", "event: ping\ndata: x\n\n"), "");
    assert!(reinitialized_session(404, "404 Not Found", None)
        .unwrap_err()
        .contains("404 Not Found"));
    assert_eq!(reinitialized_session(200, "", Some("s")).unwrap().as_deref(), Some("s"));
}

#[test]
fn a_lost_session_is_started_anew_once() {
    let lost = RoundtripEvent::Refused { status: 404 };
    let step = roundtrip_step(HttpEra::LegacyStreamable, Some(1), RoundtripPhase::Posting, &lost);
    assert!(matches!(step, RoundtripStep::Reinitialize));
    let step = roundtrip_step(
        HttpEra::LegacyStreamable,
        Some(1),
        RoundtripPhase::Reinitializing,
        &RoundtripEvent::Reinitialized,
    );
    assert!(matches!(step, RoundtripStep::Repost));
    let step = roundtrip_step(HttpEra::LegacyStreamable, Some(1), RoundtripPhase::Reposting, &lost);
    assert!(matches!(
        step,
        RoundtripStep::Finish { mark_dead: true, reply: Reply::Error { id: 1, .. } }
    ));
    let step = roundtrip_step(HttpEra::Modern, Some(1), RoundtripPhase::Posting, &lost);
    assert!(matches!(
        step,
        RoundtripStep::Finish { mark_dead: false, reply: Reply::Error { id: 1, message } }
            if message == "MCP HTTP error: status 404"
    ));
    let broken = RoundtripEvent::TransportFailed { error: "reset".to_string() };
    let step = roundtrip_step(HttpEra::Modern, None, RoundtripPhase::Posting, &broken);
    assert!(matches!(
        step,
        RoundtripStep::Finish { mark_dead: true, reply: Reply::Nothing }
    ));
}

#[test]
fn stream_events_are_told_apart() {
    let mut dec = SseDecoder::default();
    let events = dec.feed(b"event: endpoint\ndata: /m\n\ndata: {}\n\nevent: ping\ndata: x\n\n");
    assert!(matches!(stream_news(&events[0]), StreamNews::Endpoint { endpoint } if endpoint == "/m"));
    assert!(matches!(stream_news(&events[1]), StreamNews::Message { document } if document == "{}"));
    assert!(matches!(stream_news(&events[2]), StreamNews::Ignored));
}

// The pool.

fn server(name: &str, enabled: bool, shared: bool) -> ServerEntry {
    ServerEntry { name: name.to_string(), enabled, shared }
}

fn empty_pool() -> SharedMcpPool<u32> {
    SharedMcpPool::new(vec![], None)
}

fn lead(pool: &mut SharedMcpPool<u32>, name: &str) -> u64 {
    match pool.begin_connect(name) {
        ConnectAttempt::Leader { seq } => seq,
        other => panic!("first attempt should lead: {other:?}"),
    }
}

#[test]
fn begin_connect_deduplicates_concurrent_attempts() {
    let mut pool = empty_pool();
    let seq = lead(&mut pool, "demo");
    assert!(matches!(pool.begin_connect("demo"), ConnectAttempt::Wait { seq: s } if s == seq));
    assert!(matches!(pool.finish_connect("demo", seq, Ok(7), 0), Admission::Recorded));
    assert_eq!(pool.connect_outcome("demo", true), Ok(true));
    assert_eq!(pool.connect_outcome("demo", false), Ok(false));
    assert!(matches!(pool.begin_connect("demo"), ConnectAttempt::Connected));
    assert_eq!(pool.get_handle("demo"), Some(&7));
}

#[test]
fn a_dropped_server_is_not_brought_back() {
    let mut pool = empty_pool();
    let seq = lead(&mut pool, "srv");
    assert_eq!(pool.disconnect_server("srv"), None);
    assert!(matches!(
        pool.finish_connect("srv", seq, Ok(1), 0),
        Admission::Discarded(Some(1))
    ));
    assert!(!pool.has_connections());
    assert_eq!(pool.connect_outcome("srv", true), Err(NO_HANDLE.to_string()));
    let again = lead(&mut pool, "srv");
    assert_ne!(again, seq);
    assert!(matches!(
        pool.finish_connect("srv", seq, Err("late".to_string()), 0),
        Admission::Discarded(None)
    ));
    assert!(matches!(pool.finish_connect("srv", again, Ok(2), 0), Admission::Recorded));
    assert_eq!(pool.disconnect_server("srv"), Some(2));
}

#[test]
fn a_failed_server_is_left_alone_for_a_while() {
    let mut pool = empty_pool();
    let seq = lead(&mut pool, "srv");
    pool.finish_connect("srv", seq, Err("boom".to_string()), 10 * SECOND);
    assert_eq!(pool.connect_outcome("srv", true), Err("boom".to_string()));
    assert_eq!(
        pool.ensure_connected("srv", 11 * SECOND).unwrap_err(),
        "boom (retry suppressed for ~29s after recent failure)"
    );
    assert_eq!(
        pool.recent_failure("srv", 10 * SECOND + FAILED_CONNECT_RETRY_COOLDOWN - 1).as_deref(),
        Some("boom (retry suppressed for ~1s after recent failure)")
    );
    assert!(pool
        .ensure_connected("srv", 10 * SECOND + FAILED_CONNECT_RETRY_COOLDOWN)
        .is_ok());
}

#[test]
fn connect_all_skips_non_shared_servers() {
    let pool: SharedMcpPool<u32> = SharedMcpPool::new(
        vec![
            server("owned-only", true, false),
            server("off", false, true),
            server("on", true, true),
        ],
        None,
    );
    assert_eq!(pool.connect_targets(), vec!["on"]);
    assert_eq!(connect_report(vec![], 0), (0, vec![]));
}

#[test]
fn reports_count_new_connections_or_all() {
    let ok = |name: &str, new: bool| (name.to_string(), Ok(new));
    let results = vec![
        ok("a", true),
        ("b".to_string(), Err("no".to_string())),
        ok("c", false),
    ];
    assert_eq!(connect_report(results, 9), (1, vec![("b".to_string(), "no".to_string())]));
    assert_eq!(connect_report(vec![ok("c", false)], 4), (4, vec![]));
    assert_eq!(connect_failure("x"), "Failed to connect to MCP server 'x'");
}

#[test]
fn sessions_are_counted() {
    let mut pool = empty_pool();
    for name in ["a", "b"] {
        let seq = lead(&mut pool, name);
        pool.finish_connect(name, seq, Ok(1), 0);
    }
    assert!(pool.can_acquire());
    let mut names = pool.acquire_handles();
    names.sort();
    assert_eq!(names, vec!["a", "b"]);
    pool.acquire_handles();
    assert_eq!(pool.ref_count("a"), Some(2));
    pool.release_handles(&names);
    assert_eq!(pool.ref_count("a"), Some(1));
    pool.release_handles(&vec!["a".to_string(), "a".to_string(), "zz".to_string()]);
    assert_eq!(pool.ref_count("a"), Some(0));
    assert_eq!(pool.ref_count("zz"), None);
    assert_eq!(pool.ref_counts().len(), 2);
}

#[test]
fn a_reload_keeps_the_directory() {
    let mut pool = SharedMcpPool::new(vec![server("first", true, false)], Some("/p".to_string()));
    let seq = lead(&mut pool, "x");
    pool.finish_connect("x", seq, Ok(5), 0);
    let dropped = pool.reload(vec![server("first-reloaded", true, false)]);
    assert_eq!(dropped, vec![("x".to_string(), 5)]);
    assert_eq!(pool.config_dir().as_deref(), Some("/p"));
    let names: Vec<&str> = pool.config().iter().map(|s| s.name.as_str()).collect();
    assert_eq!(names, vec!["first-reloaded"]);
    assert!(pool.connected_servers().is_empty());
    assert_eq!(
        pool.handle_for_call("x").unwrap_err(),
        "MCP server 'x' not connected"
    );
}

#[test]
fn tools_are_counted_by_server() {
    let offers = vec![
        ("a".to_string(), vec!["t1".to_string(), "t2".to_string()]),
        ("b".to_string(), vec![]),
        ("c".to_string(), vec!["t1".to_string()]),
    ];
    let tools = all_tools(&offers);
    assert_eq!(tools.len(), 3);
    let counts = tool_counts(&tools);
    assert_eq!(counts.get("a"), Some(&2));
    assert_eq!(counts.get("b"), None);
    assert_eq!(counts.get("c"), Some(&1));
}

// Requests as a server sees them.

#[test]
fn headers_are_found_in_any_case() {
    let request = RecordedRequest {
        method: "POST".to_string(),
        path: "/mcp".to_string(),
        headers: vec![
            ("Mcp-Method".to_string(), "tools/list".to_string()),
            ("MCP-METHOD".to_string(), "other".to_string()),
        ],
        body: String::new(),
    };
    assert_eq!(request.header("mcp-method"), Some("tools/list"));
    assert_eq!(request.header("absent"), None);
}

#[test]
fn requests_are_read_once_whole() {
    assert_eq!(find_subslice(b"abcabc", b"ca"), Some(2));
    assert_eq!(find_subslice(b"abc", b"abcd"), None);
    let bytes = b"POST /mcp HTTP/1.1\r\nHost: x\r\nContent-Length: 3\r\n\r\nabcdef";
    let request = read_request(bytes).expect("whole");
    assert_eq!(request.method, "POST");
    assert_eq!(request.path, "/mcp");
    assert_eq!(request.header("host"), Some("x"));
    assert_eq!(request.body, "abc");
    assert!(read_request(&bytes[..bytes.len() - 4]).is_none());
    assert!(read_request(b"GET / HTTP/1.1\r\n").is_none());
}
