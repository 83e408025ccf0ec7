//! The HTTP transports: which era a server speaks, what a request carries,
//! and what an answer means.

use crate::json;
use crate::json::{
    array_at, find_member, has_at, null_at, reads, signed_at, string_at, unsigned_at, Json,
};
use crate::mcp::sse;
use crate::mcp::sse::{EventView, SseDecoder, SseEvent};
use crate::text;
use crate::text::{
    begins_with, cat2, cat3, cat4, decimal_of, owned, owned_opt, str_eq, trimmed_end_char,
    trimmed_start, trimmed_start_char,
};
use vstd::prelude::*;

verus! {

/// The newest protocol revision with metadata on every request.
pub const MODERN_PROTOCOL_VERSION: &'static str = "2026-07-28";

/// The protocol era of a connection.
#[derive(Debug, Clone, Copy, PartialEq, Eq, Structural)]
pub enum HttpEra {
    /// Metadata on every request; no handshake, no sessions.
    Modern,
    /// Streamable HTTP with a handshake and sessions.
    LegacyStreamable,
    /// An event stream beside a message endpoint.
    LegacySse,
}

/// Whether a status says that a request succeeded.
pub open spec fn is_success(status: u16) -> bool {
    200 <= status < 300
}

/// Whether a status blames the request.
pub open spec fn is_client_error(status: u16) -> bool {
    400 <= status < 500
}

// ---------------------------------------------------------------------------
// Classifying a refusal
// ---------------------------------------------------------------------------

/// The strings of a list, from the `k`-th element on.
pub open spec fn strings_from(items: Seq<Option<Seq<char>>>, k: int) -> Seq<Seq<char>>
    decreases items.len() - k,
{
    if k >= items.len() {
        Seq::empty()
    } else {
        match items[k] {
            Some(s) => seq![s] + strings_from(items, k + 1),
            None => strings_from(items, k + 1),
        }
    }
}

/// The version to speak with a server that supports some: the modern one
/// where it is among them, else the first, else the modern one.
pub open spec fn picked_version(supported: Seq<Seq<char>>) -> Seq<char> {
    if supported.contains(MODERN_PROTOCOL_VERSION@) || supported.len() == 0 {
        MODERN_PROTOCOL_VERSION@
    } else {
        supported[0]
    }
}

/// The version to speak with a server that refused the handshake with an
/// error code; nothing where the code is not one of a modern server.
pub open spec fn version_after(code: Option<int>, supported: Option<Seq<Option<Seq<char>>>>) -> Option<
    Seq<char>,
> {
    match code {
        None => None,
        Some(code) => if code == -32601 || code == -32602 {
            Some(MODERN_PROTOCOL_VERSION@)
        } else if code == -32022 {
            Some(
                picked_version(
                    match supported {
                        Some(items) => strings_from(items, 0),
                        None => Seq::empty(),
                    },
                ),
            )
        } else {
            None
        },
    }
}

/// The version that the body of a refusal calls for.
pub open spec fn modern_version(body: Seq<char>) -> Option<Seq<char>> {
    version_after(
        json::signed_value(body, "/error/code"@),
        json::array_value(body, "/error/data/supported"@),
    )
}

/// The version to speak with a server that refused the handshake.
pub fn version_for_error(code: Option<i64>, supported: Option<Vec<Option<String>>>) -> (r: Option<
    String,
>)
    ensures
        text::opt_text(r) == version_after(json::opt_i64(code), json::opt_list(supported)),
{
    let number: i64 = match code {
        Some(number) => number,
        None => return None,
    };
    if number == -32601 || number == -32602 {
        return Some(owned(MODERN_PROTOCOL_VERSION));
    }
    if number != -32022 {
        return None;
    }
    let items = match supported {
        Some(items) => items,
        None => return Some(owned(MODERN_PROTOCOL_VERSION)),
    };
    let ghost all = json::opt_texts(items@);
    let ghost strings = strings_from(all, 0);
    let ghost mut seen: Seq<Seq<char>> = Seq::empty();
    let mut first: Option<String> = None;
    let mut k: usize = 0;
    assert(seen + strings_from(all, 0) =~= strings);
    while k < items.len()
        invariant
            k <= items@.len(),
            all == json::opt_texts(items@),
            strings == strings_from(all, 0),
            strings == seen + strings_from(all, k as int),
            text::opt_text(first) == (if seen.len() == 0 {
                None::<Seq<char>>
            } else {
                Some(seen[0])
            }),
            !seen.contains(MODERN_PROTOCOL_VERSION@),
            supported == Some(items),
            code == Some(-32022i64),
        decreases items@.len() - k,
    {
        assert(all[k as int] == text::opt_text(items@[k as int]));
        if let Some(version) = &items[k] {
            if str_eq(version.as_str(), MODERN_PROTOCOL_VERSION) {
                assert(strings[seen.len() as int] == MODERN_PROTOCOL_VERSION@);
                return Some(owned(MODERN_PROTOCOL_VERSION));
            }
            if first.is_none() {
                first = Some(owned(version.as_str()));
            }
            proof {
                let before = seen;
                seen = seen.push(version@);
                assert(strings =~= seen + strings_from(all, k + 1));
                assert forall|i: int| 0 <= i < seen.len() implies seen[i]
                    != MODERN_PROTOCOL_VERSION@ by {
                    if i < before.len() {
                        assert(before.contains(before[i]));
                    }
                }
            }
        }
        k = k + 1;
    }
    assert(strings =~= seen);
    match first {
        Some(version) => Some(version),
        None => Some(owned(MODERN_PROTOCOL_VERSION)),
    }
}

/// Whether the refusal of a handshake shows a modern server, and the version
/// to speak with it. The status itself says nothing.
pub fn classify_modern_error(status: u16, body: &str) -> (r: Option<String>)
    ensures
        text::opt_text(r) == modern_version(body@),
{
    let _ = status;
    let code = signed_at(body, "/error/code");
    version_for_error(code, array_at(body, "/error/data/supported"))
}

// ---------------------------------------------------------------------------
// The era probe
// ---------------------------------------------------------------------------

/// What the probe found.
#[derive(Debug)]
pub enum ProbeOutcome {
    Modern { version: String },
    /// The document that answered the handshake, and what it says.
    LegacyStreamable { init: String, session_id: Option<String>, protocol_version: String },
    LegacySse,
}

/// Where the probe stands, and so what is to be done next.
#[derive(Debug)]
pub enum ProbeState {
    /// Post the handshake.
    Initializing,
    /// Read the body of a successful answer.
    ReadingResult { session_id: Option<String> },
    /// Read the body of a refusal.
    ReadingRefusal { status: u16 },
    /// Ask for an event stream.
    TryingSse,
    /// Read the event stream up to its first event.
    ReadingStream,
    Done { outcome: ProbeOutcome },
    Failed { message: String },
}

/// What came of it.
#[derive(Debug)]
pub enum ProbeEvent {
    SendFailed,
    TimedOut,
    /// An answer; `shown` is the status as it is shown.
    Answered { status: u16, shown: String, session_id: Option<String> },
    Body { body: String },
    /// The name of the first event of a stream; nothing where the stream
    /// ended without one.
    FirstEvent { event: Option<String> },
}

/// Whether an event can come in a state.
pub open spec fn can_come(s: ProbeState, e: ProbeEvent) -> bool {
    match s {
        ProbeState::Initializing | ProbeState::TryingSse => e is SendFailed || e is TimedOut
            || e is Answered,
        ProbeState::ReadingResult { .. } | ProbeState::ReadingRefusal { .. } => e is Body,
        ProbeState::ReadingStream => e is SendFailed || e is TimedOut || e is FirstEvent,
        _ => false,
    }
}

/// The events of a whole text.
pub open spec fn events_of(body: Seq<char>) -> Seq<EventView> {
    sse::fed(sse::fresh(), body).1
}

/// The data of the first event from the `k`-th on that is a message or has
/// data.
pub open spec fn first_message(events: Seq<EventView>, k: int) -> Option<Seq<char>>
    decreases events.len() - k,
{
    if k >= events.len() {
        None
    } else if events[k].event == "message"@ || events[k].data.len() > 0 {
        Some(events[k].data)
    } else {
        first_message(events, k + 1)
    }
}

/// The document that answers the handshake: the body, or the first message of
/// an event stream.
pub open spec fn initialize_document(body: Seq<char>) -> Option<Seq<char>> {
    if text::starts_with(text::trim_start(body), "{"@) {
        Some(body)
    } else {
        first_message(events_of(body), 0)
    }
}

/// The data of the first event that is a message or has data.
fn find_message(events: &Vec<SseEvent>) -> (r: Option<String>)
    ensures
        text::opt_text(r) == first_message(sse::event_views(events@), 0),
{
    let ghost views = sse::event_views(events@);
    let mut k: usize = 0;
    while k < events.len()
        invariant
            k <= events@.len(),
            views == sse::event_views(events@),
            first_message(views, 0) == first_message(views, k as int),
        decreases events@.len() - k,
    {
        assert(views[k as int] == events@[k as int]@);
        if str_eq(events[k].event.as_str(), "message") || events[k].data.as_str().unicode_len()
            > 0 {
            return Some(owned(events[k].data.as_str()));
        }
        k = k + 1;
    }
    None
}

/// The document that answers the handshake.
pub fn initialize_payload(body: &str) -> (r: Option<String>)
    ensures
        text::opt_text(r) == initialize_document(body@),
{
    if begins_with(trimmed_start(body), "{") {
        return Some(owned(body));
    }
    let mut decoder = SseDecoder::default();
    find_message(&decoder.feed_text(body))
}

/// Whether a member of a document is absent or null.
pub open spec fn is_missing(document: Seq<char>, place: Seq<char>) -> bool {
    !json::has_value(document, place) || json::null_value(document, place)
}

/// Whether a text is an answer of JSON-RPC: a document that names the
/// protocol, whose number is one where it has any, and whose error has a code
/// and a message where it has any.
pub open spec fn is_rpc_answer(document: Seq<char>) -> bool {
    &&& json::is_document(document)
    &&& json::string_value(document, "/jsonrpc"@) is Some
    &&& is_missing(document, "/id"@) || json::unsigned_value(document, "/id"@) is Some
    &&& is_missing(document, "/error"@) || (json::signed_value(document, "/error/code"@) is Some
        && json::string_value(document, "/error/message"@) is Some)
}

/// What an answer says of a handshake: the version to speak, or what is
/// missing.
pub open spec fn handshake_says(
    is_answer: bool,
    has_result: bool,
    version: Option<Seq<char>>,
) -> Result<Seq<char>, Seq<char>> {
    if !is_answer {
        Err("initialize response is not JSON-RPC"@)
    } else if !has_result {
        Err("initialize response has no result"@)
    } else {
        match version {
            Some(version) => Ok(version),
            None => Err("initialize result has no protocol version"@),
        }
    }
}

/// The version that the answer to a handshake names, or why there is none.
pub open spec fn version_in(document: Seq<char>) -> Result<Seq<char>, Seq<char>> {
    handshake_says(
        is_rpc_answer(document),
        !is_missing(document, "/result"@),
        json::string_value(document, "/result/protocolVersion"@),
    )
}

/// Whether a result is the text that it should be.
pub open spec fn is_text_result(
    r: Result<String, String>,
    wanted: Result<Seq<char>, Seq<char>>,
) -> bool {
    match wanted {
        Ok(text) => r is Ok && r->Ok_0@ == text,
        Err(text) => r is Err && r->Err_0@ == text,
    }
}

/// What an answer says of a handshake.
pub fn handshake_result(is_answer: bool, has_result: bool, version: Option<String>) -> (r: Result<
    String,
    String,
>)
    ensures
        is_text_result(r, handshake_says(is_answer, has_result, text::opt_text(version))),
{
    if !is_answer {
        return Err(owned("initialize response is not JSON-RPC"));
    }
    if !has_result {
        return Err(owned("initialize response has no result"));
    }
    match version {
        Some(version) => Ok(version),
        None => Err(owned("initialize result has no protocol version")),
    }
}

/// Whether a member of a document is absent or null.
fn misses(document: &str, place: &str) -> (r: bool)
    ensures
        r == is_missing(document@, place@),
{
    !has_at(document, place) || null_at(document, place)
}

/// Whether a text is an answer of JSON-RPC.
fn answers_rpc(document: &str) -> (r: bool)
    ensures
        r == is_rpc_answer(document@),
{
    reads(document) && string_at(document, "/jsonrpc").is_some() && (misses(document, "/id")
        || unsigned_at(document, "/id").is_some()) && (misses(document, "/error") || (signed_at(
        document,
        "/error/code",
    ).is_some() && string_at(document, "/error/message").is_some()))
}

/// The version that the answer to a handshake names, or why there is none.
pub fn handshake_version(document: &str) -> (r: Result<String, String>)
    ensures
        is_text_result(r, version_in(document@)),
{
    handshake_result(
        answers_rpc(document),
        !misses(document, "/result"),
        string_at(document, "/result/protocolVersion"),
    )
}

/// A message about a server.
pub open spec fn about(name: Seq<char>, what: Seq<char>) -> Seq<char> {
    "MCP ["@ + name + "]: "@ + what
}

/// A failure of the probe of a server.
fn failed(name: &str, what: &str) -> (r: ProbeState)
    ensures
        r matches ProbeState::Failed { message } && message@ == about(name@, what@),
{
    ProbeState::Failed { message: cat4("MCP [", name, "]: ", what) }
}

/// Whether `r` is the state that follows on an event.
pub open spec fn probes(name: Seq<char>, state: ProbeState, event: ProbeEvent, r: ProbeState) -> bool {
    match (state, event) {
        (ProbeState::Initializing, ProbeEvent::SendFailed) => r matches ProbeState::Failed {
            message,
        } && message@ == about(name, "initialize probe failed"@),
        (ProbeState::Initializing, ProbeEvent::TimedOut) => r matches ProbeState::Failed {
            message,
        } && message@ == about(name, "initialize probe timed out"@),
        (
            ProbeState::Initializing,
            ProbeEvent::Answered { status, shown, session_id: session },
        ) => if is_success(status) {
            r matches ProbeState::ReadingResult { session_id } && text::opt_text(session_id)
                == text::opt_text(session)
        } else if is_client_error(status) {
            r == (ProbeState::ReadingRefusal { status })
        } else {
            r matches ProbeState::Failed { message } && message@ == about(
                name,
                "initialize probe failed with HTTP "@ + shown@,
            )
        },
        (
            ProbeState::ReadingResult { session_id: session },
            ProbeEvent::Body { body },
        ) => match initialize_document(body@) {
            Some(d) => match version_in(d) {
                Ok(version) => r matches ProbeState::Done {
                    outcome: ProbeOutcome::LegacyStreamable {
                        init,
                        session_id,
                        protocol_version,
                    },
                } && init@ == d && text::opt_text(session_id) == text::opt_text(session)
                    && protocol_version@ == version,
                Err(why) => r matches ProbeState::Failed { message } && message@ == why,
            },
            None => r matches ProbeState::Failed { message } && message@
                == "initialize SSE response had no data event"@,
        },
        (ProbeState::ReadingRefusal { .. }, ProbeEvent::Body { body }) => match modern_version(
            body@,
        ) {
            Some(v) => r matches ProbeState::Done { outcome: ProbeOutcome::Modern { version } }
                && version@ == v,
            None => r is TryingSse,
        },
        (
            ProbeState::TryingSse | ProbeState::ReadingStream,
            ProbeEvent::SendFailed,
        ) => r matches ProbeState::Failed { message } && message@ == about(
            name,
            "SSE probe failed"@,
        ),
        (
            ProbeState::TryingSse | ProbeState::ReadingStream,
            ProbeEvent::TimedOut,
        ) => r matches ProbeState::Failed { message } && message@ == about(
            name,
            "SSE probe timed out"@,
        ),
        (ProbeState::TryingSse, ProbeEvent::Answered { status, shown, .. }) => if is_success(
            status,
        ) {
            r is ReadingStream
        } else {
            r matches ProbeState::Failed { message } && message@ == about(
                name,
                "SSE probe got HTTP "@ + shown@,
            )
        },
        (ProbeState::ReadingStream, ProbeEvent::FirstEvent { event }) => if text::opt_text(event)
            == Some("endpoint"@) {
            r == (ProbeState::Done { outcome: ProbeOutcome::LegacySse })
        } else {
            r matches ProbeState::Failed { message } && message@ == about(
                name,
                "SSE probe got no endpoint event"@,
            )
        },
        _ => false,
    }
}

/// Where the probe stands after an event.
pub fn probe_step(name: &str, state: &ProbeState, event: &ProbeEvent) -> (r: ProbeState)
    requires
        can_come(*state, *event),
    ensures
        probes(name@, *state, *event, r),
{
    match (state, event) {
        (ProbeState::Initializing, ProbeEvent::SendFailed) => failed(
            name,
            "initialize probe failed",
        ),
        (ProbeState::Initializing, ProbeEvent::TimedOut) => failed(
            name,
            "initialize probe timed out",
        ),
        (ProbeState::Initializing, ProbeEvent::Answered { status, shown, session_id }) => {
            if 200 <= *status && *status < 300 {
                ProbeState::ReadingResult { session_id: text::clone_opt(session_id) }
            } else if 400 <= *status && *status < 500 {
                ProbeState::ReadingRefusal { status: *status }
            } else {
                failed(
                    name,
                    cat2("initialize probe failed with HTTP ", shown.as_str()).as_str(),
                )
            }
        },
        (ProbeState::ReadingResult { session_id }, ProbeEvent::Body { body }) => {
            match initialize_payload(body.as_str()) {
                Some(document) => match handshake_version(document.as_str()) {
                    Ok(protocol_version) => ProbeState::Done {
                        outcome: ProbeOutcome::LegacyStreamable {
                            init: document,
                            session_id: text::clone_opt(session_id),
                            protocol_version,
                        },
                    },
                    Err(message) => ProbeState::Failed { message },
                },
                None => ProbeState::Failed {
                    message: owned("initialize SSE response had no data event"),
                },
            }
        },
        (ProbeState::ReadingRefusal { status }, ProbeEvent::Body { body }) => {
            match classify_modern_error(*status, body.as_str()) {
                Some(version) => ProbeState::Done { outcome: ProbeOutcome::Modern { version } },
                None => ProbeState::TryingSse,
            }
        },
        (ProbeState::TryingSse | ProbeState::ReadingStream, ProbeEvent::SendFailed) => failed(
            name,
            "SSE probe failed",
        ),
        (ProbeState::TryingSse | ProbeState::ReadingStream, ProbeEvent::TimedOut) => failed(
            name,
            "SSE probe timed out",
        ),
        (ProbeState::TryingSse, ProbeEvent::Answered { status, shown, .. }) => {
            if 200 <= *status && *status < 300 {
                ProbeState::ReadingStream
            } else {
                failed(name, cat2("SSE probe got HTTP ", shown.as_str()).as_str())
            }
        },
        (ProbeState::ReadingStream, ProbeEvent::FirstEvent { event }) => {
            let is_endpoint = match event {
                Some(event) => str_eq(event.as_str(), "endpoint"),
                None => false,
            };
            if is_endpoint {
                ProbeState::Done { outcome: ProbeOutcome::LegacySse }
            } else {
                failed(name, "SSE probe got no endpoint event")
            }
        },
        _ => ProbeState::Failed { message: String::new() },
    }
}

// ---------------------------------------------------------------------------
// Connecting
// ---------------------------------------------------------------------------

/// The message for a server without an address.
pub const MISSING_URL: &'static str = "HTTP/SSE MCP server requires `url`";

/// Whether a character may stand in the name of a header.
pub open spec fn is_token_char(c: char) -> bool {
    text::is_digit(c) || ('a' <= c && c <= 'z') || ('A' <= c && c <= 'Z') || c == '!' || c == '#'
        || c == '$' || c == '%' || c == '&' || c == '\'' || c == '*' || c == '+' || c == '-' || c
        == '.' || c == '^' || c == '_' || c == '`' || c == '|' || c == '~'
}

/// Whether a text can be the name of a header.
pub open spec fn is_header_name(name: Seq<char>) -> bool {
    0 < name.len() <= 65535 && forall|i: int|
        0 <= i < name.len() ==> is_token_char(#[trigger] name[i])
}

/// Whether a text can be the value of a header: no control character but the
/// tab.
pub open spec fn is_header_value(value: Seq<char>) -> bool {
    forall|i: int|
        0 <= i < value.len() ==> (#[trigger] value[i] == '\t' || (value[i] as u32 >= 32
            && value[i] as u32 != 127))
}

/// Trusted: `reqwest::header::HeaderName::from_bytes` accepts one to 65535
/// bytes that are all letters, digits, or one of the other token characters.
#[verifier::external_body]
fn accepts_header_name(name: &str) -> (r: bool)
    ensures
        r == is_header_name(name@),
{
    reqwest::header::HeaderName::from_bytes(name.as_bytes()).is_ok()
}

/// Trusted: `reqwest::header::HeaderValue::from_str` accepts every text
/// without control characters, the tab excepted.
#[verifier::external_body]
fn accepts_header_value(value: &str) -> (r: bool)
    ensures
        r == is_header_value(value@),
{
    reqwest::header::HeaderValue::from_str(value).is_ok()
}

/// The error of configured headers, from the `k`-th on.
pub open spec fn header_error(headers: Seq<(Seq<char>, Seq<char>)>, k: int) -> Option<Seq<char>>
    decreases headers.len() - k,
{
    if k >= headers.len() {
        None
    } else if !is_header_name(headers[k].0) {
        Some("invalid MCP header name: "@ + headers[k].0)
    } else if !is_header_value(headers[k].1) {
        Some("invalid value for MCP header "@ + headers[k].0)
    } else {
        header_error(headers, k + 1)
    }
}

/// Checks the headers that a server is configured with.
pub fn check_headers(headers: &Vec<(String, String)>) -> (r: Result<(), String>)
    ensures
        match header_error(text::pairs(headers@), 0) {
            None => r is Ok,
            Some(e) => r is Err && r->Err_0@ == e,
        },
{
    let ghost all = text::pairs(headers@);
    let mut k: usize = 0;
    while k < headers.len()
        invariant
            k <= headers@.len(),
            all == text::pairs(headers@),
            header_error(all, 0) == header_error(all, k as int),
        decreases headers@.len() - k,
    {
        assert(all[k as int] == (headers@[k as int].0@, headers@[k as int].1@));
        let name = headers[k].0.as_str();
        if !accepts_header_name(name) {
            return Err(cat2("invalid MCP header name: ", name));
        }
        if !accepts_header_value(headers[k].1.as_str()) {
            return Err(cat2("invalid value for MCP header ", name));
        }
        k = k + 1;
    }
    Ok(())
}

/// How the handshake is finished once the transport runs.
#[derive(Debug, Clone, Copy, PartialEq, Eq, Structural)]
pub enum Handshake {
    /// There is none.
    Nothing,
    /// Apply the result that the probe read, and tell the server.
    SendInitialized,
    /// Run the handshake over the event stream.
    Initialize,
}

/// What a connection is built of.
#[derive(Debug)]
pub struct ConnectionPlan {
    pub era: HttpEra,
    /// The protocol version that requests name; none on an event stream.
    pub protocol_version: Option<String>,
    pub session_id: Option<String>,
    /// Whether shutting down deletes the session.
    pub deletes_session: bool,
    /// Whether requests carry metadata.
    pub carries_meta: bool,
    pub handshake: Handshake,
}

/// Where a connection starts: a server that is known to speak over an event
/// stream is not probed.
pub fn first_state(is_legacy_sse: bool) -> (r: ProbeState)
    ensures
        is_legacy_sse ==> r == (ProbeState::Done { outcome: ProbeOutcome::LegacySse }),
        !is_legacy_sse ==> r is Initializing,
{
    if is_legacy_sse {
        ProbeState::Done { outcome: ProbeOutcome::LegacySse }
    } else {
        ProbeState::Initializing
    }
}

/// Whether `r` is the plan for what a probe found.
pub open spec fn is_plan(outcome: ProbeOutcome, r: ConnectionPlan) -> bool {
    match outcome {
        ProbeOutcome::Modern { version } => {
            &&& r.era is Modern
            &&& text::opt_text(r.protocol_version) == Some(version@)
            &&& r.session_id is None
            &&& !r.deletes_session
            &&& r.carries_meta
            &&& r.handshake is Nothing
        },
        ProbeOutcome::LegacyStreamable { session_id, protocol_version, .. } => {
            &&& r.era is LegacyStreamable
            &&& text::opt_text(r.protocol_version) == Some(protocol_version@)
            &&& text::opt_text(r.session_id) == text::opt_text(session_id)
            &&& r.deletes_session == session_id is Some
            &&& !r.carries_meta
            &&& r.handshake is SendInitialized
        },
        ProbeOutcome::LegacySse => {
            &&& r.era is LegacySse
            &&& r.protocol_version is None
            &&& r.session_id is None
            &&& !r.deletes_session
            &&& !r.carries_meta
            &&& r.handshake is Initialize
        },
    }
}

/// What a connection is built of, after the probe.
pub fn connection_plan(outcome: &ProbeOutcome) -> (r: ConnectionPlan)
    ensures
        is_plan(*outcome, r),
{
    match outcome {
        ProbeOutcome::Modern { version } => ConnectionPlan {
            era: HttpEra::Modern,
            protocol_version: Some(owned(version.as_str())),
            session_id: None,
            deletes_session: false,
            carries_meta: true,
            handshake: Handshake::Nothing,
        },
        ProbeOutcome::LegacyStreamable { session_id, protocol_version, .. } => ConnectionPlan {
            era: HttpEra::LegacyStreamable,
            protocol_version: Some(owned(protocol_version.as_str())),
            session_id: text::clone_opt(session_id),
            deletes_session: session_id.is_some(),
            carries_meta: false,
            handshake: Handshake::SendInitialized,
        },
        ProbeOutcome::LegacySse => ConnectionPlan {
            era: HttpEra::LegacySse,
            protocol_version: None,
            session_id: None,
            deletes_session: false,
            carries_meta: false,
            handshake: Handshake::Initialize,
        },
    }
}

/// The client that requests name.
pub const CLIENT_NAME: &'static str = "jcode";

/// The metadata that every request of the modern era carries.
pub open spec fn is_request_meta(meta: Json, version: Seq<char>, client_version: Seq<char>) -> bool {
    &&& meta matches Json::Object(m)
    &&& m@.len() == 3
    &&& m@[0].0@ == "io.modelcontextprotocol/protocolVersion"@
    &&& m@[0].1 matches Json::Text(v)
    &&& v@ == version
    &&& m@[1].0@ == "io.modelcontextprotocol/clientInfo"@
    &&& m@[1].1 matches Json::Object(info)
    &&& info@.len() == 2
    &&& info@[0].0@ == "name"@
    &&& info@[0].1 matches Json::Text(n)
    &&& n@ == CLIENT_NAME@
    &&& info@[1].0@ == "version"@
    &&& info@[1].1 matches Json::Text(cv)
    &&& cv@ == client_version
    &&& m@[2].0@ == "io.modelcontextprotocol/clientCapabilities"@
    &&& m@[2].1 matches Json::Object(caps)
    &&& caps@.len() == 0
}

/// The metadata that every request of the modern era carries.
pub fn request_meta(version: &str, client_version: &str) -> (r: Json)
    ensures
        is_request_meta(r, version@, client_version@),
{
    let mut info: Vec<(String, Json)> = Vec::new();
    info.push((owned("name"), Json::Text(owned(CLIENT_NAME))));
    info.push((owned("version"), Json::Text(owned(client_version))));
    let mut meta: Vec<(String, Json)> = Vec::new();
    meta.push((owned("io.modelcontextprotocol/protocolVersion"), Json::Text(owned(version))));
    meta.push((owned("io.modelcontextprotocol/clientInfo"), Json::Object(info)));
    meta.push(
        (owned("io.modelcontextprotocol/clientCapabilities"), Json::Object(Vec::new())),
    );
    Json::Object(meta)
}

// ---------------------------------------------------------------------------
// One request
// ---------------------------------------------------------------------------

/// The value of a header for an argument: texts, numbers and truth values
/// have one.
pub open spec fn header_text(value: Json) -> Option<Seq<char>> {
    match value {
        Json::Text(s) => Some(s@),
        Json::Number(n) => Some(n@),
        Json::Bool(true) => Some("true"@),
        Json::Bool(false) => Some("false"@),
        _ => None,
    }
}

/// The value of a header for an argument.
pub fn header_value(value: &Json) -> (r: Option<String>)
    ensures
        text::opt_text(r) == header_text(*value),
{
    match value {
        Json::Text(s) => Some(owned(s.as_str())),
        Json::Number(n) => Some(owned(n.as_str())),
        Json::Bool(b) => if *b {
            Some(owned("true"))
        } else {
            Some(owned("false"))
        },
        _ => None,
    }
}

proof fn lemma_member_from_smaller(members: Seq<(String, Json)>, name: Seq<char>, k: int)
    requires
        0 <= k,
    ensures
        json::member_from(members, name, k) matches Some(v) ==> exists|i: int|
            k <= i < members.len() && #[trigger] members[i].1 == v,
    decreases members.len() - k,
{
    if k < members.len() && members[k].0@ != name {
        lemma_member_from_smaller(members, name, k + 1);
    }
}

/// The nested properties of a property, where it has some.
pub open spec fn nested_properties(property: Json) -> Option<Seq<(String, Json)>> {
    match json::member(property, "properties"@) {
        Some(Json::Object(members)) => Some(members@),
        _ => None,
    }
}

/// The header of one property: it names one, its argument is there, and the
/// argument has a value.
pub open spec fn own_header(property: Json, argument: Option<Json>) -> Seq<(Seq<char>, Seq<char>)> {
    match (json::member(property, "x-mcp-header"@), argument) {
        (Some(Json::Text(header)), Some(arg)) => match header_text(arg) {
            Some(value) => seq![("mcp-param-"@ + header@, value)],
            None => Seq::empty(),
        },
        _ => Seq::empty(),
    }
}

/// The headers of the properties from the `k`-th on: for each its own, then
/// those nested in it.
pub open spec fn property_headers(
    properties: Seq<(String, Json)>,
    arguments: Seq<(String, Json)>,
    k: int,
) -> Seq<(Seq<char>, Seq<char>)>
    decreases properties, properties.len() - k,
    via property_headers_decreases
{
    if k < 0 || k >= properties.len() {
        Seq::empty()
    } else {
        let argument = json::member_from(arguments, properties[k].0@, 0);
        let nested = match (nested_properties(properties[k].1), argument) {
            (Some(inner), Some(Json::Object(inner_arguments))) => property_headers(
                inner,
                inner_arguments@,
                0,
            ),
            _ => Seq::empty(),
        };
        own_header(properties[k].1, argument) + nested + property_headers(
            properties,
            arguments,
            k + 1,
        )
    }
}

#[via_fn]
proof fn property_headers_decreases(
    properties: Seq<(String, Json)>,
    arguments: Seq<(String, Json)>,
    k: int,
) {
    if 0 <= k < properties.len() {
        lemma_nested_smaller(properties, k);
    }
}

proof fn lemma_nested_smaller(properties: Seq<(String, Json)>, k: int)
    requires
        0 <= k < properties.len(),
    ensures
        nested_properties(properties[k].1) matches Some(inner) ==> decreases_to!(
            properties => inner
        ),
{
    if let Some(inner) = nested_properties(properties[k].1) {
        let property = properties[k].1;
        assert(decreases_to!(properties => properties[k]));
        assert(decreases_to!(properties[k] => properties[k].1));
        match property {
            Json::Object(members) => {
                lemma_member_from_smaller(members@, "properties"@, 0);
                let found = json::member_from(members@, "properties"@, 0)->0;
                let i = choose|i: int|
                    0 <= i < members@.len() && #[trigger] members@[i].1 == found;
                assert(decreases_to!(property => members));
                assert(decreases_to!(members => members@));
                assert(decreases_to!(members@ => members@[i]));
                assert(decreases_to!(members@[i] => members@[i].1));
                match found {
                    Json::Object(inner_members) => {
                        assert(decreases_to!(found => inner_members));
                        assert(decreases_to!(inner_members => inner_members@));
                    },
                    _ => {},
                }
            },
            _ => {},
        }
    }
}

/// Adds the headers of properties.
fn push_property_headers(
    properties: &Vec<(String, Json)>,
    arguments: &Vec<(String, Json)>,
    out: &mut Vec<(String, String)>,
)
    ensures
        text::pairs(final(out)@) == text::pairs(old(out)@) + property_headers(properties@, arguments@, 0),
    decreases properties@,
{
    let ghost before = text::pairs(out@);
    let ghost all = property_headers(properties@, arguments@, 0);
    let ghost mut done: Seq<(Seq<char>, Seq<char>)> = Seq::empty();
    let mut k: usize = 0;
    proof {
        assert(before + done =~= before);
        assert(done + property_headers(properties@, arguments@, 0) =~= all);
    }
    while k < properties.len()
        invariant
            k <= properties@.len(),
            all == property_headers(properties@, arguments@, 0),
            text::pairs(out@) == before + done,
            done + property_headers(properties@, arguments@, k as int) == all,
        decreases properties@.len() - k,
    {
        let property = &properties[k].1;
        let key = properties[k].0.as_str();
        let argument = find_member(arguments, key);
        let ghost start = text::pairs(out@);
        if let Some(Json::Text(header)) = property.get("x-mcp-header") {
            if let Some(arg) = argument {
                if let Some(value) = header_value(arg) {
                    let name = cat2("mcp-param-", header.as_str());
                    let ghost was = out@;
                    out.push((name, value));
                    assert(text::pairs(out@) =~= text::pairs(was).push((name@, value@)));
                }
            }
        }
        let ghost own = own_header(
            *property,
            json::member_from(arguments@, key@, 0),
        );
        assert(text::pairs(out@) =~= start + own);
        let ghost middle = text::pairs(out@);
        let ghost mut nested: Seq<(Seq<char>, Seq<char>)> = Seq::empty();
        if let Some(Json::Object(inner)) = property.get("properties") {
            if let Some(Json::Object(inner_arguments)) = argument {
                proof {
                    lemma_nested_smaller(properties@, k as int);
                    nested = property_headers(inner@, inner_arguments@, 0);
                }
                push_property_headers(inner, inner_arguments, out);
            }
        }
        proof {
            assert(text::pairs(out@) =~= middle + nested);
            let rest = property_headers(properties@, arguments@, k + 1);
            assert(property_headers(properties@, arguments@, k as int) == own + nested + rest);
            assert(done + (own + nested + rest) =~= (done + own + nested) + rest);
            done = done + own + nested;
            assert(text::pairs(out@) =~= before + done);
        }
        k = k + 1;
    }
    proof {
        assert(done =~= all);
    }
}

/// The headers that a schema and the arguments give.
pub open spec fn schema_headers(schema: Json, arguments: Json) -> Seq<(Seq<char>, Seq<char>)> {
    match (nested_properties(schema), arguments) {
        (Some(properties), Json::Object(members)) => property_headers(properties, members@, 0),
        _ => Seq::empty(),
    }
}

/// Adds the headers that a schema and the arguments give.
pub fn collect_x_mcp_headers(schema: &Json, arguments: &Json, out: &mut Vec<(String, String)>)
    ensures
        text::pairs(final(out)@) == text::pairs(old(out)@) + schema_headers(*schema, *arguments),
{
    let ghost before = text::pairs(out@);
    if let Some(Json::Object(properties)) = schema.get("properties") {
        if let Json::Object(members) = arguments {
            push_property_headers(properties, members, out);
            return;
        }
    }
    assert(before + Seq::<(Seq<char>, Seq<char>)>::empty() =~= before);
}

/// A tool of a server: its name and the schema of its arguments.
#[derive(Debug)]
pub struct ToolSchema {
    pub name: String,
    pub input_schema: Json,
}

/// The tool of that name, from the `k`-th on.
pub open spec fn tool_from(tools: Seq<ToolSchema>, name: Seq<char>, k: int) -> Option<ToolSchema>
    decreases tools.len() - k,
{
    if k >= tools.len() {
        None
    } else if tools[k].name@ == name {
        Some(tools[k])
    } else {
        tool_from(tools, name, k + 1)
    }
}

/// The text at a member, or nothing.
pub open spec fn text_member(value: Json, name: Seq<char>) -> Option<Seq<char>> {
    match json::member(value, name) {
        Some(Json::Text(s)) => Some(s@),
        _ => None,
    }
}

/// The parameters of a message; a message without some has none.
pub open spec fn params_of(message: Json) -> Json {
    match json::member(message, "params"@) {
        Some(params) => params,
        None => Json::Null,
    }
}

/// The headers for the arguments of a tool call: those that the schema of the
/// called tool asks for. Other messages have none.
pub open spec fn param_headers(tools: Seq<ToolSchema>, message: Json) -> Seq<
    (Seq<char>, Seq<char>),
> {
    let params = params_of(message);
    let name = match text_member(params, "name"@) {
        Some(name) => name,
        None => ""@,
    };
    if text_member(message, "method"@) != Some("tools/call"@) {
        Seq::empty()
    } else {
        match (tool_from(tools, name, 0), json::member(params, "arguments"@)) {
            (Some(tool), Some(arguments)) => schema_headers(tool.input_schema, arguments),
            _ => Seq::empty(),
        }
    }
}

/// The tool of that name.
fn find_tool<'a>(tools: &'a Vec<ToolSchema>, name: &str) -> (r: Option<&'a ToolSchema>)
    ensures
        match r {
            Some(t) => tool_from(tools@, name@, 0) == Some(*t),
            None => tool_from(tools@, name@, 0) is None,
        },
{
    let mut k: usize = 0;
    while k < tools.len()
        invariant
            k <= tools@.len(),
            tool_from(tools@, name@, 0) == tool_from(tools@, name@, k as int),
        decreases tools@.len() - k,
    {
        if str_eq(tools[k].name.as_str(), name) {
            return Some(&tools[k]);
        }
        k = k + 1;
    }
    None
}

/// The text at a member.
fn get_text<'a>(value: &'a Json, name: &str) -> (r: Option<&'a str>)
    ensures
        text::opt_str(r) == text_member(*value, name@),
{
    match value.get(name) {
        Some(Json::Text(s)) => Some(s.as_str()),
        _ => None,
    }
}

/// The headers for the arguments of a tool call.
pub fn mcp_param_headers(tools: &Vec<ToolSchema>, message: &Json) -> (r: Vec<(String, String)>)
    ensures
        text::pairs(r@) == param_headers(tools@, *message),
{
    let mut out: Vec<(String, String)> = Vec::new();
    assert(text::pairs(out@) =~= Seq::<(Seq<char>, Seq<char>)>::empty());
    let is_call = match get_text(message, "method") {
        Some(method) => str_eq(method, "tools/call"),
        None => false,
    };
    if !is_call {
        return out;
    }
    let null = Json::Null;
    let params = match message.get("params") {
        Some(params) => params,
        None => &null,
    };
    let name = match get_text(params, "name") {
        Some(name) => name,
        None => "",
    };
    if let Some(tool) = find_tool(tools, name) {
        if let Some(arguments) = params.get("arguments") {
            collect_x_mcp_headers(&tool.input_schema, arguments, &mut out);
            assert(text::pairs(out@) =~= schema_headers(tool.input_schema, *arguments));
        }
    }
    out
}

/// What an outgoing message says of itself.
#[derive(Debug)]
pub struct MessageFacts {
    pub id: Option<u64>,
    pub method: String,
    /// The tool or resource that it is about.
    pub target: Option<String>,
}

/// The tool or resource that a message is about: the name among its
/// parameters, or else the address.
pub open spec fn target_of(message: Seq<char>) -> Option<Seq<char>> {
    if json::has_value(message, "/params/name"@) {
        json::string_value(message, "/params/name"@)
    } else {
        json::string_value(message, "/params/uri"@)
    }
}

/// The method of a message, or nothing.
pub open spec fn method_of(message: Seq<char>) -> Seq<char> {
    match json::string_value(message, "/method"@) {
        Some(method) => method,
        None => ""@,
    }
}

/// What an outgoing message says of itself; a text that is no document is not
/// sent.
pub fn message_facts(message: &str) -> (r: Option<MessageFacts>)
    ensures
        match r {
            None => !json::is_document(message@),
            Some(facts) => {
                &&& json::is_document(message@)
                &&& json::opt_u64(facts.id) == json::unsigned_value(message@, "/id"@)
                &&& facts.method@ == method_of(message@)
                &&& text::opt_text(facts.target) == target_of(message@)
            },
        },
{
    if !reads(message) {
        return None;
    }
    let method = match string_at(message, "/method") {
        Some(method) => method,
        None => owned(""),
    };
    let target = if has_at(message, "/params/name") {
        string_at(message, "/params/name")
    } else {
        string_at(message, "/params/uri")
    };
    Some(MessageFacts { id: unsigned_at(message, "/id"), method, target })
}

/// An optional header as a list.
pub open spec fn optional_header(name: Seq<char>, value: Option<Seq<char>>) -> Seq<
    (Seq<char>, Seq<char>),
> {
    match value {
        Some(value) => seq![(name, value)],
        None => Seq::empty(),
    }
}

/// The headers of a request over streamable HTTP.
pub open spec fn post_headers(
    protocol_version: Seq<char>,
    method: Seq<char>,
    session_id: Option<Seq<char>>,
    target: Option<Seq<char>>,
    params: Seq<(Seq<char>, Seq<char>)>,
) -> Seq<(Seq<char>, Seq<char>)> {
    seq![
        ("accept"@, "application/json, text/event-stream"@),
        ("content-type"@, "application/json"@),
        ("mcp-protocol-version"@, protocol_version),
        ("mcp-method"@, method),
    ] + optional_header("mcp-session-id"@, session_id) + optional_header("mcp-name"@, target)
        + params
}

/// Adds a header.
fn push_header(headers: &mut Vec<(String, String)>, name: &str, value: &str)
    ensures
        text::pairs(final(headers)@) == text::pairs(old(headers)@).push((name@, value@)),
{
    let ghost was = headers@;
    headers.push((owned(name), owned(value)));
    assert(text::pairs(headers@) =~= text::pairs(was).push((name@, value@)));
}

/// The headers of a request over streamable HTTP.
pub fn request_headers(
    protocol_version: &str,
    facts: &MessageFacts,
    session_id: Option<&str>,
    params: &Vec<(String, String)>,
) -> (r: Vec<(String, String)>)
    ensures
        text::pairs(r@) == post_headers(
            protocol_version@,
            facts.method@,
            text::opt_str(session_id),
            text::opt_text(facts.target),
            text::pairs(params@),
        ),
{
    let mut headers: Vec<(String, String)> = Vec::new();
    push_header(&mut headers, "accept", "application/json, text/event-stream");
    push_header(&mut headers, "content-type", "application/json");
    push_header(&mut headers, "mcp-protocol-version", protocol_version);
    push_header(&mut headers, "mcp-method", facts.method.as_str());
    let ghost fixed = text::pairs(headers@);
    proof {
        assert(fixed =~= seq![
            ("accept"@, "application/json, text/event-stream"@),
            ("content-type"@, "application/json"@),
            ("mcp-protocol-version"@, protocol_version@),
            ("mcp-method"@, facts.method@),
        ]);
    }
    if let Some(session) = session_id {
        push_header(&mut headers, "mcp-session-id", session);
    }
    let ghost with_session = fixed + optional_header(
        "mcp-session-id"@,
        text::opt_str(session_id),
    );
    assert(text::pairs(headers@) =~= with_session);
    if let Some(target) = &facts.target {
        push_header(&mut headers, "mcp-name", target.as_str());
    }
    let ghost with_target = with_session + optional_header(
        "mcp-name"@,
        text::opt_text(facts.target),
    );
    assert(text::pairs(headers@) =~= with_target);
    let ghost all = text::pairs(params@);
    let mut k: usize = 0;
    assert(with_target + all.take(0) =~= with_target);
    while k < params.len()
        invariant
            k <= params@.len(),
            all == text::pairs(params@),
            text::pairs(headers@) == with_target + all.take(k as int),
        decreases params@.len() - k,
    {
        push_header(&mut headers, params[k].0.as_str(), params[k].1.as_str());
        assert(with_target + all.take(k + 1) =~= (with_target + all.take(k as int)).push(
            all[k as int],
        ));
        k = k + 1;
    }
    assert(all.take(all.len() as int) =~= all);
    headers
}

/// What the status of an answer means.
#[derive(Debug, Clone, Copy, PartialEq, Eq, Structural)]
pub enum PostAnswer {
    Refused { status: u16 },
    /// Taken, with nothing to read.
    Empty,
    ReadBody,
}

/// What the status of an answer says.
pub open spec fn answer_of(status: u16) -> PostAnswer {
    if !is_success(status) {
        PostAnswer::Refused { status }
    } else if status == 202 || status == 204 {
        PostAnswer::Empty
    } else {
        PostAnswer::ReadBody
    }
}

/// What the status of an answer means.
pub fn post_answer(status: u16) -> (r: PostAnswer)
    ensures
        r == answer_of(status),
{
    if status < 200 || status >= 300 {
        PostAnswer::Refused { status }
    } else if status == 202 || status == 204 {
        PostAnswer::Empty
    } else {
        PostAnswer::ReadBody
    }
}

/// Whether an event is a message: it says so, or says nothing of its kind.
pub open spec fn is_message(event: EventView) -> bool {
    event.event == "message"@ || event.event.len() == 0
}

/// The data of the first message from the `k`-th event on that has some.
pub open spec fn first_data(events: Seq<EventView>, k: int) -> Seq<char>
    decreases events.len() - k,
{
    if k >= events.len() {
        Seq::empty()
    } else if is_message(events[k]) && events[k].data.len() > 0 {
        events[k].data
    } else {
        first_data(events, k + 1)
    }
}

/// The document in the body of an answer: the body, or the first message of an
/// event stream.
pub open spec fn answer_document(content_type: Seq<char>, body: Seq<char>) -> Seq<char> {
    if text::starts_with(content_type, "text/event-stream"@) {
        first_data(events_of(body), 0)
    } else {
        body
    }
}

/// Whether an event is a message.
fn tells_message(event: &SseEvent) -> (r: bool)
    ensures
        r == is_message(event@),
{
    let name = event.event.as_str();
    name.unicode_len() == 0 || str_eq(name, "message")
}

/// The data of the first message that has some.
fn find_data(events: &Vec<SseEvent>) -> (r: String)
    ensures
        r@ == first_data(sse::event_views(events@), 0),
{
    let ghost views = sse::event_views(events@);
    let mut k: usize = 0;
    while k < events.len()
        invariant
            k <= events@.len(),
            views == sse::event_views(events@),
            first_data(views, 0) == first_data(views, k as int),
        decreases events@.len() - k,
    {
        assert(views[k as int] == events@[k as int]@);
        if tells_message(&events[k]) && events[k].data.as_str().unicode_len() > 0 {
            return owned(events[k].data.as_str());
        }
        k = k + 1;
    }
    String::new()
}

/// The document in the body of an answer.
pub fn post_body(content_type: &str, body: &str) -> (r: String)
    ensures
        r@ == answer_document(content_type@, body@),
{
    if begins_with(content_type, "text/event-stream") {
        let mut decoder = SseDecoder::default();
        find_data(&decoder.feed_text(body))
    } else {
        owned(body)
    }
}

// ---------------------------------------------------------------------------
// The round trip
// ---------------------------------------------------------------------------

/// The code of an error that the transport makes up.
pub const TRANSPORT_ERROR_CODE: i64 = -32000;

/// How far a round trip is.
#[derive(Debug, Clone, Copy, PartialEq, Eq, Structural)]
pub enum RoundtripPhase {
    Posting,
    Reinitializing,
    Reposting,
}

/// What came of it.
#[derive(Debug)]
pub enum RoundtripEvent {
    /// The request was answered with this document.
    Answered { document: String },
    TransportFailed { error: String },
    Refused { status: u16 },
    Reinitialized,
    ReinitializeFailed,
}

/// What a waiting caller is told.
#[derive(Debug)]
pub enum Reply {
    Nothing,
    /// The response in this document, where it is one.
    Document { document: String },
    /// An error for the request of that number.
    Error { id: u64, message: String },
}

/// What is to be done next.
#[derive(Debug)]
pub enum RoundtripStep {
    Reinitialize,
    Repost,
    Finish { mark_dead: bool, reply: Reply },
}

/// Whether an event can come in a phase.
pub open spec fn can_happen(phase: RoundtripPhase, event: RoundtripEvent) -> bool {
    match phase {
        RoundtripPhase::Posting | RoundtripPhase::Reposting => event is Answered
            || event is TransportFailed || event is Refused,
        RoundtripPhase::Reinitializing => event is Reinitialized || event is ReinitializeFailed,
    }
}

/// Whether a reply is the error `message` for the request, where it waits for
/// an answer.
pub open spec fn tells_error(reply: Reply, id: Option<u64>, message: Seq<char>) -> bool {
    match id {
        Some(n) => reply matches Reply::Error { id: i, message: m } && i == n && m@ == message,
        None => reply is Nothing,
    }
}

/// What the caller is told of a status.
pub open spec fn status_message(status: u16) -> Seq<char> {
    "MCP HTTP error: status "@ + text::decimal(status as nat)
}

/// An error for the request, where it waits for an answer.
fn error_reply(id: Option<u64>, message: String) -> (r: Reply)
    ensures
        tells_error(r, id, message@),
{
    match id {
        Some(id) => Reply::Error { id, message },
        None => Reply::Nothing,
    }
}

/// What the caller is told of a status.
fn status_text(status: u16) -> (r: String)
    ensures
        r@ == status_message(status),
{
    cat2("MCP HTTP error: status ", decimal_of(status as u64).as_str())
}

/// Whether a step is what follows an event of a round trip. A lost session is
/// started anew and the request posted once more; a broken transport, or a
/// session that cannot be started anew, marks the connection dead.
pub open spec fn follows(
    era: HttpEra,
    id: Option<u64>,
    phase: RoundtripPhase,
    event: RoundtripEvent,
    step: RoundtripStep,
) -> bool {
    match (phase, event) {
        (RoundtripPhase::Posting, RoundtripEvent::Answered { document }) => {
            &&& step matches RoundtripStep::Finish { mark_dead, reply }
            &&& !mark_dead
            &&& if id is Some {
                reply matches Reply::Document { document: d } && d@ == document@
            } else {
                reply is Nothing
            }
        },
        (RoundtripPhase::Posting, RoundtripEvent::TransportFailed { error }) => {
            &&& step matches RoundtripStep::Finish { mark_dead, reply }
            &&& mark_dead
            &&& tells_error(reply, id, "MCP transport error: "@ + error@)
        },
        (RoundtripPhase::Posting, RoundtripEvent::Refused { status }) => if status == 404
            && era is LegacyStreamable {
            step is Reinitialize
        } else {
            &&& step matches RoundtripStep::Finish { mark_dead, reply }
            &&& !mark_dead
            &&& tells_error(reply, id, status_message(status))
        },
        (RoundtripPhase::Reinitializing, RoundtripEvent::Reinitialized) => step is Repost,
        (RoundtripPhase::Reposting, RoundtripEvent::Answered { document }) => {
            &&& step matches RoundtripStep::Finish { mark_dead, reply }
            &&& !mark_dead
            &&& reply matches Reply::Document { document: d }
            &&& d@ == document@
        },
        _ => {
            &&& step matches RoundtripStep::Finish { mark_dead, reply }
            &&& mark_dead
            &&& tells_error(reply, id, status_message(404))
        },
    }
}

/// A caller that waits is always told something, and a transport that broke is
/// never used again.
pub proof fn law_waiting_callers_are_told(
    era: HttpEra,
    id: Option<u64>,
    phase: RoundtripPhase,
    event: RoundtripEvent,
    step: RoundtripStep,
)
    requires
        can_happen(phase, event),
        follows(era, id, phase, event, step),
    ensures
        step matches RoundtripStep::Finish { mark_dead, reply } ==> {
            &&& id is Some ==> !(reply is Nothing)
            &&& event is TransportFailed || event is ReinitializeFailed ==> mark_dead
            &&& event is Answered ==> !mark_dead
        },
{
}

/// What follows an event of a round trip.
pub fn roundtrip_step(
    era: HttpEra,
    id: Option<u64>,
    phase: RoundtripPhase,
    event: &RoundtripEvent,
) -> (r: RoundtripStep)
    requires
        can_happen(phase, *event),
    ensures
        follows(era, id, phase, *event, r),
{
    match (phase, event) {
        (RoundtripPhase::Posting, RoundtripEvent::Answered { document }) => {
            let reply = match id {
                Some(_) => Reply::Document { document: owned(document.as_str()) },
                None => Reply::Nothing,
            };
            RoundtripStep::Finish { mark_dead: false, reply }
        },
        (RoundtripPhase::Posting, RoundtripEvent::TransportFailed { error }) => {
            let reply = error_reply(id, cat2("MCP transport error: ", error.as_str()));
            RoundtripStep::Finish { mark_dead: true, reply }
        },
        (RoundtripPhase::Posting, RoundtripEvent::Refused { status }) => {
            if *status == 404 && era == HttpEra::LegacyStreamable {
                RoundtripStep::Reinitialize
            } else {
                let reply = error_reply(id, status_text(*status));
                RoundtripStep::Finish { mark_dead: false, reply }
            }
        },
        (RoundtripPhase::Reinitializing, RoundtripEvent::Reinitialized) => RoundtripStep::Repost,
        (RoundtripPhase::Reposting, RoundtripEvent::Answered { document }) => {
            let reply = Reply::Document { document: owned(document.as_str()) };
            RoundtripStep::Finish { mark_dead: false, reply }
        },
        _ => {
            let reply = error_reply(id, status_text(404));
            RoundtripStep::Finish { mark_dead: true, reply }
        },
    }
}

/// The session after the handshake was run anew; `shown` is the status as it
/// is shown.
pub fn reinitialized_session(status: u16, shown: &str, session_id: Option<&str>) -> (r: Result<
    Option<String>,
    String,
>)
    ensures
        match r {
            Ok(session) => is_success(status) && text::opt_text(session) == text::opt_str(
                session_id,
            ),
            Err(e) => !is_success(status) && e@ == "re-initialize got HTTP "@ + shown@,
        },
{
    if status >= 200 && status < 300 {
        Ok(owned_opt(session_id))
    } else {
        Err(cat2("re-initialize got HTTP ", shown))
    }
}

// ---------------------------------------------------------------------------
// The event stream transport
// ---------------------------------------------------------------------------

/// What an event of the stream means.
#[derive(Debug)]
pub enum StreamNews {
    /// The address to post messages to.
    Endpoint { endpoint: String },
    /// A message, where its data is one.
    Message { document: String },
    Ignored,
}

/// Whether `r` is what an event of a stream says.
pub open spec fn is_news(event: EventView, r: StreamNews) -> bool {
    if event.event == "endpoint"@ {
        r matches StreamNews::Endpoint { endpoint } && endpoint@ == event.data
    } else if is_message(event) {
        r matches StreamNews::Message { document } && document@ == event.data
    } else {
        r is Ignored
    }
}

/// What an event of the stream means.
pub fn stream_news(event: &SseEvent) -> (r: StreamNews)
    ensures
        is_news(event@, r),
{
    if str_eq(event.event.as_str(), "endpoint") {
        StreamNews::Endpoint { endpoint: owned(event.data.as_str()) }
    } else if tells_message(event) {
        StreamNews::Message { document: owned(event.data.as_str()) }
    } else {
        StreamNews::Ignored
    }
}

/// Whether a message was taken; anything else ends the connection.
pub fn message_taken(status: u16) -> (r: bool)
    ensures
        r == is_success(status),
{
    status >= 200 && status < 300
}

/// Whether the connection is checked again: it was alive, and the check did
/// not find it dead.
pub fn keep_checking(alive_before: bool, refreshed: bool, alive_after: bool) -> (r: bool)
    ensures
        r == (alive_before && (refreshed || alive_after)),
{
    alive_before && (refreshed || alive_after)
}

/// The text of a URL with another path and another query, as `reqwest::Url`
/// gives it.
pub uninterp spec fn url_with(
    base: Seq<char>,
    path: Seq<char>,
    query: Option<Seq<char>>,
) -> Option<Seq<char>>;

/// The URL that `reqwest::Url` makes of a reference against a base.
pub uninterp spec fn url_joined(base: Seq<char>, reference: Seq<char>) -> Option<Seq<char>>;

/// Trusted: `reqwest::Url::parse` reads a URL, `set_path` and `set_query`
/// replace two of its parts, and `as_str` gives its text. There is none where
/// the text is no URL. The syntax of URLs is left unsaid. The two parts are
/// taken out and not set: a text that grows past four gigabytes panics.
#[verifier::external_body]
fn url_with_parts(base: &str, path: &str, query: Option<&str>) -> (r: Option<String>)
    requires
        path@.len() == 0,
        query is None,
    ensures
        text::opt_text(r) == url_with(base@, path@, text::opt_str(query)),
{
    let mut url = reqwest::Url::parse(base).ok()?;
    url.set_path(path);
    url.set_query(query);
    Some(url.as_str().to_string())
}

/// Trusted: `reqwest::Url::join` resolves a reference against a URL. There is
/// no result where the base is no URL or the reference does not resolve. The
/// syntax of URLs is left unsaid.
#[verifier::external_body]
fn join_url(base: &str, reference: &str) -> (r: Option<String>)
    ensures
        text::opt_text(r) == url_joined(base@, reference@),
{
    let url = reqwest::Url::parse(base).ok()?;
    url.join(reference).ok().map(|joined| joined.to_string())
}

/// The address that an endpoint event names, given what the URL library makes
/// of it: a full address as it is, a path on the server's own root, anything
/// else against the base; and plainly behind the base where that fails.
pub open spec fn endpoint_address(
    base: Seq<char>,
    endpoint: Seq<char>,
    root: Option<Seq<char>>,
    joined: Option<Seq<char>>,
) -> Seq<char> {
    if text::starts_with(endpoint, "http://"@) || text::starts_with(endpoint, "https://"@) {
        endpoint
    } else if text::starts_with(endpoint, "/"@) && root is Some {
        text::trim_end_char(root->0, '/') + endpoint
    } else if !text::starts_with(endpoint, "/"@) && joined is Some {
        joined->0
    } else {
        text::trim_end_char(base, '/') + "/"@ + text::trim_start_char(endpoint, '/')
    }
}

/// The address that an endpoint event names, given what the URL library makes
/// of it.
pub fn endpoint_from(base: &str, endpoint: &str, root: Option<String>, joined: Option<String>) -> (r:
    String)
    ensures
        r@ == endpoint_address(base@, endpoint@, text::opt_text(root), text::opt_text(joined)),
{
    if begins_with(endpoint, "http://") || begins_with(endpoint, "https://") {
        return owned(endpoint);
    }
    if begins_with(endpoint, "/") {
        if let Some(root) = root {
            return cat2(trimmed_end_char(root.as_str(), '/'), endpoint);
        }
    } else if let Some(joined) = joined {
        return joined;
    }
    cat3(trimmed_end_char(base, '/'), "/", trimmed_start_char(endpoint, '/'))
}

/// The root of the server at a URL: the URL without its path and query.
pub open spec fn url_root(base: Seq<char>) -> Option<Seq<char>> {
    url_with(base, ""@, None)
}

/// The address that an endpoint event names.
pub fn resolve_endpoint(base: &str, endpoint: &str) -> (r: String)
    ensures
        r@ == endpoint_address(
            base@,
            endpoint@,
            url_root(base@),
            url_joined(base@, endpoint@),
        ),
{
    proof {
        reveal_strlit("");
    }
    endpoint_from(base, endpoint, url_with_parts(base, "", None), join_url(base, endpoint))
}

// ---------------------------------------------------------------------------
// Laws
// ---------------------------------------------------------------------------

proof fn lemma_strings_push(items: Seq<Option<Seq<char>>>, item: Option<Seq<char>>, k: int)
    requires
        0 <= k <= items.len(),
    ensures
        strings_from(items.push(item), k) == match item {
            Some(s) => strings_from(items, k).push(s),
            None => strings_from(items, k),
        },
    decreases items.len() - k,
{
    let all = items.push(item);
    if k < items.len() {
        lemma_strings_push(items, item, k + 1);
        assert(all[k] == items[k]);
    } else {
        assert(all[k] == item);
        assert(strings_from(all, k + 1) =~= Seq::empty());
        assert(strings_from(items, k) =~= Seq::empty());
    }
    assert(strings_from(all, k) =~= match item {
        Some(s) => strings_from(items, k).push(s),
        None => strings_from(items, k),
    });
}

/// Of the items of a list the texts count, in order, and nothing else.
pub proof fn law_texts_of_a_list_are_kept(items: Seq<Option<Seq<char>>>, s: Seq<char>)
    ensures
        strings_from(items.push(Some(s)), 0) == strings_from(items, 0).push(s),
        strings_from(items.push(None), 0) == strings_from(items, 0),
        strings_from(Seq::empty(), 0).len() == 0,
{
    lemma_strings_push(items, Some(s), 0);
    lemma_strings_push(items, None, 0);
}

/// A refusal means a server of the modern era where its code says that the
/// method or its parameters are not known, or that the version is not: there
/// the version is the one spoken here where the server has it or names none,
/// and else the first that the server has.
pub proof fn law_refusals_tell_the_version(
    code: int,
    first: Seq<char>,
    others: Seq<Option<Seq<char>>>,
    supported: Option<Seq<Option<Seq<char>>>>,
)
    ensures
        version_after(None, supported) is None,
        version_after(Some(code), supported) is Some <==> code == -32601 || code == -32602 || code
            == -32022,
        version_after(Some(-32601), supported) == Some(MODERN_PROTOCOL_VERSION@),
        version_after(Some(-32602), supported) == Some(MODERN_PROTOCOL_VERSION@),
        version_after(Some(-32022), None) == Some(MODERN_PROTOCOL_VERSION@),
        version_after(Some(-32022), Some(Seq::empty())) == Some(MODERN_PROTOCOL_VERSION@),
        !strings_from(others, 0).contains(MODERN_PROTOCOL_VERSION@) && strings_from(others, 0).len()
            > 0 ==> version_after(Some(-32022), Some(others)) == Some(strings_from(others, 0)[0]),
        version_after(Some(-32022), Some(others.push(Some(MODERN_PROTOCOL_VERSION@)))) == Some(
            MODERN_PROTOCOL_VERSION@,
        ),
{
    lemma_strings_push(others, Some(MODERN_PROTOCOL_VERSION@), 0);
    let all = strings_from(others, 0).push(MODERN_PROTOCOL_VERSION@);
    assert(all.last() == MODERN_PROTOCOL_VERSION@);
    assert(all.contains(MODERN_PROTOCOL_VERSION@));
}

proof fn lemma_first_message(events: Seq<EventView>, k: int)
    requires
        0 <= k,
    ensures
        first_message(events, k) matches Some(data) ==> exists|i: int|
            k <= i < events.len() && (#[trigger] events[i]).data == data && (events[i].event
                == "message"@ || events[i].data.len() > 0) && forall|j: int|
                k <= j < i ==> (#[trigger] events[j]).event != "message"@ && events[j].data.len()
                    == 0,
        first_message(events, k) is None ==> forall|j: int|
            k <= j < events.len() ==> (#[trigger] events[j]).event != "message"@
                && events[j].data.len() == 0,
    decreases events.len() - k,
{
    if k < events.len() {
        if events[k].event == "message"@ || events[k].data.len() > 0 {
            assert(events[k].data == first_message(events, k)->0);
        } else {
            lemma_first_message(events, k + 1);
            if let Some(data) = first_message(events, k) {
                let i = choose|i: int|
                    k + 1 <= i < events.len() && (#[trigger] events[i]).data == data && (
                    events[i].event == "message"@ || events[i].data.len() > 0) && forall|j: int|
                        k + 1 <= j < i ==> (#[trigger] events[j]).event != "message"@
                            && events[j].data.len() == 0;
                assert(events[i].data == data);
            }
        }
    }
}

/// The answer to the handshake is the text itself where it begins with a
/// brace, behind white space; else it is the data of the first event that is a
/// message or has data.
pub proof fn law_handshakes_are_documents_or_events(space: Seq<char>, rest: Seq<char>, body: Seq<char>)
    requires
        text::is_space(space),
        text::trim_start(body).len() == 0 || text::trim_start(body)[0] != '{',
    ensures
        initialize_document(space + seq!['{'] + rest) == Some(space + seq!['{'] + rest),
        initialize_document(body) matches Some(data) ==> exists|i: int|
            0 <= i < events_of(body).len() && (#[trigger] events_of(body)[i]).data == data && (
            events_of(body)[i].event == "message"@ || events_of(body)[i].data.len() > 0) && forall|
                j: int,
            |
                0 <= j < i ==> (#[trigger] events_of(body)[j]).event != "message"@ && events_of(
                    body,
                )[j].data.len() == 0,
        initialize_document(body) is None ==> forall|j: int|
            0 <= j < events_of(body).len() ==> (#[trigger] events_of(body)[j]).event != "message"@
                && events_of(body)[j].data.len() == 0,
{
    reveal_strlit("{");
    let whole = space + seq!['{'] + rest;
    lemma_space_in_front(space, seq!['{'] + rest);
    assert(whole =~= space + (seq!['{'] + rest));
    let core = seq!['{'] + rest;
    assert(core.take(1) =~= "{"@);
    assert(text::starts_with(core, "{"@));
    lemma_first_message(events_of(body), 0);
    if text::starts_with(text::trim_start(body), "{"@) {
        assert(text::trim_start(body).take(1)[0] == '{');
    }
}

proof fn lemma_space_in_front(space: Seq<char>, s: Seq<char>)
    requires
        text::is_space(space),
        s.len() > 0 && !text::is_white_space(s[0]),
    ensures
        text::trim_start(space + s) == s,
    decreases space.len(),
{
    let all = space + s;
    if space.len() > 0 {
        assert(text::is_white_space(space[0]));
        assert(all.drop_first() =~= space.drop_first() + s);
        assert forall|i: int| 0 <= i < space.drop_first().len() implies text::is_white_space(
            #[trigger] space.drop_first()[i],
        ) by {
            assert(space.drop_first()[i] == space[i + 1]);
        }
        lemma_space_in_front(space.drop_first(), s);
    } else {
        assert(all =~= s);
    }
}

/// A handshake succeeds with the version of the server exactly where the
/// answer is one, has a result, and the result names a version.
pub proof fn law_handshakes_need_a_version(
    is_answer: bool,
    has_result: bool,
    version: Option<Seq<char>>,
)
    ensures
        handshake_says(is_answer, has_result, version) is Ok <==> is_answer && has_result
            && version is Some,
        handshake_says(is_answer, has_result, version) matches Ok(v) ==> version == Some(v),
{
}

/// How a probe goes: an answer to `initialize` is read, a refusal of it too,
/// and after a refusal that is not of the modern era the old stream is tried.
/// A probe that fails names the server, or says what was wrong with the
/// answer; it ends in the era that the server showed, with its session and its
/// version.
pub proof fn law_probes_end_in_the_era_shown(
    name: Seq<char>,
    state: ProbeState,
    event: ProbeEvent,
    r: ProbeState,
)
    requires
        can_come(state, event),
        probes(name, state, event, r),
    ensures
        event is SendFailed || event is TimedOut ==> r is Failed,
        r is ReadingResult ==> state is Initializing && (event matches ProbeEvent::Answered {
            status,
            session_id,
            ..
        } && 200 <= status < 300 && text::opt_text(r->ReadingResult_session_id) == text::opt_text(
            session_id,
        )),
        r is ReadingRefusal ==> state is Initializing && (event matches ProbeEvent::Answered {
            status,
            ..
        } && 400 <= status < 500),
        r is TryingSse ==> state is ReadingRefusal,
        r is ReadingStream ==> state is TryingSse && (event matches ProbeEvent::Answered {
            status,
            ..
        } && 200 <= status < 300),
        !(r is Initializing),
        state is Initializing && (event matches ProbeEvent::Answered { status, .. } && (status < 200
            || status >= 500 || 300 <= status < 400)) ==> r is Failed,
        r matches ProbeState::Done { outcome } ==> match outcome {
            ProbeOutcome::Modern { version } => state is ReadingRefusal && (
            event matches ProbeEvent::Body { body } && modern_version(body@) == Some(version@)),
            ProbeOutcome::LegacyStreamable { init, session_id, protocol_version } => (
            state matches ProbeState::ReadingResult { session_id: session } && text::opt_text(
                session_id,
            ) == text::opt_text(session)) && (event matches ProbeEvent::Body { body }
                && initialize_document(body@) == Some(init@) && version_in(init@) == Ok::<
                Seq<char>,
                Seq<char>,
            >(protocol_version@)),
            ProbeOutcome::LegacySse => state is ReadingStream && (
            event matches ProbeEvent::FirstEvent { event: Some(first) } && first@ == "endpoint"@),
        },
        r matches ProbeState::Failed { message } ==> !(state is ReadingResult)
            ==> text::starts_with(message@, "MCP ["@ + name + "]: "@),
{
    if let ProbeState::Failed { message } = r {
        if !(state is ReadingResult) {
            let front = "MCP ["@ + name + "]: "@;
            let what = message@.skip(front.len() as int);
            assert(message@ =~= front + what);
            text::law_stripping_undoes_putting(what, front);
        }
    }
}

/// The name of a header is one to as many characters as can be, each a letter,
/// a digit or one of a few marks: none is white space, a control character, a
/// colon, a bracket, a quote, or outside ASCII.
pub proof fn law_header_names_are_tokens(name: Seq<char>, i: int)
    requires
        is_header_name(name),
        0 <= i < name.len(),
    ensures
        33 <= name[i] as int && name[i] as int <= 126,
        name[i] != ':' && name[i] != '"' && name[i] != '(' && name[i] != ')' && name[i] != ','
            && name[i] != '/' && name[i] != ';' && name[i] != '<' && name[i] != '=' && name[i]
            != '>' && name[i] != '?' && name[i] != '@' && name[i] != '[' && name[i] != '\\'
            && name[i] != ']' && name[i] != '{' && name[i] != '}',
        name.len() <= 65535,
        !is_header_name(Seq::empty()),
{
    assert(is_token_char(name[i]));
}

/// Letters, digits and hyphens make the name of a header.
pub proof fn law_plain_words_are_header_names(name: Seq<char>)
    requires
        0 < name.len() <= 65535,
        forall|i: int| #![trigger name[i]]
            0 <= i < name.len() ==> text::is_digit(name[i]) || ('a' <= name[i] && name[i] <= 'z')
                || ('A' <= name[i] && name[i] <= 'Z') || name[i] == '-',
    ensures
        is_header_name(name),
{
}

/// The value of a header holds no line feed, carriage return or other control
/// character but the tab; everything else may stand there.
pub proof fn law_header_values_hold_no_controls(value: Seq<char>)
    ensures
        is_header_value(value) ==> !value.contains('\n') && !value.contains('\r')
            && !value.contains('\0') && !value.contains('\u{7f}') && !value.contains('\u{1b}'),
        (forall|i: int| #![trigger value[i]]
            0 <= i < value.len() ==> value[i] == '\t' || (32 <= value[i] as u32 && value[i] as u32
                != 127)) ==> is_header_value(value),
        is_header_value(value) ==> is_header_value(value.push('\t')) && is_header_value(
            value.push('é'),
        ),
{
}

proof fn lemma_header_error(headers: Seq<(Seq<char>, Seq<char>)>, k: int)
    requires
        0 <= k,
    ensures
        header_error(headers, k) is None <==> forall|i: int|
            k <= i < headers.len() ==> is_header_name((#[trigger] headers[i]).0)
                && is_header_value(headers[i].1),
        header_error(headers, k) matches Some(e) ==> exists|i: int|
            k <= i < headers.len() && text::ends_with(e, (#[trigger] headers[i]).0) && !(
            is_header_name(headers[i].0) && is_header_value(headers[i].1)) && forall|j: int|
                k <= j < i ==> is_header_name((#[trigger] headers[j]).0) && is_header_value(
                    headers[j].1,
                ),
    decreases headers.len() - k,
{
    if k < headers.len() {
        let name = headers[k].0;
        text::law_stripping_undoes_putting("invalid MCP header name: "@, name);
        text::law_stripping_undoes_putting("invalid value for MCP header "@, name);
        if is_header_name(name) && is_header_value(headers[k].1) {
            lemma_header_error(headers, k + 1);
            if let Some(e) = header_error(headers, k) {
                let i = choose|i: int|
                    k + 1 <= i < headers.len() && text::ends_with(e, (#[trigger] headers[i]).0) && !(
                    is_header_name(headers[i].0) && is_header_value(headers[i].1)) && forall|
                        j: int,
                    |
                        k + 1 <= j < i ==> is_header_name((#[trigger] headers[j]).0)
                            && is_header_value(headers[j].1);
                assert(text::ends_with(e, headers[i].0));
            }
        } else {
            assert(text::ends_with(header_error(headers, k)->0, headers[k].0));
        }
    }
}

/// Headers are accepted where every one has a proper name and value; else the
/// error ends in the name of the first that has not.
pub proof fn law_the_first_bad_header_is_named(headers: Seq<(Seq<char>, Seq<char>)>)
    ensures
        header_error(headers, 0) is None <==> forall|i: int|
            0 <= i < headers.len() ==> is_header_name((#[trigger] headers[i]).0)
                && is_header_value(headers[i].1),
        header_error(headers, 0) matches Some(e) ==> exists|i: int|
            0 <= i < headers.len() && text::ends_with(e, (#[trigger] headers[i]).0) && !(
            is_header_name(headers[i].0) && is_header_value(headers[i].1)) && forall|j: int|
                0 <= j < i ==> is_header_name((#[trigger] headers[j]).0) && is_header_value(
                    headers[j].1,
                ),
{
    lemma_header_error(headers, 0);
}

/// The plan of a connection keeps what the probe found: the version and the
/// session. Only a modern server gets the request's particulars, only a
/// session is deleted at the end, and only the old stream still has to be
/// greeted.
pub proof fn law_plans_keep_what_was_found(outcome: ProbeOutcome, plan: ConnectionPlan)
    requires
        is_plan(outcome, plan),
    ensures
        plan.carries_meta <==> outcome is Modern,
        plan.deletes_session <==> plan.session_id is Some,
        plan.handshake is Initialize <==> outcome is LegacySse,
        plan.handshake is SendInitialized <==> outcome is LegacyStreamable,
        outcome matches ProbeOutcome::Modern { version } ==> text::opt_text(plan.protocol_version)
            == Some(version@) && plan.session_id is None && plan.era is Modern,
        outcome matches ProbeOutcome::LegacyStreamable { session_id, protocol_version, .. }
            ==> text::opt_text(plan.protocol_version) == Some(protocol_version@) && text::opt_text(
            plan.session_id,
        ) == text::opt_text(session_id) && plan.era is LegacyStreamable,
        outcome is LegacySse ==> plan.protocol_version is None && plan.session_id is None
            && plan.era is LegacySse,
{
}

/// A text, a number or a truth value can be the value of a header, as it is
/// written; anything else cannot.
pub proof fn law_scalars_can_be_header_values(value: Json)
    ensures
        header_text(value) is Some <==> value is Text || value is Number || value is Bool,
        value matches Json::Text(s) ==> header_text(value) == Some(s@),
        value matches Json::Number(n) ==> header_text(value) == Some(n@),
        value matches Json::Bool(b) ==> header_text(value) == Some(
            if b {
                seq!['t', 'r', 'u', 'e']
            } else {
                seq!['f', 'a', 'l', 's', 'e']
            },
        ),
{
    reveal_strlit("true");
    reveal_strlit("false");
    assert("true"@ =~= seq!['t', 'r', 'u', 'e']);
    assert("false"@ =~= seq!['f', 'a', 'l', 's', 'e']);
}

/// What a property with an argument adds to the headers: one of its own where
/// it names a header and the argument can be a value, and those of the
/// properties inside it.
pub open spec fn headers_of(property: Json, argument: Option<Json>) -> Seq<(Seq<char>, Seq<char>)> {
    own_header(property, argument) + (match (nested_properties(property), argument) {
        (Some(inner), Some(Json::Object(inner_arguments))) => property_headers(
            inner,
            inner_arguments@,
            0,
        ),
        _ => Seq::empty(),
    })
}

proof fn lemma_property_headers_push(
    properties: Seq<(String, Json)>,
    property: (String, Json),
    arguments: Seq<(String, Json)>,
    k: int,
)
    requires
        0 <= k <= properties.len(),
    ensures
        property_headers(properties.push(property), arguments, k) == property_headers(
            properties,
            arguments,
            k,
        ) + headers_of(property.1, json::member_from(arguments, property.0@, 0)),
    decreases properties.len() - k,
{
    let all = properties.push(property);
    let own = headers_of(property.1, json::member_from(arguments, property.0@, 0));
    if k < properties.len() {
        lemma_property_headers_push(properties, property, arguments, k + 1);
        assert(all[k] == properties[k]);
        let here = headers_of(
            properties[k].1,
            json::member_from(arguments, properties[k].0@, 0),
        );
        assert(property_headers(all, arguments, k) =~= here + property_headers(
            all,
            arguments,
            k + 1,
        ));
        assert(property_headers(properties, arguments, k) =~= here + property_headers(
            properties,
            arguments,
            k + 1,
        ));
        assert(property_headers(all, arguments, k) =~= property_headers(properties, arguments, k)
            + own);
    } else {
        assert(all[k] == property);
        assert(property_headers(all, arguments, k + 1) =~= Seq::empty());
        assert(property_headers(properties, arguments, k) =~= Seq::empty());
        assert(property_headers(all, arguments, k) =~= Seq::<(Seq<char>, Seq<char>)>::empty()
            + own);
    }
}

/// The headers of a tool's arguments are those of its properties, one behind
/// the other, each with the argument of its own name.
pub proof fn law_every_property_adds_its_headers(
    properties: Seq<(String, Json)>,
    property: (String, Json),
    arguments: Seq<(String, Json)>,
)
    ensures
        property_headers(properties.push(property), arguments, 0) == property_headers(
            properties,
            arguments,
            0,
        ) + headers_of(property.1, json::member_from(arguments, property.0@, 0)),
        property_headers(Seq::empty(), arguments, 0).len() == 0,
{
    lemma_property_headers_push(properties, property, arguments, 0);
}

/// A property adds a header of its own exactly where it names one in a text
/// and an argument is given that can be a value; the header bears that name
/// behind a fixed beginning, and the value of the argument.
pub proof fn law_properties_name_their_header(property: Json, argument: Option<Json>)
    ensures
        own_header(property, argument).len() <= 1,
        own_header(property, argument).len() == 1 <==> (json::member(
            property,
            "x-mcp-header"@,
        ) matches Some(Json::Text(_))) && (argument matches Some(a) && header_text(a) is Some),
        own_header(property, argument).len() == 1 ==> own_header(property, argument)[0].1
            == header_text(argument->0)->0 && text::strip_prefix(
            own_header(property, argument)[0].0,
            "mcp-param-"@,
        ) == text_member(property, "x-mcp-header"@),
{
    if let Some(Json::Text(header)) = json::member(property, "x-mcp-header"@) {
        text::law_stripping_undoes_putting(header@, "mcp-param-"@);
    }
}

/// Only a call of a tool that is known has headers for its arguments.
pub proof fn law_only_tool_calls_have_argument_headers(tools: Seq<ToolSchema>, message: Json)
    ensures
        param_headers(tools, message).len() > 0 ==> text_member(message, "method"@) == Some(
            "tools/call"@,
        ) && exists|i: int|
            0 <= i < tools.len() && (#[trigger] tools[i]).name@ == (match text_member(
                params_of(message),
                "name"@,
            ) {
                Some(name) => name,
                None => Seq::empty(),
            }),
{
    reveal_strlit("");
    assert(""@ =~= Seq::<char>::empty());
    let name = match text_member(params_of(message), "name"@) {
        Some(name) => name,
        None => ""@,
    };
    lemma_tool_from(tools, name, 0);
}

proof fn lemma_tool_from(tools: Seq<ToolSchema>, name: Seq<char>, k: int)
    requires
        0 <= k,
    ensures
        tool_from(tools, name, k) matches Some(tool) ==> exists|i: int|
            k <= i < tools.len() && (#[trigger] tools[i]).name@ == name && tools[i] == tool
                && forall|j: int| k <= j < i ==> (#[trigger] tools[j]).name@ != name,
        tool_from(tools, name, k) is None ==> forall|j: int|
            k <= j < tools.len() ==> (#[trigger] tools[j]).name@ != name,
    decreases tools.len() - k,
{
    if k < tools.len() {
        if tools[k].name@ == name {
            assert(tools[k].name@ == name);
        } else {
            lemma_tool_from(tools, name, k + 1);
            if let Some(tool) = tool_from(tools, name, k) {
                let i = choose|i: int|
                    k + 1 <= i < tools.len() && (#[trigger] tools[i]).name@ == name && tools[i]
                        == tool && forall|j: int|
                        k + 1 <= j < i ==> (#[trigger] tools[j]).name@ != name;
                assert(tools[i].name@ == name);
            }
        }
    }
}

/// A tool is found by its name: the first of that name, and none exactly where
/// there is no such tool.
pub proof fn law_tools_are_found_by_name(tools: Seq<ToolSchema>, name: Seq<char>)
    ensures
        tool_from(tools, name, 0) matches Some(tool) ==> exists|i: int|
            0 <= i < tools.len() && (#[trigger] tools[i]).name@ == name && tools[i] == tool
                && forall|j: int| 0 <= j < i ==> (#[trigger] tools[j]).name@ != name,
        tool_from(tools, name, 0) is None ==> forall|j: int|
            0 <= j < tools.len() ==> (#[trigger] tools[j]).name@ != name,
{
    lemma_tool_from(tools, name, 0);
}

/// The headers of a request: what is accepted and sent, the version and the
/// method, then the session and the target where there are such, then those of
/// the arguments, all of them and in order.
pub proof fn law_requests_carry_their_headers(
    version: Seq<char>,
    method: Seq<char>,
    session_id: Option<Seq<char>>,
    target: Option<Seq<char>>,
    params: Seq<(Seq<char>, Seq<char>)>,
)
    ensures
        ({
            let headers = post_headers(version, method, session_id, target, params);
            let own = headers.len() - params.len();
            let sessions = if session_id is Some {
                1int
            } else {
                0int
            };
            let targets = if target is Some {
                1int
            } else {
                0int
            };
            &&& own == 4 + sessions + targets
            &&& headers.skip(own) == params
            &&& headers[0] == ("accept"@, "application/json, text/event-stream"@)
            &&& headers[1] == ("content-type"@, "application/json"@)
            &&& headers[2] == ("mcp-protocol-version"@, version)
            &&& headers[3] == ("mcp-method"@, method)
            &&& session_id matches Some(id) ==> headers[4] == ("mcp-session-id"@, id)
            &&& target matches Some(name) ==> headers[4 + sessions] == ("mcp-name"@, name)
        }),
{
    let headers = post_headers(version, method, session_id, target, params);
    assert(headers.skip(headers.len() - params.len()) =~= params);
}

proof fn lemma_first_data(events: Seq<EventView>, k: int)
    requires
        0 <= k,
    ensures
        first_data(events, k).len() > 0 ==> exists|i: int|
            k <= i < events.len() && (#[trigger] events[i]).data == first_data(events, k)
                && is_message(events[i]) && forall|j: int|
                k <= j < i ==> !is_message(#[trigger] events[j]) || events[j].data.len() == 0,
        first_data(events, k).len() == 0 ==> forall|j: int|
            k <= j < events.len() ==> !is_message(#[trigger] events[j]) || events[j].data.len()
                == 0,
    decreases events.len() - k,
{
    if k < events.len() {
        if is_message(events[k]) && events[k].data.len() > 0 {
            assert(events[k].data == first_data(events, k));
        } else {
            lemma_first_data(events, k + 1);
            if first_data(events, k).len() > 0 {
                let i = choose|i: int|
                    k + 1 <= i < events.len() && (#[trigger] events[i]).data == first_data(
                        events,
                        k + 1,
                    ) && is_message(events[i]) && forall|j: int|
                        k + 1 <= j < i ==> !is_message(#[trigger] events[j])
                            || events[j].data.len() == 0;
                assert(events[i].data == first_data(events, k));
            }
        }
    }
}

/// An answer that is a stream of events is the data of its first message that
/// has any; an event is a message where its name says so or it has none. Any
/// other answer is the text that came.
pub proof fn law_answers_are_bodies_or_messages(kind: Seq<char>, body: Seq<char>)
    ensures
        !text::starts_with(kind, "text/event-stream"@) ==> answer_document(kind, body) == body,
        text::starts_with(kind, "text/event-stream"@) ==> {
            let data = answer_document(kind, body);
            let events = events_of(body);
            &&& data.len() > 0 ==> exists|i: int|
                0 <= i < events.len() && (#[trigger] events[i]).data == data && (events[i].event
                    == "message"@ || events[i].event.len() == 0) && forall|j: int|
                    0 <= j < i ==> !is_message(#[trigger] events[j]) || events[j].data.len() == 0
            &&& data.len() == 0 ==> forall|j: int|
                0 <= j < events.len() ==> !is_message(#[trigger] events[j]) || events[j].data.len()
                    == 0
        },
{
    lemma_first_data(events_of(body), 0);
}

/// A status outside the two hundreds is a refusal and is told as it came; of
/// the others the two that mean that nothing follows have no body.
pub proof fn law_statuses_are_read(status: u16)
    ensures
        answer_of(status) is Refused <==> status < 200 || status >= 300,
        answer_of(status) matches PostAnswer::Refused { status: told } ==> told == status,
        answer_of(status) is Empty <==> status == 202 || status == 204,
{
}

/// How a request ends. Its caller gets the document that came, unchanged, or an
/// error under the number of the request; who asked nothing gets nothing. Only
/// a lost session of the old era is opened again, once, and the connection
/// counts as dead where nothing came through, or the session could not be had
/// again.
pub proof fn law_requests_end_as_they_came(
    era: HttpEra,
    id: Option<u64>,
    phase: RoundtripPhase,
    event: RoundtripEvent,
    step: RoundtripStep,
)
    requires
        can_happen(phase, event),
        follows(era, id, phase, event, step),
    ensures
        step is Reinitialize <==> phase is Posting && era is LegacyStreamable && (
        event matches RoundtripEvent::Refused { status } && status == 404),
        step is Repost <==> phase is Reinitializing && event is Reinitialized,
        step matches RoundtripStep::Finish { reply: Reply::Document { document }, .. } ==> (
        event matches RoundtripEvent::Answered { document: came } && document@ == came@),
        step matches RoundtripStep::Finish { reply: Reply::Error { id: told, .. }, .. } ==> id
            == Some(told) && !(event is Answered),
        step matches RoundtripStep::Finish { mark_dead, .. } ==> (mark_dead
            <==> event is TransportFailed || !(phase is Posting) && !(event is Answered)),
        event is Answered ==> step is Finish && (id is Some ==> step->reply is Document),
        phase is Posting && id is Some ==> (event matches RoundtripEvent::TransportFailed { error }
            ==> (step matches RoundtripStep::Finish { reply: Reply::Error { message, .. }, .. }
            && text::ends_with(message@, error@))),
{
    if let RoundtripEvent::TransportFailed { error } = event {
        text::law_stripping_undoes_putting("MCP transport error: "@, error@);
    }
}

/// An event of a stream names the endpoint, or is a message, with the data it
/// carries; others say nothing.
pub proof fn law_streams_tell_endpoint_and_messages(event: EventView, news: StreamNews)
    requires
        is_news(event, news),
    ensures
        news is Endpoint <==> event.event == "endpoint"@,
        news is Message <==> event.event == "message"@ || event.event.len() == 0,
        news matches StreamNews::Endpoint { endpoint } ==> endpoint@ == event.data,
        news matches StreamNews::Message { document } ==> document@ == event.data,
{
    reveal_strlit("endpoint");
    reveal_strlit("message");
    assert("endpoint"@.len() != "message"@.len());
}

/// Where messages go: an endpoint that is an address is taken as it is, a path
/// from the root is put behind the root with one slash, and any other is
/// joined to the address by the rules for addresses.
pub proof fn law_endpoints_are_addresses_or_paths(
    base: Seq<char>,
    rest: Seq<char>,
    root: Seq<char>,
    joined: Option<Seq<char>>,
    any: Option<Seq<char>>,
)
    requires
        root.len() > 0 && root.last() != '/',
    ensures
        endpoint_address(base, "http://"@ + rest, any, joined) == "http://"@ + rest,
        endpoint_address(base, "https://"@ + rest, any, joined) == "https://"@ + rest,
        endpoint_address(base, seq!['/'] + rest, Some(root), joined) == root + seq!['/'] + rest,
        endpoint_address(base, seq!['/'] + rest, Some(root.push('/')), joined) == root + seq!['/']
            + rest,
        rest.len() > 0 && rest[0] != '/' && !text::starts_with(rest, "http://"@)
            && !text::starts_with(rest, "https://"@) && joined is Some ==> endpoint_address(
            base,
            rest,
            any,
            joined,
        ) == joined->0,
        rest.len() > 0 && rest[0] != '/' && !text::starts_with(rest, "http://"@)
            && !text::starts_with(rest, "https://"@) ==> endpoint_address(root, rest, any, None)
            == root + seq!['/'] + rest,
{
    reveal_strlit("/");
    reveal_strlit("http://");
    reveal_strlit("https://");
    assert("/"@ =~= seq!['/']);
    text::law_stripping_undoes_putting(rest, "http://"@);
    text::law_stripping_undoes_putting(rest, "https://"@);
    let path = seq!['/'] + rest;
    assert(path.take(1) =~= "/"@);
    assert(!text::starts_with(path, "http://"@)) by {
        if text::starts_with(path, "http://"@) {
            assert(path.take("http://"@.len() as int)[0] == path[0]);
        }
    }
    assert(!text::starts_with(path, "https://"@)) by {
        if text::starts_with(path, "https://"@) {
            assert(path.take("https://"@.len() as int)[0] == path[0]);
        }
    }
    assert(root + path =~= root + seq!['/'] + rest);
    assert(root.push('/').drop_last() =~= root);
    assert(text::trim_end_char(root.push('/'), '/') == text::trim_end_char(root, '/'));
    assert(text::trim_end_char(root, '/') == root);
    if rest.len() > 0 && rest[0] != '/' {
        assert(text::trim_start_char(rest, '/') == rest);
        if text::starts_with(rest, "/"@) {
            assert(rest.take(1)[0] == rest[0]);
        }
    }
}

/// The metadata of a request tells the version of the protocol, who the client
/// is, and that it can do nothing beyond the protocol, each under its name.
pub proof fn law_metadata_tells_version_and_client(
    meta: Json,
    version: Seq<char>,
    client_version: Seq<char>,
)
    requires
        is_request_meta(meta, version, client_version),
    ensures
        json::named(meta@, "io.modelcontextprotocol/protocolVersion"@) == Some(
            json::Tree::Text(version),
        ),
        json::named(meta@, "io.modelcontextprotocol/clientInfo"@) matches Some(info) && json::text_in(
            info,
            "name"@,
        ) == Some("jcode"@) && json::text_in(info, "version"@) == Some(client_version),
        json::named(meta@, "io.modelcontextprotocol/clientCapabilities"@) == Some(
            json::Tree::Object(Seq::empty()),
        ),
        meta@->Object_0.len() == 3,
{
    reveal_strlit("io.modelcontextprotocol/protocolVersion");
    reveal_strlit("io.modelcontextprotocol/clientInfo");
    reveal_strlit("io.modelcontextprotocol/clientCapabilities");
    reveal_strlit("name");
    reveal_strlit("version");
    assert("io.modelcontextprotocol/protocolVersion"@.len() == 39);
    assert("io.modelcontextprotocol/clientInfo"@.len() == 34);
    assert("io.modelcontextprotocol/clientCapabilities"@.len() == 42);
    assert("name"@.len() == 4);
    assert("version"@.len() == 7);
    json::lemma_tree(meta);
    let m = meta->Object_0@;
    json::lemma_tree(m[0].1);
    json::lemma_tree(m[1].1);
    json::lemma_tree(m[2].1);
    let info = m[1].1->Object_0@;
    json::lemma_tree(info[0].1);
    json::lemma_tree(info[1].1);
    reveal_with_fuel(json::named_from, 4);
    assert(meta@ == json::Tree::Object(json::members_view(m)));
    assert(m[2].1@->Object_0 =~= Seq::empty());
}

/// A call of a tool carries the headers of the properties of the first tool of
/// that name, filled from its arguments; without properties, or with arguments
/// that are no object, it carries none.
pub proof fn law_tool_calls_carry_the_headers_of_the_tool(
    before: Seq<ToolSchema>,
    tool: ToolSchema,
    behind: Seq<ToolSchema>,
    message: Json,
)
    requires
        forall|i: int| #![trigger before[i]]
            0 <= i < before.len() ==> before[i].name@ != tool.name@,
        text_member(message, "method"@) == Some("tools/call"@),
        json::member(message, "params"@) matches Some(params) && text_member(params, "name"@)
            == Some(tool.name@),
    ensures
        param_headers(before.push(tool) + behind, message) == match (
            json::member(tool.input_schema, "properties"@),
            json::member(json::member(message, "params"@)->0, "arguments"@),
        ) {
            (Some(Json::Object(properties)), Some(Json::Object(arguments))) => property_headers(
                properties@,
                arguments@,
                0,
            ),
            _ => Seq::empty(),
        },
        param_headers(before, message).len() == 0,
{
    let all = before.push(tool) + behind;
    assert(all[before.len() as int] == tool);
    lemma_tool_at(all, tool.name@, before.len() as int, 0);
    lemma_tool_from(before, tool.name@, 0);
}

proof fn lemma_tool_at(tools: Seq<ToolSchema>, name: Seq<char>, at: int, k: int)
    requires
        0 <= k <= at < tools.len(),
        tools[at].name@ == name,
        forall|i: int| #![trigger tools[i]] 0 <= i < at ==> tools[i].name@ != name,
    ensures
        tool_from(tools, name, k) == Some(tools[at]),
    decreases at - k,
{
    if k < at {
        lemma_tool_at(tools, name, at, k + 1);
    }
}

/// A message is about what it names, or, where it names nothing, about the
/// address that it gives; its method is the text under that name, and nothing
/// where there is none.
pub proof fn law_messages_are_about_what_they_name(message: Seq<char>)
    ensures
        json::has_value(message, "/params/name"@) ==> target_of(message) == json::string_value(
            message,
            "/params/name"@,
        ),
        !json::has_value(message, "/params/name"@) ==> target_of(message) == json::string_value(
            message,
            "/params/uri"@,
        ),
        json::string_value(message, "/method"@) matches Some(m) ==> method_of(message) == m,
        json::string_value(message, "/method"@) is None ==> method_of(message).len() == 0,
{
    reveal_strlit("");
}

/// The root of a server is its address without path and query.
pub proof fn law_roots_have_no_path_and_no_query(base: Seq<char>)
    ensures
        url_root(base) == url_with(base, Seq::empty(), None),
{
    reveal_strlit("");
    assert(""@ =~= Seq::<char>::empty());
}

/// A refusal calls for a version exactly where its error code is one of the three
/// of modern servers; but for the code that lists versions it is the modern one,
/// and so it is where no list is given.
pub proof fn law_refusals_call_for_a_version_by_code(body: Seq<char>)
    ensures
        modern_version(body) is Some <==> (json::signed_value(body, "/error/code"@) matches Some(code)
            && (code == -32601 || code == -32602 || code == -32022)),
        json::signed_value(body, "/error/code"@) == Some(-32601int) || json::signed_value(
            body,
            "/error/code"@,
        ) == Some(-32602int) ==> modern_version(body) == Some(MODERN_PROTOCOL_VERSION@),
        json::signed_value(body, "/error/code"@) == Some(-32022int) && json::array_value(
            body,
            "/error/data/supported"@,
        ) is None ==> modern_version(body) == Some(MODERN_PROTOCOL_VERSION@),
        json::signed_value(body, "/error/code"@) == Some(-32022int) ==> (json::array_value(
            body,
            "/error/data/supported"@,
        ) matches Some(items) ==> items.contains(Some(MODERN_PROTOCOL_VERSION@)) ==> modern_version(
            body,
        ) == Some(MODERN_PROTOCOL_VERSION@)),
{
    if let Some(items) = json::array_value(body, "/error/data/supported"@) {
        if items.contains(Some(MODERN_PROTOCOL_VERSION@)) {
            lemma_strings_hold(items, MODERN_PROTOCOL_VERSION@, 0);
        }
    }
}

proof fn lemma_strings_hold(items: Seq<Option<Seq<char>>>, s: Seq<char>, k: int)
    requires
        0 <= k,
        exists|i: int| k <= i < items.len() && #[trigger] items[i] == Some(s),
    ensures
        strings_from(items, k).contains(s),
    decreases items.len() - k,
{
    let i = choose|i: int| k <= i < items.len() && #[trigger] items[i] == Some(s);
    let rest = strings_from(items, k + 1);
    if i == k {
        assert(strings_from(items, k)[0] == s);
    } else {
        lemma_strings_hold(items, s, k + 1);
        let j = choose|j: int| 0 <= j < rest.len() && rest[j] == s;
        match items[k] {
            Some(t) => {
                assert(strings_from(items, k)[j + 1] == s);
            },
            None => {
                assert(strings_from(items, k)[j] == s);
            },
        }
    }
}

} // verus!
