//! Requests to OpenAI-compatible endpoints: what is sent, how failures are
//! told, and which of them are tried again.

pub mod retry;

use crate::json;
use crate::json::Json;
use crate::text;
use crate::text::{
    cat2, chars_of, decimal_of, digit, find, has, owned, parse_u64, str_eq,
    to_ascii_lower, trimmed_start,
};
use vstd::prelude::*;

verus! {

// ---------------------------------------------------------------------------
// Hints
// ---------------------------------------------------------------------------

pub const OLLAMA_HINT: &'static str =
    "Ollama hint: make sure `ollama serve` is running, the model is installed with `ollama pull <model>`, and run jcode with an installed model, for example `jcode --provider ollama --model llama3.2 run 'hello'`. If replies ignore earlier turns, Ollama is truncating the prompt to its serving context: restart it with a larger window, e.g. `OLLAMA_CONTEXT_LENGTH=65536 ollama serve`.";

pub const LM_STUDIO_HINT: &'static str =
    "LM Studio hint: start the Local Server in LM Studio, load a chat model, and run jcode with the exact model id shown by LM Studio's /v1/models endpoint.";

pub const LOCAL_HINT: &'static str =
    "Local endpoint hint: make sure the server is running, the base URL includes /v1, the selected model is loaded, and the server supports streaming POST /chat/completions.";

pub const REMOTE_HINT: &'static str =
    "Hint: check network connectivity, DNS/TLS, that the base URL includes the API version (usually /v1), and that the model exists on the provider.";

/// What to try when an endpoint fails, by its address.
pub open spec fn endpoint_hint(api_base: Seq<char>) -> Seq<char> {
    let lower = text::lowered(api_base);
    if text::contains(lower, "localhost:11434"@) || text::contains(lower, "127.0.0.1:11434"@) {
        OLLAMA_HINT@
    } else if text::contains(lower, "localhost:1234"@) || text::contains(
        lower,
        "127.0.0.1:1234"@,
    ) {
        LM_STUDIO_HINT@
    } else if text::contains(lower, "localhost"@) || text::contains(lower, "127.0.0.1"@)
        || text::contains(lower, "[::1]"@) {
        LOCAL_HINT@
    } else {
        REMOTE_HINT@
    }
}

/// What to try when an endpoint fails; the model makes no difference.
pub fn local_endpoint_troubleshooting_hint(api_base: &str, model: &str) -> (r: &'static str)
    ensures
        r@ == endpoint_hint(api_base@),
{
    let lower_text = to_ascii_lower(api_base);
    let lower = lower_text.as_str();
    if has(lower, "localhost:11434") || has(lower, "127.0.0.1:11434") {
        return OLLAMA_HINT;
    }
    if has(lower, "localhost:1234") || has(lower, "127.0.0.1:1234") {
        return LM_STUDIO_HINT;
    }
    if has(lower, "localhost") || has(lower, "127.0.0.1") || has(lower, "[::1]") {
        return LOCAL_HINT;
    }
    let _ = model;
    REMOTE_HINT
}

// ---------------------------------------------------------------------------
// Which failures are tried again
// ---------------------------------------------------------------------------

/// The digits that a text starts with.
pub open spec fn leading_digits(s: Seq<char>) -> Seq<char>
    decreases s.len(),
{
    if s.len() == 0 || !text::is_digit(s[0]) {
        Seq::empty()
    } else {
        seq![s[0]] + leading_digits(s.drop_first())
    }
}

/// The status in an error text: the three digits behind the first `status:`,
/// in any case.
pub open spec fn status_in(error: Seq<char>) -> Option<nat> {
    let lower = text::lowered(error);
    match text::first_occurrence(lower, "status:"@, 0) {
        None => None,
        Some(i) => {
            let digits = leading_digits(text::trim_start(lower.skip(i + "status:"@.len())));
            if digits.len() == 3 {
                Some(text::digits_value(digits))
            } else {
                None
            }
        },
    }
}

/// The number of digits that a text starts with.
fn digit_run(s: &str) -> (n: usize)
    ensures
        n <= s@.len(),
        leading_digits(s@) == s@.take(n as int),
{
    let chars = chars_of(s);
    let mut n: usize = 0;
    assert(s@.skip(0) =~= s@);
    assert(s@.take(0) + leading_digits(s@.skip(0)) =~= leading_digits(s@));
    while n < chars.len() && digit(chars[n])
        invariant
            chars@ == s@,
            n <= chars@.len(),
            s@.take(n as int) + leading_digits(s@.skip(n as int)) == leading_digits(s@),
        decreases chars@.len() - n,
    {
        assert(s@.skip(n as int).drop_first() =~= s@.skip(n + 1));
        assert(s@.take(n as int) + (seq![s@[n as int]] + leading_digits(s@.skip(n + 1)))
            =~= s@.take(n + 1) + leading_digits(s@.skip(n + 1)));
        n = n + 1;
    }
    assert(s@.take(n as int) + Seq::<char>::empty() =~= s@.take(n as int));
    n
}

proof fn lemma_leading_digits(s: Seq<char>)
    ensures
        text::all_digits(leading_digits(s)),
    decreases s.len(),
{
    if s.len() > 0 && text::is_digit(s[0]) {
        lemma_leading_digits(s.drop_first());
        let rest = leading_digits(s.drop_first());
        assert forall|i: int| 0 <= i < leading_digits(s).len() implies text::is_digit(
            #[trigger] leading_digits(s)[i],
        ) by {
            if i > 0 {
                assert(leading_digits(s)[i] == rest[i - 1]);
            }
        }
    }
}

proof fn lemma_three_digits(s: Seq<char>)
    requires
        s.len() == 3,
        text::all_digits(s),
    ensures
        text::digits_value(s) <= 999,
{
    reveal_with_fuel(text::digits_value, 4);
    assert(text::is_digit(s[0]) && text::is_digit(s[1]) && text::is_digit(s[2]));
    assert(s.drop_last().last() == s[1]);
    assert(s.drop_last().drop_last().last() == s[0]);
    assert(s.drop_last().drop_last().drop_last().len() == 0);
}

/// The status in an error text.
pub fn parsed_http_status(error_str: &str) -> (r: Option<u16>)
    ensures
        match status_in(error_str@) {
            Some(n) => r is Some && r->0 == n,
            None => r is None,
        },
{
    let lower_text = to_ascii_lower(error_str);
    let lower = lower_text.as_str();
    let i: usize = match find(lower, "status:") {
        Some(i) => i,
        None => return None,
    };
    let skipped: usize = "status:".unicode_len();
    let len: usize = lower.unicode_len();
    let behind = lower.substring_char(i + skipped, len);
    assert(behind@ =~= lower@.skip(i + "status:"@.len()));
    let rest = trimmed_start(behind);
    let n: usize = digit_run(rest);
    if n != 3 {
        return None;
    }
    let digits = rest.substring_char(0, 3);
    proof {
        assert(digits@ =~= rest@.take(3));
        lemma_leading_digits(rest@);
        lemma_three_digits(digits@);
        assert(text::is_digit(digits@[0]));
        assert(text::unsigned_part(digits@) == digits@);
    }
    match parse_u64(digits, 999) {
        Some(n) => Some(n as u16),
        None => None,
    }
}

/// Whether a status says that trying again is of no use.
pub open spec fn is_final_status(status: nat) -> bool {
    status == 400 || status == 401 || status == 402 || status == 403 || status == 404 || status
        == 405 || status == 406 || status == 422
}

/// Whether an error is worth another try. A known status decides; without one
/// the wording does, and whether the transport failed in passing.
pub open spec fn is_retryable(error: Seq<char>, transient: bool) -> bool {
    let status = status_in(error);
    if status is Some && is_final_status(status->0) {
        false
    } else if status == Some(429nat) {
        true
    } else {
        ||| transient
        ||| text::contains(error, "stream error"@)
        ||| text::contains(error, "eof"@)
        ||| text::contains(error, "5"@) && (text::contains(error, "50"@) || text::contains(
            error,
            "502"@,
        ) || text::contains(error, "503"@) || text::contains(error, "504"@) || text::contains(
            error,
            "internal server error"@,
        ))
        ||| text::contains(error, "overloaded"@)
    }
}

/// Whether an error is worth another try; `transient` says whether it shows a
/// transport that failed in passing.
pub fn is_retryable_error(error_str: &str, transient: bool) -> (r: bool)
    ensures
        r == is_retryable(error_str@, transient),
{
    match parsed_http_status(error_str) {
        Some(status) => {
            if status == 400 || status == 401 || status == 402 || status == 403 || status == 404
                || status == 405 || status == 406 || status == 422 {
                return false;
            }
            if status == 429 {
                return true;
            }
        },
        None => {},
    }
    transient || has(error_str, "stream error") || has(error_str, "eof") || has(error_str, "5")
        && (has(error_str, "50") || has(error_str, "502") || has(error_str, "503") || has(
        error_str,
        "504",
    ) || has(error_str, "internal server error")) || has(error_str, "overloaded")
}

// ---------------------------------------------------------------------------
// The retry loop
// ---------------------------------------------------------------------------

/// How many tries there are: what is configured, and at least one.
pub fn attempt_count(max_retries: u32) -> (r: u32)
    ensures
        r == (if max_retries == 0 {
            1u32
        } else {
            max_retries
        }),
{
    if max_retries == 0 {
        1
    } else {
        max_retries
    }
}

/// The wait before a retry, in milliseconds: what is asked for, up to the
/// configured number of seconds and at least one.
pub open spec fn capped_wait(wait_ms: nat, cap_secs: nat) -> nat {
    let cap = if cap_secs == 0 {
        1000
    } else {
        cap_secs * 1000
    };
    if wait_ms <= cap {
        wait_ms
    } else {
        cap
    }
}

/// The wait before a retry, in milliseconds.
pub fn retry_wait_ms(wait_ms: u64, cap_secs: u64) -> (r: u64)
    ensures
        r == capped_wait(wait_ms as nat, cap_secs as nat),
{
    let cap: u128 = if cap_secs == 0 {
        1000
    } else {
        cap_secs as u128 * 1000
    };
    if wait_ms as u128 <= cap {
        wait_ms
    } else {
        cap as u64
    }
}

/// What follows a failed try.
#[derive(Debug, Clone, Copy, PartialEq, Eq, Structural)]
pub enum RetryStep {
    Retry,
    /// Try again, but first have the consumer drop the partial output; the
    /// coming try is number `attempt`, counted from one, of `max`.
    RollBackAndRetry { attempt: u32, max: u32 },
    /// Hand the error on.
    GiveUp,
}

/// What follows the failed try of that number, counted from zero.
pub open spec fn retry_step(attempt: u32, max: u32, retryable: bool, saw_output: bool) -> RetryStep {
    if retryable && attempt + 1 < max {
        if saw_output {
            RetryStep::RollBackAndRetry { attempt: (attempt + 2) as u32, max }
        } else {
            RetryStep::Retry
        }
    } else {
        RetryStep::GiveUp
    }
}

/// What follows the failed try of that number, counted from zero.
pub fn after_failure(attempt: u32, max: u32, retryable: bool, saw_output: bool) -> (r: RetryStep)
    requires
        attempt < max,
    ensures
        r == retry_step(attempt, max, retryable, saw_output),
{
    if retryable && attempt + 1 < max {
        if saw_output {
            RetryStep::RollBackAndRetry { attempt: attempt + 2, max }
        } else {
            RetryStep::Retry
        }
    } else {
        RetryStep::GiveUp
    }
}

/// The last try is never followed by another, and an error that is not worth
/// another try is handed on at once. A rollback always names a try that
/// comes.
pub proof fn law_retries_end(attempt: u32, max: u32, retryable: bool, saw_output: bool)
    requires
        attempt < max,
    ensures
        attempt + 1 == max ==> retry_step(attempt, max, retryable, saw_output) is GiveUp,
        !retryable ==> retry_step(attempt, max, retryable, saw_output) is GiveUp,
        retry_step(attempt, max, retryable, saw_output) matches RetryStep::RollBackAndRetry {
            attempt: coming,
            max: total,
        } ==> saw_output && coming <= total && total == max,
{
}

/// Deterministic refusals are never tried again, whatever else the error
/// says.
pub proof fn law_final_statuses_are_not_retried(error: Seq<char>, transient: bool)
    ensures
        status_in(error) matches Some(n) ==> (is_final_status(n) ==> !is_retryable(
            error,
            transient,
        )) && (n == 429 ==> is_retryable(error, transient)),
{
}

// ---------------------------------------------------------------------------
// How failures are told
// ---------------------------------------------------------------------------

/// The two ways to ask an endpoint.
#[derive(Debug, Clone, Copy, PartialEq, Eq, Structural)]
pub enum WireApi {
    Chat,
    Responses,
}

/// The address of a request.
pub open spec fn request_address(api: WireApi, api_base: Seq<char>) -> Seq<char> {
    match api {
        WireApi::Chat => api_base + "/chat/completions"@,
        WireApi::Responses => api_base + "/responses"@,
    }
}

/// The address of a request.
pub fn request_url(api: WireApi, api_base: &str) -> (r: String)
    ensures
        r@ == request_address(api, api_base@),
{
    match api {
        WireApi::Chat => cat2(api_base, "/chat/completions"),
        WireApi::Responses => cat2(api_base, "/responses"),
    }
}

/// What a request went to: its address, its model, and who signed it.
#[derive(Debug)]
pub struct RequestPlace {
    pub api: WireApi,
    pub api_base: String,
    pub model: String,
    pub auth_label: String,
}

/// The lines that say where a request went.
pub open spec fn place_lines(p: RequestPlace) -> Seq<char> {
    "\n  endpoint: "@ + request_address(p.api, p.api_base@) + "\n  model: "@ + p.model@
        + "\n  auth: "@ + p.auth_label@
}

/// The hint below a failure, on a line of its own; only the chat path gives
/// one.
pub open spec fn hint_line(p: RequestPlace) -> Seq<char> {
    match p.api {
        WireApi::Chat => "\n"@ + endpoint_hint(p.api_base@),
        WireApi::Responses => Seq::empty(),
    }
}

impl RequestPlace {
    /// The lines that say where a request went.
    fn lines(&self) -> (r: String)
        ensures
            r@ == place_lines(*self),
    {
        let url = request_url(self.api, self.api_base.as_str());
        text::cat6(
            "\n  endpoint: ",
            url.as_str(),
            "\n  model: ",
            self.model.as_str(),
            "\n  auth: ",
            self.auth_label.as_str(),
        )
    }

    /// The hint below a failure.
    fn hint(&self) -> (r: String)
        ensures
            r@ == hint_line(*self),
    {
        match self.api {
            WireApi::Chat => cat2(
                "\n",
                local_endpoint_troubleshooting_hint(self.api_base.as_str(), self.model.as_str()),
            ),
            WireApi::Responses => String::new(),
        }
    }

    /// What is told of a request that could not be sent.
    pub fn send_failure(&self) -> (r: String)
        ensures
            r@ == (match self.api {
                WireApi::Chat => "Failed to send OpenAI-compatible chat request"@,
                WireApi::Responses => "Failed to send OpenAI Responses request"@,
            }) + place_lines(*self) + hint_line(*self),
    {
        let head = match self.api {
            WireApi::Chat => "Failed to send OpenAI-compatible chat request",
            WireApi::Responses => "Failed to send OpenAI Responses request",
        };
        text::cat3(head, self.lines().as_str(), self.hint().as_str())
    }

    /// What is told of a request that was refused.
    pub fn refusal(&self, status: &str, body: &str) -> (r: String)
        ensures
            r@ == (match self.api {
                WireApi::Chat => "OpenAI-compatible chat request failed"@,
                WireApi::Responses => "OpenAI Responses request failed"@,
            }) + place_lines(*self) + "\n  status: "@ + status@ + "\n  response: "@ + body@
                + hint_line(*self),
    {
        let head = match self.api {
            WireApi::Chat => "OpenAI-compatible chat request failed",
            WireApi::Responses => "OpenAI Responses request failed",
        };
        text::cat7(
            head,
            self.lines().as_str(),
            "\n  status: ",
            status,
            "\n  response: ",
            body,
            self.hint().as_str(),
        )
    }

    /// What is told of a stream that broke.
    pub fn stream_failure(&self, error: &str) -> (r: String)
        ensures
            r@ == (match self.api {
                WireApi::Chat => "OpenAI-compatible stream error"@ + place_lines(*self)
                    + "\n  error: "@ + error@,
                WireApi::Responses => "Stream error: "@ + error@,
            }),
    {
        match self.api {
            WireApi::Chat => text::cat4(
                "OpenAI-compatible stream error",
                self.lines().as_str(),
                "\n  error: ",
                error,
            ),
            WireApi::Responses => cat2("Stream error: ", error),
        }
    }

    /// What is told of a stream that fell silent.
    pub fn stream_timeout(&self, seconds: u64) -> (r: String)
        ensures
            r@ == (match self.api {
                WireApi::Chat => "OpenAI-compatible stream timeout"@ + place_lines(*self)
                    + "\n  timeout: no data received for "@ + text::decimal(seconds as nat)
                    + " seconds"@ + hint_line(*self),
                WireApi::Responses => "Stream idle timeout after "@ + text::decimal(
                    seconds as nat,
                ) + "s waiting for the next Responses event"@,
            }),
    {
        let count = decimal_of(seconds);
        match self.api {
            WireApi::Chat => text::cat6(
                "OpenAI-compatible stream timeout",
                self.lines().as_str(),
                "\n  timeout: no data received for ",
                count.as_str(),
                " seconds",
                self.hint().as_str(),
            ),
            WireApi::Responses => text::cat3(
                "Stream idle timeout after ",
                count.as_str(),
                "s waiting for the next Responses event",
            ),
        }
    }
}

/// What a stream does next.
#[derive(Debug)]
pub enum StreamNext {
    Event,
    Broke { error: String },
    Ended,
    Silent { seconds: u64 },
}

/// What is done with it.
#[derive(Debug)]
pub enum StreamStep {
    Forward,
    Finish,
    Fail { message: String },
}

/// What is done with what a stream does next.
pub fn stream_step(place: &RequestPlace, next: &StreamNext) -> (r: StreamStep)
    ensures
        match *next {
            StreamNext::Event => r is Forward,
            StreamNext::Ended => r is Finish,
            StreamNext::Broke { error } => r matches StreamStep::Fail { message } && message@ == (
            match place.api {
                WireApi::Chat => "OpenAI-compatible stream error"@ + place_lines(*place)
                    + "\n  error: "@ + error@,
                WireApi::Responses => "Stream error: "@ + error@,
            }),
            StreamNext::Silent { seconds } => r matches StreamStep::Fail { message } && message@ == (
            match place.api {
                WireApi::Chat => "OpenAI-compatible stream timeout"@ + place_lines(*place)
                    + "\n  timeout: no data received for "@ + text::decimal(seconds as nat)
                    + " seconds"@ + hint_line(*place),
                WireApi::Responses => "Stream idle timeout after "@ + text::decimal(
                    seconds as nat,
                ) + "s waiting for the next Responses event"@,
            }),
        },
{
    match next {
        StreamNext::Event => StreamStep::Forward,
        StreamNext::Ended => StreamStep::Finish,
        StreamNext::Broke { error } => StreamStep::Fail {
            message: place.stream_failure(error.as_str()),
        },
        StreamNext::Silent { seconds } => StreamStep::Fail {
            message: place.stream_timeout(*seconds),
        },
    }
}

/// The fixed headers of a request.
pub fn fixed_headers(api: WireApi, send_openrouter_headers: bool) -> (r: Vec<(String, String)>)
    ensures
        text::pairs(r@) == seq![
            ("Content-Type"@, "application/json"@),
            ("Accept-Encoding"@, "identity"@),
        ] + if api is Chat && send_openrouter_headers {
            seq![("HTTP-Referer"@, "https://github.com/jcode"@), ("X-Title"@, "jcode"@)]
        } else {
            Seq::empty()
        },
{
    let mut headers: Vec<(String, String)> = Vec::new();
    headers.push((owned("Content-Type"), owned("application/json")));
    headers.push((owned("Accept-Encoding"), owned("identity")));
    if api == WireApi::Chat && send_openrouter_headers {
        headers.push((owned("HTTP-Referer"), owned("https://github.com/jcode")));
        headers.push((owned("X-Title"), owned("jcode")));
    }
    assert(text::pairs(headers@) =~= seq![
        ("Content-Type"@, "application/json"@),
        ("Accept-Encoding"@, "identity"@),
    ] + if api is Chat && send_openrouter_headers {
        seq![("HTTP-Referer"@, "https://github.com/jcode"@), ("X-Title"@, "jcode"@)]
    } else {
        Seq::empty()
    });
    headers
}

// ---------------------------------------------------------------------------
// The body of a Responses request
// ---------------------------------------------------------------------------

/// One block of a message, as far as it matters here.
#[derive(Debug)]
pub enum MessageBlock {
    Text { text: String },
    Image { media_type: String },
    /// Anything else, by its position in the message.
    Other { position: usize },
}

/// What stands for an image that an endpoint cannot take.
pub open spec fn image_note(media_type: Seq<char>) -> Seq<char> {
    "[Image omitted: this provider/model does not support image input; media_type="@ + media_type
        + "]"@
}

/// Whether `after` is `before` with a note in the place of an image.
pub open spec fn is_without_image(before: MessageBlock, after: MessageBlock) -> bool {
    match before {
        MessageBlock::Image { media_type } => after matches MessageBlock::Text { text } && text@
            == image_note(media_type@),
        _ => after == before,
    }
}

/// A block with a note in the place of an image.
pub fn without_image(block: MessageBlock) -> (r: MessageBlock)
    ensures
        is_without_image(block, r),
{
    match block {
        MessageBlock::Image { media_type } => MessageBlock::Text {
            text: text::cat3(
                "[Image omitted: this provider/model does not support image input; media_type=",
                media_type.as_str(),
                "]",
            ),
        },
        other => other,
    }
}

/// The blocks of a message, with notes in the place of images where the
/// endpoint cannot take them.
pub fn sendable_blocks(blocks: Vec<MessageBlock>, takes_images: bool) -> (r: Vec<MessageBlock>)
    ensures
        takes_images ==> r@ == blocks@,
        !takes_images ==> r@.len() == blocks@.len() && forall|i: int|
            0 <= i < r@.len() ==> is_without_image(blocks@[i], #[trigger] r@[i]),
{
    if takes_images {
        return blocks;
    }
    let ghost all = blocks@;
    let mut rest = blocks;
    let mut r: Vec<MessageBlock> = Vec::new();
    while rest.len() > 0
        invariant
            r@.len() + rest@.len() == all.len(),
            forall|i: int| 0 <= i < rest@.len() ==> #[trigger] rest@[i] == all[r@.len() + i],
            forall|i: int| 0 <= i < r@.len() ==> is_without_image(all[i], #[trigger] r@[i]),
        decreases rest@.len(),
    {
        let ghost was = rest@;
        let block = rest.remove(0);
        proof {
            assert(was[0] == all[r@.len() as int]);
            assert forall|i: int| 0 <= i < rest@.len() implies #[trigger] rest@[i] == all[r@.len()
                + 1 + i] by {
                assert(was[i + 1] == all[r@.len() + (i + 1)]);
            }
        }
        r.push(without_image(block));
    }
    r
}

/// The members of an object, by name.
pub open spec fn named(members: Seq<(String, Json)>) -> Seq<(Seq<char>, Json)> {
    Seq::new(members.len(), |i: int| (members[i].0@, members[i].1))
}

/// Where a name stands among members, from the `k`-th on.
pub open spec fn name_position(members: Seq<(Seq<char>, Json)>, name: Seq<char>, k: int) -> Option<
    int,
>
    decreases members.len() - k,
{
    if k >= members.len() {
        None
    } else if members[k].0 == name {
        Some(k)
    } else {
        name_position(members, name, k + 1)
    }
}

/// The members with one set: in the place of one of that name, or behind the
/// others.
pub open spec fn with_member(members: Seq<(Seq<char>, Json)>, name: Seq<char>, value: Json) -> Seq<
    (Seq<char>, Json),
> {
    match name_position(members, name, 0) {
        Some(k) => members.update(k, (name, value)),
        None => members.push((name, value)),
    }
}

/// The members with those of `extra` from the `k`-th on set in turn.
pub open spec fn with_members(
    members: Seq<(Seq<char>, Json)>,
    extra: Seq<(Seq<char>, Json)>,
    k: int,
) -> Seq<(Seq<char>, Json)>
    decreases extra.len() - k,
{
    if k >= extra.len() {
        members
    } else {
        with_members(with_member(members, extra[k].0, extra[k].1), extra, k + 1)
    }
}

/// Sets a member.
fn set_member(members: &mut Vec<(String, Json)>, name: String, value: Json)
    ensures
        named(final(members)@) == with_member(named(old(members)@), name@, value),
{
    let ghost before = named(members@);
    let mut k: usize = 0;
    while k < members.len()
        invariant
            k <= members@.len(),
            before == named(members@),
            before == named(old(members)@),
            name_position(before, name@, 0) == name_position(before, name@, k as int),
        decreases members@.len() - k,
    {
        assert(before[k as int] == (members@[k as int].0@, members@[k as int].1));
        if str_eq(members[k].0.as_str(), name.as_str()) {
            members.set(k, (name, value));
            assert(named(members@) =~= before.update(k as int, (name@, value)));
            return;
        }
        k = k + 1;
    }
    members.push((name, value));
    assert(named(members@) =~= before.push((name@, value)));
}

/// How hard the model is asked to think.
#[derive(Debug)]
pub struct Effort {
    pub name: String,
    /// Whether it stands for a swarm of agents, which is asked as the most.
    pub is_swarm: bool,
}

/// The effort that is sent, where one is.
pub open spec fn sent_effort(effort: Option<Effort>) -> Option<Seq<char>> {
    match effort {
        Some(e) => if e.name@ == "none"@ {
            None
        } else if e.is_swarm {
            Some("max"@)
        } else {
            Some(e.name@)
        },
        None => None,
    }
}

/// What a Responses request is made of.
#[derive(Debug)]
pub struct ResponsesRequest {
    pub model: String,
    pub system: String,
    /// The conversation, as input items.
    pub input: Json,
    pub tools: Vec<Json>,
    /// The most tokens to answer with, as the text of a number.
    pub max_tokens: Option<String>,
    pub effort: Option<Effort>,
    /// Members that are set last, whatever else is set.
    pub extra: Vec<(String, Json)>,
}

/// Whether a member is the text `value` under `name`.
pub open spec fn is_text_member(m: (Seq<char>, Json), name: Seq<char>, value: Seq<char>) -> bool {
    m.0 == name && (m.1 matches Json::Text(s) && s@ == value)
}

/// Whether a value asks for an effort, with a summary.
pub open spec fn is_reasoning(value: Json, effort: Seq<char>) -> bool {
    &&& value matches Json::Object(m)
    &&& m@.len() == 2
    &&& is_text_member((m@[0].0@, m@[0].1), "effort"@, effort)
    &&& is_text_member((m@[1].0@, m@[1].1), "summary"@, "auto"@)
}

/// Whether members are those of a request before the extra ones.
pub open spec fn are_base_members(m: Seq<(Seq<char>, Json)>, q: ResponsesRequest) -> bool {
    let tools = if q.tools@.len() > 0 {
        2int
    } else {
        0int
    };
    let tokens = if q.max_tokens is Some {
        1int
    } else {
        0int
    };
    let effort = if sent_effort(q.effort) is Some {
        1int
    } else {
        0int
    };
    &&& m.len() == 5 + tools + tokens + effort
    &&& is_text_member(m[0], "model"@, q.model@)
    &&& is_text_member(m[1], "instructions"@, q.system@)
    &&& m[2] == ("input"@, q.input)
    &&& m[3] == ("stream"@, Json::Bool(true))
    &&& m[4] == ("store"@, Json::Bool(false))
    &&& tools > 0 ==> m[5] == ("tools"@, Json::Array(q.tools)) && is_text_member(
        m[6],
        "tool_choice"@,
        "auto"@,
    )
    &&& tokens > 0 ==> m[5 + tools].0 == "max_output_tokens"@ && m[5 + tools].1 == Json::Number(
        q.max_tokens->0,
    )
    &&& effort > 0 ==> m[5 + tools + tokens].0 == "reasoning"@ && is_reasoning(
        m[5 + tools + tokens].1,
        sent_effort(q.effort)->0,
    )
}

/// Whether a value is the body of a request: its own members, with the extra
/// ones set last.
pub open spec fn is_body(value: Json, q: ResponsesRequest) -> bool {
    &&& value matches Json::Object(m)
    &&& exists|base: Seq<(Seq<char>, Json)>| #[trigger]
        are_base_members(base, q) && named(m@) == with_members(base, named(q.extra@), 0)
}

/// The effort that is sent.
fn effort_to_send(effort: &Option<Effort>) -> (r: Option<String>)
    ensures
        text::opt_text(r) == sent_effort(*effort),
{
    match effort {
        Some(e) => {
            if str_eq(e.name.as_str(), "none") {
                None
            } else if e.is_swarm {
                Some(owned("max"))
            } else {
                Some(owned(e.name.as_str()))
            }
        },
        None => None,
    }
}

/// Adds a member behind the others.
fn push_member(members: &mut Vec<(String, Json)>, name: &str, value: Json)
    ensures
        named(final(members)@) == named(old(members)@).push((name@, value)),
{
    let ghost was = members@;
    members.push((owned(name), value));
    assert(named(members@) =~= named(was).push((name@, value)));
}

/// The body of a Responses request.
pub fn responses_body(request: ResponsesRequest) -> (r: Json)
    ensures
        is_body(r, request),
{
    let ghost q = request;
    let effort = effort_to_send(&request.effort);
    let mut members: Vec<(String, Json)> = Vec::new();
    push_member(&mut members, "model", Json::Text(request.model));
    push_member(&mut members, "instructions", Json::Text(request.system));
    push_member(&mut members, "input", request.input);
    push_member(&mut members, "stream", Json::Bool(true));
    push_member(&mut members, "store", Json::Bool(false));
    if request.tools.len() > 0 {
        push_member(&mut members, "tools", Json::Array(request.tools));
        push_member(&mut members, "tool_choice", Json::Text(owned("auto")));
    }
    if let Some(max_tokens) = request.max_tokens {
        push_member(&mut members, "max_output_tokens", Json::Number(max_tokens));
    }
    if let Some(effort) = effort {
        let mut reasoning: Vec<(String, Json)> = Vec::new();
        reasoning.push((owned("effort"), Json::Text(effort)));
        reasoning.push((owned("summary"), Json::Text(owned("auto"))));
        let value = Json::Object(reasoning);
        assert(is_reasoning(value, sent_effort(q.effort)->0));
        push_member(&mut members, "reasoning", value);
    }
    let ghost base = named(members@);
    assert(are_base_members(base, q));
    let mut extra = request.extra;
    let ghost all = named(extra@);
    let ghost mut done: int = 0;
    while extra.len() > 0
        invariant
            0 <= done,
            done + extra@.len() == all.len(),
            forall|i: int|
                0 <= i < extra@.len() ==> (#[trigger] extra@[i]).0@ == all[done + i].0
                    && extra@[i].1 == all[done + i].1,
            with_members(base, all, 0) == with_members(named(members@), all, done),
        decreases extra@.len(),
    {
        let ghost was = extra@;
        let (name, value) = extra.remove(0);
        proof {
            assert(was[0].0@ == all[done + 0].0 && was[0].1 == all[done + 0].1);
            assert forall|i: int| 0 <= i < extra@.len() implies (#[trigger] extra@[i]).0@
                == all[done + 1 + i].0 && extra@[i].1 == all[done + 1 + i].1 by {
                assert(was[i + 1].0@ == all[done + (i + 1)].0);
            }
        }
        set_member(&mut members, name, value);
        proof {
            done = done + 1;
        }
    }
    Json::Object(members)
}

/// The effort that a request names.
pub open spec fn named_effort(request: Json) -> Option<Seq<char>> {
    match json::member(request, "reasoning"@) {
        Some(reasoning) => match json::member(reasoning, "effort"@) {
            Some(Json::Text(effort)) => Some(effort@),
            _ => None,
        },
        None => None,
    }
}

/// The effort that a request names.
pub fn request_effort(request: &Json) -> (r: Option<String>)
    ensures
        text::opt_text(r) == named_effort(*request),
{
    match request.get("reasoning") {
        Some(reasoning) => match reasoning.get("effort") {
            Some(Json::Text(effort)) => Some(owned(effort.as_str())),
            _ => None,
        },
        None => None,
    }
}

proof fn lemma_name_position(members: Seq<(Seq<char>, Json)>, name: Seq<char>, k: int)
    requires
        0 <= k,
    ensures
        match name_position(members, name, k) {
            Some(i) => k <= i < members.len() && members[i].0 == name,
            None => forall|i: int| k <= i < members.len() ==> (#[trigger] members[i]).0 != name,
        },
    decreases members.len() - k,
{
    if k < members.len() && members[k].0 != name {
        lemma_name_position(members, name, k + 1);
    }
}

/// Whether no two members have one name.
pub open spec fn names_differ(members: Seq<(Seq<char>, Json)>) -> bool {
    forall|i: int, j: int|
        0 <= i < j < members.len() ==> (#[trigger] members[i]).0 != (#[trigger] members[j]).0
}

proof fn lemma_with_member(members: Seq<(Seq<char>, Json)>, name: Seq<char>, value: Json)
    requires
        names_differ(members),
    ensures
        names_differ(with_member(members, name, value)),
        with_member(members, name, value).contains((name, value)),
        forall|m: (Seq<char>, Json)|
            m.0 != name ==> (members.contains(m) <==> #[trigger] with_member(
                members,
                name,
                value,
            ).contains(m)),
{
    lemma_name_position(members, name, 0);
    let after = with_member(members, name, value);
    match name_position(members, name, 0) {
        Some(k) => {
            assert(after[k] == (name, value));
            assert forall|m: (Seq<char>, Json)| m.0 != name implies (members.contains(m)
                <==> #[trigger] after.contains(m)) by {
                if members.contains(m) {
                    let i = choose|i: int| 0 <= i < members.len() && members[i] == m;
                    assert(after[i] == m);
                }
                if after.contains(m) {
                    let i = choose|i: int| 0 <= i < after.len() && after[i] == m;
                    assert(members[i] == m);
                }
            }
        },
        None => {
            assert(after[members.len() as int] == (name, value));
            assert forall|m: (Seq<char>, Json)| m.0 != name implies (members.contains(m)
                <==> #[trigger] after.contains(m)) by {
                if members.contains(m) {
                    let i = choose|i: int| 0 <= i < members.len() && members[i] == m;
                    assert(after[i] == m);
                }
                if after.contains(m) {
                    let i = choose|i: int| 0 <= i < after.len() && after[i] == m;
                    assert(members[i] == m);
                }
            }
        },
    }
}

/// Configured members win: each of `extra`, from the `k`-th on and of its name
/// alone there, is in the result as it is, and what it does not name stays.
pub proof fn law_extra_members_win(
    members: Seq<(Seq<char>, Json)>,
    extra: Seq<(Seq<char>, Json)>,
    k: int,
)
    requires
        0 <= k,
        names_differ(members),
        names_differ(extra),
    ensures
        names_differ(with_members(members, extra, k)),
        forall|i: int|
            k <= i < extra.len() ==> with_members(members, extra, k).contains(#[trigger] extra[i]),
        forall|m: (Seq<char>, Json)|
            (forall|i: int| k <= i < extra.len() ==> (#[trigger] extra[i]).0 != m.0) ==> (
            members.contains(m) <==> #[trigger] with_members(members, extra, k).contains(m)),
    decreases extra.len() - k,
{
    if k < extra.len() {
        let next = with_member(members, extra[k].0, extra[k].1);
        lemma_with_member(members, extra[k].0, extra[k].1);
        law_extra_members_win(next, extra, k + 1);
        let after = with_members(members, extra, k);
        assert(after == with_members(next, extra, k + 1));
        assert forall|i: int| k <= i < extra.len() implies after.contains(#[trigger] extra[i]) by {
            if i == k {
                assert(next.contains(extra[k]));
                assert forall|j: int| k + 1 <= j < extra.len() implies (#[trigger] extra[j]).0
                    != extra[k].0 by {}
            }
        }
        assert forall|m: (Seq<char>, Json)|
            (forall|i: int| k <= i < extra.len() ==> (#[trigger] extra[i]).0 != m.0) implies (
        members.contains(m) <==> #[trigger] after.contains(m)) by {
            assert(extra[k].0 != m.0);
            assert(members.contains(m) <==> next.contains(m));
        }
    }
}

/// The hint goes by the address, in capitals or small letters: the port of a
/// known local server gives its own hint, any other address of this machine
/// the one for local servers, and every other address the one for remote ones.
pub proof fn law_hints_go_by_the_address(a: Seq<char>, b: Seq<char>, base: Seq<char>)
    ensures
        endpoint_hint(text::lowered(base)) == endpoint_hint(base),
        endpoint_hint(a + "localhost:11434"@ + b) == OLLAMA_HINT@,
        endpoint_hint(a + "127.0.0.1:11434"@ + b) == OLLAMA_HINT@,
        !text::contains(text::lowered(base), "localhost"@) && !text::contains(
            text::lowered(base),
            "127.0.0.1"@,
        ) && !text::contains(text::lowered(base), "[::1]"@) ==> endpoint_hint(base) == REMOTE_HINT@,
        text::contains(text::lowered(base), "[::1]"@) && !text::contains(
            text::lowered(base),
            "localhost"@,
        ) && !text::contains(text::lowered(base), "127.0.0.1"@) ==> endpoint_hint(base)
            == LOCAL_HINT@,
        !text::contains(text::lowered(base), "11434"@) && (text::contains(
            text::lowered(base),
            "localhost:1234"@,
        ) || text::contains(text::lowered(base), "127.0.0.1:1234"@)) ==> endpoint_hint(base)
            == LM_STUDIO_HINT@,
        !text::contains(text::lowered(base), "11434"@) && !text::contains(
            text::lowered(base),
            ":1234"@,
        ) && (text::contains(text::lowered(base), "localhost"@) || text::contains(
            text::lowered(base),
            "127.0.0.1"@,
        )) ==> endpoint_hint(base) == LOCAL_HINT@,
{
    text::law_lower_case_changes_capitals_only(base);
    reveal_strlit("localhost:11434");
    reveal_strlit("127.0.0.1:11434");
    reveal_strlit("localhost:1234");
    reveal_strlit("127.0.0.1:1234");
    reveal_strlit("localhost");
    reveal_strlit("127.0.0.1");
    reveal_strlit("11434");
    reveal_strlit(":1234");
    let low = text::lowered(base);
    assert(text::lowered(a + "localhost:11434"@ + b) =~= text::lowered(a) + "localhost:11434"@
        + text::lowered(b));
    text::law_searching_finds_the_first_place(
        text::lowered(a),
        "localhost:11434"@,
        text::lowered(b),
    );
    assert(text::lowered(a + "127.0.0.1:11434"@ + b) =~= text::lowered(a) + "127.0.0.1:11434"@
        + text::lowered(b));
    text::law_searching_finds_the_first_place(
        text::lowered(a),
        "127.0.0.1:11434"@,
        text::lowered(b),
    );
    lemma_held(low, "localhost:11434"@, "localhost"@, 0);
    lemma_held(low, "127.0.0.1:11434"@, "127.0.0.1"@, 0);
    lemma_held(low, "localhost:1234"@, "localhost"@, 0);
    lemma_held(low, "127.0.0.1:1234"@, "127.0.0.1"@, 0);
    lemma_held(low, "localhost:11434"@, "11434"@, 10);
    lemma_held(low, "127.0.0.1:11434"@, "11434"@, 10);
    lemma_held(low, "localhost:1234"@, ":1234"@, 9);
    lemma_held(low, "127.0.0.1:1234"@, ":1234"@, 9);
}

proof fn lemma_held(s: Seq<char>, whole: Seq<char>, part: Seq<char>, at: int)
    requires
        0 <= at,
        at + part.len() <= whole.len(),
        whole.subrange(at, at + part.len()) =~= part,
    ensures
        text::contains(s, whole) ==> text::contains(s, part),
{
    if text::contains(s, whole) {
        let i = choose|i: int| text::occurs_at(s, whole, i);
        let found = s.subrange(i, i + whole.len());
        assert(s.subrange(i + at, i + at + part.len()) =~= found.subrange(at, at + part.len()));
        assert(text::occurs_at(s, part, i + at));
    }
}

proof fn lemma_digits_in_front(digits: Seq<char>, rest: Seq<char>)
    requires
        text::all_digits(digits),
        rest.len() > 0 ==> !text::is_digit(rest[0]),
    ensures
        leading_digits(digits + rest) == digits,
    decreases digits.len(),
{
    let all = digits + rest;
    if digits.len() > 0 {
        assert(text::is_digit(digits[0]));
        assert(all.drop_first() =~= digits.drop_first() + rest);
        assert forall|i: int| 0 <= i < digits.drop_first().len() implies text::is_digit(
            #[trigger] digits.drop_first()[i],
        ) by {
            assert(digits.drop_first()[i] == digits[i + 1]);
        }
        lemma_digits_in_front(digits.drop_first(), rest);
        assert(leading_digits(all) =~= digits);
    } else {
        assert(all =~= rest);
        assert(leading_digits(all) =~= digits);
    }
}

/// A status is read from an error behind the first `status:`, white space left
/// out: three digits are one, and fewer or more are none.
pub proof fn law_statuses_are_three_digits(
    front: Seq<char>,
    space: Seq<char>,
    digits: Seq<char>,
    rest: Seq<char>,
)
    requires
        !front.contains(':'),
        text::is_space(space),
        text::all_digits(digits) && digits.len() > 0,
        rest.len() > 0 ==> !text::is_digit(rest[0]),
    ensures
        status_in(front + "status:"@ + space + digits + rest) == if digits.len() == 3 {
            Some(text::digits_value(digits))
        } else {
            None
        },
        status_in(front) is None,
{
    let mark = "status:"@;
    let error = front + mark + space + digits + rest;
    let lower = text::lowered(error);
    let tail = space + (digits + text::lowered(rest));
    lemma_status_parts(front, space, digits, rest);
    lemma_lowered_colon(front);
    lemma_first_mark(text::lowered(front), tail);
    assert(lower.skip((front.len() + mark.len()) as int) =~= tail);
    assert(text::is_digit(digits[0]));
    lemma_space_goes(space, digits + text::lowered(rest));
    if rest.len() > 0 {
        assert(text::lowered(rest)[0] == text::ascii_lower(rest[0]));
    }
    lemma_digits_in_front(digits, text::lowered(rest));
}

proof fn lemma_status_parts(
    front: Seq<char>,
    space: Seq<char>,
    digits: Seq<char>,
    rest: Seq<char>,
)
    requires
        text::is_space(space),
        text::all_digits(digits),
    ensures
        text::lowered(front + "status:"@ + space + digits + rest) == text::lowered(front)
            + "status:"@ + (space + (digits + text::lowered(rest))),
{
    reveal_strlit("status:");
    assert(text::lowered("status:"@) =~= "status:"@);
    assert forall|j: int| 0 <= j < space.len() implies text::ascii_lower(#[trigger] space[j])
        == space[j] by {
        assert(text::is_white_space(space[j]));
    }
    assert forall|j: int| 0 <= j < digits.len() implies text::ascii_lower(#[trigger] digits[j])
        == digits[j] by {
        assert(text::is_digit(digits[j]));
    }
    assert(text::lowered(space) =~= space);
    assert(text::lowered(digits) =~= digits);
    assert(text::lowered(front + "status:"@ + space + digits + rest) =~= text::lowered(front)
        + text::lowered("status:"@) + (text::lowered(space) + (text::lowered(digits)
        + text::lowered(rest))));
}

proof fn lemma_lowered_colon(s: Seq<char>)
    requires
        !s.contains(':'),
    ensures
        forall|i: int| 0 <= i < s.len() ==> #[trigger] text::lowered(s)[i] != ':',
{
    assert forall|i: int| 0 <= i < s.len() implies #[trigger] text::lowered(s)[i] != ':' by {
        assert(s.contains(s[i]));
        assert(text::lowered(s)[i] == text::ascii_lower(s[i]));
    }
}

proof fn lemma_first_mark(front: Seq<char>, tail: Seq<char>)
    requires
        forall|i: int| 0 <= i < front.len() ==> #[trigger] front[i] != ':',
    ensures
        text::first_occurrence(front + "status:"@ + tail, "status:"@, 0) == Some(
            front.len() as int,
        ),
        text::first_occurrence(front, "status:"@, 0) is None,
{
    let mark = "status:"@;
    assert(mark.len() == 7 && mark[6] == ':' && forall|i: int|
        0 <= i < 6 ==> #[trigger] mark[i] != ':') by {
        reveal_strlit("status:");
    }
    let all = front + mark + tail;
    let n = front.len() as int;
    assert forall|i: int| 0 <= i < n implies !text::occurs_at(all, mark, i) by {
        if text::occurs_at(all, mark, i) {
            assert(all.subrange(i, i + 7)[6] == all[i + 6]);
            if i + 6 < n {
                assert(all[i + 6] == front[i + 6]);
            } else {
                assert(all[i + 6] == mark[i + 6 - n]);
            }
        }
    }
    text::law_searching_finds_the_first_place(front, mark, tail);
    lemma_occurs(all, mark);
    assert forall|j: int| !text::occurs_at(front, mark, j) by {
        if text::occurs_at(front, mark, j) {
            assert(front.subrange(j, j + 7)[6] == front[j + 6]);
        }
    }
    lemma_occurs(front, mark);
}

proof fn lemma_occurs(s: Seq<char>, p: Seq<char>)
    ensures
        text::first_occurrence(s, p, 0) matches Some(i) ==> text::occurs_at(s, p, i),
{
    lemma_occurs_from(s, p, 0);
}

proof fn lemma_occurs_from(s: Seq<char>, p: Seq<char>, from: int)
    ensures
        text::first_occurrence(s, p, from) matches Some(i) ==> text::occurs_at(s, p, i),
    decreases s.len() + 1 - from,
{
    if 0 <= from <= s.len() && !text::occurs_at(s, p, from) {
        lemma_occurs_from(s, p, from + 1);
    }
}

proof fn lemma_space_goes(space: Seq<char>, s: Seq<char>)
    requires
        text::is_space(space),
        s.len() > 0 && !text::is_white_space(s[0]),
    ensures
        text::trim_start(space + s) == s,
    decreases space.len(),
{
    let all = space + s;
    if space.len() > 0 {
        assert(text::is_white_space(space[0]));
        assert(all.drop_first() =~= space.drop_first() + s);
        assert forall|i: int| 0 <= i < space.drop_first().len() implies text::is_white_space(
            #[trigger] space.drop_first()[i],
        ) by {
            assert(space.drop_first()[i] == space[i + 1]);
        }
        lemma_space_goes(space.drop_first(), s);
    } else {
        assert(all =~= s);
    }
}

/// Which failures are tried again. A status that blames the request never is,
/// one that asks for patience always is; else one is that passes, or whose
/// text tells of a broken stream, an overload or a failing server. Nothing
/// else is.
pub proof fn law_only_passing_failures_are_retried(error: Seq<char>, transient: bool)
    ensures
        status_in(error) matches Some(n) ==> (n == 400 || n == 401 || n == 402 || n == 403 || n
            == 404 || n == 405 || n == 406 || n == 422) ==> !is_retryable(error, transient),
        status_in(error) == Some(429nat) ==> is_retryable(error, transient),
        (status_in(error) is None || status_in(error)->0 > 422) && (transient || text::contains(
            error,
            "stream error"@,
        ) || text::contains(error, "eof"@) || text::contains(error, "overloaded"@)
            || text::contains(error, "50"@)) ==> is_retryable(error, transient),
        status_in(error) != Some(429nat) && !transient && !text::contains(error, "stream error"@)
            && !text::contains(error, "eof"@) && !text::contains(error, "overloaded"@)
            && !text::contains(error, "5"@) ==> !is_retryable(error, transient),
        status_in(error) != Some(429nat) && !transient && !text::contains(error, "stream error"@)
            && !text::contains(error, "eof"@) && !text::contains(error, "overloaded"@)
            && !text::contains(error, "50"@) && !text::contains(error, "internal server error"@)
            ==> !is_retryable(error, transient),
{
    reveal_strlit("50");
    reveal_strlit("5");
    reveal_strlit("502");
    reveal_strlit("503");
    reveal_strlit("504");
    lemma_held(error, "50"@, "5"@, 0);
    lemma_held(error, "502"@, "50"@, 0);
    lemma_held(error, "503"@, "50"@, 0);
    lemma_held(error, "504"@, "50"@, 0);
}

/// A wait is as long as asked for up to the cap in seconds, and a cap of zero
/// counts as one second.
pub proof fn law_waits_are_capped(wait_ms: nat, cap_secs: nat)
    ensures
        capped_wait(wait_ms, cap_secs) <= wait_ms,
        cap_secs > 0 ==> capped_wait(wait_ms, cap_secs) <= 1000 * cap_secs,
        capped_wait(wait_ms, 0) == capped_wait(wait_ms, 1),
        cap_secs > 0 && wait_ms <= 1000 * cap_secs ==> capped_wait(wait_ms, cap_secs) == wait_ms,
        cap_secs > 0 && wait_ms > 1000 * cap_secs ==> capped_wait(wait_ms, cap_secs) == 1000
            * cap_secs,
{
}

/// A failure is tried again exactly where that may help and a try is left;
/// what was shown is taken back first, and the try that comes is told by its
/// number, counted from one.
pub proof fn law_retries_take_back_what_was_shown(
    attempt: u32,
    max: u32,
    retryable: bool,
    saw_output: bool,
)
    requires
        attempt < max,
    ensures
        retry_step(attempt, max, retryable, saw_output) is GiveUp <==> !retryable || attempt + 1
            >= max,
        retry_step(attempt, max, retryable, saw_output) is Retry <==> retryable && attempt + 1 < max
            && !saw_output,
        retry_step(attempt, max, retryable, saw_output) matches RetryStep::RollBackAndRetry {
            attempt: coming,
            max: of,
        } ==> coming == attempt + 2 && of == max,
{
}

/// Where a request goes and what is told of it: the address of the interface
/// behind the base, the model, and how it is signed in.
pub proof fn law_requests_are_told_by_their_place(p: RequestPlace)
    ensures
        request_address(WireApi::Chat, p.api_base@) == p.api_base@ + "/chat/completions"@,
        request_address(WireApi::Responses, p.api_base@) == p.api_base@ + "/responses"@,
        text::contains(place_lines(p), request_address(p.api, p.api_base@)),
        text::contains(place_lines(p), "model: "@ + p.model@),
        text::ends_with(place_lines(p), "auth: "@ + p.auth_label@),
        p.api is Responses ==> hint_line(p).len() == 0,
        p.api is Chat ==> text::ends_with(hint_line(p), endpoint_hint(p.api_base@)),
{
    let address = request_address(p.api, p.api_base@);
    let a = "\n  endpoint: "@;
    let b = "\n  model: "@;
    let c = "\n  auth: "@;
    let whole = place_lines(p);
    assert(whole =~= a + address + (b + p.model@ + c + p.auth_label@));
    text::law_searching_finds_the_first_place(a, address, b + p.model@ + c + p.auth_label@);
    reveal_strlit("\n  model: ");
    reveal_strlit("\n  auth: ");
    reveal_strlit("model: ");
    reveal_strlit("auth: ");
    let gap = b.take(3);
    let model = "model: "@ + p.model@;
    assert(whole =~= (a + address + gap) + model + (c + p.auth_label@));
    text::law_searching_finds_the_first_place(a + address + gap, model, c + p.auth_label@);
    let auth = "auth: "@ + p.auth_label@;
    let front = a + address + b + p.model@ + c.take(3);
    assert(whole =~= front + auth);
    text::law_stripping_undoes_putting(front, auth);
    text::law_stripping_undoes_putting("\n"@, endpoint_hint(p.api_base@));
}

/// An image becomes a note that names its kind; everything else is sent as it
/// is.
pub proof fn law_only_images_are_replaced(before: MessageBlock, after: MessageBlock)
    requires
        is_without_image(before, after),
    ensures
        !(before is Image) ==> after == before,
        !(after is Image),
        before matches MessageBlock::Image { media_type } ==> (after matches MessageBlock::Text {
            text: note,
        } && text::contains(note@, "media_type="@ + media_type@ + "]"@)),
{
    if let MessageBlock::Image { media_type } = before {
        let front =
            "[Image omitted: this provider/model does not support image input; media_type="@;
        reveal_strlit(
            "[Image omitted: this provider/model does not support image input; media_type=",
        );
        reveal_strlit("media_type=");
        let core = "media_type="@ + media_type@ + "]"@;
        let none = Seq::<char>::empty();
        let n = front.len() - "media_type="@.len();
        assert(front =~= front.take(n) + "media_type="@);
        assert(image_note(media_type@) =~= front.take(n) + core + none);
        text::law_searching_finds_the_first_place(front.take(n), core, none);
    }
}

/// The effort that is sent: none where none is set or it is called so, the
/// most for a swarm, and else the one that is set.
pub proof fn law_efforts_are_sent_by_name(effort: Option<Effort>)
    ensures
        sent_effort(effort) is None <==> effort is None || effort->0.name@ == "none"@,
        effort matches Some(e) ==> e.name@ != "none"@ && e.is_swarm ==> sent_effort(effort) == Some(
            "max"@,
        ),
        effort matches Some(e) ==> e.name@ != "none"@ && !e.is_swarm ==> sent_effort(effort)
            == Some(e.name@),
{
}

/// A member is set under its name: the value stands there afterwards, and all
/// other members keep their values and their order.
pub proof fn law_members_are_set_by_name(
    members: Seq<(Seq<char>, Json)>,
    name: Seq<char>,
    value: Json,
)
    ensures
        with_member(members, name, value).contains((name, value)),
        with_member(members, name, value).len() == members.len() || with_member(
            members,
            name,
            value,
        ) == members.push((name, value)),
        forall|i: int|
            0 <= i < members.len() && (#[trigger] members[i]).0 != name ==> with_member(
                members,
                name,
                value,
            )[i] == members[i],
{
    lemma_position_is(members, name, 0);
    let after = with_member(members, name, value);
    match name_position(members, name, 0) {
        Some(k) => {
            assert(after[k] == (name, value));
        },
        None => {
            assert(after[members.len() as int] == (name, value));
        },
    }
}

proof fn lemma_position_is(members: Seq<(Seq<char>, Json)>, name: Seq<char>, k: int)
    requires
        0 <= k,
    ensures
        match name_position(members, name, k) {
            Some(i) => k <= i < members.len() && members[i].0 == name,
            None => forall|i: int| k <= i < members.len() ==> (#[trigger] members[i]).0 != name,
        },
    decreases members.len() - k,
{
    if k < members.len() && members[k].0 != name {
        lemma_position_is(members, name, k + 1);
    }
}

/// The members of a request before any are added: the model, the
/// instructions, the input, that it is streamed and not stored; the tools
/// where there are any, the most tokens and the effort where they are set.
pub proof fn law_requests_hold_what_was_asked(m: Seq<(Seq<char>, Json)>, q: ResponsesRequest)
    requires
        are_base_members(m, q),
    ensures
        exists|i: int|
            0 <= i < m.len() && (#[trigger] m[i]).0 == "model"@ && (m[i].1 matches Json::Text(s)
                && s@ == q.model@),
        exists|i: int|
            0 <= i < m.len() && (#[trigger] m[i]).0 == "instructions"@ && (
            m[i].1 matches Json::Text(s) && s@ == q.system@),
        m.contains(("input"@, q.input)),
        m.contains(("stream"@, Json::Bool(true))),
        m.contains(("store"@, Json::Bool(false))),
        q.tools@.len() > 0 ==> m.contains(("tools"@, Json::Array(q.tools))),
        q.max_tokens matches Some(n) ==> m.contains(("max_output_tokens"@, Json::Number(n))),
        sent_effort(q.effort) matches Some(effort) ==> exists|i: int|
            0 <= i < m.len() && (#[trigger] m[i]).0 == "reasoning"@ && is_reasoning(m[i].1, effort),
        m.len() == 5 + (if q.tools@.len() > 0 {
            2int
        } else {
            0int
        }) + (if q.max_tokens is Some {
            1int
        } else {
            0int
        }) + (if sent_effort(q.effort) is Some {
            1int
        } else {
            0int
        }),
{
    assert(m[0].0 == "model"@ && m[1].0 == "instructions"@);
    assert(m[2] == ("input"@, q.input));
    assert(m[3] == ("stream"@, Json::Bool(true)));
    assert(m[4] == ("store"@, Json::Bool(false)));
    let tools = if q.tools@.len() > 0 {
        2int
    } else {
        0int
    };
    let tokens = if q.max_tokens is Some {
        1int
    } else {
        0int
    };
    if q.tools@.len() > 0 {
        assert(m[5] == ("tools"@, Json::Array(q.tools)));
    }
    if let Some(n) = q.max_tokens {
        assert(m[5 + tools] == ("max_output_tokens"@, Json::Number(n)));
    }
    if let Some(effort) = sent_effort(q.effort) {
        assert(m[5 + tools + tokens].0 == "reasoning"@);
    }
}

/// The effort of a request is the text under its name inside the reasoning of the
/// request, and there is none where either is missing.
pub proof fn law_efforts_are_named_inside_the_reasoning(request: Json)
    ensures
        json::named(request@, "reasoning"@) matches Some(reasoning) ==> named_effort(request)
            == json::text_in(reasoning, "effort"@),
        json::named(request@, "reasoning"@) is None ==> named_effort(request) is None,
{
    json::law_members_stand_for_those_of_the_tree(request, "reasoning"@);
    if let Some(reasoning) = json::member(request, "reasoning"@) {
        json::law_members_stand_for_those_of_the_tree(reasoning, "effort"@);
        if let Some(effort) = json::member(reasoning, "effort"@) {
            json::lemma_tree(effort);
        }
    }
}

/// The members of a body stand under their names, one for one and in order.
pub proof fn law_members_keep_their_names(members: Seq<(String, Json)>, member: (String, Json))
    ensures
        named(members.push(member)) == named(members).push((member.0@, member.1)),
        named(Seq::empty()).len() == 0,
{
    assert(named(members.push(member)) =~= named(members).push((member.0@, member.1)));
}

} // verus!
