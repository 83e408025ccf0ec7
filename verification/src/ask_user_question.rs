//! The `ask_user_question` tool: checking what is asked, keeping track of
//! questions that wait for an answer, and routing the answer.
//!
//! A waiting question belongs to its session, not to a connection: it
//! outlives the client that was asked and is shown to the next one.

pub mod record;

use crate::questions;
use crate::questions::{
    format_answers, normalize_questions, validate_questions, AskUserQuestion,
    AskUserQuestionResult, QuestionView,
};
use crate::text;
use crate::text::{cat2, join_texts, owned, str_eq};
use crate::text_map::TextMap;
use crate::timestamp::Timestamp;
use vstd::prelude::*;

verus! {

/// Asks the user and waits for the answers.
#[derive(Debug)]
pub struct AskUserQuestionTool;

impl AskUserQuestionTool {
    pub fn new() -> (r: Self)
        ensures
            r == AskUserQuestionTool,
    {
        AskUserQuestionTool
    }

    pub fn name(&self) -> (r: &'static str)
        ensures
            r@ == "ask_user_question"@,
    {
        "ask_user_question"
    }
}

/// What is told where the user aborted.
pub const CANCELLED: &'static str = "User cancelled the questionnaire";

/// Checks what is asked and puts it in normal form.
pub fn prepare_questions(questions: Vec<AskUserQuestion>) -> (r: Result<
    Vec<AskUserQuestion>,
    String,
>)
    ensures
        ({
            let asked = questions::question_views(questions@);
            let errors = questions::all_errors(asked);
            if errors.len() == 0 {
                r is Ok && questions::question_views(r->Ok_0@) == questions::normal_questions(
                    asked,
                )
            } else {
                r is Err && r->Err_0@ == "ask_user_question: "@ + text::join(errors, "; "@)
            }
        }),
{
    let errors = validate_questions(questions.as_slice());
    if errors.len() > 0 {
        return Err(cat2("ask_user_question: ", join_texts(&errors, "; ").as_str()));
    }
    let mut questions = questions;
    normalize_questions(&mut questions);
    Ok(questions)
}

/// Whether every answer's numbers can be counted from one.
pub open spec fn all_countable(result: AskUserQuestionResult) -> bool {
    forall|i: int|
        0 <= i < result.answers@.len() ==> questions::is_countable(#[trigger] result.answers@[i])
}

/// What the model is told of how a questionnaire was closed.
pub open spec fn outcome_text(asked: Seq<QuestionView>, result: AskUserQuestionResult) -> Seq<
    char,
> {
    if result.cancelled {
        CANCELLED@
    } else {
        text::join(questions::answer_lines(asked, result.answers@), "\n"@)
    }
}

/// What the model is told of how a questionnaire was closed.
pub fn render_outcome(asked: &Vec<AskUserQuestion>, result: &AskUserQuestionResult) -> (r: String)
    requires
        all_countable(*result),
    ensures
        r@ == outcome_text(questions::question_views(asked@), *result),
{
    if result.cancelled {
        owned(CANCELLED)
    } else {
        format_answers(asked.as_slice(), result.answers.as_slice())
    }
}

/// The result where the tool that asked is answered by nobody.
pub fn cancelled_result() -> (r: AskUserQuestionResult)
    ensures
        r.cancelled,
        r.answers@.len() == 0,
{
    AskUserQuestionResult { cancelled: true, answers: Vec::new() }
}

// ---------------------------------------------------------------------------
// The record in the session
// ---------------------------------------------------------------------------

/// A question that waits for an answer, as a session keeps it.
#[derive(Debug, Clone, PartialEq)]
pub struct PendingAskUserQuestion {
    pub request_id: String,
    /// The tool call that the answer belongs to.
    pub tool_call_id: Option<String>,
    pub questions: Vec<AskUserQuestion>,
    pub asked_at: Timestamp,
}

/// A text where it is not empty.
pub open spec fn nonempty(s: Seq<char>) -> Option<Seq<char>> {
    if s.len() == 0 {
        None
    } else {
        Some(s)
    }
}

/// A text where it is not empty.
fn nonempty_text(s: &str) -> (r: Option<String>)
    ensures
        text::opt_text(r) == nonempty(s@),
{
    if s.unicode_len() == 0 {
        None
    } else {
        Some(owned(s))
    }
}

/// The record for a session; one without an identity keeps none.
pub fn pending_record(
    session_id: &str,
    request_id: &str,
    tool_call_id: &str,
    questions: Vec<AskUserQuestion>,
    asked_at: Timestamp,
) -> (r: Option<PendingAskUserQuestion>)
    ensures
        match r {
            None => session_id@.len() == 0,
            Some(p) => {
                &&& session_id@.len() > 0
                &&& p.request_id@ == request_id@
                &&& text::opt_text(p.tool_call_id) == nonempty(tool_call_id@)
                &&& p.questions == questions
                &&& p.asked_at == asked_at
            },
        },
{
    if session_id.unicode_len() == 0 {
        return None;
    }
    Some(
        PendingAskUserQuestion {
            request_id: owned(request_id),
            tool_call_id: nonempty_text(tool_call_id),
            questions,
            asked_at,
        },
    )
}

/// What of a session's status matters here.
#[derive(Debug, Clone, Copy, PartialEq, Eq, Structural)]
pub enum WaitStatus {
    Active,
    AwaitingUser,
    Other,
}

/// The status of a session whose question was answered: one that waited for
/// it is active again.
pub fn answered_status(status: WaitStatus) -> (r: WaitStatus)
    ensures
        r == (if status is AwaitingUser {
            WaitStatus::Active
        } else {
            status
        }),
{
    match status {
        WaitStatus::AwaitingUser => WaitStatus::Active,
        other => other,
    }
}

// ---------------------------------------------------------------------------
// The registry
// ---------------------------------------------------------------------------

/// A question that waits, as the server keeps it.
#[derive(Debug)]
pub struct PendingEntry {
    pub request_id: String,
    pub tool_call_id: Option<String>,
    pub questions: Vec<AskUserQuestion>,
    /// The number of the channel on which the tool waits; none where the turn
    /// that asked is gone.
    pub channel: Option<u64>,
}

/// What a [`PendingEntry`] stands for.
#[verifier::ext_equal]
pub struct EntryView {
    pub request_id: Seq<char>,
    pub tool_call_id: Option<Seq<char>>,
    pub questions: Seq<QuestionView>,
    pub channel: Option<u64>,
}

impl View for PendingEntry {
    type V = EntryView;

    open spec fn view(&self) -> EntryView {
        EntryView {
            request_id: self.request_id@,
            tool_call_id: text::opt_text(self.tool_call_id),
            questions: questions::question_views(self.questions@),
            channel: self.channel,
        }
    }
}

/// The waiting questions: at most one for each session.
#[derive(Debug)]
pub struct PendingQuestions {
    entries: TextMap<PendingEntry>,
}

impl View for PendingQuestions {
    type V = Map<Seq<char>, EntryView>;

    closed spec fn view(&self) -> Map<Seq<char>, EntryView> {
        self.entries@.map_values(|e: PendingEntry| e@)
    }
}

/// Whether the registry holds that very request for a session.
pub open spec fn is_waiting(
    pending: Map<Seq<char>, EntryView>,
    session_id: Seq<char>,
    request_id: Seq<char>,
) -> bool {
    pending.dom().contains(session_id) && pending[session_id].request_id == request_id
}

impl PendingQuestions {
    /// Nothing waits.
    pub fn new() -> (r: Self)
        ensures
            r@ == Map::<Seq<char>, EntryView>::empty(),
    {
        let r = PendingQuestions { entries: TextMap::new() };
        assert(r@ =~= Map::<Seq<char>, EntryView>::empty());
        r
    }

    /// Registers a question of a running turn; it takes the place of one that
    /// waited. The answer is the channel of that one, on which nobody will be
    /// answered.
    pub fn register(
        &mut self,
        session_id: &str,
        request_id: &str,
        tool_call_id: &str,
        questions: Vec<AskUserQuestion>,
        channel: u64,
    ) -> (replaced: Option<u64>)
        ensures
            final(self)@ == old(self)@.insert(
                session_id@,
                (EntryView {
                    request_id: request_id@,
                    tool_call_id: nonempty(tool_call_id@),
                    questions: questions::question_views(questions@),
                    channel: Some(channel),
                }),
            ),
            replaced == (if old(self)@.dom().contains(session_id@) {
                old(self)@[session_id@].channel
            } else {
                None::<u64>
            }),
    {
        let ghost before = self@;
        let entry = PendingEntry {
            request_id: owned(request_id),
            tool_call_id: nonempty_text(tool_call_id),
            questions,
            channel: Some(channel),
        };
        let ghost view = entry@;
        let was = self.entries.insert(session_id, entry);
        proof {
            assert(self@ =~= before.insert(session_id@, view));
            assert(view =~= EntryView {
                request_id: request_id@,
                tool_call_id: nonempty(tool_call_id@),
                questions: questions::question_views(questions@),
                channel: Some(channel),
            });
        }
        match was {
            Some(e) => e.channel,
            None => None,
        }
    }

    /// Whether a question waits in a session.
    pub fn has_pending_ask_user_question(&self, session_id: &str) -> (r: bool)
        ensures
            r == self@.dom().contains(session_id@),
    {
        self.entries.contains_key(session_id)
    }

    /// The question that waits in a session, to be shown to a client that
    /// attaches.
    pub fn pending_ask_user_question(&self, session_id: &str) -> (r: Option<&PendingEntry>)
        ensures
            match r {
                Some(e) => self@.dom().contains(session_id@) && self@[session_id@] == e@,
                None => !self@.dom().contains(session_id@),
            },
    {
        self.entries.get(session_id)
    }

    /// Registers a question that a restored session kept; one that is
    /// registered already stays.
    pub fn seed_pending_ask_user_question(
        &mut self,
        session_id: &str,
        record: PendingAskUserQuestion,
    )
        ensures
            final(self)@ == (if old(self)@.dom().contains(session_id@) {
                old(self)@
            } else {
                old(self)@.insert(
                    session_id@,
                    EntryView {
                        request_id: record.request_id@,
                        tool_call_id: text::opt_text(record.tool_call_id),
                        questions: questions::question_views(record.questions@),
                        channel: None,
                    },
                )
            }),
    {
        let ghost before = self@;
        if self.entries.contains_key(session_id) {
            return;
        }
        let entry = PendingEntry {
            request_id: record.request_id,
            tool_call_id: record.tool_call_id,
            questions: record.questions,
            channel: None,
        };
        let ghost view = entry@;
        let _ = self.entries.insert(session_id, entry);
        assert(self@ =~= before.insert(session_id@, view));
    }

    /// Takes the question out that a response is for. A response to a request
    /// that is not waiting takes nothing out.
    pub fn take_response(&mut self, session_id: &str, request_id: &str) -> (r: Option<PendingEntry>)
        ensures
            if is_waiting(old(self)@, session_id@, request_id@) {
                &&& r is Some
                &&& r->0@ == old(self)@[session_id@]
                &&& final(self)@ == old(self)@.remove(session_id@)
            } else {
                r is None && final(self)@ == old(self)@
            },
    {
        let ghost before = self@;
        let waits = match self.entries.get(session_id) {
            Some(e) => str_eq(e.request_id.as_str(), request_id),
            None => false,
        };
        if !waits {
            return None;
        }
        let r = self.entries.remove(session_id);
        assert(self@ =~= before.remove(session_id@));
        r
    }
}

/// What follows a response.
#[derive(Debug, Clone, Copy, PartialEq, Eq, Structural)]
pub enum ResponseStep {
    /// Nothing waits for it.
    Ignore,
    /// Hand it to the tool on this channel.
    Resolve { channel: u64 },
    /// Write it into the history of the session.
    Inject,
}

/// What follows a response, by the question that it took out.
pub fn response_step(entry: &Option<PendingEntry>) -> (r: ResponseStep)
    ensures
        r == (match *entry {
            None => ResponseStep::Ignore,
            Some(e) => match e.channel {
                Some(channel) => ResponseStep::Resolve { channel },
                None => ResponseStep::Inject,
            },
        }),
{
    match entry {
        None => ResponseStep::Ignore,
        Some(e) => match e.channel {
            Some(channel) => ResponseStep::Resolve { channel },
            None => ResponseStep::Inject,
        },
    }
}

/// Whether an answer goes into the history after it was offered to the tool:
/// it does where the tool is gone.
pub fn inject_after_offer(delivered: bool) -> (r: bool)
    ensures
        r == !delivered,
{
    !delivered
}

/// What is written into the history.
#[derive(Debug)]
pub enum HistoryBlock {
    /// The result of the tool call that asked.
    ToolResult { tool_use_id: String, content: String },
    /// A message of its own.
    Text { text: String },
}

/// What is written into the history for a question that nobody waits for any
/// more.
pub fn orphaned_answer(entry: &PendingEntry, result: &AskUserQuestionResult) -> (r: HistoryBlock)
    requires
        all_countable(*result),
    ensures
        ({
            let told = outcome_text(entry@.questions, *result);
            match entry@.tool_call_id {
                Some(id) => r matches HistoryBlock::ToolResult { tool_use_id, content }
                    && tool_use_id@ == id && content@ == told,
                None => r matches HistoryBlock::Text { text } && text@
                    == "Questionnaire answer:\n"@ + told,
            }
        }),
{
    let content = render_outcome(&entry.questions, result);
    match &entry.tool_call_id {
        Some(id) => HistoryBlock::ToolResult { tool_use_id: owned(id.as_str()), content },
        None => HistoryBlock::Text { text: cat2("Questionnaire answer:\n", content.as_str()) },
    }
}

/// A response is taken once: after it, the same response finds nothing, and
/// the questions of other sessions still wait.
pub proof fn law_a_response_is_taken_once(
    pending: Map<Seq<char>, EntryView>,
    session_id: Seq<char>,
    request_id: Seq<char>,
    other: Seq<char>,
)
    requires
        is_waiting(pending, session_id, request_id),
    ensures
        !is_waiting(pending.remove(session_id), session_id, request_id),
        other != session_id && pending.dom().contains(other) ==> pending.remove(
            session_id,
        ).dom().contains(other) && pending.remove(session_id)[other] == pending[other],
{
}

/// What is told of a questionnaire: that it was cancelled, whatever answers
/// there were, or one line for each answer, in order.
pub proof fn law_outcomes_tell_every_answer(
    asked: Seq<QuestionView>,
    result: AskUserQuestionResult,
)
    ensures
        result.cancelled ==> outcome_text(asked, result) == "User cancelled the questionnaire"@,
        !result.cancelled ==> outcome_text(asked, result) == text::join(
            result.answers@.map_values(
                |a: questions::AskUserQuestionAnswer| questions::answer_line(asked, a),
            ),
            seq!['\n'],
        ),
{
    reveal_strlit("\n");
    assert("\n"@ =~= seq!['\n']);
    assert(questions::answer_lines(asked, result.answers@) =~= result.answers@.map_values(
        |a: questions::AskUserQuestionAnswer| questions::answer_line(asked, a),
    ));
}

/// An empty text counts as none, and any other as itself.
pub proof fn law_empty_texts_count_as_none(s: Seq<char>)
    ensures
        nonempty(s) is None <==> s.len() == 0,
        nonempty(s) matches Some(t) ==> t == s,
{
}

/// A request is waited for where it is the one pending in its session: another
/// number, or another session, is not it.
pub proof fn law_only_the_pending_request_is_waited_for(
    pending: Map<Seq<char>, EntryView>,
    session_id: Seq<char>,
    request_id: Seq<char>,
    entry: EntryView,
)
    ensures
        is_waiting(pending.insert(session_id, entry), session_id, entry.request_id),
        request_id != entry.request_id ==> !is_waiting(
            pending.insert(session_id, entry),
            session_id,
            request_id,
        ),
        !pending.dom().contains(session_id) ==> !is_waiting(pending, session_id, request_id),
{
}

} // verus!
