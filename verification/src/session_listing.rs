//! What the session picker shows: a row for each session that has a
//! conversation, and the end of one conversation as a preview.

use crate::json::{copy_of, Json};
use crate::sort;
use crate::sort::{stable_sort, Ranked};
use crate::text;
use crate::text::{
    begins_with, clone_opt, list_contains, owned, stripped_suffix, trimmed, truncated,
};
use crate::timestamp;
use crate::timestamp::Timestamp;
use vstd::prelude::*;

verus! {

/// How many rows a preview has at most.
pub const REMOTE_PREVIEW_MESSAGES: usize = 20;

/// How many bytes of the first prompt are shown at most.
pub const FIRST_PROMPT_MAX_CHARS: usize = 200;

/// How many bytes of a title from the task list are shown at most.
pub const TODO_TITLE_MAX_CHARS: usize = 72;

// ---------------------------------------------------------------------------
// Which files are sessions
// ---------------------------------------------------------------------------

/// Whether a file of that name is the snapshot of a session: it ends in
/// `.json` behind a stem, and is no backup.
pub open spec fn is_snapshot_name(name: Seq<char>) -> bool {
    &&& text::ends_with(name, ".json"@)
    &&& name.len() > ".json"@.len()
    &&& !text::contains(name, ".pre-wipe-"@)
}

/// The session that a file holds: imported conversations are listed
/// elsewhere.
pub open spec fn listed_session(name: Seq<char>) -> Option<Seq<char>> {
    let stem = text::strip_suffix(name, ".json"@);
    if is_snapshot_name(name) && !text::starts_with(stem->0, "imported_"@) {
        stem
    } else {
        None
    }
}

/// Whether a file of that name is the snapshot of a session.
pub fn is_session_snapshot(file_name: &str) -> (r: bool)
    ensures
        r == is_snapshot_name(file_name@),
{
    match stripped_suffix(file_name, ".json") {
        Some(stem) => stem.unicode_len() > 0 && !text::has(file_name, ".pre-wipe-"),
        None => false,
    }
}

/// The session that a file holds.
pub fn session_of_file(file_name: &str) -> (r: Option<String>)
    ensures
        text::opt_text(r) == listed_session(file_name@),
{
    if !is_session_snapshot(file_name) {
        return None;
    }
    match stripped_suffix(file_name, ".json") {
        Some(stem) => if begins_with(stem, "imported_") {
            None
        } else {
            Some(owned(stem))
        },
        None => None,
    }
}

// ---------------------------------------------------------------------------
// Rows
// ---------------------------------------------------------------------------

/// One visible message of a session.
#[derive(Debug)]
pub struct MessageFacts {
    /// Whether the user wrote it, and not the assistant.
    pub is_user: bool,
    /// Its text, shortened.
    pub preview: String,
    /// How many characters its text has.
    pub chars: usize,
    /// When it was sent.
    pub time: Timestamp,
}

/// What is known of a session.
#[derive(Debug)]
pub struct SessionFacts {
    pub id: String,
    pub parent_id: Option<String>,
    pub short_name: Option<String>,
    /// The name that is part of its identity.
    pub name_in_id: Option<String>,
    pub custom_title: Option<String>,
    /// The title that its task list gives it.
    pub todo_title: Option<String>,
    pub title: Option<String>,
    pub created_at: Timestamp,
    pub last_active_at: Option<Timestamp>,
    pub working_dir: Option<String>,
    pub model: Option<String>,
    pub provider_key: Option<String>,
    pub is_canary: bool,
    pub is_debug: bool,
    pub saved: bool,
    pub save_label: Option<String>,
    /// How the session stands, as it is written in its file.
    pub status: Json,
    /// The messages of the conversation that are shown.
    pub visible: Vec<MessageFacts>,
}

/// One row of the picker.
#[derive(Debug)]
pub struct SessionListEntry {
    pub id: String,
    pub parent_id: Option<String>,
    pub short_name: Option<String>,
    pub title: String,
    pub message_count: usize,
    pub user_message_count: usize,
    pub assistant_message_count: usize,
    pub created_at: Timestamp,
    /// When the last of the messages that are shown was sent.
    pub last_message_time: Timestamp,
    pub last_active_at: Option<Timestamp>,
    pub working_dir: Option<String>,
    pub model: Option<String>,
    pub provider_key: Option<String>,
    pub is_canary: bool,
    pub is_debug: bool,
    pub saved: bool,
    pub save_label: Option<String>,
    pub status: Json,
    pub estimated_tokens: usize,
    pub first_user_prompt: Option<String>,
    pub live_attached: bool,
    pub live_processing: bool,
}

/// How many of the first `k` messages are the user's, or the assistant's.
pub open spec fn count_of(messages: Seq<MessageFacts>, is_user: bool, k: int) -> int
    decreases k,
{
    if k <= 0 {
        0
    } else {
        count_of(messages, is_user, k - 1) + if messages[k - 1].is_user == is_user {
            1int
        } else {
            0int
        }
    }
}

/// A sum that stops at the largest number of its type.
pub open spec fn capped_sum(a: int, b: int) -> int {
    if a + b > usize::MAX {
        usize::MAX as int
    } else {
        a + b
    }
}

/// The characters of the first `k` messages, up to the largest number.
pub open spec fn char_sum(messages: Seq<MessageFacts>, k: int) -> int
    decreases k,
{
    if k <= 0 {
        0
    } else {
        capped_sum(char_sum(messages, k - 1), messages[k - 1].chars as int)
    }
}

/// About how many tokens messages have: one for every four characters.
pub open spec fn token_estimate(messages: Seq<MessageFacts>) -> int {
    char_sum(messages, messages.len() as int) / 4
}

/// The first prompt among the messages from the `k`-th on, without
/// surrounding space and shortened.
pub open spec fn first_prompt(messages: Seq<MessageFacts>, k: int) -> Option<Seq<char>>
    decreases messages.len() - k,
{
    if k >= messages.len() {
        None
    } else if messages[k].is_user {
        Some(text::truncate(text::trim(messages[k].preview@), FIRST_PROMPT_MAX_CHARS as int))
    } else {
        first_prompt(messages, k + 1)
    }
}

/// The short name of a session: its own, else the one in its identity, else
/// its identity.
pub open spec fn short_name_of(s: SessionFacts) -> Seq<char> {
    match (s.short_name, s.name_in_id) {
        (Some(name), _) => name@,
        (None, Some(name)) => name@,
        (None, None) => s.id@,
    }
}

/// The title of a session: the one it was given, else that of its task list,
/// else the generated one, else its short name.
pub open spec fn title_of(s: SessionFacts) -> Seq<char> {
    match (s.custom_title, s.todo_title, s.title) {
        (Some(title), _, _) => title@,
        (None, Some(title), _) => text::truncate(
            text::trim(title@),
            TODO_TITLE_MAX_CHARS as int,
        ),
        (None, None, Some(title)) => title@,
        (None, None, None) => short_name_of(s),
    }
}

/// Whether a row is the one of a session.
pub open spec fn is_row_of(
    row: SessionListEntry,
    s: SessionFacts,
    attached: Seq<Seq<char>>,
    processing: Seq<Seq<char>>,
) -> bool {
    let n = s.visible@.len() as int;
    &&& row.id@ == s.id@
    &&& text::opt_text(row.parent_id) == text::opt_text(s.parent_id)
    &&& text::opt_text(row.short_name) == Some(short_name_of(s))
    &&& row.title@ == title_of(s)
    &&& row.message_count == n
    &&& row.user_message_count == count_of(s.visible@, true, n)
    &&& row.assistant_message_count == count_of(s.visible@, false, n)
    &&& row.created_at == s.created_at
    &&& row.last_message_time == s.visible@.last().time
    &&& row.last_active_at == s.last_active_at
    &&& text::opt_text(row.working_dir) == text::opt_text(s.working_dir)
    &&& text::opt_text(row.model) == text::opt_text(s.model)
    &&& text::opt_text(row.provider_key) == text::opt_text(s.provider_key)
    &&& row.is_canary == s.is_canary
    &&& row.is_debug == s.is_debug
    &&& row.saved == s.saved
    &&& text::opt_text(row.save_label) == text::opt_text(s.save_label)
    &&& row.status@ == s.status@
    &&& row.estimated_tokens == token_estimate(s.visible@)
    &&& text::opt_text(row.first_user_prompt) == first_prompt(s.visible@, 0)
    &&& row.live_attached == attached.contains(s.id@)
    &&& row.live_processing == processing.contains(s.id@)
}

/// The short name of a session.
fn pick_short_name(s: &SessionFacts) -> (r: String)
    ensures
        r@ == short_name_of(*s),
{
    match &s.short_name {
        Some(name) => owned(name.as_str()),
        None => match &s.name_in_id {
            Some(name) => owned(name.as_str()),
            None => owned(s.id.as_str()),
        },
    }
}

/// The title of a session.
fn pick_title(s: &SessionFacts) -> (r: String)
    ensures
        r@ == title_of(*s),
{
    match &s.custom_title {
        Some(title) => owned(title.as_str()),
        None => match &s.todo_title {
            Some(title) => owned(truncated(trimmed(title.as_str()), TODO_TITLE_MAX_CHARS)),
            None => match &s.title {
                Some(title) => owned(title.as_str()),
                None => pick_short_name(s),
            },
        },
    }
}

/// The row of a session; one without a conversation has none.
pub fn session_list_entry(
    s: &SessionFacts,
    live_attached: &Vec<String>,
    live_processing: &Vec<String>,
) -> (r: Option<SessionListEntry>)
    ensures
        match r {
            None => s.visible@.len() == 0,
            Some(row) => s.visible@.len() > 0 && is_row_of(
                row,
                *s,
                text::texts(live_attached@),
                text::texts(live_processing@),
            ),
        },
{
    if s.visible.len() == 0 {
        return None;
    }
    let mut users: usize = 0;
    let mut assistants: usize = 0;
    let mut chars: usize = 0;
    let mut prompt: Option<String> = None;
    let mut k: usize = 0;
    while k < s.visible.len()
        invariant
            k <= s.visible@.len(),
            users == count_of(s.visible@, true, k as int),
            assistants == count_of(s.visible@, false, k as int),
            users + assistants == k,
            chars == char_sum(s.visible@, k as int),
            prompt is Some ==> text::opt_text(prompt) == first_prompt(s.visible@, 0),
            prompt is None ==> first_prompt(s.visible@, 0) == first_prompt(s.visible@, k as int),
        decreases s.visible@.len() - k,
    {
        let message = &s.visible[k];
        if message.is_user {
            users = users + 1;
            if prompt.is_none() {
                prompt = Some(
                    owned(truncated(trimmed(message.preview.as_str()), FIRST_PROMPT_MAX_CHARS)),
                );
            }
        } else {
            assistants = assistants + 1;
        }
        chars = chars.saturating_add(message.chars);
        k = k + 1;
    }
    Some(
        SessionListEntry {
            id: owned(s.id.as_str()),
            parent_id: clone_opt(&s.parent_id),
            short_name: Some(pick_short_name(s)),
            title: pick_title(s),
            message_count: s.visible.len(),
            user_message_count: users,
            assistant_message_count: assistants,
            created_at: s.created_at,
            last_message_time: s.visible[s.visible.len() - 1].time,
            last_active_at: s.last_active_at,
            working_dir: clone_opt(&s.working_dir),
            model: clone_opt(&s.model),
            provider_key: clone_opt(&s.provider_key),
            is_canary: s.is_canary,
            is_debug: s.is_debug,
            saved: s.saved,
            save_label: clone_opt(&s.save_label),
            status: copy_of(&s.status),
            estimated_tokens: chars / 4,
            first_user_prompt: prompt,
            live_attached: list_contains(live_attached, s.id.as_str()),
            live_processing: list_contains(live_processing, s.id.as_str()),
        },
    )
}

// ---------------------------------------------------------------------------
// The list
// ---------------------------------------------------------------------------

impl View for SessionListEntry {
    type V = SessionListEntry;

    open spec fn view(&self) -> SessionListEntry {
        *self
    }
}

/// Rows go by their last message, the latest first.
pub open spec fn latest_first() -> spec_fn(SessionListEntry, SessionListEntry) -> bool {
    |a: SessionListEntry, b: SessionListEntry|
        timestamp::no_earlier(a.last_message_time, b.last_message_time)
}

impl Ranked for SessionListEntry {
    open spec fn order() -> spec_fn(SessionListEntry, SessionListEntry) -> bool {
        latest_first()
    }

    fn not_after(&self, other: &Self) -> (r: bool) {
        self.last_message_time.is_no_earlier(&other.last_message_time)
    }
}

/// Whether rows are those of the sessions that have a conversation, in order.
pub open spec fn are_rows_of(
    rows: Seq<SessionListEntry>,
    sessions: Seq<SessionFacts>,
    attached: Seq<Seq<char>>,
    processing: Seq<Seq<char>>,
) -> bool
    decreases sessions.len(),
{
    if sessions.len() == 0 {
        rows.len() == 0
    } else if sessions.last().visible@.len() == 0 {
        are_rows_of(rows, sessions.drop_last(), attached, processing)
    } else {
        rows.len() > 0 && is_row_of(rows.last(), sessions.last(), attached, processing)
            && are_rows_of(rows.drop_last(), sessions.drop_last(), attached, processing)
    }
}

/// The rows of the picker: one for each session with a conversation, the one
/// with the latest message first.
pub fn collect_session_list_entries(
    sessions: &Vec<SessionFacts>,
    live_attached: &Vec<String>,
    live_processing: &Vec<String>,
) -> (r: Vec<SessionListEntry>)
    ensures
        exists|rows: Seq<SessionListEntry>| #[trigger]
            are_rows_of(
                rows,
                sessions@,
                text::texts(live_attached@),
                text::texts(live_processing@),
            ) && r@ == sort::sorted(rows, latest_first()),
{
    let ghost attached = text::texts(live_attached@);
    let ghost processing = text::texts(live_processing@);
    let mut rows: Vec<SessionListEntry> = Vec::new();
    let mut k: usize = 0;
    assert(sessions@.take(0).len() == 0);
    while k < sessions.len()
        invariant
            k <= sessions@.len(),
            attached == text::texts(live_attached@),
            processing == text::texts(live_processing@),
            are_rows_of(rows@, sessions@.take(k as int), attached, processing),
        decreases sessions@.len() - k,
    {
        let ghost before = rows@;
        proof {
            assert(sessions@.take(k + 1).drop_last() =~= sessions@.take(k as int));
            assert(sessions@.take(k + 1).last() == sessions@[k as int]);
        }
        if let Some(row) = session_list_entry(&sessions[k], live_attached, live_processing) {
            rows.push(row);
            assert(rows@.drop_last() =~= before);
        }
        k = k + 1;
    }
    let ghost unsorted = rows@;
    let r = stable_sort(rows);
    proof {
        assert(sessions@.take(sessions@.len() as int) =~= sessions@);
        assert(sort::views(unsorted) =~= unsorted);
        assert(sort::views(r@) =~= r@);
    }
    r
}

/// The rows of the picker stand with the latest message first.
pub proof fn law_latest_session_comes_first(rows: Seq<SessionListEntry>)
    ensures
        forall|i: int, j: int|
            0 <= i < j < sort::sorted(rows, latest_first()).len() ==> timestamp::no_earlier(
                (#[trigger] sort::sorted(rows, latest_first())[i]).last_message_time,
                (#[trigger] sort::sorted(rows, latest_first())[j]).last_message_time,
            ),
        sort::sorted(rows, latest_first()).to_multiset() == rows.to_multiset(),
{
    sort::law_sorted_is_in_order(rows, latest_first());
    sort::law_sorted_is_permutation(rows, latest_first());
    let s = sort::sorted(rows, latest_first());
    assert forall|i: int, j: int| 0 <= i < j < s.len() implies timestamp::no_earlier(
        (#[trigger] s[i]).last_message_time,
        (#[trigger] s[j]).last_message_time,
    ) by {
        assert(latest_first()(s[i], s[j]));
    }
}

/// Every message is counted once, as the user's or as the assistant's.
pub proof fn law_messages_are_counted_once(messages: Seq<MessageFacts>, k: int)
    requires
        0 <= k <= messages.len(),
    ensures
        count_of(messages, true, k) + count_of(messages, false, k) == k,
        count_of(messages, true, k) >= 0,
        count_of(messages, false, k) >= 0,
    decreases k,
{
    if k > 0 {
        law_messages_are_counted_once(messages, k - 1);
    }
}

// ---------------------------------------------------------------------------
// The preview
// ---------------------------------------------------------------------------

/// The last of a conversation, as many as a preview shows.
pub open spec fn preview_of<T>(messages: Seq<T>) -> Seq<T> {
    if messages.len() <= REMOTE_PREVIEW_MESSAGES {
        messages
    } else {
        messages.skip(messages.len() - REMOTE_PREVIEW_MESSAGES)
    }
}

/// The last of a conversation, in order.
pub fn build_remote_preview<T>(messages: Vec<T>) -> (r: Vec<T>)
    ensures
        r@ == preview_of(messages@),
{
    let ghost all = messages@;
    let mut r = messages;
    while r.len() > REMOTE_PREVIEW_MESSAGES
        invariant
            r@.len() <= all.len(),
            r@ == all.skip(all.len() - r@.len()),
            preview_of(all) == preview_of(r@),
        decreases r@.len(),
    {
        let ghost was = r@;
        let _ = r.remove(0);
        proof {
            assert(r@ =~= was.skip(1));
            assert(r@ =~= all.skip(all.len() - r@.len()));
            assert(preview_of(r@) =~= preview_of(was));
        }
    }
    r
}

/// A preview has a bounded number of rows and holds the end of the
/// conversation, in order.
pub proof fn law_preview_is_the_end<T>(messages: Seq<T>)
    ensures
        preview_of(messages).len() <= REMOTE_PREVIEW_MESSAGES,
        preview_of(messages).len() == REMOTE_PREVIEW_MESSAGES || preview_of(messages) == messages,
        messages.take(messages.len() - preview_of(messages).len()) + preview_of(messages)
            == messages,
{
    let rest = messages.take(messages.len() - preview_of(messages).len());
    assert(rest + preview_of(messages) =~= messages);
}

/// What is answered to a request to mark a session.
pub fn saved_failure(error: &str) -> (r: String)
    ensures
        r@ == "set_session_saved failed: "@ + error@,
{
    text::cat2("set_session_saved failed: ", error)
}

/// A session is listed by the file that holds it: the name without the ending,
/// unless nothing is left of it, it was set aside, or it was brought in from
/// elsewhere. No other file is one.
pub proof fn law_sessions_are_listed_by_file(stem: Seq<char>, name: Seq<char>)
    ensures
        stem.len() > 0 && !text::contains(stem + ".json"@, ".pre-wipe-"@) && !text::starts_with(
            stem,
            "imported_"@,
        ) ==> listed_session(stem + ".json"@) == Some(stem),
        text::starts_with(stem, "imported_"@) ==> listed_session(stem + ".json"@) is None,
        text::contains(name, ".pre-wipe-"@) ==> listed_session(name) is None
            && !is_snapshot_name(name),
        listed_session(".json"@) is None,
        listed_session(name) matches Some(found) ==> name == found + ".json"@ && found.len() > 0,
        is_snapshot_name(stem + ".json"@) <==> stem.len() > 0 && !text::contains(
            stem + ".json"@,
            ".pre-wipe-"@,
        ),
{
    reveal_strlit(".json");
    text::law_stripping_undoes_putting(stem, ".json"@);
    text::law_stripping_undoes_putting(name, ".json"@);
}

proof fn lemma_count(messages: Seq<MessageFacts>, is_user: bool, k: int)
    requires
        0 <= k <= messages.len(),
    ensures
        count_of(messages, is_user, k) == messages.take(k).filter(
            |m: MessageFacts| m.is_user == is_user,
        ).len(),
    decreases k,
{
    let p = |m: MessageFacts| m.is_user == is_user;
    if k > 0 {
        lemma_count(messages, is_user, k - 1);
        assert(messages.take(k) =~= messages.take(k - 1).push(messages[k - 1]));
        sort::lemma_filter_last(messages.take(k - 1), messages[k - 1], p);
    } else {
        assert(messages.take(0) =~= Seq::empty());
        sort::lemma_filter_empty(p);
    }
}

/// Messages are counted by who wrote them.
pub proof fn law_messages_are_counted_by_writer(messages: Seq<MessageFacts>, is_user: bool)
    ensures
        count_of(messages, is_user, messages.len() as int) == messages.filter(
            |m: MessageFacts| m.is_user == is_user,
        ).len(),
{
    lemma_count(messages, is_user, messages.len() as int);
    assert(messages.take(messages.len() as int) =~= messages);
}

/// The characters of the first messages.
pub open spec fn chars_in(messages: Seq<MessageFacts>) -> int
    decreases messages.len(),
{
    if messages.len() == 0 {
        0
    } else {
        chars_in(messages.drop_last()) + messages.last().chars
    }
}

proof fn lemma_chars(messages: Seq<MessageFacts>, k: int)
    requires
        0 <= k <= messages.len(),
    ensures
        chars_in(messages.take(k)) >= 0,
        char_sum(messages, k) == if chars_in(messages.take(k)) > usize::MAX {
            usize::MAX as int
        } else {
            chars_in(messages.take(k))
        },
    decreases k,
{
    if k > 0 {
        lemma_chars(messages, k - 1);
        assert(messages.take(k).drop_last() =~= messages.take(k - 1));
    }
}

/// The tokens of a session are a quarter of the characters of its messages,
/// rounded down; a sum beyond what can be counted counts as the most that can.
pub proof fn law_tokens_are_a_quarter_of_the_characters(messages: Seq<MessageFacts>)
    ensures
        chars_in(messages) <= usize::MAX ==> 4 * token_estimate(messages) <= chars_in(messages)
            && chars_in(messages) < 4 * token_estimate(messages) + 4,
        chars_in(messages) > usize::MAX ==> token_estimate(messages) == usize::MAX / 4,
        0 <= token_estimate(messages),
{
    lemma_chars(messages, messages.len() as int);
    assert(messages.take(messages.len() as int) =~= messages);
}

proof fn lemma_first_prompt(messages: Seq<MessageFacts>, k: int)
    requires
        0 <= k,
    ensures
        first_prompt(messages, k) matches Some(prompt) ==> exists|i: int|
            k <= i < messages.len() && (#[trigger] messages[i]).is_user && prompt == text::truncate(
                text::trim(messages[i].preview@),
                200,
            ) && forall|j: int| k <= j < i ==> !(#[trigger] messages[j]).is_user,
        first_prompt(messages, k) is None ==> forall|j: int|
            k <= j < messages.len() ==> !(#[trigger] messages[j]).is_user,
    decreases messages.len() - k,
{
    if k < messages.len() {
        if messages[k].is_user {
            assert(messages[k].is_user);
        } else {
            lemma_first_prompt(messages, k + 1);
            if let Some(prompt) = first_prompt(messages, k) {
                let i = choose|i: int|
                    k + 1 <= i < messages.len() && (#[trigger] messages[i]).is_user && prompt
                        == text::truncate(text::trim(messages[i].preview@), 200) && forall|j: int|
                        k + 1 <= j < i ==> !(#[trigger] messages[j]).is_user;
                assert(messages[i].is_user);
            }
        }
    }
}

/// The first prompt is the beginning of the first message that the user wrote,
/// without white space round it, and none where the user wrote none.
pub proof fn law_the_first_prompt_is_shown(messages: Seq<MessageFacts>)
    ensures
        first_prompt(messages, 0) matches Some(prompt) ==> exists|i: int|
            0 <= i < messages.len() && (#[trigger] messages[i]).is_user && prompt == text::truncate(
                text::trim(messages[i].preview@),
                200,
            ) && forall|j: int| 0 <= j < i ==> !(#[trigger] messages[j]).is_user,
        first_prompt(messages, 0) is None ==> forall|j: int|
            0 <= j < messages.len() ==> !(#[trigger] messages[j]).is_user,
{
    lemma_first_prompt(messages, 0);
}

/// A title that the user gave wins over one from the tasks, that over the one
/// found, and without any the session goes by its short name; that is the one
/// given, else the one in its number, else the number itself.
pub proof fn law_titles_come_in_order(s: SessionFacts)
    ensures
        s.custom_title matches Some(title) ==> title_of(s) == title@,
        s.custom_title is None ==> (s.todo_title matches Some(title) ==> title_of(s)
            == text::truncate(text::trim(title@), 72)),
        s.custom_title is None && s.todo_title is None ==> (s.title matches Some(title) ==> title_of(
            s,
        ) == title@),
        s.custom_title is None && s.todo_title is None && s.title is None ==> title_of(s)
            == short_name_of(s),
        s.short_name matches Some(name) ==> short_name_of(s) == name@,
        s.short_name is None ==> (s.name_in_id matches Some(name) ==> short_name_of(s) == name@),
        s.short_name is None && s.name_in_id is None ==> short_name_of(s) == s.id@,
{
}

/// A row tells of its session: what identifies it, when it was made and last
/// spoken to, where and with which model it runs, how it is marked, how many
/// messages of each side it has, and whether somebody is attached to it or it
/// is at work.
pub proof fn law_rows_tell_of_their_session(
    row: SessionListEntry,
    s: SessionFacts,
    attached: Seq<Seq<char>>,
    processing: Seq<Seq<char>>,
)
    requires
        is_row_of(row, s, attached, processing),
    ensures
        row.id@ == s.id@,
        text::opt_text(row.parent_id) == text::opt_text(s.parent_id),
        text::opt_text(row.short_name) == Some(short_name_of(s)),
        row.title@ == title_of(s),
        row.message_count == s.visible@.len(),
        row.user_message_count == s.visible@.filter(|m: MessageFacts| m.is_user == true).len(),
        row.assistant_message_count == s.visible@.filter(
            |m: MessageFacts| m.is_user == false,
        ).len(),
        row.user_message_count + row.assistant_message_count == row.message_count,
        row.created_at == s.created_at,
        s.visible@.len() > 0 ==> row.last_message_time == s.visible@[s.visible@.len() - 1].time,
        row.last_active_at == s.last_active_at,
        text::opt_text(row.working_dir) == text::opt_text(s.working_dir),
        text::opt_text(row.model) == text::opt_text(s.model),
        text::opt_text(row.provider_key) == text::opt_text(s.provider_key),
        row.is_canary == s.is_canary && row.is_debug == s.is_debug && row.saved == s.saved,
        text::opt_text(row.save_label) == text::opt_text(s.save_label),
        row.status@ == s.status@,
        row.estimated_tokens == token_estimate(s.visible@),
        text::opt_text(row.first_user_prompt) == first_prompt(s.visible@, 0),
        row.live_attached <==> attached.contains(s.id@),
        row.live_processing <==> processing.contains(s.id@),
{
    law_messages_are_counted_by_writer(s.visible@, true);
    law_messages_are_counted_by_writer(s.visible@, false);
    law_messages_are_counted_once(s.visible@, s.visible@.len() as int);
}

/// Sessions in which something was said.
pub open spec fn has_messages() -> spec_fn(SessionFacts) -> bool {
    |s: SessionFacts| s.visible@.len() > 0
}

/// Every session in which something was said has one row, in order, and no
/// other session has one.
pub proof fn law_every_session_with_messages_has_a_row(
    rows: Seq<SessionListEntry>,
    sessions: Seq<SessionFacts>,
    attached: Seq<Seq<char>>,
    processing: Seq<Seq<char>>,
)
    requires
        are_rows_of(rows, sessions, attached, processing),
    ensures
        rows.len() == sessions.filter(has_messages()).len(),
        forall|i: int|
            0 <= i < rows.len() ==> is_row_of(
                #[trigger] rows[i],
                sessions.filter(has_messages())[i],
                attached,
                processing,
            ),
    decreases sessions.len(),
{
    if sessions.len() == 0 {
        assert(sessions =~= Seq::empty());
        sort::lemma_filter_empty(has_messages());
    } else {
        let front = sessions.drop_last();
        assert(front.push(sessions.last()) =~= sessions);
        sort::lemma_filter_last(front, sessions.last(), has_messages());
        if sessions.last().visible@.len() == 0 {
            law_every_session_with_messages_has_a_row(rows, front, attached, processing);
        } else {
            let before = rows.drop_last();
            law_every_session_with_messages_has_a_row(before, front, attached, processing);
            assert forall|i: int| 0 <= i < rows.len() implies is_row_of(
                #[trigger] rows[i],
                sessions.filter(has_messages())[i],
                attached,
                processing,
            ) by {
                if i < before.len() {
                    assert(rows[i] == before[i]);
                }
            }
        }
    }
}

/// A preview holds the last twenty messages, or all where there are fewer.
pub proof fn law_previews_hold_the_last_twenty<T>(messages: Seq<T>, last: Seq<T>)
    requires
        last.len() <= 20,
    ensures
        preview_of(last) == last,
        last.len() == 20 ==> preview_of(messages + last) == last,
{
    assert((messages + last).skip(messages.len() as int) =~= last);
    if messages.len() == 0 {
        assert(messages + last =~= last);
    }
}

} // verus!
