//! The rows of the session list as JSON.

use crate::json;
use crate::json::{array, copy_of, object, push_member, record_from, Json};
use crate::ssh_ops::codec;
use crate::ssh_ops::SshSessionEntry;
use crate::text;
use crate::text::{decimal_of_usize, owned};
use crate::timestamp;
use crate::timestamp::{instant_in_text, text_of_instant, Timestamp};
use vstd::prelude::*;

verus! {

/// What a row stands for.
#[verifier::ext_equal]
pub struct RowView {
    pub id: Seq<char>,
    pub parent_id: Option<Seq<char>>,
    pub short_name: Option<Seq<char>>,
    pub title: Seq<char>,
    pub message_count: usize,
    pub user_message_count: usize,
    pub assistant_message_count: usize,
    pub created_at: (int, int),
    pub last_message_time: (int, int),
    pub last_active_at: Option<(int, int)>,
    pub working_dir: Option<Seq<char>>,
    pub model: Option<Seq<char>>,
    pub provider_key: Option<Seq<char>>,
    pub is_canary: bool,
    pub is_debug: bool,
    pub saved: bool,
    pub save_label: Option<Seq<char>>,
    pub status: json::Tree,
    pub estimated_tokens: usize,
    pub first_user_prompt: Option<Seq<char>>,
    pub live_attached: bool,
    pub live_processing: bool,
}

/// What a row stands for.
pub open spec fn row_view(e: SshSessionEntry) -> RowView {
    RowView {
        id: e.id@,
        parent_id: text::opt_text(e.parent_id),
        short_name: text::opt_text(e.short_name),
        title: e.title@,
        message_count: e.message_count,
        user_message_count: e.user_message_count,
        assistant_message_count: e.assistant_message_count,
        created_at: timestamp::instant_of(e.created_at),
        last_message_time: timestamp::instant_of(e.last_message_time),
        last_active_at: timestamp::opt_instant(e.last_active_at),
        working_dir: text::opt_text(e.working_dir),
        model: text::opt_text(e.model),
        provider_key: text::opt_text(e.provider_key),
        is_canary: e.is_canary,
        is_debug: e.is_debug,
        saved: e.saved,
        save_label: text::opt_text(e.save_label),
        status: e.status@,
        estimated_tokens: e.estimated_tokens,
        first_user_prompt: text::opt_text(e.first_user_prompt),
        live_attached: e.live_attached,
        live_processing: e.live_processing,
    }
}

/// The times of a row, as they are written.
#[verifier::ext_equal]
pub struct RowTimes {
    pub created_at: Seq<char>,
    pub last_message_time: Seq<char>,
    pub last_active_at: Option<Seq<char>>,
}

/// An optional string as a value.
pub open spec fn opt_text_tree(s: Option<Seq<char>>) -> Option<json::Tree> {
    match s {
        Some(s) => Some(json::Tree::Text(s)),
        None => None,
    }
}

/// A count as a value.
pub open spec fn count_tree(n: usize) -> Option<json::Tree> {
    Some(json::Tree::Number(text::decimal(n as nat)))
}

/// The fields of a row, in order; one without a value is left out.
pub open spec fn row_fields(e: RowView, times: RowTimes) -> Seq<(Seq<char>, Option<json::Tree>)> {
    seq![
        ("id"@, Some(json::Tree::Text(e.id))),
        ("parent_id"@, opt_text_tree(e.parent_id)),
        ("short_name"@, opt_text_tree(e.short_name)),
        ("title"@, Some(json::Tree::Text(e.title))),
        ("message_count"@, count_tree(e.message_count)),
        ("user_message_count"@, count_tree(e.user_message_count)),
        ("assistant_message_count"@, count_tree(e.assistant_message_count)),
        ("created_at"@, Some(json::Tree::Text(times.created_at))),
        ("last_message_time"@, Some(json::Tree::Text(times.last_message_time))),
        ("last_active_at"@, opt_text_tree(times.last_active_at)),
        ("working_dir"@, opt_text_tree(e.working_dir)),
        ("model"@, opt_text_tree(e.model)),
        ("provider_key"@, opt_text_tree(e.provider_key)),
        ("is_canary"@, Some(json::Tree::Bool(e.is_canary))),
        ("is_debug"@, Some(json::Tree::Bool(e.is_debug))),
        ("saved"@, Some(json::Tree::Bool(e.saved))),
        ("save_label"@, opt_text_tree(e.save_label)),
        ("status"@, Some(e.status)),
        ("estimated_tokens"@, count_tree(e.estimated_tokens)),
        ("first_user_prompt"@, opt_text_tree(e.first_user_prompt)),
        ("live_attached"@, Some(json::Tree::Bool(e.live_attached))),
        ("live_processing"@, Some(json::Tree::Bool(e.live_processing))),
    ]
}

/// Members with one more, where it has a value.
pub open spec fn with_field(
    members: Seq<(Seq<char>, json::Tree)>,
    name: Seq<char>,
    value: Option<json::Tree>,
) -> Seq<(Seq<char>, json::Tree)> {
    match value {
        Some(value) => members.push((name, value)),
        None => members,
    }
}

/// The members of the first `k` fields.
pub open spec fn present(fields: Seq<(Seq<char>, Option<json::Tree>)>, k: int) -> Seq<
    (Seq<char>, json::Tree),
>
    decreases k,
{
    if k <= 0 {
        Seq::empty()
    } else {
        with_field(present(fields, k - 1), fields[k - 1].0, fields[k - 1].1)
    }
}

// ---------------------------------------------------------------------------
// Reading
// ---------------------------------------------------------------------------

/// The truth value that a member is; one that is absent is false.
pub open spec fn flag_or(t: json::Tree, name: Seq<char>) -> Option<bool> {
    if json::named(t, name) is None {
        Some(false)
    } else {
        json::flag_in(t, name)
    }
}

/// The count that a member is; one that is absent is zero.
pub open spec fn count_or(t: json::Tree, name: Seq<char>) -> Option<nat> {
    if json::named(t, name) is None {
        Some(0)
    } else {
        json::number_in(t, name, codec::count_max())
    }
}

/// The point in time that a member is.
pub open spec fn time_in(t: json::Tree, name: Seq<char>) -> Option<(int, int)> {
    match json::text_in(t, name) {
        Some(s) => timestamp::instant(s),
        None => None,
    }
}

/// The point in time that a member may be.
pub open spec fn opt_time_in(t: json::Tree, name: Seq<char>) -> Option<Option<(int, int)>> {
    match json::opt_text_in(t, name) {
        Some(Some(s)) => match timestamp::instant(s) {
            Some(time) => Some(Some(time)),
            None => None,
        },
        Some(None) => Some(None),
        None => None,
    }
}

/// The member of that name; one that is absent is null.
pub open spec fn tree_or(t: json::Tree, name: Seq<char>) -> json::Tree {
    match json::named(t, name) {
        Some(value) => value,
        None => json::Tree::Null,
    }
}

/// Whether a value tells a row.
pub open spec fn tells_row(t: json::Tree, e: RowView) -> bool {
    &&& json::text_in(t, "id"@) == Some(e.id)
    &&& json::opt_text_in(t, "parent_id"@) == Some(e.parent_id)
    &&& json::opt_text_in(t, "short_name"@) == Some(e.short_name)
    &&& json::text_in(t, "title"@) == Some(e.title)
    &&& json::number_in(t, "message_count"@, codec::count_max()) == Some(e.message_count as nat)
    &&& json::number_in(t, "user_message_count"@, codec::count_max()) == Some(e.user_message_count as nat)
    &&& json::number_in(t, "assistant_message_count"@, codec::count_max()) == Some(e.assistant_message_count as nat)
    &&& time_in(t, "created_at"@) == Some(e.created_at)
    &&& time_in(t, "last_message_time"@) == Some(e.last_message_time)
    &&& opt_time_in(t, "last_active_at"@) == Some(e.last_active_at)
    &&& json::opt_text_in(t, "working_dir"@) == Some(e.working_dir)
    &&& json::opt_text_in(t, "model"@) == Some(e.model)
    &&& json::opt_text_in(t, "provider_key"@) == Some(e.provider_key)
    &&& flag_or(t, "is_canary"@) == Some(e.is_canary)
    &&& flag_or(t, "is_debug"@) == Some(e.is_debug)
    &&& flag_or(t, "saved"@) == Some(e.saved)
    &&& json::opt_text_in(t, "save_label"@) == Some(e.save_label)
    &&& tree_or(t, "status"@) == e.status
    &&& count_or(t, "estimated_tokens"@) == Some(e.estimated_tokens as nat)
    &&& json::opt_text_in(t, "first_user_prompt"@) == Some(e.first_user_prompt)
    &&& flag_or(t, "live_attached"@) == Some(e.live_attached)
    &&& flag_or(t, "live_processing"@) == Some(e.live_processing)
}

/// The names of the fields of a row, in order.
pub open spec fn row_names() -> Seq<Seq<char>> {
    seq![
        "id"@,
        "parent_id"@,
        "short_name"@,
        "title"@,
        "message_count"@,
        "user_message_count"@,
        "assistant_message_count"@,
        "created_at"@,
        "last_message_time"@,
        "last_active_at"@,
        "working_dir"@,
        "model"@,
        "provider_key"@,
        "is_canary"@,
        "is_debug"@,
        "saved"@,
        "save_label"@,
        "status"@,
        "estimated_tokens"@,
        "first_user_prompt"@,
        "live_attached"@,
        "live_processing"@,
    ]
}

/// The row that the members of an object tell.
pub open spec fn told_row(t: json::Tree) -> Option<RowView> {
    if exists|e: RowView| tells_row(t, e) {
        Some(choose|e: RowView| tells_row(t, e))
    } else {
        None
    }
}

/// The row that a value tells: an object without a repeated field, or an array
/// of the fields, of which the first nine are there.
pub open spec fn read_row(t: json::Tree) -> Option<RowView> {
    match json::record_of(t, row_names(), 9) {
        Some(t) => told_row(t),
        None => None,
    }
}

/// Members tell at most one row.
pub proof fn law_one_row_is_told(t: json::Tree, e: RowView)
    requires
        tells_row(t, e),
    ensures
        told_row(t) == Some(e),
{
    let found = choose|e: RowView| tells_row(t, e);
    assert(tells_row(t, found));
    assert(found == e);
}

fn flag_member(t: &Json, name: &str) -> (r: Option<bool>)
    ensures
        r == flag_or(t@, name@),
{
    match t.get(name) {
        None => Some(false),
        Some(_) => t.flag_member(name),
    }
}

fn count_member(t: &Json, name: &str) -> (r: Option<usize>)
    ensures
        match r {
            Some(n) => json::number_in(t@, name@, codec::count_max()) == Some(n as nat),
            None => json::number_in(t@, name@, codec::count_max()) is None,
        },
{
    match t.number_member(name, usize::MAX as u64) {
        Some(n) => {
            proof {
                lemma_number_fits(t@, name@);
            }
            Some(n as usize)
        },
        None => None,
    }
}

proof fn lemma_number_fits(t: json::Tree, name: Seq<char>)
    ensures
        json::number_in(t, name, codec::count_max()) matches Some(n) ==> n <= usize::MAX,
{
}

fn time_member(t: &Json, name: &str) -> (r: Option<Timestamp>)
    ensures
        timestamp::opt_instant(r) == time_in(t@, name@),
{
    match t.text_member(name) {
        Some(s) => instant_in_text(s.as_str()),
        None => None,
    }
}

fn opt_time_member(t: &Json, name: &str) -> (r: Option<Option<Timestamp>>)
    ensures
        match r {
            Some(time) => opt_time_in(t@, name@) == Some(timestamp::opt_instant(time)),
            None => opt_time_in(t@, name@) is None,
        },
{
    match t.opt_text_member(name) {
        Some(Some(s)) => match instant_in_text(s.as_str()) {
            Some(time) => Some(Some(time)),
            None => None,
        },
        Some(None) => Some(None),
        None => None,
    }
}

/// The row that a value tells.
pub fn session_row_from(t: &Json) -> (r: Option<SshSessionEntry>)
    ensures
        match r {
            Some(e) => read_row(t@) == Some(row_view(e)),
            None => read_row(t@) is None,
        },
{
    let names = [
        "id",
        "parent_id",
        "short_name",
        "title",
        "message_count",
        "user_message_count",
        "assistant_message_count",
        "created_at",
        "last_message_time",
        "last_active_at",
        "working_dir",
        "model",
        "provider_key",
        "is_canary",
        "is_debug",
        "saved",
        "save_label",
        "status",
        "estimated_tokens",
        "first_user_prompt",
        "live_attached",
        "live_processing",
    ];
    assert(json::strs(names@) =~= row_names());
    match record_from(t, names.as_slice(), 9) {
        Some(t) => row_told(&t),
        None => None,
    }
}

/// The row that the members of an object tell.
fn row_told(t: &Json) -> (r: Option<SshSessionEntry>)
    ensures
        match r {
            Some(e) => told_row(t@) == Some(row_view(e)),
            None => told_row(t@) is None,
        },
{
    let id = match t.text_member("id") {
        Some(id) => id,
        None => return None,
    };
    let parent_id = match t.opt_text_member("parent_id") {
        Some(parent_id) => parent_id,
        None => return None,
    };
    let short_name = match t.opt_text_member("short_name") {
        Some(short_name) => short_name,
        None => return None,
    };
    let title = match t.text_member("title") {
        Some(title) => title,
        None => return None,
    };
    let message_count: usize = match count_member(t, "message_count") {
        Some(message_count) => message_count,
        None => return None,
    };
    let user_message_count: usize = match count_member(t, "user_message_count") {
        Some(user_message_count) => user_message_count,
        None => return None,
    };
    let assistant_message_count: usize = match count_member(t, "assistant_message_count") {
        Some(assistant_message_count) => assistant_message_count,
        None => return None,
    };
    let created_at = match time_member(t, "created_at") {
        Some(created_at) => created_at,
        None => return None,
    };
    let last_message_time = match time_member(t, "last_message_time") {
        Some(last_message_time) => last_message_time,
        None => return None,
    };
    let last_active_at = match opt_time_member(t, "last_active_at") {
        Some(last_active_at) => last_active_at,
        None => return None,
    };
    let working_dir = match t.opt_text_member("working_dir") {
        Some(working_dir) => working_dir,
        None => return None,
    };
    let model = match t.opt_text_member("model") {
        Some(model) => model,
        None => return None,
    };
    let provider_key = match t.opt_text_member("provider_key") {
        Some(provider_key) => provider_key,
        None => return None,
    };
    let is_canary = match flag_member(t, "is_canary") {
        Some(is_canary) => is_canary,
        None => return None,
    };
    let is_debug = match flag_member(t, "is_debug") {
        Some(is_debug) => is_debug,
        None => return None,
    };
    let saved = match flag_member(t, "saved") {
        Some(saved) => saved,
        None => return None,
    };
    let save_label = match t.opt_text_member("save_label") {
        Some(save_label) => save_label,
        None => return None,
    };
    let status = match t.get("status") {
        Some(status) => copy_of(status),
        None => Json::Null,
    };
    let estimated_tokens: usize = match t.get("estimated_tokens") {
        None => 0,
        Some(_) => match count_member(t, "estimated_tokens") {
            Some(estimated_tokens) => estimated_tokens,
            None => return None,
        },
    };
    let first_user_prompt = match t.opt_text_member("first_user_prompt") {
        Some(first_user_prompt) => first_user_prompt,
        None => return None,
    };
    let live_attached = match flag_member(t, "live_attached") {
        Some(live_attached) => live_attached,
        None => return None,
    };
    let live_processing = match flag_member(t, "live_processing") {
        Some(live_processing) => live_processing,
        None => return None,
    };
    let e = SshSessionEntry {
        id,
        parent_id,
        short_name,
        title,
        message_count,
        user_message_count,
        assistant_message_count,
        created_at,
        last_message_time,
        last_active_at,
        working_dir,
        model,
        provider_key,
        is_canary,
        is_debug,
        saved,
        save_label,
        status,
        estimated_tokens,
        first_user_prompt,
        live_attached,
        live_processing,
    };
    proof {
        law_one_row_is_told(t@, row_view(e));
    }
    Some(e)
}

// ---------------------------------------------------------------------------
// Writing
// ---------------------------------------------------------------------------

/// The text of an optional point in time.
pub open spec fn opt_time_text(t: Option<(int, int)>) -> Option<Option<Seq<char>>> {
    match t {
        Some(t) => match timestamp::rfc3339(t.0, t.1) {
            Some(s) => Some(Some(s)),
            None => None,
        },
        None => Some(None),
    }
}

/// The times of a row as text; nothing where one has none.
pub open spec fn times_of(e: RowView) -> Option<RowTimes> {
    match (
        timestamp::rfc3339(e.created_at.0, e.created_at.1),
        timestamp::rfc3339(e.last_message_time.0, e.last_message_time.1),
        opt_time_text(e.last_active_at),
    ) {
        (Some(created_at), Some(last_message_time), Some(last_active_at)) => Some(
            RowTimes { created_at, last_message_time, last_active_at },
        ),
        _ => None,
    }
}

/// Whether the times of a row have texts that read as the same times.
pub open spec fn times_read_back(e: RowView) -> bool {
    match times_of(e) {
        Some(times) => {
            &&& timestamp::instant(times.created_at) == Some(e.created_at)
            &&& timestamp::instant(times.last_message_time) == Some(e.last_message_time)
            &&& times.last_active_at matches Some(s) ==> timestamp::instant(s) == e.last_active_at
        },
        None => false,
    }
}

/// A row.
pub open spec fn row_tree(e: RowView) -> json::Tree {
    let fields = row_fields(e, times_of(e)->0);
    json::Tree::Object(present(fields, fields.len() as int))
}

/// Whether the times of a row are in years of four digits.
pub open spec fn has_plain_times(e: SshSessionEntry) -> bool {
    &&& timestamp::is_plain(e.created_at)
    &&& timestamp::is_plain(e.last_message_time)
    &&& e.last_active_at matches Some(t) ==> timestamp::is_plain(t)
}

/// Adds a field, where it has a value.
fn push_field(
    members: &mut Vec<(String, Json)>,
    name: &str,
    value: Option<Json>,
    Ghost(fields): Ghost<Seq<(Seq<char>, Option<json::Tree>)>>,
    Ghost(k): Ghost<int>,
)
    requires
        0 <= k < fields.len(),
        json::members_view(old(members)@) == present(fields, k),
        fields[k] == (name@, json::opt_tree(value)),
    ensures
        json::members_view(final(members)@) == present(fields, k + 1),
{
    if let Some(value) = value {
        push_member(members, name, value);
    }
}

fn opt_text_json(s: &Option<String>) -> (r: Option<Json>)
    ensures
        json::opt_tree(r) == opt_text_tree(text::opt_text(*s)),
{
    match s {
        Some(s) => Some(Json::Text(owned(s.as_str()))),
        None => None,
    }
}

fn count_json(n: usize) -> (r: Option<Json>)
    ensures
        json::opt_tree(r) == count_tree(n),
{
    Some(Json::Number(decimal_of_usize(n)))
}

/// A row as JSON; nothing where one of its times has no text. In years of four
/// digits they have one, and it reads as the same time.
pub fn session_row_json(e: &SshSessionEntry) -> (r: Option<Json>)
    ensures
        match times_of(row_view(*e)) {
            Some(_) => r matches Some(t) && t@ == row_tree(row_view(*e)),
            None => r is None,
        },
        has_plain_times(*e) ==> times_read_back(row_view(*e)),
{
    let created_at = match text_of_instant(e.created_at) {
        Some(s) => s,
        None => return None,
    };
    let last_message_time = match text_of_instant(e.last_message_time) {
        Some(s) => s,
        None => return None,
    };
    let last_active_at = match e.last_active_at {
        Some(t) => match text_of_instant(t) {
            Some(s) => Some(s),
            None => return None,
        },
        None => None,
    };
    let ghost times = RowTimes {
        created_at: created_at@,
        last_message_time: last_message_time@,
        last_active_at: text::opt_text(last_active_at),
    };
    let ghost view = row_view(*e);
    let ghost f = row_fields(view, times);
    let mut members: Vec<(String, Json)> = Vec::new();
    assert(json::members_view(members@) =~= present(f, 0));
    let value = Some(Json::Text(owned(e.id.as_str())));
    push_field(&mut members, "id", value, Ghost(f), Ghost(0));
    let value = opt_text_json(&e.parent_id);
    push_field(&mut members, "parent_id", value, Ghost(f), Ghost(1));
    let value = opt_text_json(&e.short_name);
    push_field(&mut members, "short_name", value, Ghost(f), Ghost(2));
    let value = Some(Json::Text(owned(e.title.as_str())));
    push_field(&mut members, "title", value, Ghost(f), Ghost(3));
    let value = count_json(e.message_count);
    push_field(&mut members, "message_count", value, Ghost(f), Ghost(4));
    let value = count_json(e.user_message_count);
    push_field(&mut members, "user_message_count", value, Ghost(f), Ghost(5));
    let value = count_json(e.assistant_message_count);
    push_field(&mut members, "assistant_message_count", value, Ghost(f), Ghost(6));
    let value = Some(Json::Text(created_at));
    push_field(&mut members, "created_at", value, Ghost(f), Ghost(7));
    let value = Some(Json::Text(last_message_time));
    push_field(&mut members, "last_message_time", value, Ghost(f), Ghost(8));
    let value = opt_text_json(&last_active_at);
    push_field(&mut members, "last_active_at", value, Ghost(f), Ghost(9));
    let value = opt_text_json(&e.working_dir);
    push_field(&mut members, "working_dir", value, Ghost(f), Ghost(10));
    let value = opt_text_json(&e.model);
    push_field(&mut members, "model", value, Ghost(f), Ghost(11));
    let value = opt_text_json(&e.provider_key);
    push_field(&mut members, "provider_key", value, Ghost(f), Ghost(12));
    let value = Some(Json::Bool(e.is_canary));
    push_field(&mut members, "is_canary", value, Ghost(f), Ghost(13));
    let value = Some(Json::Bool(e.is_debug));
    push_field(&mut members, "is_debug", value, Ghost(f), Ghost(14));
    let value = Some(Json::Bool(e.saved));
    push_field(&mut members, "saved", value, Ghost(f), Ghost(15));
    let value = opt_text_json(&e.save_label);
    push_field(&mut members, "save_label", value, Ghost(f), Ghost(16));
    let value = Some(copy_of(&e.status));
    push_field(&mut members, "status", value, Ghost(f), Ghost(17));
    let value = count_json(e.estimated_tokens);
    push_field(&mut members, "estimated_tokens", value, Ghost(f), Ghost(18));
    let value = opt_text_json(&e.first_user_prompt);
    push_field(&mut members, "first_user_prompt", value, Ghost(f), Ghost(19));
    let value = Some(Json::Bool(e.live_attached));
    push_field(&mut members, "live_attached", value, Ghost(f), Ghost(20));
    let value = Some(Json::Bool(e.live_processing));
    push_field(&mut members, "live_processing", value, Ghost(f), Ghost(21));
    assert(times_of(view) == Some(times));
    Some(object(members))
}

/// What a list of rows stands for.
pub open spec fn row_views(v: Seq<SshSessionEntry>) -> Seq<RowView> {
    Seq::new(v.len(), |i: int| row_view(v[i]))
}

/// A list of rows.
pub open spec fn row_trees(v: Seq<RowView>) -> Seq<json::Tree> {
    Seq::new(v.len(), |i: int| row_tree(v[i]))
}

/// Whether the times of all rows have texts.
pub open spec fn have_times(v: Seq<RowView>) -> bool {
    forall|i: int| 0 <= i < v.len() ==> times_of(#[trigger] v[i]) is Some
}

/// Whether the times of all rows have texts that read as the same times.
pub open spec fn all_read_back(v: Seq<RowView>) -> bool {
    forall|i: int| 0 <= i < v.len() ==> times_read_back(#[trigger] v[i])
}

/// Whether the times of all rows are in years of four digits.
pub open spec fn have_plain_times(v: Seq<SshSessionEntry>) -> bool {
    forall|i: int| 0 <= i < v.len() ==> has_plain_times(#[trigger] v[i])
}

/// Rows as JSON; nothing where one has none.
pub fn session_rows_json(rows: &Vec<SshSessionEntry>) -> (r: Option<Json>)
    ensures
        match r {
            Some(t) => have_times(row_views(rows@)) && t@ == json::Tree::Array(
                row_trees(row_views(rows@)),
            ),
            None => !have_times(row_views(rows@)),
        },
        have_plain_times(rows@) ==> all_read_back(row_views(rows@)),
{
    let ghost all = row_views(rows@);
    let mut items: Vec<Json> = Vec::new();
    let mut missing = false;
    let mut k: usize = 0;
    assert(json::trees(items@) =~= row_trees(all).take(0));
    while k < rows.len()
        invariant
            k <= rows@.len(),
            all == row_views(rows@),
            !missing ==> json::trees(items@) == row_trees(all).take(k as int),
            !missing ==> forall|i: int| 0 <= i < k ==> times_of(#[trigger] all[i]) is Some,
            missing ==> exists|i: int| 0 <= i < k && times_of(#[trigger] all[i]) is None,
            have_plain_times(rows@) ==> forall|i: int|
                0 <= i < k ==> times_read_back(#[trigger] all[i]),
        decreases rows@.len() - k,
    {
        assert(all[k as int] == row_view(rows@[k as int]));
        match session_row_json(&rows[k]) {
            Some(item) => {
                let ghost before = items@;
                items.push(item);
                proof {
                    assert(json::trees(items@) =~= json::trees(before).push(item@));
                    if !missing {
                        assert(json::trees(items@) =~= row_trees(all).take(k + 1));
                    }
                }
            },
            None => {
                assert(times_of(all[k as int]) is None);
                missing = true;
            },
        }
        k = k + 1;
    }
    if missing {
        return None;
    }
    assert(json::trees(items@) =~= row_trees(all));
    Some(array(items))
}

/// The rows of a list, where every element tells one.
pub open spec fn read_rows(items: Seq<json::Tree>) -> Option<Seq<RowView>>
    decreases items.len(),
{
    if items.len() == 0 {
        Some(Seq::empty())
    } else {
        match (read_rows(items.drop_last()), read_row(items.last())) {
            (Some(before), Some(e)) => Some(before.push(e)),
            _ => None,
        }
    }
}

proof fn lemma_rows_fail(items: Seq<json::Tree>, k: int)
    requires
        0 <= k <= items.len(),
        read_rows(items.take(k)) is None,
    ensures
        read_rows(items) is None,
    decreases items.len() - k,
{
    if k < items.len() {
        assert(items.take(k + 1).drop_last() =~= items.take(k));
        lemma_rows_fail(items, k + 1);
    } else {
        assert(items.take(k) =~= items);
    }
}

/// The rows of a list, where every element tells one.
pub fn session_rows_from(items: &Vec<Json>) -> (r: Option<Vec<SshSessionEntry>>)
    ensures
        match r {
            Some(rows) => read_rows(json::trees(items@)) == Some(row_views(rows@)),
            None => read_rows(json::trees(items@)) is None,
        },
{
    let ghost all = json::trees(items@);
    let mut rows: Vec<SshSessionEntry> = Vec::new();
    let mut k: usize = 0;
    assert(all.take(0).len() == 0);
    assert(row_views(rows@) =~= Seq::<RowView>::empty());
    while k < items.len()
        invariant
            k <= items@.len(),
            all == json::trees(items@),
            read_rows(all.take(k as int)) == Some(row_views(rows@)),
        decreases items@.len() - k,
    {
        proof {
            assert(all.take(k + 1).drop_last() =~= all.take(k as int));
            assert(all.take(k + 1).last() == items@[k as int]@);
        }
        match session_row_from(&items[k]) {
            Some(row) => {
                let ghost before = rows@;
                rows.push(row);
                assert(row_views(rows@) =~= row_views(before).push(row_view(row)));
            },
            None => {
                proof {
                    lemma_rows_fail(all, k + 1);
                }
                return None;
            },
        }
        k = k + 1;
    }
    assert(all.take(k as int) =~= all);
    Some(rows)
}

// ---------------------------------------------------------------------------
// Laws
// ---------------------------------------------------------------------------

/// The number of the field of that name.
spec fn field_number(name: Seq<char>) -> int {
    if name == "id"@ {
        0
    } else if name == "parent_id"@ {
        1
    } else if name == "short_name"@ {
        2
    } else if name == "title"@ {
        3
    } else if name == "message_count"@ {
        4
    } else if name == "user_message_count"@ {
        5
    } else if name == "assistant_message_count"@ {
        6
    } else if name == "created_at"@ {
        7
    } else if name == "last_message_time"@ {
        8
    } else if name == "last_active_at"@ {
        9
    } else if name == "working_dir"@ {
        10
    } else if name == "model"@ {
        11
    } else if name == "provider_key"@ {
        12
    } else if name == "is_canary"@ {
        13
    } else if name == "is_debug"@ {
        14
    } else if name == "saved"@ {
        15
    } else if name == "save_label"@ {
        16
    } else if name == "status"@ {
        17
    } else if name == "estimated_tokens"@ {
        18
    } else if name == "first_user_prompt"@ {
        19
    } else if name == "live_attached"@ {
        20
    } else if name == "live_processing"@ {
        21
    } else {
        -1
    }
}

proof fn lemma_field_names()
    ensures
        field_number("id"@) == 0,
        field_number("parent_id"@) == 1,
        field_number("short_name"@) == 2,
        field_number("title"@) == 3,
        field_number("message_count"@) == 4,
        field_number("user_message_count"@) == 5,
        field_number("assistant_message_count"@) == 6,
        field_number("created_at"@) == 7,
        field_number("last_message_time"@) == 8,
        field_number("last_active_at"@) == 9,
        field_number("working_dir"@) == 10,
        field_number("model"@) == 11,
        field_number("provider_key"@) == 12,
        field_number("is_canary"@) == 13,
        field_number("is_debug"@) == 14,
        field_number("saved"@) == 15,
        field_number("save_label"@) == 16,
        field_number("status"@) == 17,
        field_number("estimated_tokens"@) == 18,
        field_number("first_user_prompt"@) == 19,
        field_number("live_attached"@) == 20,
        field_number("live_processing"@) == 21,
{
    reveal_strlit("id");
    reveal_strlit("parent_id");
    reveal_strlit("short_name");
    reveal_strlit("title");
    reveal_strlit("message_count");
    reveal_strlit("user_message_count");
    reveal_strlit("assistant_message_count");
    reveal_strlit("created_at");
    reveal_strlit("last_message_time");
    reveal_strlit("last_active_at");
    reveal_strlit("working_dir");
    reveal_strlit("model");
    reveal_strlit("provider_key");
    reveal_strlit("is_canary");
    reveal_strlit("is_debug");
    reveal_strlit("saved");
    reveal_strlit("save_label");
    reveal_strlit("status");
    reveal_strlit("estimated_tokens");
    reveal_strlit("first_user_prompt");
    reveal_strlit("live_attached");
    reveal_strlit("live_processing");
    assert("id"@.len() == 2);
    assert("parent_id"@.len() == 9);
    assert("short_name"@.len() == 10);
    assert("title"@.len() == 5);
    assert("message_count"@.len() == 13);
    assert("user_message_count"@.len() == 18);
    assert("assistant_message_count"@.len() == 23);
    assert("created_at"@.len() == 10);
    assert("last_message_time"@.len() == 17);
    assert("last_active_at"@.len() == 14);
    assert("working_dir"@.len() == 11);
    assert("model"@.len() == 5);
    assert("provider_key"@.len() == 12);
    assert("is_canary"@.len() == 9);
    assert("is_debug"@.len() == 8);
    assert("saved"@.len() == 5);
    assert("save_label"@.len() == 10);
    assert("status"@.len() == 6);
    assert("estimated_tokens"@.len() == 16);
    assert("first_user_prompt"@.len() == 17);
    assert("live_attached"@.len() == 13);
    assert("live_processing"@.len() == 15);
    assert("parent_id"@[0] != "is_canary"@[0]);
    assert("short_name"@[0] != "created_at"@[0]);
    assert("short_name"@[1] != "save_label"@[1]);
    assert("created_at"@[0] != "save_label"@[0]);
    assert("title"@[0] != "model"@[0]);
    assert("title"@[0] != "saved"@[0]);
    assert("model"@[0] != "saved"@[0]);
    assert("message_count"@[0] != "live_attached"@[0]);
    assert("last_message_time"@[0] != "first_user_prompt"@[0]);
}

proof fn lemma_absent(
    fields: Seq<(Seq<char>, Option<json::Tree>)>,
    k: int,
    members: Seq<(Seq<char>, json::Tree)>,
    name: Seq<char>,
)
    requires
        0 <= k <= fields.len(),
        members == present(fields, k),
        forall|i: int| 0 <= i < k ==> (#[trigger] fields[i]).0 != name,
    ensures
        forall|i: int| 0 <= i < members.len() ==> (#[trigger] members[i]).0 != name,
    decreases k,
{
    if k > 0 {
        lemma_absent(fields, k - 1, present(fields, k - 1), name);
    }
}

proof fn lemma_named_push(
    members: Seq<(Seq<char>, json::Tree)>,
    one: (Seq<char>, json::Tree),
    name: Seq<char>,
    k: int,
)
    requires
        0 <= k <= members.len(),
    ensures
        json::named_from(members.push(one), name, k) == (match json::named_from(
            members,
            name,
            k,
        ) {
            Some(v) => Some(v),
            None => if one.0 == name {
                Some(one.1)
            } else {
                None
            },
        }),
    decreases members.len() - k,
{
    reveal_with_fuel(json::named_from, 2);
    if k < members.len() {
        lemma_named_push(members, one, name, k + 1);
    }
}

proof fn lemma_named_absent(members: Seq<(Seq<char>, json::Tree)>, name: Seq<char>, k: int)
    requires
        0 <= k,
        forall|i: int| 0 <= i < members.len() ==> (#[trigger] members[i]).0 != name,
    ensures
        json::named_from(members, name, k) is None,
    decreases members.len() - k,
{
    if k < members.len() {
        lemma_named_absent(members, name, k + 1);
    }
}

/// The member of a field is its value, where no other field has its name.
proof fn lemma_field_is_found(fields: Seq<(Seq<char>, Option<json::Tree>)>, i: int, k: int)
    requires
        0 <= i < k <= fields.len(),
        forall|j: int| 0 <= j < k && j != i ==> (#[trigger] fields[j]).0 != fields[i].0,
    ensures
        json::named_from(present(fields, k), fields[i].0, 0) == fields[i].1,
    decreases k,
{
    let name = fields[i].0;
    let before = present(fields, k - 1);
    if i == k - 1 {
        lemma_absent(fields, k - 1, before, name);
        lemma_named_absent(before, name, 0);
    } else {
        lemma_field_is_found(fields, i, k - 1);
    }
    if let Some(v) = fields[k - 1].1 {
        lemma_named_push(before, (fields[k - 1].0, v), name, 0);
    }
}

/// The members of fields with different names have different names.
proof fn lemma_names_differ(fields: Seq<(Seq<char>, Option<json::Tree>)>, k: int)
    requires
        0 <= k <= fields.len(),
        forall|i: int, j: int|
            0 <= i < j < k ==> (#[trigger] fields[i]).0 != (#[trigger] fields[j]).0,
    ensures
        forall|i: int, j: int|
            0 <= i < j < present(fields, k).len() ==> (#[trigger] present(fields, k)[i]).0 != (
            #[trigger] present(fields, k)[j]).0,
    decreases k,
{
    if k > 0 {
        lemma_names_differ(fields, k - 1);
        lemma_absent(fields, k - 1, present(fields, k - 1), fields[k - 1].0);
    }
}

proof fn lemma_present_is_readable(
    fields: Seq<(Seq<char>, Option<json::Tree>)>,
    k: int,
    depth: nat,
)
    requires
        0 <= k <= fields.len(),
        forall|i: int|
            0 <= i < k && (#[trigger] fields[i]).1 is Some ==> json::is_readable(
                fields[i].1->0,
                depth,
            ),
    ensures
        forall|i: int|
            0 <= i < present(fields, k).len() ==> json::is_readable(
                (#[trigger] present(fields, k)[i]).1,
                depth,
            ),
    decreases k,
{
    if k > 0 {
        lemma_present_is_readable(fields, k - 1, depth);
        let before = present(fields, k - 1);
        let all = present(fields, k);
        assert(fields[k - 1].1 is Some ==> json::is_readable(fields[k - 1].1->0, depth));
        assert forall|i: int| 0 <= i < all.len() implies json::is_readable(
            (#[trigger] all[i]).1,
            depth,
        ) by {
            if i < before.len() {
                assert(all[i] == before[i]);
            }
        }
    }
}

/// The text of a row is read as it was written, where that of its status is.
pub proof fn lemma_row_is_readable(e: RowView, depth: nat)
    requires
        json::is_readable(e.status, depth),
    ensures
        json::is_readable(row_tree(e), depth + 1),
{
    let f = row_fields(e, times_of(e)->0);
    assert(json::is_readable(json::Tree::Number(text::decimal(e.message_count as nat)), depth));
    assert(json::is_readable(json::Tree::Number(text::decimal(e.user_message_count as nat)), depth));
    assert(json::is_readable(
        json::Tree::Number(text::decimal(e.assistant_message_count as nat)),
        depth,
    ));
    assert(json::is_readable(json::Tree::Number(text::decimal(e.estimated_tokens as nat)), depth));
    assert forall|i: int| 0 <= i < 22 && (#[trigger] f[i]).1 is Some implies json::is_readable(
        f[i].1->0,
        depth,
    ) by {
    }
    lemma_present_is_readable(f, 22, depth);
}

/// A row that was written is read as it was, where the texts of its times are.
pub proof fn law_row_is_read_back(e: RowView)
    requires
        times_read_back(e),
    ensures
        read_row(row_tree(e)) == Some(e),
{
    let times = times_of(e)->0;
    lemma_field_names();
    let f = row_fields(e, times);
    let t = row_tree(e);
    assert(f[0].0 == "id"@);
    assert(f[1].0 == "parent_id"@);
    assert(f[2].0 == "short_name"@);
    assert(f[3].0 == "title"@);
    assert(f[4].0 == "message_count"@);
    assert(f[5].0 == "user_message_count"@);
    assert(f[6].0 == "assistant_message_count"@);
    assert(f[7].0 == "created_at"@);
    assert(f[8].0 == "last_message_time"@);
    assert(f[9].0 == "last_active_at"@);
    assert(f[10].0 == "working_dir"@);
    assert(f[11].0 == "model"@);
    assert(f[12].0 == "provider_key"@);
    assert(f[13].0 == "is_canary"@);
    assert(f[14].0 == "is_debug"@);
    assert(f[15].0 == "saved"@);
    assert(f[16].0 == "save_label"@);
    assert(f[17].0 == "status"@);
    assert(f[18].0 == "estimated_tokens"@);
    assert(f[19].0 == "first_user_prompt"@);
    assert(f[20].0 == "live_attached"@);
    assert(f[21].0 == "live_processing"@);
    assert forall|i: int| 0 <= i < 22 implies field_number((#[trigger] f[i]).0) == i by {
    }
    assert forall|i: int| 0 <= i < 22 implies json::named(t, (#[trigger] f[i]).0) == f[i].1 by {
        lemma_field_is_found(f, i, 22);
    }
    text::law_decimal_is_read_back(e.message_count as nat, codec::count_max());
    text::law_decimal_is_read_back(e.user_message_count as nat, codec::count_max());
    text::law_decimal_is_read_back(e.assistant_message_count as nat, codec::count_max());
    text::law_decimal_is_read_back(e.estimated_tokens as nat, codec::count_max());
    assert(json::named(t, "id"@) == f[0].1);
    assert(json::named(t, "parent_id"@) == f[1].1);
    assert(json::named(t, "short_name"@) == f[2].1);
    assert(json::named(t, "title"@) == f[3].1);
    assert(json::named(t, "message_count"@) == f[4].1);
    assert(json::named(t, "user_message_count"@) == f[5].1);
    assert(json::named(t, "assistant_message_count"@) == f[6].1);
    assert(json::named(t, "created_at"@) == f[7].1);
    assert(json::named(t, "last_message_time"@) == f[8].1);
    assert(json::named(t, "last_active_at"@) == f[9].1);
    assert(json::named(t, "working_dir"@) == f[10].1);
    assert(json::named(t, "model"@) == f[11].1);
    assert(json::named(t, "provider_key"@) == f[12].1);
    assert(json::named(t, "is_canary"@) == f[13].1);
    assert(json::named(t, "is_debug"@) == f[14].1);
    assert(json::named(t, "saved"@) == f[15].1);
    assert(json::named(t, "save_label"@) == f[16].1);
    assert(json::named(t, "status"@) == f[17].1);
    assert(json::named(t, "estimated_tokens"@) == f[18].1);
    assert(json::named(t, "first_user_prompt"@) == f[19].1);
    assert(json::named(t, "live_attached"@) == f[20].1);
    assert(json::named(t, "live_processing"@) == f[21].1);
    law_one_row_is_told(t, e);
    lemma_names_differ(f, 22);
    json::lemma_record(t->Object_0, row_names(), 9);
}

/// Rows that were written are read as they were, where the texts of their
/// times are.
pub proof fn law_rows_are_read_back(v: Seq<RowView>)
    requires
        all_read_back(v),
    ensures
        read_rows(row_trees(v)) == Some(v),
    decreases v.len(),
{
    if v.len() > 0 {
        assert(times_read_back(v[v.len() - 1]));
        law_rows_are_read_back(v.drop_last());
        law_row_is_read_back(v.last());
        assert(row_trees(v).drop_last() =~= row_trees(v.drop_last()));
        assert(v.drop_last().push(v.last()) =~= v);
    } else {
        assert(v =~= Seq::empty());
    }
}

/// A row stands under its names, each value under its own; what the row does
/// not have is left out.
pub proof fn law_rows_stand_under_their_names(e: RowView)
    requires
        times_of(e) is Some,
    ensures
        json::named(row_tree(e), "id"@) == Some(json::Tree::Text(e.id)),
        json::named(row_tree(e), "parent_id"@) == match e.parent_id {
            Some(s) => Some(json::Tree::Text(s)),
            None => None,
        },
        json::named(row_tree(e), "short_name"@) == match e.short_name {
            Some(s) => Some(json::Tree::Text(s)),
            None => None,
        },
        json::named(row_tree(e), "title"@) == Some(json::Tree::Text(e.title)),
        json::named(row_tree(e), "message_count"@) == Some(
            json::Tree::Number(text::decimal(e.message_count as nat)),
        ),
        json::named(row_tree(e), "user_message_count"@) == Some(
            json::Tree::Number(text::decimal(e.user_message_count as nat)),
        ),
        json::named(row_tree(e), "assistant_message_count"@) == Some(
            json::Tree::Number(text::decimal(e.assistant_message_count as nat)),
        ),
        json::named(row_tree(e), "created_at"@) == Some(
            json::Tree::Text(timestamp::rfc3339(e.created_at.0, e.created_at.1)->0),
        ),
        json::named(row_tree(e), "last_message_time"@) == Some(
            json::Tree::Text(timestamp::rfc3339(e.last_message_time.0, e.last_message_time.1)->0),
        ),
        json::named(row_tree(e), "last_active_at"@) == match e.last_active_at {
            Some(t) => Some(json::Tree::Text(timestamp::rfc3339(t.0, t.1)->0)),
            None => None,
        },
        json::named(row_tree(e), "working_dir"@) == match e.working_dir {
            Some(s) => Some(json::Tree::Text(s)),
            None => None,
        },
        json::named(row_tree(e), "model"@) == match e.model {
            Some(s) => Some(json::Tree::Text(s)),
            None => None,
        },
        json::named(row_tree(e), "provider_key"@) == match e.provider_key {
            Some(s) => Some(json::Tree::Text(s)),
            None => None,
        },
        json::named(row_tree(e), "is_canary"@) == Some(json::Tree::Bool(e.is_canary)),
        json::named(row_tree(e), "is_debug"@) == Some(json::Tree::Bool(e.is_debug)),
        json::named(row_tree(e), "saved"@) == Some(json::Tree::Bool(e.saved)),
        json::named(row_tree(e), "save_label"@) == match e.save_label {
            Some(s) => Some(json::Tree::Text(s)),
            None => None,
        },
        json::named(row_tree(e), "status"@) == Some(e.status),
        json::named(row_tree(e), "estimated_tokens"@) == Some(
            json::Tree::Number(text::decimal(e.estimated_tokens as nat)),
        ),
        json::named(row_tree(e), "first_user_prompt"@) == match e.first_user_prompt {
            Some(s) => Some(json::Tree::Text(s)),
            None => None,
        },
        json::named(row_tree(e), "live_attached"@) == Some(json::Tree::Bool(e.live_attached)),
        json::named(row_tree(e), "live_processing"@) == Some(json::Tree::Bool(e.live_processing)),
{
    let times = times_of(e)->0;
    lemma_field_names();
    let f = row_fields(e, times);
    let t = row_tree(e);
    assert(f[0].0 == "id"@);
    assert(f[1].0 == "parent_id"@);
    assert(f[2].0 == "short_name"@);
    assert(f[3].0 == "title"@);
    assert(f[4].0 == "message_count"@);
    assert(f[5].0 == "user_message_count"@);
    assert(f[6].0 == "assistant_message_count"@);
    assert(f[7].0 == "created_at"@);
    assert(f[8].0 == "last_message_time"@);
    assert(f[9].0 == "last_active_at"@);
    assert(f[10].0 == "working_dir"@);
    assert(f[11].0 == "model"@);
    assert(f[12].0 == "provider_key"@);
    assert(f[13].0 == "is_canary"@);
    assert(f[14].0 == "is_debug"@);
    assert(f[15].0 == "saved"@);
    assert(f[16].0 == "save_label"@);
    assert(f[17].0 == "status"@);
    assert(f[18].0 == "estimated_tokens"@);
    assert(f[19].0 == "first_user_prompt"@);
    assert(f[20].0 == "live_attached"@);
    assert(f[21].0 == "live_processing"@);
    assert forall|i: int| 0 <= i < 22 implies field_number((#[trigger] f[i]).0) == i by {
    }
    assert forall|i: int| 0 <= i < 22 implies json::named(t, (#[trigger] f[i]).0) == f[i].1 by {
        lemma_field_is_found(f, i, 22);
    }
    assert(json::named(t, "id"@) == f[0].1);
    assert(json::named(t, "parent_id"@) == f[1].1);
    assert(json::named(t, "short_name"@) == f[2].1);
    assert(json::named(t, "title"@) == f[3].1);
    assert(json::named(t, "message_count"@) == f[4].1);
    assert(json::named(t, "user_message_count"@) == f[5].1);
    assert(json::named(t, "assistant_message_count"@) == f[6].1);
    assert(json::named(t, "created_at"@) == f[7].1);
    assert(json::named(t, "last_message_time"@) == f[8].1);
    assert(json::named(t, "last_active_at"@) == f[9].1);
    assert(json::named(t, "working_dir"@) == f[10].1);
    assert(json::named(t, "model"@) == f[11].1);
    assert(json::named(t, "provider_key"@) == f[12].1);
    assert(json::named(t, "is_canary"@) == f[13].1);
    assert(json::named(t, "is_debug"@) == f[14].1);
    assert(json::named(t, "saved"@) == f[15].1);
    assert(json::named(t, "save_label"@) == f[16].1);
    assert(json::named(t, "status"@) == f[17].1);
    assert(json::named(t, "estimated_tokens"@) == f[18].1);
    assert(json::named(t, "first_user_prompt"@) == f[19].1);
    assert(json::named(t, "live_attached"@) == f[20].1);
    assert(json::named(t, "live_processing"@) == f[21].1);
}

/// What a row need not tell: a mark that is missing is not set, a number of
/// tokens that is missing is none, and a status that is missing is null. What
/// it must tell is its id, title, counts and times.
pub proof fn law_rows_are_read_with_their_defaults(t: json::Tree, e: RowView)
    requires
        t is Object,
        read_row(t) == Some(e),
    ensures
        json::named(t, "is_canary"@) is None ==> !e.is_canary,
        json::named(t, "is_debug"@) is None ==> !e.is_debug,
        json::named(t, "saved"@) is None ==> !e.saved,
        json::named(t, "live_attached"@) is None ==> !e.live_attached,
        json::named(t, "live_processing"@) is None ==> !e.live_processing,
        json::named(t, "estimated_tokens"@) is None ==> e.estimated_tokens == 0,
        json::named(t, "status"@) is None ==> e.status is Null,
        json::named(t, "last_active_at"@) is None ==> e.last_active_at is None,
        json::named(t, "id"@) == Some(json::Tree::Text(e.id)),
        json::named(t, "title"@) == Some(json::Tree::Text(e.title)),
        json::named(t, "message_count"@) is Some,
        json::named(t, "user_message_count"@) is Some,
        json::named(t, "assistant_message_count"@) is Some,
        json::named(t, "created_at"@) is Some,
        json::named(t, "last_message_time"@) is Some,
        json::named(t, "parent_id"@) matches Some(json::Tree::Text(s)) ==> e.parent_id == Some(s),
        json::named(t, "short_name"@) matches Some(json::Tree::Text(s)) ==> e.short_name == Some(s),
        json::named(t, "working_dir"@) matches Some(json::Tree::Text(s)) ==> e.working_dir == Some(
            s,
        ),
        json::named(t, "model"@) matches Some(json::Tree::Text(s)) ==> e.model == Some(s),
        json::named(t, "provider_key"@) matches Some(json::Tree::Text(s)) ==> e.provider_key
            == Some(s),
        json::named(t, "save_label"@) matches Some(json::Tree::Text(s)) ==> e.save_label == Some(s),
        json::named(t, "first_user_prompt"@) matches Some(json::Tree::Text(s))
            ==> e.first_user_prompt == Some(s),
        json::named(t, "is_canary"@) matches Some(json::Tree::Bool(b)) ==> e.is_canary == b,
        json::named(t, "is_debug"@) matches Some(json::Tree::Bool(b)) ==> e.is_debug == b,
        json::named(t, "saved"@) matches Some(json::Tree::Bool(b)) ==> e.saved == b,
        json::named(t, "live_attached"@) matches Some(json::Tree::Bool(b)) ==> e.live_attached == b,
        json::named(t, "live_processing"@) matches Some(json::Tree::Bool(b)) ==> e.live_processing
            == b,
        json::named(t, "status"@) matches Some(s) ==> e.status == s,
{
    assert(told_row(t) == Some(e));
    assert(exists|x: RowView| tells_row(t, x));
    assert(tells_row(t, e));
}

/// A row may stand as the list of its fields, of which those behind the time
/// of the last message may be left out; a row that is neither an object nor a
/// list is none.
pub proof fn law_rows_may_be_lists(t: json::Tree)
    requires
        read_row(t) is Some,
    ensures
        t is Object || t is Array,
        t matches json::Tree::Array(items) ==> 9 <= items.len() <= 22,
{
}

/// Rows are read where each of them is, in order.
pub proof fn law_lists_of_rows_are_read(items: Seq<json::Tree>, v: Seq<RowView>)
    ensures
        read_rows(items) == Some(v) <==> (items.len() == v.len() && forall|i: int| #![trigger items[i]]
            0 <= i < items.len() ==> read_row(items[i]) == Some(v[i])),
    decreases items.len(),
{
    if items.len() > 0 {
        let before = items.drop_last();
        if let Some(u) = read_rows(before) {
            law_lists_of_rows_are_read(before, u);
            if let Some(x) = read_row(items.last()) {
                if items.len() == v.len() && forall|i: int| #![trigger items[i]]
                    0 <= i < items.len() ==> read_row(items[i]) == Some(v[i]) {
                    assert forall|i: int| 0 <= i < v.len() implies u.push(x)[i] == v[i] by {
                        if i < before.len() {
                            assert(before[i] == items[i]);
                        } else {
                            assert(items[i] == items.last());
                        }
                    }
                    assert(u.push(x) =~= v);
                }
                assert forall|i: int| #![trigger items[i]] 0 <= i < items.len() implies read_row(
                    items[i],
                ) == Some(u.push(x)[i]) by {
                    if i < before.len() {
                        assert(before[i] == items[i]);
                    } else {
                        assert(items[i] == items.last());
                    }
                }
            } else {
                assert(items[items.len() - 1] == items.last());
            }
        } else if items.len() == v.len() && forall|i: int| #![trigger items[i]]
            0 <= i < items.len() ==> read_row(items[i]) == Some(v[i]) {
            assert forall|i: int| #![trigger before[i]] 0 <= i < before.len() implies read_row(
                before[i],
            ) == Some(v.drop_last()[i]) by {
                assert(before[i] == items[i]);
            }
            law_lists_of_rows_are_read(before, v.drop_last());
        }
    } else {
        assert(items =~= Seq::empty());
        if v.len() == 0 {
            assert(v =~= Seq::empty());
        }
    }
}

} // verus!
