//! Client operations beside a daemon stream.
//!
//! A client that reaches a daemon through a line stream also needs things
//! that live next to the daemon: its sessions, its files, its configuration.
//! Such an operation is one line of the same stream,
//! `{"__jcode_ssh_op":{"id":N,"op":"<name>",...}}`; it is answered by
//! `{"__jcode_ssh_op":{"id":N,"result":...}}` or
//! `{"__jcode_ssh_op":{"id":N,"error":"..."}}`. Every other line belongs to
//! the daemon.

pub mod codec;
pub mod errands;
pub mod git_summary;
pub mod paths;
pub mod rows;

use crate::json;
use crate::json::{array_at, Json};
use crate::session_listing::SessionListEntry;
use crate::text;
use crate::text::{list_contains, owned};
use vstd::prelude::*;

verus! {

/// The member that marks a line as one of this protocol.
pub const OP_KEY: &'static str = "__jcode_ssh_op";

/// How every line of this protocol starts.
pub const OP_LINE_PREFIX: &'static str = "{\"__jcode_ssh_op\":";

// ---------------------------------------------------------------------------
// Which lines are operations
// ---------------------------------------------------------------------------

/// Whether a byte is white space in ASCII.
pub open spec fn is_ascii_space(b: u8) -> bool {
    b == 9 || b == 10 || b == 12 || b == 13 || b == 32
}

/// Bytes without white space in front.
pub open spec fn trim_ascii(line: Seq<u8>) -> Seq<u8>
    decreases line.len(),
{
    if line.len() > 0 && is_ascii_space(line[0]) {
        trim_ascii(line.drop_first())
    } else {
        line
    }
}

/// Whether a line is one of this protocol.
pub open spec fn is_op(line: Seq<u8>) -> bool {
    let prefix = vstd::utf8::encode_utf8(OP_LINE_PREFIX@);
    let rest = trim_ascii(line);
    rest.len() >= prefix.len() && rest.take(prefix.len() as int) == prefix
}

/// Whether a line is one of this protocol, and not the daemon's.
pub fn is_op_line(line: &[u8]) -> (r: bool)
    ensures
        r == is_op(line@),
{
    let total: usize = line.len();
    let mut from: usize = 0;
    assert(line@.skip(0) =~= line@);
    while from < total && (line[from] == 9 || line[from] == 10 || line[from] == 12 || line[from]
        == 13 || line[from] == 32)
        invariant
            total == line@.len(),
            from <= total,
            trim_ascii(line@) == trim_ascii(line@.skip(from as int)),
        decreases total - from,
    {
        assert(line@.skip(from as int).drop_first() =~= line@.skip(from + 1));
        from = from + 1;
    }
    let ghost rest = trim_ascii(line@);
    assert(rest == line@.skip(from as int));
    let prefix = OP_LINE_PREFIX.as_bytes();
    let count: usize = prefix.len();
    if total - from < count {
        return false;
    }
    let mut k: usize = 0;
    while k < count
        invariant
            count == prefix@.len(),
            total == line@.len(),
            prefix@ == vstd::utf8::encode_utf8(OP_LINE_PREFIX@),
            rest == trim_ascii(line@),
            rest == line@.skip(from as int),
            from <= total,
            count <= total - from,
            k <= count,
            forall|i: int| 0 <= i < k ==> rest[i] == prefix@[i],
        decreases count - k,
    {
        if line[from + k] != prefix[k] {
            assert(rest[k as int] != prefix@[k as int]);
            assert(rest.take(count as int)[k as int] == rest[k as int]);
            return false;
        }
        assert(rest[k as int] == line@[from + k]);
        k = k + 1;
    }
    assert(rest.take(count as int) =~= prefix@);
    true
}

proof fn lemma_encode_concat(a: Seq<char>, b: Seq<char>)
    ensures
        vstd::utf8::encode_utf8(a + b) == vstd::utf8::encode_utf8(a) + vstd::utf8::encode_utf8(b),
    decreases a.len(),
{
    if a.len() == 0 {
        assert(a + b =~= b);
        assert(vstd::utf8::encode_utf8(a) =~= Seq::<u8>::empty());
        assert(vstd::utf8::encode_utf8(a) + vstd::utf8::encode_utf8(b)
            =~= vstd::utf8::encode_utf8(b));
    } else {
        lemma_encode_concat(a.drop_first(), b);
        assert((a + b).drop_first() =~= a.drop_first() + b);
        assert((a + b)[0] == a[0]);
        assert(vstd::utf8::encode_utf8(a + b) =~= vstd::utf8::encode_utf8(a)
            + vstd::utf8::encode_utf8(b));
    }
}

/// A text that starts as a line of this protocol does is one.
pub proof fn lemma_prefix_marks_op(line: Seq<char>)
    requires
        text::starts_with(line, OP_LINE_PREFIX@),
    ensures
        is_op(vstd::utf8::encode_utf8(line)),
{
    let p = OP_LINE_PREFIX@;
    let rest = line.skip(p.len() as int);
    reveal_strlit("{\"__jcode_ssh_op\":");
    assert(line =~= p + rest);
    lemma_encode_concat(p, rest);
    let bytes = vstd::utf8::encode_utf8(line);
    assert(vstd::utf8::is_ascii_chars(p));
    vstd::utf8::is_ascii_chars_encode_utf8(p);
    assert(bytes[0] == 123);
    assert(trim_ascii(bytes) == bytes);
    assert(bytes.take(vstd::utf8::encode_utf8(p).len() as int) =~= vstd::utf8::encode_utf8(p));
}

// ---------------------------------------------------------------------------
// Requests
// ---------------------------------------------------------------------------

/// An operation.
#[derive(Debug)]
pub enum SshOp {
    /// What is known of every session.
    ListSessions,
    /// The end of one session.
    SessionPreview { session_id: String },
    /// Marks a session as saved, or as not saved.
    SetSessionSaved { session_id: String, saved: bool, save_label: Option<String> },
    /// The task list of a session.
    GetTodos { session_id: String },
    /// The text of the configuration, empty where there is none.
    ReadConfig,
    /// Replaces the configuration.
    WriteConfig { content: String },
    /// The text of a file, empty where there is none.
    ReadFile { path: String },
    /// Writes a file, and the directories it is in.
    WriteFile { path: String, content: String },
    /// The paths that start like this.
    ListPath { prefix: String },
    /// What a directory holds, and how its repository stands.
    BrowseDir { path: String },
    /// The skills at the working directory.
    ListSkills,
}

/// What an [`SshOp`] stands for.
#[verifier::ext_equal]
pub enum OpView {
    ListSessions,
    SessionPreview { session_id: Seq<char> },
    SetSessionSaved { session_id: Seq<char>, saved: bool, save_label: Option<Seq<char>> },
    GetTodos { session_id: Seq<char> },
    ReadConfig,
    WriteConfig { content: Seq<char> },
    ReadFile { path: Seq<char> },
    WriteFile { path: Seq<char>, content: Seq<char> },
    ListPath { prefix: Seq<char> },
    BrowseDir { path: Seq<char> },
    ListSkills,
}

impl View for SshOp {
    type V = OpView;

    open spec fn view(&self) -> OpView {
        match *self {
            SshOp::ListSessions => OpView::ListSessions,
            SshOp::SessionPreview { session_id } => OpView::SessionPreview {
                session_id: session_id@,
            },
            SshOp::SetSessionSaved { session_id, saved, save_label } => OpView::SetSessionSaved {
                session_id: session_id@,
                saved,
                save_label: text::opt_text(save_label),
            },
            SshOp::GetTodos { session_id } => OpView::GetTodos { session_id: session_id@ },
            SshOp::ReadConfig => OpView::ReadConfig,
            SshOp::WriteConfig { content } => OpView::WriteConfig { content: content@ },
            SshOp::ReadFile { path } => OpView::ReadFile { path: path@ },
            SshOp::WriteFile { path, content } => OpView::WriteFile {
                path: path@,
                content: content@,
            },
            SshOp::ListPath { prefix } => OpView::ListPath { prefix: prefix@ },
            SshOp::BrowseDir { path } => OpView::BrowseDir { path: path@ },
            SshOp::ListSkills => OpView::ListSkills,
        }
    }
}

/// An operation and the number that its answer will carry.
#[derive(Debug)]
pub struct SshOpRequest {
    pub id: u64,
    pub op: SshOp,
}

// ---------------------------------------------------------------------------
// Answers
// ---------------------------------------------------------------------------

/// One row of the session list.
pub type SshSessionEntry = SessionListEntry;

/// One skill.
#[derive(Debug)]
pub struct SshSkillInfo {
    pub name: String,
    pub description: String,
    /// Where the skill is described.
    pub path: String,
}

/// What an [`SshSkillInfo`] stands for.
#[verifier::ext_equal]
pub struct SkillView {
    pub name: Seq<char>,
    pub description: Seq<char>,
    pub path: Seq<char>,
}

impl View for SshSkillInfo {
    type V = SkillView;

    open spec fn view(&self) -> SkillView {
        SkillView { name: self.name@, description: self.description@, path: self.path@ }
    }
}

/// One entry of a directory.
#[derive(Debug)]
pub struct SshDirEntry {
    pub name: String,
    pub is_dir: bool,
    pub is_symlink: bool,
}

/// What an [`SshDirEntry`] stands for.
#[verifier::ext_equal]
pub struct EntryView {
    pub name: Seq<char>,
    pub is_dir: bool,
    pub is_symlink: bool,
}

impl View for SshDirEntry {
    type V = EntryView;

    open spec fn view(&self) -> EntryView {
        EntryView { name: self.name@, is_dir: self.is_dir, is_symlink: self.is_symlink }
    }
}

/// How the repository of a directory stands: the files that differ from its
/// last commit, and the commits by which it is ahead of and behind its
/// upstream.
#[derive(Debug)]
pub struct SshDirGitSummary {
    pub is_repo: bool,
    pub branch: Option<String>,
    pub dirty: usize,
    pub ahead: usize,
    pub behind: usize,
}

/// What an [`SshDirGitSummary`] stands for.
#[verifier::ext_equal]
pub struct SummaryView {
    pub is_repo: bool,
    pub branch: Option<Seq<char>>,
    pub dirty: usize,
    pub ahead: usize,
    pub behind: usize,
}

impl View for SshDirGitSummary {
    type V = SummaryView;

    open spec fn view(&self) -> SummaryView {
        SummaryView {
            is_repo: self.is_repo,
            branch: text::opt_text(self.branch),
            dirty: self.dirty,
            ahead: self.ahead,
            behind: self.behind,
        }
    }
}

/// What an operation gave. Rows of a preview and of a task list are carried as
/// they stand on the line.
#[derive(Debug)]
pub enum SshOpResult {
    ListSessions(Vec<SshSessionEntry>),
    SessionPreview { session_id: String, messages: Vec<Json> },
    SetSessionSaved,
    GetTodos { todos: Vec<Json>, goals: Vec<Json>, plan: Option<Json> },
    ReadConfig { path: String, content: String },
    WriteConfig,
    ReadFile { path: String, content: String },
    WriteFile,
    ListPath(Vec<String>),
    BrowseDir { path: String, entries: Vec<SshDirEntry>, git: Option<SshDirGitSummary> },
    ListSkills(Vec<SshSkillInfo>),
}

/// What an [`SshOpResult`] stands for.
#[verifier::ext_equal]
pub enum ResultView {
    ListSessions(Seq<rows::RowView>),
    SessionPreview { session_id: Seq<char>, messages: Seq<json::Tree> },
    SetSessionSaved,
    GetTodos { todos: Seq<json::Tree>, goals: Seq<json::Tree>, plan: Option<json::Tree> },
    ReadConfig { path: Seq<char>, content: Seq<char> },
    WriteConfig,
    ReadFile { path: Seq<char>, content: Seq<char> },
    WriteFile,
    ListPath(Seq<Seq<char>>),
    BrowseDir { path: Seq<char>, entries: Seq<EntryView>, git: Option<SummaryView> },
    ListSkills(Seq<SkillView>),
}

/// What a list of entries stands for.
pub open spec fn entry_views(v: Seq<SshDirEntry>) -> Seq<EntryView> {
    Seq::new(v.len(), |i: int| v[i]@)
}

/// What a list of skills stands for.
pub open spec fn skill_views(v: Seq<SshSkillInfo>) -> Seq<SkillView> {
    Seq::new(v.len(), |i: int| v[i]@)
}

/// What an optional summary stands for.
pub open spec fn opt_summary(git: Option<SshDirGitSummary>) -> Option<SummaryView> {
    match git {
        Some(g) => Some(g@),
        None => None,
    }
}

impl View for SshOpResult {
    type V = ResultView;

    open spec fn view(&self) -> ResultView {
        match *self {
            SshOpResult::ListSessions(rows) => ResultView::ListSessions(rows::row_views(rows@)),
            SshOpResult::SessionPreview { session_id, messages } => ResultView::SessionPreview {
                session_id: session_id@,
                messages: json::trees(messages@),
            },
            SshOpResult::SetSessionSaved => ResultView::SetSessionSaved,
            SshOpResult::GetTodos { todos, goals, plan } => ResultView::GetTodos {
                todos: json::trees(todos@),
                goals: json::trees(goals@),
                plan: json::opt_tree(plan),
            },
            SshOpResult::ReadConfig { path, content } => ResultView::ReadConfig {
                path: path@,
                content: content@,
            },
            SshOpResult::WriteConfig => ResultView::WriteConfig,
            SshOpResult::ReadFile { path, content } => ResultView::ReadFile {
                path: path@,
                content: content@,
            },
            SshOpResult::WriteFile => ResultView::WriteFile,
            SshOpResult::ListPath(paths) => ResultView::ListPath(text::texts(paths@)),
            SshOpResult::BrowseDir { path, entries, git } => ResultView::BrowseDir {
                path: path@,
                entries: entry_views(entries@),
                git: opt_summary(git),
            },
            SshOpResult::ListSkills(skills) => ResultView::ListSkills(skill_views(skills@)),
        }
    }
}

/// How an operation went.
#[derive(Debug)]
pub enum SshOpOutcome {
    Result(SshOpResult),
    Error(String),
}

/// What an [`SshOpOutcome`] stands for.
#[verifier::ext_equal]
pub enum OutcomeView {
    Result(ResultView),
    Error(Seq<char>),
}

impl View for SshOpOutcome {
    type V = OutcomeView;

    open spec fn view(&self) -> OutcomeView {
        match *self {
            SshOpOutcome::Result(result) => OutcomeView::Result(result@),
            SshOpOutcome::Error(message) => OutcomeView::Error(message@),
        }
    }
}

/// An answer, with the number of the request that it answers.
#[derive(Debug)]
pub struct SshOpResponse {
    pub id: u64,
    pub outcome: SshOpOutcome,
}

// ---------------------------------------------------------------------------
// What a connection remembers
// ---------------------------------------------------------------------------

/// What is kept for a connection: the directory that relative paths are meant
/// from, and the sessions last seen to be live, each once.
#[derive(Debug)]
pub struct SshOpContext {
    pub working_dir: String,
    pub live_sessions: Vec<String>,
}

impl Default for SshOpContext {
    fn default() -> (r: Self)
        ensures
            r.working_dir@ == Seq::<char>::empty(),
            r.live_sessions@ == Seq::<String>::empty(),
    {
        SshOpContext { working_dir: String::new(), live_sessions: Vec::new() }
    }
}

/// The strings among the elements of an array.
pub open spec fn strings_in(items: Seq<Option<Seq<char>>>) -> Set<Seq<char>> {
    Set::new(|s: Seq<char>| items.contains(Some(s)))
}

/// The live sessions that a line of the daemon tells, where it tells any.
pub open spec fn told_sessions(line: Seq<char>) -> Option<Set<Seq<char>>> {
    if text::contains(line, "\"all_sessions\""@) {
        match json::array_value(line, "/all_sessions"@) {
            Some(items) => Some(strings_in(items)),
            None => None,
        }
    } else {
        None
    }
}

proof fn lemma_contains_push<A>(s: Seq<A>, x: A, y: A)
    ensures
        s.push(x).contains(y) <==> (s.contains(y) || x == y),
{
    if s.contains(y) {
        let i = choose|i: int| 0 <= i < s.len() && s[i] == y;
        assert(s.push(x)[i] == y);
    }
    assert(s.push(x)[s.len() as int] == x);
}

proof fn lemma_contains_next<A>(s: Seq<A>, k: int, y: A)
    requires
        0 <= k < s.len(),
    ensures
        s.take(k + 1).contains(y) <==> (s.take(k).contains(y) || s[k] == y),
{
    assert(s.take(k + 1) =~= s.take(k).push(s[k]));
    lemma_contains_push(s.take(k), s[k], y);
}

/// The different strings among the elements of an array.
pub fn distinct_strings(items: &Vec<Option<String>>) -> (r: Vec<String>)
    ensures
        text::texts(r@).to_set() == strings_in(json::opt_texts(items@)),
        text::texts(r@).no_duplicates(),
{
    let ghost all = json::opt_texts(items@);
    let mut r: Vec<String> = Vec::new();
    let mut k: usize = 0;
    while k < items.len()
        invariant
            k <= items@.len(),
            all == json::opt_texts(items@),
            text::texts(r@).no_duplicates(),
            forall|s: Seq<char>| #[trigger]
                text::texts(r@).contains(s) <==> all.take(k as int).contains(Some(s)),
        decreases items@.len() - k,
    {
        let ghost before = text::texts(r@);
        if let Some(item) = &items[k] {
            if !list_contains(&r, item.as_str()) {
                let one = owned(item.as_str());
                proof {
                    text::lemma_texts_push(r@, one);
                }
                r.push(one);
            }
        }
        proof {
            let upto = all.take(k as int);
            let next = all.take(k + 1);
            assert forall|s: Seq<char>| #[trigger]
                text::texts(r@).contains(s) <==> next.contains(Some(s)) by {
                lemma_contains_next(all, k as int, Some(s));
                assert(before.contains(s) <==> upto.contains(Some(s)));
                if all[k as int] is Some && !before.contains(all[k as int]->0) {
                    lemma_contains_push(before, all[k as int]->0, s);
                }
            }
        }
        k = k + 1;
    }
    proof {
        assert(all.take(all.len() as int) =~= all);
        assert(text::texts(r@).to_set() =~= strings_in(all));
    }
    r
}

/// Learns from a line of the daemon which sessions are live.
pub fn snoop_live_sessions(line: &str, ctx: &mut SshOpContext)
    ensures
        final(ctx).working_dir@ == old(ctx).working_dir@,
        match told_sessions(line@) {
            Some(live) => text::texts(final(ctx).live_sessions@).to_set() == live && text::texts(
                final(ctx).live_sessions@,
            ).no_duplicates(),
            None => *final(ctx) == *old(ctx),
        },
{
    if !text::has(line, "\"all_sessions\"") {
        return;
    }
    if let Some(items) = array_at(line, "/all_sessions") {
        ctx.live_sessions = distinct_strings(&items);
    }
}

/// An operation line begins with the prefix of operations, behind white space
/// of ASCII; the line is one whatever follows, and no other is.
pub proof fn law_operations_begin_with_the_prefix(space: Seq<u8>, rest: Seq<u8>, line: Seq<u8>)
    requires
        forall|i: int| #![trigger space[i]]
            0 <= i < space.len() ==> space[i] == 9 || space[i] == 10 || space[i] == 12 || space[i]
                == 13 || space[i] == 32,
    ensures
        is_op(space + vstd::utf8::encode_utf8("{\"__jcode_ssh_op\":"@) + rest),
        is_op(line) ==> exists|i: int|
            0 <= i <= line.len() && (forall|j: int| #![trigger line[j]]
                0 <= j < i ==> line[j] == 9 || line[j] == 10 || line[j] == 12 || line[j] == 13
                    || line[j] == 32) && line.len() - i >= vstd::utf8::encode_utf8(
                "{\"__jcode_ssh_op\":"@,
            ).len() && #[trigger] line.skip(i).take(
                vstd::utf8::encode_utf8("{\"__jcode_ssh_op\":"@).len() as int,
            ) == vstd::utf8::encode_utf8("{\"__jcode_ssh_op\":"@),
{
    let prefix = vstd::utf8::encode_utf8("{\"__jcode_ssh_op\":"@);
    lemma_prefix_starts_with_a_brace();
    lemma_ascii_space_goes(space, prefix + rest);
    assert(space + prefix + rest =~= space + (prefix + rest));
    assert((prefix + rest).take(prefix.len() as int) =~= prefix);
    let i = lemma_trim_ascii(line);
    if is_op(line) {
        assert(line.skip(i).take(prefix.len() as int) == prefix);
    }
}

proof fn lemma_prefix_starts_with_a_brace()
    ensures
        vstd::utf8::encode_utf8("{\"__jcode_ssh_op\":"@).len() > 0,
        vstd::utf8::encode_utf8("{\"__jcode_ssh_op\":"@)[0] == 123,
{
    reveal_strlit("{\"__jcode_ssh_op\":");
    let s = "{\"__jcode_ssh_op\":"@;
    assert(s[0] == '{');
    assert(vstd::utf8::is_ascii_chars(s));
    vstd::utf8::is_ascii_chars_encode_utf8(s);
}

proof fn lemma_ascii_space_goes(space: Seq<u8>, s: Seq<u8>)
    requires
        forall|i: int| #![trigger space[i]]
            0 <= i < space.len() ==> is_ascii_space(space[i]),
        s.len() > 0 && !is_ascii_space(s[0]),
    ensures
        trim_ascii(space + s) == s,
    decreases space.len(),
{
    let all = space + s;
    if space.len() > 0 {
        assert(all.drop_first() =~= space.drop_first() + s);
        assert forall|i: int| #![trigger space.drop_first()[i]]
            0 <= i < space.drop_first().len() implies is_ascii_space(space.drop_first()[i]) by {
            assert(space.drop_first()[i] == space[i + 1]);
        }
        lemma_ascii_space_goes(space.drop_first(), s);
    } else {
        assert(all =~= s);
    }
}

proof fn lemma_trim_ascii(line: Seq<u8>) -> (i: int)
    ensures
        0 <= i <= line.len(),
        trim_ascii(line) == line.skip(i),
        forall|j: int| #![trigger line[j]] 0 <= j < i ==> is_ascii_space(line[j]),
    decreases line.len(),
{
    if line.len() > 0 && is_ascii_space(line[0]) {
        let rest = line.drop_first();
        let k = lemma_trim_ascii(rest);
        assert(rest.skip(k) =~= line.skip(k + 1));
        assert forall|j: int| #![trigger line[j]] 0 <= j < k + 1 implies is_ascii_space(line[j]) by {
            if j > 0 {
                assert(rest[j - 1] == line[j]);
            }
        }
        k + 1
    } else {
        assert(line.skip(0) =~= line);
        0
    }
}

/// The sessions that a line tells are the texts of the list under its name, each
/// of them and no other; a line that does not speak of them tells none.
pub proof fn law_told_sessions_are_the_texts_of_the_list(line: Seq<char>, id: Seq<char>)
    ensures
        !text::contains(line, "\"all_sessions\""@) ==> told_sessions(line) is None,
        json::array_value(line, "/all_sessions"@) is None ==> told_sessions(line) is None,
        text::contains(line, "\"all_sessions\""@) ==> (json::array_value(
            line,
            "/all_sessions"@,
        ) matches Some(items) ==> told_sessions(line) is Some && (told_sessions(line)->0.contains(id)
            <==> exists|i: int| 0 <= i < items.len() && #[trigger] items[i] == Some(id))),
{
}

} // verus!
