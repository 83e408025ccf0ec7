//! What an operation needs from the machine, and what it answers.
//!
//! An operation is carried out in two steps. [`errand_of`] says what has to be
//! fetched or stored. Once that was tried, [`execute`] makes the answer out of
//! what was found.

use crate::json;
use crate::json::Json;
use crate::ssh_ops;
use crate::ssh_ops::git_summary;
use crate::ssh_ops::git_summary::{remote_dir_git_summary, GitReplies};
use crate::ssh_ops::paths;
use crate::ssh_ops::paths::{
    browse_entries, list_path, list_path_dir, resolve_remote_path, DirRow, FoundEntry,
};
use crate::ssh_ops::rows;
use crate::ssh_ops::{
    SshOp, SshOpContext, SshOpOutcome, SshOpRequest, SshOpResponse, SshOpResult, SshSessionEntry,
    SshSkillInfo,
};
use crate::sort;
use crate::text;
use crate::text::{cat2, cat4, clone_opt, owned};
use vstd::prelude::*;

verus! {

/// What has to be fetched or stored.
#[derive(Debug)]
pub enum Errand {
    /// The rows of the session list.
    Sessions,
    /// The rows at the end of a session; none where it cannot be loaded.
    Preview { session_id: String },
    /// Whether a session is to be marked, and how.
    Save { session_id: String, saved: bool, save_label: Option<String> },
    /// The task list of a session.
    Todos { session_id: String },
    /// The configuration.
    Config,
    /// The configuration to store.
    StoreConfig { content: String },
    /// A file.
    Read { path: String },
    /// A file to store, with the directories it is in.
    Write { path: String, content: String },
    /// What a directory holds.
    List { dir: String },
    /// What a directory holds, and what git says of it.
    Browse { dir: String },
    /// The skills at a directory.
    Skills { dir: String },
}

/// What an [`Errand`] stands for.
#[verifier::ext_equal]
pub enum ErrandView {
    Sessions,
    Preview { session_id: Seq<char> },
    Save { session_id: Seq<char>, saved: bool, save_label: Option<Seq<char>> },
    Todos { session_id: Seq<char> },
    Config,
    StoreConfig { content: Seq<char> },
    Read { path: Seq<char> },
    Write { path: Seq<char>, content: Seq<char> },
    List { dir: Seq<char> },
    Browse { dir: Seq<char> },
    Skills { dir: Seq<char> },
}

impl View for Errand {
    type V = ErrandView;

    open spec fn view(&self) -> ErrandView {
        match *self {
            Errand::Sessions => ErrandView::Sessions,
            Errand::Preview { session_id } => ErrandView::Preview { session_id: session_id@ },
            Errand::Save { session_id, saved, save_label } => ErrandView::Save {
                session_id: session_id@,
                saved,
                save_label: text::opt_text(save_label),
            },
            Errand::Todos { session_id } => ErrandView::Todos { session_id: session_id@ },
            Errand::Config => ErrandView::Config,
            Errand::StoreConfig { content } => ErrandView::StoreConfig { content: content@ },
            Errand::Read { path } => ErrandView::Read { path: path@ },
            Errand::Write { path, content } => ErrandView::Write {
                path: path@,
                content: content@,
            },
            Errand::List { dir } => ErrandView::List { dir: dir@ },
            Errand::Browse { dir } => ErrandView::Browse { dir: dir@ },
            Errand::Skills { dir } => ErrandView::Skills { dir: dir@ },
        }
    }
}

/// What an operation needs: paths are resolved from the working directory.
pub open spec fn errand(op: ssh_ops::OpView, cwd: Seq<char>, home: Option<Seq<char>>) -> ErrandView {
    match op {
        ssh_ops::OpView::ListSessions => ErrandView::Sessions,
        ssh_ops::OpView::SessionPreview { session_id } => ErrandView::Preview { session_id },
        ssh_ops::OpView::SetSessionSaved { session_id, saved, save_label } => ErrandView::Save {
            session_id,
            saved,
            save_label,
        },
        ssh_ops::OpView::GetTodos { session_id } => ErrandView::Todos { session_id },
        ssh_ops::OpView::ReadConfig => ErrandView::Config,
        ssh_ops::OpView::WriteConfig { content } => ErrandView::StoreConfig { content },
        ssh_ops::OpView::ReadFile { path } => ErrandView::Read {
            path: paths::resolved(path, cwd, home),
        },
        ssh_ops::OpView::WriteFile { path, content } => ErrandView::Write {
            path: paths::resolved(path, cwd, home),
            content,
        },
        ssh_ops::OpView::ListPath { prefix } => ErrandView::List {
            dir: paths::completion_dir(prefix, cwd, home),
        },
        ssh_ops::OpView::BrowseDir { path } => ErrandView::Browse {
            dir: paths::resolved(path, cwd, home),
        },
        ssh_ops::OpView::ListSkills => ErrandView::Skills { dir: cwd },
    }
}

/// What an operation needs.
pub fn errand_of(op: &SshOp, ctx: &SshOpContext, home: Option<&str>) -> (r: Errand)
    ensures
        r@ == errand(op@, ctx.working_dir@, text::opt_str(home)),
{
    let cwd = ctx.working_dir.as_str();
    match op {
        SshOp::ListSessions => Errand::Sessions,
        SshOp::SessionPreview { session_id } => Errand::Preview {
            session_id: owned(session_id.as_str()),
        },
        SshOp::SetSessionSaved { session_id, saved, save_label } => Errand::Save {
            session_id: owned(session_id.as_str()),
            saved: *saved,
            save_label: clone_opt(save_label),
        },
        SshOp::GetTodos { session_id } => Errand::Todos { session_id: owned(session_id.as_str()) },
        SshOp::ReadConfig => Errand::Config,
        SshOp::WriteConfig { content } => Errand::StoreConfig { content: owned(content.as_str()) },
        SshOp::ReadFile { path } => Errand::Read {
            path: resolve_remote_path(path.as_str(), cwd, home),
        },
        SshOp::WriteFile { path, content } => Errand::Write {
            path: resolve_remote_path(path.as_str(), cwd, home),
            content: owned(content.as_str()),
        },
        SshOp::ListPath { prefix } => Errand::List {
            dir: list_path_dir(prefix.as_str(), cwd, home),
        },
        SshOp::BrowseDir { path } => Errand::Browse {
            dir: resolve_remote_path(path.as_str(), cwd, home),
        },
        SshOp::ListSkills => Errand::Skills { dir: owned(cwd) },
    }
}

/// What came of reading a file.
#[derive(Debug)]
pub enum ReadReply {
    Content(String),
    /// There is no such file.
    Missing,
    Failed(String),
}

/// What came of storing the configuration.
#[derive(Debug)]
pub enum StoreReply {
    Stored,
    /// The text is no configuration.
    Invalid(String),
    Failed(String),
}

/// What came of an errand.
#[derive(Debug)]
pub enum Finding {
    Sessions(Vec<SshSessionEntry>),
    Preview(Vec<Json>),
    Saved(Result<(), String>),
    Todos { todos: Vec<Json>, goals: Vec<Json>, plan: Option<Json> },
    /// Where the configuration is kept, if anywhere, and its text.
    Config { path: Option<String>, reply: ReadReply },
    ConfigStored(StoreReply),
    Read(ReadReply),
    Written(Result<(), String>),
    Listed(Result<Vec<DirRow>, String>),
    Browsed { entries: Result<Vec<FoundEntry>, String>, git: GitReplies },
    Skills(Vec<SshSkillInfo>),
}

/// Whether a finding is of the kind that an operation needs.
pub open spec fn fits(op: ssh_ops::OpView, finding: Finding) -> bool {
    match op {
        ssh_ops::OpView::ListSessions => finding is Sessions,
        ssh_ops::OpView::SessionPreview { .. } => finding is Preview,
        ssh_ops::OpView::SetSessionSaved { .. } => finding is Saved,
        ssh_ops::OpView::GetTodos { .. } => finding is Todos,
        ssh_ops::OpView::ReadConfig => finding is Config,
        ssh_ops::OpView::WriteConfig { .. } => finding is ConfigStored,
        ssh_ops::OpView::ReadFile { .. } => finding is Read,
        ssh_ops::OpView::WriteFile { .. } => finding is Written,
        ssh_ops::OpView::ListPath { .. } => finding is Listed,
        ssh_ops::OpView::BrowseDir { .. } => finding is Browsed,
        ssh_ops::OpView::ListSkills => finding is Skills,
    }
}

/// A text that a file holds: a missing file counts as an empty one.
pub open spec fn content_in(reply: ReadReply) -> Result<Seq<char>, Seq<char>> {
    match reply {
        ReadReply::Content(content) => Ok(content@),
        ReadReply::Missing => Ok(Seq::empty()),
        ReadReply::Failed(error) => Err(error@),
    }
}

/// How an operation went, out of what was found.
pub open spec fn outcome(
    op: ssh_ops::OpView,
    cwd: Seq<char>,
    home: Option<Seq<char>>,
    finding: Finding,
) -> ssh_ops::OutcomeView {
    match (op, finding) {
        (ssh_ops::OpView::ListSessions, Finding::Sessions(rows)) => ssh_ops::OutcomeView::Result(
            ssh_ops::ResultView::ListSessions(rows::row_views(rows@)),
        ),
        (
            ssh_ops::OpView::SessionPreview { session_id },
            Finding::Preview(rows),
        ) => ssh_ops::OutcomeView::Result(
            ssh_ops::ResultView::SessionPreview { session_id, messages: json::trees(rows@) },
        ),
        (ssh_ops::OpView::SetSessionSaved { .. }, Finding::Saved(done)) => match done {
            Ok(_) => ssh_ops::OutcomeView::Result(ssh_ops::ResultView::SetSessionSaved),
            Err(error) => ssh_ops::OutcomeView::Error("set_session_saved failed: "@ + error@),
        },
        (
            ssh_ops::OpView::GetTodos { .. },
            Finding::Todos { todos, goals, plan },
        ) => ssh_ops::OutcomeView::Result(
            ssh_ops::ResultView::GetTodos {
                todos: json::trees(todos@),
                goals: json::trees(goals@),
                plan: json::opt_tree(plan),
            },
        ),
        (ssh_ops::OpView::ReadConfig, Finding::Config { path, reply }) => match path {
            None => ssh_ops::OutcomeView::Error("No config path on the remote host"@),
            Some(path) => match content_in(reply) {
                Ok(content) => ssh_ops::OutcomeView::Result(
                    ssh_ops::ResultView::ReadConfig { path: path@, content },
                ),
                Err(error) => ssh_ops::OutcomeView::Error(
                    "Failed to read config file: "@ + error,
                ),
            },
        },
        (ssh_ops::OpView::WriteConfig { .. }, Finding::ConfigStored(reply)) => match reply {
            StoreReply::Stored => ssh_ops::OutcomeView::Result(ssh_ops::ResultView::WriteConfig),
            StoreReply::Invalid(error) => ssh_ops::OutcomeView::Error(
                "Failed to write remote config: Invalid config TOML: "@ + error@,
            ),
            StoreReply::Failed(error) => ssh_ops::OutcomeView::Error(
                "Failed to write remote config: "@ + error@,
            ),
        },
        (ssh_ops::OpView::ReadFile { path }, Finding::Read(reply)) => {
            let full = paths::resolved(path, cwd, home);
            match content_in(reply) {
                Ok(content) => ssh_ops::OutcomeView::Result(
                    ssh_ops::ResultView::ReadFile { path: full, content },
                ),
                Err(error) => ssh_ops::OutcomeView::Error(
                    "Failed to read "@ + full + ": "@ + error,
                ),
            }
        },
        (ssh_ops::OpView::WriteFile { path, .. }, Finding::Written(done)) => match done {
            Ok(_) => ssh_ops::OutcomeView::Result(ssh_ops::ResultView::WriteFile),
            Err(error) => ssh_ops::OutcomeView::Error(
                "Failed to write "@ + paths::resolved(path, cwd, home) + ": "@ + error@,
            ),
        },
        (ssh_ops::OpView::ListPath { prefix }, Finding::Listed(rows)) => match rows {
            Ok(rows) => ssh_ops::OutcomeView::Result(
                ssh_ops::ResultView::ListPath(paths::completions(prefix, rows@)),
            ),
            Err(error) => ssh_ops::OutcomeView::Error(
                "Failed to list "@ + paths::completion_dir(prefix, cwd, home) + ": "@ + error@,
            ),
        },
        (ssh_ops::OpView::BrowseDir { path }, Finding::Browsed { entries, git }) => {
            let full = paths::resolved(path, cwd, home);
            match entries {
                Ok(found) => ssh_ops::OutcomeView::Result(
                    ssh_ops::ResultView::BrowseDir {
                        path: full,
                        entries: sort::sorted(paths::listed_all(found@), paths::dirs_first()),
                        git: git_summary::summary_in(git),
                    },
                ),
                Err(error) => ssh_ops::OutcomeView::Error(
                    "Failed to list "@ + full + ": "@ + error@,
                ),
            }
        },
        (ssh_ops::OpView::ListSkills, Finding::Skills(skills)) => ssh_ops::OutcomeView::Result(
            ssh_ops::ResultView::ListSkills(ssh_ops::skill_views(skills@)),
        ),
        _ => ssh_ops::OutcomeView::Error(Seq::empty()),
    }
}

fn read_answer(path: String, reply: ReadReply, config: bool) -> (r: SshOpOutcome)
    ensures
        r@ == match content_in(reply) {
            Ok(content) => ssh_ops::OutcomeView::Result(
                if config {
                    ssh_ops::ResultView::ReadConfig { path: path@, content }
                } else {
                    ssh_ops::ResultView::ReadFile { path: path@, content }
                },
            ),
            Err(error) => ssh_ops::OutcomeView::Error(
                if config {
                    "Failed to read config file: "@ + error
                } else {
                    "Failed to read "@ + path@ + ": "@ + error
                },
            ),
        },
{
    let content = match reply {
        ReadReply::Content(content) => content,
        ReadReply::Missing => String::new(),
        ReadReply::Failed(error) => {
            return SshOpOutcome::Error(
                if config {
                    cat2("Failed to read config file: ", error.as_str())
                } else {
                    cat4("Failed to read ", path.as_str(), ": ", error.as_str())
                },
            );
        },
    };
    SshOpOutcome::Result(
        if config {
            SshOpResult::ReadConfig { path, content }
        } else {
            SshOpResult::ReadFile { path, content }
        },
    )
}

/// How an operation went, out of what was found.
pub fn outcome_of(op: SshOp, ctx: &SshOpContext, home: Option<&str>, finding: Finding) -> (r:
    SshOpOutcome)
    requires
        fits(op@, finding),
    ensures
        r@ == outcome(op@, ctx.working_dir@, text::opt_str(home), finding),
{
    let cwd = ctx.working_dir.as_str();
    match (op, finding) {
        (SshOp::ListSessions, Finding::Sessions(rows)) => SshOpOutcome::Result(
            SshOpResult::ListSessions(rows),
        ),
        (SshOp::SessionPreview { session_id }, Finding::Preview(rows)) => SshOpOutcome::Result(
            SshOpResult::SessionPreview { session_id, messages: rows },
        ),
        (SshOp::SetSessionSaved { .. }, Finding::Saved(done)) => match done {
            Ok(_) => SshOpOutcome::Result(SshOpResult::SetSessionSaved),
            Err(error) => SshOpOutcome::Error(cat2("set_session_saved failed: ", error.as_str())),
        },
        (SshOp::GetTodos { .. }, Finding::Todos { todos, goals, plan }) => SshOpOutcome::Result(
            SshOpResult::GetTodos { todos, goals, plan },
        ),
        (SshOp::ReadConfig, Finding::Config { path, reply }) => match path {
            None => SshOpOutcome::Error(owned("No config path on the remote host")),
            Some(path) => read_answer(path, reply, true),
        },
        (SshOp::WriteConfig { .. }, Finding::ConfigStored(reply)) => match reply {
            StoreReply::Stored => SshOpOutcome::Result(SshOpResult::WriteConfig),
            StoreReply::Invalid(error) => SshOpOutcome::Error(
                cat2("Failed to write remote config: Invalid config TOML: ", error.as_str()),
            ),
            StoreReply::Failed(error) => SshOpOutcome::Error(
                cat2("Failed to write remote config: ", error.as_str()),
            ),
        },
        (SshOp::ReadFile { path }, Finding::Read(reply)) => read_answer(
            resolve_remote_path(path.as_str(), cwd, home),
            reply,
            false,
        ),
        (SshOp::WriteFile { path, .. }, Finding::Written(done)) => match done {
            Ok(_) => SshOpOutcome::Result(SshOpResult::WriteFile),
            Err(error) => {
                let full = resolve_remote_path(path.as_str(), cwd, home);
                SshOpOutcome::Error(
                    cat4("Failed to write ", full.as_str(), ": ", error.as_str()),
                )
            },
        },
        (SshOp::ListPath { prefix }, Finding::Listed(rows)) => match rows {
            Ok(rows) => SshOpOutcome::Result(
                SshOpResult::ListPath(list_path(prefix.as_str(), &rows)),
            ),
            Err(error) => {
                let dir = list_path_dir(prefix.as_str(), cwd, home);
                SshOpOutcome::Error(cat4("Failed to list ", dir.as_str(), ": ", error.as_str()))
            },
        },
        (SshOp::BrowseDir { path }, Finding::Browsed { entries, git }) => {
            let full = resolve_remote_path(path.as_str(), cwd, home);
            match entries {
                Ok(found) => SshOpOutcome::Result(
                    SshOpResult::BrowseDir {
                        path: full,
                        entries: browse_entries(&found),
                        git: remote_dir_git_summary(&git),
                    },
                ),
                Err(error) => SshOpOutcome::Error(
                    cat4("Failed to list ", full.as_str(), ": ", error.as_str()),
                ),
            }
        },
        (SshOp::ListSkills, Finding::Skills(skills)) => SshOpOutcome::Result(
            SshOpResult::ListSkills(skills),
        ),
        _ => SshOpOutcome::Error(String::new()),
    }
}

/// The answer to a request, out of what was found: it carries the request's
/// number.
pub fn execute(
    request: SshOpRequest,
    ctx: &SshOpContext,
    home: Option<&str>,
    finding: Finding,
) -> (r: SshOpResponse)
    requires
        fits(request.op@, finding),
    ensures
        r.id == request.id,
        r.outcome@ == outcome(request.op@, ctx.working_dir@, text::opt_str(home), finding),
{
    let id: u64 = request.id;
    SshOpResponse { id, outcome: outcome_of(request.op, ctx, home, finding) }
}

// ---------------------------------------------------------------------------
// Laws
// ---------------------------------------------------------------------------

/// Reading and writing a path name the same file, and browsing it the same
/// place; a write stores what it was given. In an absolute directory a path
/// that does not begin with a tilde leads to an absolute file.
pub proof fn law_reads_and_writes_name_the_same_file(
    path: Seq<char>,
    content: Seq<char>,
    cwd: Seq<char>,
    home: Option<Seq<char>>,
)
    ensures
        ({
            let write = errand(ssh_ops::OpView::WriteFile { path, content }, cwd, home);
            let read = errand(ssh_ops::OpView::ReadFile { path }, cwd, home);
            let browse = errand(ssh_ops::OpView::BrowseDir { path }, cwd, home);
            &&& read is Read && write is Write && browse is Browse
            &&& write->Write_path == read->Read_path
            &&& browse->Browse_dir == read->Read_path
            &&& write->Write_content == content
            &&& cwd.len() > 0 && cwd[0] == '/' && (path.len() == 0 || path[0] != '~')
                ==> read->Read_path.len() > 0 && read->Read_path[0] == '/'
            &&& path.len() > 0 && path[0] == '/' ==> read->Read_path == path
        }),
{
    reveal_strlit("/");
    if cwd.len() > 0 && cwd[0] == '/' && (path.len() == 0 || path[0] != '~') {
        paths::law_paths_in_absolute_directories_are_absolute(path, cwd, home);
    }
    if path.len() > 0 && path[0] == '/' {
        assert(path.take(1) =~= "/"@);
        paths::law_absolute_paths_stay(path, cwd, home);
    }
}

/// An errand carries what the operation says: the session, the flag and the
/// label to save it under, the settings to store. Skills are those of the
/// working directory, and a completion lists where the path typed leads.
pub proof fn law_errands_carry_what_was_asked(
    session_id: Seq<char>,
    saved: bool,
    save_label: Option<Seq<char>>,
    content: Seq<char>,
    name: Seq<char>,
    cwd: Seq<char>,
    home: Option<Seq<char>>,
)
    requires
        !name.contains('/'),
    ensures
        errand(ssh_ops::OpView::SessionPreview { session_id }, cwd, home) == (ErrandView::Preview {
            session_id,
        }),
        errand(ssh_ops::OpView::GetTodos { session_id }, cwd, home) == (ErrandView::Todos {
            session_id,
        }),
        errand(
            ssh_ops::OpView::SetSessionSaved { session_id, saved, save_label },
            cwd,
            home,
        ) == (ErrandView::Save { session_id, saved, save_label }),
        errand(ssh_ops::OpView::WriteConfig { content }, cwd, home) == (ErrandView::StoreConfig {
            content,
        }),
        errand(ssh_ops::OpView::ListSkills, cwd, home) == (ErrandView::Skills { dir: cwd }),
        errand(ssh_ops::OpView::ListPath { prefix: name }, cwd, home) == (ErrandView::List {
            dir: cwd,
        }),
        errand(ssh_ops::OpView::ListSessions, cwd, home) is Sessions,
        errand(ssh_ops::OpView::ReadConfig, cwd, home) is Config,
{
    let dir = seq!['a'];
    paths::law_completions_list_the_directory_typed(dir, name, cwd, home);
}

/// A read or a listing answers with the place that its errand went to and with
/// what was found there; a file that is not there reads as empty. Where it
/// failed the answer is an error that names the place and ends in the reason.
pub proof fn law_answers_name_the_place_of_the_errand(
    path: Seq<char>,
    content: Seq<char>,
    cwd: Seq<char>,
    home: Option<Seq<char>>,
    text_found: String,
    reason: String,
)
    ensures
        ({
            let read = ssh_ops::OpView::ReadFile { path };
            let write = ssh_ops::OpView::WriteFile { path, content };
            let place = errand(read, cwd, home)->Read_path;
            &&& outcome(read, cwd, home, Finding::Read(ReadReply::Content(text_found))) == (
            ssh_ops::OutcomeView::Result(
                ssh_ops::ResultView::ReadFile { path: place, content: text_found@ },
            ))
            &&& outcome(read, cwd, home, Finding::Read(ReadReply::Missing)) == (
            ssh_ops::OutcomeView::Result(
                ssh_ops::ResultView::ReadFile { path: place, content: Seq::empty() },
            ))
            &&& outcome(read, cwd, home, Finding::Read(ReadReply::Failed(reason))) matches
                ssh_ops::OutcomeView::Error(told)
            &&& told == "Failed to read "@ + place + ": "@ + reason@
            &&& outcome(write, cwd, home, Finding::Written(Ok(()))) == ssh_ops::OutcomeView::Result(
                ssh_ops::ResultView::WriteFile,
            )
            &&& outcome(write, cwd, home, Finding::Written(Err(reason))) matches
                ssh_ops::OutcomeView::Error(untold)
            &&& untold == "Failed to write "@ + place + ": "@ + reason@
        }),
{
}

/// A directory is browsed where its errand went: the answer names that place,
/// lists each entry found once, and tells of its repository what was found
/// out; a failure names the place.
pub proof fn law_browsing_lists_everything_found(
    path: Seq<char>,
    cwd: Seq<char>,
    home: Option<Seq<char>>,
    found: Vec<FoundEntry>,
    git: GitReplies,
    reason: String,
)
    ensures
        ({
            let op = ssh_ops::OpView::BrowseDir { path };
            let place = errand(op, cwd, home)->Browse_dir;
            &&& outcome(op, cwd, home, Finding::Browsed { entries: Ok(found), git }) matches
                ssh_ops::OutcomeView::Result(answer)
            &&& answer matches ssh_ops::ResultView::BrowseDir { path: told, entries, git: summary }
            &&& told == place
            &&& entries.to_multiset() == paths::listed_all(found@).to_multiset()
            &&& summary == git_summary::summary_in(git)
            &&& outcome(op, cwd, home, Finding::Browsed { entries: Err(reason), git }) == (
            ssh_ops::OutcomeView::Error("Failed to list "@ + place + ": "@ + reason@))
        }),
{
    paths::law_directories_come_first(found@);
}

/// What was found is told in full and of the session that was asked about.
pub proof fn law_findings_are_told_in_full(
    session_id: Seq<char>,
    cwd: Seq<char>,
    home: Option<Seq<char>>,
    rows: Vec<SshSessionEntry>,
    messages: Vec<Json>,
    todos: Vec<Json>,
    goals: Vec<Json>,
    plan: Option<Json>,
    skills: Vec<SshSkillInfo>,
)
    ensures
        outcome(ssh_ops::OpView::ListSessions, cwd, home, Finding::Sessions(rows)) == (
        ssh_ops::OutcomeView::Result(
            ssh_ops::ResultView::ListSessions(rows@.map_values(
                |row: SshSessionEntry| rows::row_view(row),
            )),
        )),
        outcome(
            ssh_ops::OpView::SessionPreview { session_id },
            cwd,
            home,
            Finding::Preview(messages),
        ) == (ssh_ops::OutcomeView::Result(
            ssh_ops::ResultView::SessionPreview {
                session_id,
                messages: messages@.map_values(|m: Json| m@),
            },
        )),
        outcome(
            ssh_ops::OpView::GetTodos { session_id },
            cwd,
            home,
            Finding::Todos { todos, goals, plan },
        ) == (ssh_ops::OutcomeView::Result(
            ssh_ops::ResultView::GetTodos {
                todos: todos@.map_values(|m: Json| m@),
                goals: goals@.map_values(|m: Json| m@),
                plan: match plan {
                    Some(plan) => Some(plan@),
                    None => None,
                },
            },
        )),
        outcome(ssh_ops::OpView::ListSkills, cwd, home, Finding::Skills(skills)) == (
        ssh_ops::OutcomeView::Result(
            ssh_ops::ResultView::ListSkills(skills@.map_values(|s: SshSkillInfo| s@)),
        )),
{
    assert(rows::row_views(rows@) =~= rows@.map_values(
        |row: SshSessionEntry| rows::row_view(row),
    ));
    assert(json::trees(messages@) =~= messages@.map_values(|m: Json| m@));
    assert(json::trees(todos@) =~= todos@.map_values(|m: Json| m@));
    assert(json::trees(goals@) =~= goals@.map_values(|m: Json| m@));
    assert(ssh_ops::skill_views(skills@) =~= skills@.map_values(|s: SshSkillInfo| s@));
}

/// Settings are answered with their place and text, empty where the file is
/// not there yet; without a place there is an error. Storing them and saving a
/// session succeed where they were done, and fail with the reason.
pub proof fn law_settings_are_told_or_the_reason(
    cwd: Seq<char>,
    home: Option<Seq<char>>,
    path: String,
    found: String,
    reason: String,
    reply: ReadReply,
    content: Seq<char>,
    session_id: Seq<char>,
    saved: bool,
    save_label: Option<Seq<char>>,
)
    ensures
        ({
            let read = ssh_ops::OpView::ReadConfig;
            let store = ssh_ops::OpView::WriteConfig { content };
            let save = ssh_ops::OpView::SetSessionSaved { session_id, saved, save_label };
            &&& outcome(
                read,
                cwd,
                home,
                Finding::Config { path: Some(path), reply: ReadReply::Content(found) },
            ) == (ssh_ops::OutcomeView::Result(
                ssh_ops::ResultView::ReadConfig { path: path@, content: found@ },
            ))
            &&& outcome(
                read,
                cwd,
                home,
                Finding::Config { path: Some(path), reply: ReadReply::Missing },
            ) == (ssh_ops::OutcomeView::Result(
                ssh_ops::ResultView::ReadConfig { path: path@, content: Seq::empty() },
            ))
            &&& outcome(read, cwd, home, Finding::Config { path: None, reply }) is Error
            &&& outcome(
                read,
                cwd,
                home,
                Finding::Config { path: Some(path), reply: ReadReply::Failed(reason) },
            ) matches ssh_ops::OutcomeView::Error(a)
            &&& text::ends_with(a, reason@)
            &&& outcome(store, cwd, home, Finding::ConfigStored(StoreReply::Stored)) == (
            ssh_ops::OutcomeView::Result(ssh_ops::ResultView::WriteConfig))
            &&& outcome(store, cwd, home, Finding::ConfigStored(StoreReply::Invalid(reason)))
                matches ssh_ops::OutcomeView::Error(b)
            &&& text::ends_with(b, "Invalid config TOML: "@ + reason@)
            &&& outcome(store, cwd, home, Finding::ConfigStored(StoreReply::Failed(reason)))
                matches ssh_ops::OutcomeView::Error(c)
            &&& text::ends_with(c, reason@)
            &&& outcome(save, cwd, home, Finding::Saved(Ok(()))) == ssh_ops::OutcomeView::Result(
                ssh_ops::ResultView::SetSessionSaved,
            )
            &&& outcome(save, cwd, home, Finding::Saved(Err(reason))) matches
                ssh_ops::OutcomeView::Error(d)
            &&& text::ends_with(d, reason@)
        }),
{
    let r = reason@;
    text::law_stripping_undoes_putting("Failed to read config file: "@, r);
    text::law_stripping_undoes_putting("Failed to write remote config: "@, r);
    text::law_stripping_undoes_putting("set_session_saved failed: "@, r);
    reveal_strlit("Failed to write remote config: Invalid config TOML: ");
    reveal_strlit("Failed to write remote config: ");
    reveal_strlit("Invalid config TOML: ");
    assert("Failed to write remote config: Invalid config TOML: "@ + r
        =~= "Failed to write remote config: "@ + ("Invalid config TOML: "@ + r));
    text::law_stripping_undoes_putting(
        "Failed to write remote config: "@,
        "Invalid config TOML: "@ + r,
    );
}

} // verus!
