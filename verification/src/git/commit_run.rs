//! Making a commit, one git command at a time.
//!
//! A [`CommitRun`] says which command comes next and takes its reply. It asks
//! for the commit only after every gate let it pass.

use crate::git;
use crate::git::{
    assemble_message, branch_name, check_branch, check_commit_input, check_nonempty, check_staged,
    commit_report, default_branch_name, git_failure, listed_paths, paths_to_stage, signs_off,
    GitCommitInput,
};
use crate::sort;
use crate::text;
use crate::text::{borrowed_opt, clone_texts, lossy_text, owned, trimmed_end};
use vstd::prelude::*;

verus! {

/// What came of a step.
#[derive(Debug)]
pub enum GitReply {
    /// A command succeeded and printed this, without space at its end.
    Printed(String),
    /// A step failed, and this is told.
    Failed(String),
    /// Whether a command that only asks succeeded.
    Status(bool),
    /// The root of the repository and the directory that paths are meant from,
    /// with links resolved.
    Anchors { root: String, base: String },
    /// The trailer that signs the commit off, where there is one.
    Trailer(Option<String>),
}

/// What a [`GitReply`] stands for.
#[verifier::ext_equal]
pub enum ReplyView {
    Printed(Seq<char>),
    Failed(Seq<char>),
    Status(bool),
    Anchors { root: Seq<char>, base: Seq<char> },
    Trailer(Option<Seq<char>>),
}

impl View for GitReply {
    type V = ReplyView;

    open spec fn view(&self) -> ReplyView {
        match *self {
            GitReply::Printed(s) => ReplyView::Printed(s@),
            GitReply::Failed(s) => ReplyView::Failed(s@),
            GitReply::Status(b) => ReplyView::Status(b),
            GitReply::Anchors { root, base } => ReplyView::Anchors { root: root@, base: base@ },
            GitReply::Trailer(t) => ReplyView::Trailer(text::opt_text(t)),
        }
    }
}

/// The reply that a command left.
pub fn reply_of(args: &Vec<String>, success: bool, stdout: &[u8], stderr: &[u8]) -> (r: GitReply)
    ensures
        r@ == if success {
            ReplyView::Printed(text::trim_end(text::lossy(stdout@)))
        } else {
            ReplyView::Failed(
                "git "@ + text::join(text::texts(args@), " "@) + " failed: "@ + text::trim_end(
                    text::lossy(stderr@),
                ),
            )
        },
{
    if success {
        let printed = lossy_text(stdout);
        GitReply::Printed(owned(trimmed_end(printed.as_str())))
    } else {
        let told = lossy_text(stderr);
        GitReply::Failed(git_failure(args, told.as_str()))
    }
}

/// How far a commit has come; each stage waits for one step.
#[derive(Clone, Copy, Debug, PartialEq, Eq, Structural)]
pub enum CommitStage {
    FindRoot,
    SymbolicHead,
    NamedHead,
    RemoteHead,
    ConfiguredDefault,
    ApplySnapshot,
    SnapshotPaths,
    Anchors,
    ListStaged,
    AddPaths,
    AskStaged,
    SignOff,
    CountStaged,
    Commit,
    ReadSha,
    Done,
    Refused,
}

/// A commit under way.
#[derive(Debug)]
pub struct CommitRun {
    input: GitCommitInput,
    stage: CommitStage,
    root: String,
    branch: String,
    default_branch: String,
    asked: Vec<String>,
    staged: Vec<String>,
    has_staged: bool,
    trailer: Option<String>,
    files: usize,
    told: String,
}

/// What a [`CommitRun`] stands for.
#[verifier::ext_equal]
pub struct RunView {
    /// What the commit was asked for with.
    pub input: GitCommitInput,
    pub stage: CommitStage,
    /// The root of the repository.
    pub root: Seq<char>,
    /// The branch that the commit goes to.
    pub branch: Seq<char>,
    /// The default branch.
    pub default_branch: Seq<char>,
    /// The paths that the commit asks for.
    pub asked: Seq<Seq<char>>,
    /// The paths that were staged before.
    pub staged: Seq<Seq<char>>,
    /// Whether anything is staged.
    pub has_staged: bool,
    /// The trailer, where there is one.
    pub trailer: Option<Seq<char>>,
    /// How many files go in.
    pub files: usize,
    /// The name of the commit, or why there is none.
    pub told: Seq<char>,
}

impl View for CommitRun {
    type V = RunView;

    closed spec fn view(&self) -> RunView {
        RunView {
            input: self.input,
            stage: self.stage,
            root: self.root@,
            branch: self.branch@,
            default_branch: self.default_branch@,
            asked: text::texts(self.asked@),
            staged: text::texts(self.staged@),
            has_staged: self.has_staged,
            trailer: text::opt_text(self.trailer),
            files: self.files,
            told: self.told@,
        }
    }
}

// ---------------------------------------------------------------------------
// The model
// ---------------------------------------------------------------------------

/// The run before its first step.
pub open spec fn started(input: GitCommitInput) -> RunView {
    RunView {
        input,
        stage: CommitStage::FindRoot,
        root: Seq::empty(),
        branch: Seq::empty(),
        default_branch: Seq::empty(),
        asked: Seq::empty(),
        staged: Seq::empty(),
        has_staged: false,
        trailer: None,
        files: 0,
        told: Seq::empty(),
    }
}

/// The run after it was refused.
pub open spec fn refused(run: RunView, why: Seq<char>) -> RunView {
    RunView { stage: CommitStage::Refused, told: why, ..run }
}

/// The run at another stage.
pub open spec fn at(run: RunView, stage: CommitStage) -> RunView {
    RunView { stage, ..run }
}

/// Whether the remote's HEAD names a branch.
pub open spec fn names_branch(head: Seq<char>) -> bool {
    text::strip_prefix(head, "origin/"@) matches Some(named) && text::trim(named).len() > 0
}

/// The run behind the branch gate.
pub open spec fn branch_gate(run: RunView, default_branch: Seq<char>) -> RunView {
    let known = RunView { default_branch, ..run };
    if run.branch == default_branch && !run.input.allow_default_branch {
        refused(
            known,
            "git_commit: refusing to commit on default branch \""@ + default_branch
                + "\"; create a task branch or pass allowDefaultBranch"@,
        )
    } else if run.input.checkpoint is Some {
        at(known, CommitStage::ApplySnapshot)
    } else {
        at(known, CommitStage::Anchors)
    }
}

/// The paths in what a command printed.
pub open spec fn paths_in(printed: Seq<char>) -> Seq<Seq<char>> {
    git::present_from(text::split(printed, '\0'), 0)
}

/// The paths that the commit was asked for with.
pub open spec fn input_paths(input: GitCommitInput) -> Seq<Seq<char>> {
    match input.paths {
        Some(paths) => text::texts(paths@),
        None => Seq::empty(),
    }
}

/// The run behind the staging gate.
pub open spec fn staging_gate(run: RunView, staged: Seq<Seq<char>>) -> RunView {
    let known = RunView { staged, ..run };
    let foreign = git::foreign_from(staged, run.asked, 0);
    if foreign.len() > 0 && !run.input.include_pre_staged {
        refused(
            known,
            "git_commit: refusing to sweep unrelated staged paths ("@ + text::join(foreign, ", "@)
                + "); unstage them or pass includePreStaged"@,
        )
    } else if run.asked.len() > 0 {
        at(known, CommitStage::AddPaths)
    } else {
        at(known, CommitStage::AskStaged)
    }
}

/// The run behind the test that keeps out empty commits.
pub open spec fn content_gate(run: RunView, clean: bool) -> RunView {
    let known = RunView { has_staged: !clean, ..run };
    if clean {
        refused(known, "git_commit: nothing staged to commit"@)
    } else if run.input.signoff != Some(false) {
        at(known, CommitStage::SignOff)
    } else {
        at(known, CommitStage::CountStaged)
    }
}

/// The run after a step.
pub open spec fn next(run: RunView, reply: ReplyView) -> RunView {
    match (run.stage, reply) {
        (CommitStage::FindRoot, ReplyView::Printed(s)) => RunView {
            root: s,
            stage: CommitStage::SymbolicHead,
            ..run
        },
        (CommitStage::SymbolicHead, ReplyView::Printed(s)) => if s.len() > 0 {
            RunView { branch: s, stage: CommitStage::RemoteHead, ..run }
        } else {
            at(run, CommitStage::NamedHead)
        },
        (CommitStage::SymbolicHead, ReplyView::Failed(_)) => at(run, CommitStage::NamedHead),
        (CommitStage::NamedHead, ReplyView::Printed(s)) => RunView {
            branch: s,
            stage: CommitStage::RemoteHead,
            ..run
        },
        (CommitStage::RemoteHead, ReplyView::Printed(s)) => if names_branch(s) {
            branch_gate(run, git::default_branch_of(Some(s), None))
        } else {
            at(run, CommitStage::ConfiguredDefault)
        },
        (CommitStage::RemoteHead, ReplyView::Failed(_)) => at(run, CommitStage::ConfiguredDefault),
        (CommitStage::ConfiguredDefault, ReplyView::Printed(s)) => branch_gate(
            run,
            git::default_branch_of(None, Some(s)),
        ),
        (CommitStage::ConfiguredDefault, ReplyView::Failed(_)) => branch_gate(
            run,
            git::default_branch_of(None, None),
        ),
        (CommitStage::ApplySnapshot, ReplyView::Printed(_)) => at(run, CommitStage::SnapshotPaths),
        (CommitStage::SnapshotPaths, ReplyView::Printed(s)) => RunView {
            asked: paths_in(s),
            stage: CommitStage::ListStaged,
            ..run
        },
        (CommitStage::Anchors, ReplyView::Anchors { root, base }) => match git::staged_set(
            root,
            base,
            input_paths(run.input),
            0,
            Seq::empty(),
        ) {
            Ok(asked) => RunView { asked, stage: CommitStage::ListStaged, ..run },
            Err(why) => refused(run, why),
        },
        (CommitStage::ListStaged, ReplyView::Printed(s)) => staging_gate(run, paths_in(s)),
        (CommitStage::AddPaths, ReplyView::Printed(_)) => at(run, CommitStage::AskStaged),
        (CommitStage::AskStaged, ReplyView::Status(clean)) => content_gate(run, clean),
        (CommitStage::SignOff, ReplyView::Trailer(trailer)) => RunView {
            trailer,
            stage: CommitStage::CountStaged,
            ..run
        },
        (CommitStage::CountStaged, ReplyView::Printed(s)) => RunView {
            files: paths_in(s).len() as usize,
            stage: CommitStage::Commit,
            ..run
        },
        (CommitStage::Commit, ReplyView::Printed(_)) => at(run, CommitStage::ReadSha),
        (CommitStage::ReadSha, ReplyView::Printed(s)) => RunView {
            told: s,
            stage: CommitStage::Done,
            ..run
        },
        (CommitStage::Done, _) => run,
        (CommitStage::Refused, _) => run,
        (_, ReplyView::Failed(why)) => refused(run, why),
        _ => run,
    }
}

/// The message of the commit.
pub open spec fn message(run: RunView) -> Seq<char> {
    text::join(
        git::message_lines(
            run.input.commit_type@,
            text::opt_text(run.input.scope),
            run.input.description@,
            text::texts(run.input.body@),
            run.input.closes@,
            run.input.refs@,
            run.trailer,
        ),
        "\n"@,
    ) + "\n"@
}

/// The git command of a stage; a stage without one waits for something else.
pub open spec fn command(run: RunView) -> Seq<Seq<char>> {
    match run.stage {
        CommitStage::FindRoot => seq!["rev-parse"@, "--show-toplevel"@],
        CommitStage::SymbolicHead => seq!["symbolic-ref"@, "--quiet"@, "--short"@, "HEAD"@],
        CommitStage::NamedHead => seq!["rev-parse"@, "--abbrev-ref"@, "HEAD"@],
        CommitStage::RemoteHead => seq![
            "symbolic-ref"@,
            "--quiet"@,
            "--short"@,
            "refs/remotes/origin/HEAD"@,
        ],
        CommitStage::ConfiguredDefault => seq!["config"@, "--get"@, "init.defaultBranch"@],
        CommitStage::ApplySnapshot => seq!["checkout"@, run.input.checkpoint->0@, "--"@, "."@],
        CommitStage::SnapshotPaths => seq![
            "stash"@,
            "show"@,
            "--name-only"@,
            "-z"@,
            run.input.checkpoint->0@,
        ],
        CommitStage::ListStaged => seq!["diff"@, "--cached"@, "--name-only"@, "-z"@],
        CommitStage::AddPaths => seq!["add"@, "--"@] + run.asked,
        CommitStage::AskStaged => seq!["diff"@, "--cached"@, "--quiet"@],
        CommitStage::CountStaged => seq!["diff"@, "--cached"@, "--name-only"@, "-z"@],
        CommitStage::Commit => seq!["commit"@, "-m"@, message(run)],
        CommitStage::ReadSha => seq!["rev-parse"@, "HEAD"@],
        _ => Seq::empty(),
    }
}

/// Whether a run is at a stage that only a run with a checkpoint reaches.
pub open spec fn is_coherent(run: RunView) -> bool {
    run.stage == CommitStage::ApplySnapshot || run.stage == CommitStage::SnapshotPaths
        ==> run.input.checkpoint is Some
}

// ---------------------------------------------------------------------------
// The run
// ---------------------------------------------------------------------------

fn words(v: &[&'static str]) -> (r: Vec<String>)
    ensures
        r@.len() == v@.len(),
        forall|i: int| 0 <= i < v@.len() ==> (#[trigger] r@[i])@ == v@[i]@,
{
    let mut r: Vec<String> = Vec::new();
    let mut k: usize = 0;
    let total: usize = v.len();
    while k < total
        invariant
            total == v@.len(),
            k <= total,
            r@.len() == k,
            forall|i: int| 0 <= i < k ==> (#[trigger] r@[i])@ == v@[i]@,
        decreases total - k,
    {
        r.push(owned(v[k]));
        k = k + 1;
    }
    r
}

impl CommitRun {
    /// Starts a commit; fields that are wrong are refused at once.
    pub fn start(input: GitCommitInput) -> (r: Result<CommitRun, String>)
        ensures
            match git::input_fault(input) {
                None => r is Ok && r->Ok_0@ == started(input),
                Some(fault) => r is Err && r->Err_0@ == "git_commit: "@ + fault,
            },
    {
        match check_commit_input(&input) {
            Err(why) => Err(why),
            Ok(_) => {
                let run = CommitRun {
                    input,
                    stage: CommitStage::FindRoot,
                    root: String::new(),
                    branch: String::new(),
                    default_branch: String::new(),
                    asked: Vec::new(),
                    staged: Vec::new(),
                    has_staged: false,
                    trailer: None,
                    files: 0,
                    told: String::new(),
                };
                assert(run@ =~= started(input));
                Ok(run)
            },
        }
    }

    /// How far the commit has come.
    pub fn stage(&self) -> (r: CommitStage)
        ensures
            r == self@.stage,
    {
        self.stage
    }

    /// The root of the repository.
    pub fn root(&self) -> (r: &str)
        ensures
            r@ == self@.root,
    {
        self.root.as_str()
    }

    /// The branch that the commit goes to.
    pub fn branch(&self) -> (r: &str)
        ensures
            r@ == self@.branch,
    {
        self.branch.as_str()
    }

    /// The name of the commit, or why there is none.
    pub fn told(&self) -> (r: &str)
        ensures
            r@ == self@.told,
    {
        self.told.as_str()
    }

    /// How many files go in.
    pub fn files(&self) -> (r: usize)
        ensures
            r == self@.files,
    {
        self.files
    }

    /// The message of the commit.
    pub fn message(&self) -> (r: String)
        ensures
            r@ == message(self@),
    {
        assemble_message(
            self.input.commit_type.as_str(),
            borrowed_opt(&self.input.scope),
            self.input.description.as_str(),
            self.input.body.as_slice(),
            self.input.closes.as_slice(),
            self.input.refs.as_slice(),
            borrowed_opt(&self.trailer),
        )
    }

    /// What is told of the commit.
    pub fn report(&self) -> (r: String)
        ensures
            r@ == "Committed "@ + git::short_name(self@.told) + " on "@ + self@.branch + "\n"@
                + git::first_line(message(self@)) + "\n"@ + text::decimal(self@.files as nat)
                + " file(s)"@,
    {
        commit_report(
            self.told.as_str(),
            self.branch.as_str(),
            self.message().as_str(),
            self.files,
        )
    }

    /// The git command of the stage.
    pub fn command(&self) -> (r: Vec<String>)
        requires
            is_coherent(self@),
        ensures
            text::texts(r@) == command(self@),
    {
        let mut r: Vec<String> = match self.stage {
            CommitStage::FindRoot => words(["rev-parse", "--show-toplevel"].as_slice()),
            CommitStage::SymbolicHead => words(
                ["symbolic-ref", "--quiet", "--short", "HEAD"].as_slice(),
            ),
            CommitStage::NamedHead => words(["rev-parse", "--abbrev-ref", "HEAD"].as_slice()),
            CommitStage::RemoteHead => words(
                ["symbolic-ref", "--quiet", "--short", "refs/remotes/origin/HEAD"].as_slice(),
            ),
            CommitStage::ConfiguredDefault => words(
                ["config", "--get", "init.defaultBranch"].as_slice(),
            ),
            CommitStage::ApplySnapshot => words(["checkout"].as_slice()),
            CommitStage::SnapshotPaths => words(["stash", "show", "--name-only", "-z"].as_slice()),
            CommitStage::ListStaged => words(["diff", "--cached", "--name-only", "-z"].as_slice()),
            CommitStage::AddPaths => words(["add", "--"].as_slice()),
            CommitStage::AskStaged => words(["diff", "--cached", "--quiet"].as_slice()),
            CommitStage::CountStaged => words(["diff", "--cached", "--name-only", "-z"].as_slice()),
            CommitStage::Commit => words(["commit", "-m"].as_slice()),
            CommitStage::ReadSha => words(["rev-parse", "HEAD"].as_slice()),
            _ => Vec::new(),
        };
        match self.stage {
            CommitStage::ApplySnapshot => {
                if let Some(reference) = &self.input.checkpoint {
                    r.push(owned(reference.as_str()));
                }
                r.push(owned("--"));
                r.push(owned("."));
            },
            CommitStage::SnapshotPaths => {
                if let Some(reference) = &self.input.checkpoint {
                    r.push(owned(reference.as_str()));
                }
            },
            CommitStage::AddPaths => {
                let ghost before = r@;
                let mut paths = clone_texts(&self.asked);
                let ghost added = paths@;
                r.append(&mut paths);
                assert(text::texts(r@) =~= text::texts(before) + text::texts(added));
            },
            CommitStage::Commit => {
                r.push(self.message());
            },
            _ => {},
        }
        assert(text::texts(r@) =~= command(self@));
        r
    }

    fn refuse(&mut self, why: String)
        ensures
            final(self)@ == refused(old(self)@, why@),
    {
        self.stage = CommitStage::Refused;
        self.told = why;
    }

    fn pass_branch_gate(&mut self, default_branch: String)
        ensures
            final(self)@ == branch_gate(old(self)@, default_branch@),
    {
        let gate = check_branch(
            self.branch.as_str(),
            default_branch.as_str(),
            self.input.allow_default_branch,
        );
        self.default_branch = default_branch;
        match gate {
            Err(why) => self.refuse(why),
            Ok(_) => {
                self.stage = if self.input.checkpoint.is_some() {
                    CommitStage::ApplySnapshot
                } else {
                    CommitStage::Anchors
                };
            },
        }
    }

    fn pass_staging_gate(&mut self, staged: Vec<String>)
        ensures
            final(self)@ == staging_gate(old(self)@, text::texts(staged@)),
    {
        let gate = check_staged(&staged, &self.asked, self.input.include_pre_staged);
        self.staged = staged;
        match gate {
            Err(why) => self.refuse(why),
            Ok(_) => {
                self.stage = if self.asked.len() > 0 {
                    CommitStage::AddPaths
                } else {
                    CommitStage::AskStaged
                };
            },
        }
    }

    fn pass_content_gate(&mut self, clean: bool)
        ensures
            final(self)@ == content_gate(old(self)@, clean),
    {
        self.has_staged = !clean;
        match check_nonempty(!clean) {
            Err(why) => self.refuse(why),
            Ok(_) => {
                self.stage = if signs_off(self.input.signoff) {
                    CommitStage::SignOff
                } else {
                    CommitStage::CountStaged
                };
            },
        }
    }

    fn take_remote_head(&mut self, head: &str)
        requires
            old(self)@.stage == CommitStage::RemoteHead,
        ensures
            final(self)@ == next(old(self)@, ReplyView::Printed(head@)),
    {
        let named = match text::stripped_prefix(head, "origin/") {
            Some(named) => text::trimmed(named).unicode_len() > 0,
            None => false,
        };
        if named {
            self.pass_branch_gate(default_branch_name(Some(head), None));
        } else {
            self.stage = CommitStage::ConfiguredDefault;
        }
    }

    fn take_anchors(&mut self, root: &str, base: &str)
        requires
            old(self)@.stage == CommitStage::Anchors,
        ensures
            final(self)@ == next(old(self)@, (ReplyView::Anchors { root: root@, base: base@ })),
    {
        let asked = match &self.input.paths {
            Some(paths) => paths_to_stage(root, base, paths),
            None => {
                let none: Vec<String> = Vec::new();
                assert(text::texts(none@) =~= Seq::<Seq<char>>::empty());
                paths_to_stage(root, base, &none)
            },
        };
        match asked {
            Ok(asked) => {
                self.asked = asked;
                self.stage = CommitStage::ListStaged;
            },
            Err(why) => self.refuse(why),
        }
    }

    /// Takes what came of the step of the stage.
    pub fn advance(&mut self, reply: GitReply)
        requires
            is_coherent(old(self)@),
        ensures
            final(self)@ == next(old(self)@, reply@),
            is_coherent(final(self)@),
    {
        match (self.stage, reply) {
            (CommitStage::FindRoot, GitReply::Printed(s)) => {
                self.root = s;
                self.stage = CommitStage::SymbolicHead;
            },
            (CommitStage::SymbolicHead, GitReply::Printed(s)) => {
                match branch_name(Some(s.as_str())) {
                    Some(branch) => {
                        self.branch = branch;
                        self.stage = CommitStage::RemoteHead;
                    },
                    None => {
                        self.stage = CommitStage::NamedHead;
                    },
                }
            },
            (CommitStage::SymbolicHead, GitReply::Failed(_)) => {
                self.stage = CommitStage::NamedHead;
            },
            (CommitStage::NamedHead, GitReply::Printed(s)) => {
                self.branch = s;
                self.stage = CommitStage::RemoteHead;
            },
            (CommitStage::RemoteHead, GitReply::Printed(s)) => {
                self.take_remote_head(s.as_str());
            },
            (CommitStage::RemoteHead, GitReply::Failed(_)) => {
                self.stage = CommitStage::ConfiguredDefault;
            },
            (CommitStage::ConfiguredDefault, GitReply::Printed(s)) => {
                self.pass_branch_gate(default_branch_name(None, Some(s.as_str())));
            },
            (CommitStage::ConfiguredDefault, GitReply::Failed(_)) => {
                self.pass_branch_gate(default_branch_name(None, None));
            },
            (CommitStage::ApplySnapshot, GitReply::Printed(_)) => {
                self.stage = CommitStage::SnapshotPaths;
            },
            (CommitStage::SnapshotPaths, GitReply::Printed(s)) => {
                self.asked = listed_paths(s.as_str());
                self.stage = CommitStage::ListStaged;
            },
            (CommitStage::Anchors, GitReply::Anchors { root, base }) => {
                self.take_anchors(root.as_str(), base.as_str());
            },
            (CommitStage::ListStaged, GitReply::Printed(s)) => {
                self.pass_staging_gate(listed_paths(s.as_str()));
            },
            (CommitStage::AddPaths, GitReply::Printed(_)) => {
                self.stage = CommitStage::AskStaged;
            },
            (CommitStage::AskStaged, GitReply::Status(clean)) => {
                self.pass_content_gate(clean);
            },
            (CommitStage::SignOff, GitReply::Trailer(trailer)) => {
                self.trailer = trailer;
                self.stage = CommitStage::CountStaged;
            },
            (CommitStage::CountStaged, GitReply::Printed(s)) => {
                let paths = listed_paths(s.as_str());
                assert(text::texts(paths@).len() == paths@.len());
                self.files = paths.len();
                self.stage = CommitStage::Commit;
            },
            (CommitStage::Commit, GitReply::Printed(_)) => {
                self.stage = CommitStage::ReadSha;
            },
            (CommitStage::ReadSha, GitReply::Printed(s)) => {
                self.told = s;
                self.stage = CommitStage::Done;
            },
            (CommitStage::Done, _) => {},
            (CommitStage::Refused, _) => {},
            (_, GitReply::Failed(why)) => {
                self.refuse(why);
            },
            _ => {},
        }
    }
}

// ---------------------------------------------------------------------------
// Laws
// ---------------------------------------------------------------------------

/// Whether a run has left the branch gate behind.
pub open spec fn is_past_branch_gate(run: RunView) -> bool {
    match run.stage {
        CommitStage::FindRoot => false,
        CommitStage::SymbolicHead => false,
        CommitStage::NamedHead => false,
        CommitStage::RemoteHead => false,
        CommitStage::ConfiguredDefault => false,
        CommitStage::Refused => false,
        _ => true,
    }
}

/// Whether a run has left the staging gate behind.
pub open spec fn is_past_staging_gate(run: RunView) -> bool {
    match run.stage {
        CommitStage::AddPaths => true,
        CommitStage::AskStaged => true,
        CommitStage::SignOff => true,
        CommitStage::CountStaged => true,
        CommitStage::Commit => true,
        CommitStage::ReadSha => true,
        CommitStage::Done => true,
        _ => false,
    }
}

/// Whether a run has left behind the test that keeps out empty commits.
pub open spec fn is_past_content_gate(run: RunView) -> bool {
    match run.stage {
        CommitStage::SignOff => true,
        CommitStage::CountStaged => true,
        CommitStage::Commit => true,
        CommitStage::ReadSha => true,
        CommitStage::Done => true,
        _ => false,
    }
}

/// Whether a run met the condition of every gate that it has left behind: its
/// fields are in order, it is not on the default branch unless that is
/// allowed, everything that was staged before was asked for unless the rest is
/// declared part of it, and something is staged.
pub open spec fn met_its_gates(run: RunView) -> bool {
    &&& git::input_fault(run.input) is None
    &&& is_past_branch_gate(run) ==> run.branch != run.default_branch
        || run.input.allow_default_branch
    &&& is_past_staging_gate(run) ==> (forall|i: int|
        0 <= i < run.staged.len() ==> run.asked.contains(#[trigger] run.staged[i]))
        || run.input.include_pre_staged
    &&& is_past_content_gate(run) ==> run.has_staged
}

/// A commit that starts with fields in order has met its gates.
pub proof fn law_runs_start_in_order(input: GitCommitInput)
    requires
        git::input_fault(input) is None,
    ensures
        met_its_gates(started(input)),
        is_coherent(started(input)),
{
}

/// Whatever comes of a step, a run meets the gates that it leaves behind. So a
/// commit is made only where every gate let it pass.
pub proof fn law_commits_pass_every_gate(run: RunView, reply: ReplyView)
    requires
        met_its_gates(run),
    ensures
        met_its_gates(next(run, reply)),
{
    if run.stage == CommitStage::ListStaged {
        if let ReplyView::Printed(s) = reply {
            git::law_only_asked_paths_pass(paths_in(s), run.asked);
        }
    }
}

/// What was refused or done stays so.
pub proof fn law_finished_runs_stay(run: RunView, reply: ReplyView)
    requires
        run.stage == CommitStage::Done || run.stage == CommitStage::Refused,
    ensures
        next(run, reply) == run,
{
}

/// A run keeps its input, and each reply tells one thing: the root comes from
/// the question for it, the branch from the two for the branch, the default
/// branch from the two for that, the paths asked for from the snapshot or the
/// request, the staged paths from their list, the trailer from signing off,
/// and the number of files from counting them. No other reply changes them.
pub proof fn law_each_reply_tells_one_thing(run: RunView, reply: ReplyView)
    ensures
        ({
            let after = next(run, reply);
            &&& after.input == run.input
            &&& after.root != run.root ==> run.stage == CommitStage::FindRoot
            &&& after.branch != run.branch ==> run.stage == CommitStage::SymbolicHead || run.stage
                == CommitStage::NamedHead
            &&& after.default_branch != run.default_branch ==> run.stage == CommitStage::RemoteHead
                || run.stage == CommitStage::ConfiguredDefault
            &&& after.asked != run.asked ==> run.stage == CommitStage::SnapshotPaths || run.stage
                == CommitStage::Anchors
            &&& after.staged != run.staged ==> run.stage == CommitStage::ListStaged
            &&& after.has_staged != run.has_staged ==> run.stage == CommitStage::AskStaged
            &&& after.trailer != run.trailer ==> run.stage == CommitStage::SignOff
            &&& after.files != run.files ==> run.stage == CommitStage::CountStaged
            &&& after.told != run.told ==> after.stage == CommitStage::Refused || after.stage
                == CommitStage::Done
        }),
{
}

/// Whether a failed command of a stage has another to fall back on.
pub open spec fn has_fallback(stage: CommitStage) -> bool {
    stage == CommitStage::SymbolicHead || stage == CommitStage::RemoteHead || stage
        == CommitStage::ConfiguredDefault
}

/// A failed command refuses the commit and tells why, unless it only asked for
/// a name that can be found otherwise; nothing else changes.
pub proof fn law_failed_commands_refuse(run: RunView, why: Seq<char>)
    requires
        run.stage != CommitStage::Done,
        run.stage != CommitStage::Refused,
    ensures
        !has_fallback(run.stage) ==> next(run, ReplyView::Failed(why)) == (RunView {
            stage: CommitStage::Refused,
            told: why,
            ..run
        }),
        run.stage == CommitStage::SymbolicHead ==> next(run, ReplyView::Failed(why)) == (RunView {
            stage: CommitStage::NamedHead,
            ..run
        }),
        run.stage == CommitStage::RemoteHead ==> next(run, ReplyView::Failed(why)) == (RunView {
            stage: CommitStage::ConfiguredDefault,
            ..run
        }),
        run.stage == CommitStage::ConfiguredDefault ==> next(
            run,
            ReplyView::Failed(why),
        ).default_branch == "main"@,
{
}

/// A commit is refused on the default branch unless it is allowed there, and
/// on no other; the refusal names the branch. Where it may go on, a snapshot is
/// taken up first where one was named.
pub proof fn law_only_the_default_branch_is_refused(run: RunView, default_branch: Seq<char>)
    ensures
        ({
            let after = branch_gate(run, default_branch);
            &&& after.default_branch == default_branch
            &&& after.stage == CommitStage::Refused <==> run.branch == default_branch
                && !run.input.allow_default_branch
            &&& after.stage == CommitStage::Refused ==> text::contains(after.told, default_branch)
            &&& after.stage != CommitStage::Refused ==> after.stage == if run.input.checkpoint is Some {
                CommitStage::ApplySnapshot
            } else {
                CommitStage::Anchors
            }
        }),
{
    let a = "git_commit: refusing to commit on default branch \""@;
    let b = "\"; create a task branch or pass allowDefaultBranch"@;
    text::law_searching_finds_the_first_place(a, default_branch, b);
}

/// A commit is refused where a path is staged that nobody asked for, unless
/// such paths are to go along; the refusal names every one of them. Else what
/// was asked for is staged, where anything was.
pub proof fn law_foreign_paths_are_refused_by_name(run: RunView, staged: Seq<Seq<char>>)
    ensures
        ({
            let after = staging_gate(run, staged);
            let foreign = staged.filter(|p: Seq<char>| !run.asked.contains(p));
            &&& after.staged == staged
            &&& after.stage == CommitStage::Refused <==> foreign.len() > 0
                && !run.input.include_pre_staged
            &&& after.stage == CommitStage::Refused ==> text::contains(
                after.told,
                text::join(foreign, ", "@),
            )
            &&& after.stage != CommitStage::Refused ==> after.stage == if run.asked.len() > 0 {
                CommitStage::AddPaths
            } else {
                CommitStage::AskStaged
            }
        }),
{
    git::law_pieces_and_foreign_paths_are_all_kept(staged, staged, run.asked);
    let foreign = staged.filter(|p: Seq<char>| !run.asked.contains(p));
    let a = "git_commit: refusing to sweep unrelated staged paths ("@;
    let b = "); unstage them or pass includePreStaged"@;
    text::law_searching_finds_the_first_place(a, text::join(foreign, ", "@), b);
}

/// A commit of nothing is refused; else it is signed off unless the request
/// says not to.
pub proof fn law_empty_commits_are_refused(run: RunView, clean: bool)
    ensures
        ({
            let after = content_gate(run, clean);
            &&& after.has_staged == !clean
            &&& after.stage == CommitStage::Refused <==> clean
            &&& !clean ==> after.stage == if run.input.signoff == Some(false) {
                CommitStage::CountStaged
            } else {
                CommitStage::SignOff
            }
        }),
{
}

/// Paths that a command lists with a zero character behind each, or between
/// each two, are read as they are.
pub proof fn law_listed_paths_are_read(paths: Seq<Seq<char>>)
    requires
        paths.len() > 0,
        forall|i: int|
            0 <= i < paths.len() ==> (#[trigger] paths[i]).len() > 0 && !paths[i].contains('\0'),
    ensures
        paths_in(text::join(paths, seq!['\0'])) == paths,
        paths_in(text::join(paths, seq!['\0']).push('\0')) == paths,
        paths_in(Seq::empty()) == Seq::<Seq<char>>::empty(),
{
    lemma_listed_between(paths);
    lemma_listed_behind(paths);
    lemma_listed_nothing();
}

proof fn lemma_listed_between(paths: Seq<Seq<char>>)
    requires
        paths.len() > 0,
        forall|i: int|
            0 <= i < paths.len() ==> (#[trigger] paths[i]).len() > 0 && !paths[i].contains('\0'),
    ensures
        paths_in(text::join(paths, seq!['\0'])) == paths,
{
    let p = |p: Seq<char>| p.len() > 0;
    text::law_split_undoes_join(paths, '\0');
    git::law_pieces_and_foreign_paths_are_all_kept(paths, Seq::empty(), Seq::empty());
    assert forall|i: int| 0 <= i < paths.len() implies p(#[trigger] paths[i]) by {}
    git::lemma_filter_all(paths, p);
}

proof fn lemma_listed_behind(paths: Seq<Seq<char>>)
    requires
        paths.len() > 0,
        forall|i: int|
            0 <= i < paths.len() ==> (#[trigger] paths[i]).len() > 0 && !paths[i].contains('\0'),
    ensures
        paths_in(text::join(paths, seq!['\0']).push('\0')) == paths,
{
    let p = |p: Seq<char>| p.len() > 0;
    let none = Seq::<char>::empty();
    let ended = paths.push(none);
    assert(text::join(ended, seq!['\0']) == text::join(paths, seq!['\0']).push('\0')) by {
        assert(ended.drop_last() =~= paths);
        assert(text::join(ended, seq!['\0']) =~= text::join(paths, seq!['\0']).push('\0'));
    }
    assert(text::split(text::join(ended, seq!['\0']), '\0') == ended) by {
        assert forall|i: int| 0 <= i < ended.len() implies !(#[trigger] ended[i]).contains(
            '\0',
        ) by {
            if i < paths.len() {
                assert(ended[i] == paths[i]);
            }
        }
        text::law_split_undoes_join(ended, '\0');
    }
    git::law_pieces_and_foreign_paths_are_all_kept(ended, Seq::empty(), Seq::empty());
    sort::lemma_filter_last(paths, none, p);
    assert(paths.filter(p) == paths) by {
        assert forall|i: int| 0 <= i < paths.len() implies p(#[trigger] paths[i]) by {}
        git::lemma_filter_all(paths, p);
    }
}

proof fn lemma_listed_nothing()
    ensures
        paths_in(Seq::empty()) == Seq::<Seq<char>>::empty(),
{
    let p = |p: Seq<char>| p.len() > 0;
    let none = Seq::<char>::empty();
    text::lemma_first_char_is(none, '\0', 0);
    assert(text::split(none, '\0') =~= seq![none]);
    git::law_pieces_and_foreign_paths_are_all_kept(seq![none], Seq::empty(), Seq::empty());
    sort::lemma_filter_first(seq![none], p);
    assert(seq![none].drop_first() =~= Seq::empty());
    sort::lemma_filter_empty(p);
    assert(paths_in(none) =~= Seq::empty());
}

/// What a run learns from what a command printed, and what it asks next: the
/// root, then the branch, by its name where its reference has none, then the
/// remote's default branch, or the configured one where the remote names none.
pub proof fn law_names_are_asked_for_in_order(run: RunView, printed: Seq<char>, named: Seq<char>)
    requires
        text::trim(named).len() > 0,
    ensures
        ({
            let after = next(run, ReplyView::Printed(printed));
            &&& run.stage == CommitStage::FindRoot ==> after.root == printed && after.stage
                == CommitStage::SymbolicHead
            &&& run.stage == CommitStage::SymbolicHead && printed.len() > 0 ==> after.branch
                == printed && after.stage == CommitStage::RemoteHead
            &&& run.stage == CommitStage::SymbolicHead && printed.len() == 0 ==> after.branch
                == run.branch && after.stage == CommitStage::NamedHead
            &&& run.stage == CommitStage::NamedHead ==> after.branch == printed && after.stage
                == CommitStage::RemoteHead
            &&& run.stage == CommitStage::RemoteHead ==> next(
                run,
                ReplyView::Printed("origin/"@ + named),
            ).default_branch == text::trim(named)
            &&& run.stage == CommitStage::RemoteHead && !text::starts_with(printed, "origin/"@)
                ==> after.stage == CommitStage::ConfiguredDefault
            &&& run.stage == CommitStage::ConfiguredDefault && printed.len() > 0
                ==> after.default_branch == printed
        }),
{
    text::law_stripping_undoes_putting(named, "origin/"@);
}

/// What a run learns on its way from the staged paths to the commit: what was
/// listed as staged, whether anything is staged, the trailer, how many files
/// there are, and at last the name of the commit.
pub proof fn law_commits_are_told_in_order(
    run: RunView,
    printed: Seq<char>,
    trailer: Option<Seq<char>>,
)
    requires
        paths_in(printed).len() <= usize::MAX,
    ensures
        ({
            let after = next(run, ReplyView::Printed(printed));
            &&& run.stage == CommitStage::ListStaged ==> after.staged == paths_in(printed)
            &&& run.stage == CommitStage::AddPaths ==> after.stage == CommitStage::AskStaged
            &&& run.stage == CommitStage::SignOff ==> next(run, ReplyView::Trailer(trailer))
                == (RunView { trailer, stage: CommitStage::CountStaged, ..run })
            &&& run.stage == CommitStage::CountStaged ==> after.files == paths_in(printed).len()
                && after.stage == CommitStage::Commit
            &&& run.stage == CommitStage::Commit ==> after.stage == CommitStage::ReadSha
            &&& run.stage == CommitStage::ReadSha ==> after.stage == CommitStage::Done && after.told
                == printed
        }),
{
}

/// The paths of a request are seen from the root before anything is staged; one
/// that leads outside refuses the commit.
pub proof fn law_requested_paths_are_seen_from_the_root(
    run: RunView,
    root: Seq<char>,
    base: Seq<char>,
)
    requires
        run.stage == CommitStage::Anchors,
    ensures
        ({
            let after = next(run, ReplyView::Anchors { root, base });
            match git::staged_set(root, base, input_paths(run.input), 0, Seq::empty()) {
                Ok(asked) => after.asked == asked && after.stage == CommitStage::ListStaged,
                Err(why) => after.stage == CommitStage::Refused && after.told == why,
            }
        }),
        run.input.paths matches Some(paths) ==> input_paths(run.input) == paths@.map_values(
            |p: String| p@,
        ),
        run.input.paths is None ==> input_paths(run.input).len() == 0,
{
    if let Some(paths) = run.input.paths {
        assert(input_paths(run.input) =~= paths@.map_values(|p: String| p@));
    }
}

/// What a run asks git for at each of its stages: the paths asked for are
/// staged by name behind the mark that ends the flags, and the commit is made
/// with the message of the request and the trailer, ended by a line feed.
pub proof fn law_each_stage_has_its_command(run: RunView)
    ensures
        run.stage == CommitStage::FindRoot ==> command(run) == seq![
            "rev-parse"@,
            "--show-toplevel"@,
        ],
        run.stage == CommitStage::SymbolicHead ==> command(run) == seq![
            "symbolic-ref"@,
            "--quiet"@,
            "--short"@,
            "HEAD"@,
        ],
        run.stage == CommitStage::NamedHead ==> command(run) == seq![
            "rev-parse"@,
            "--abbrev-ref"@,
            "HEAD"@,
        ],
        run.stage == CommitStage::RemoteHead ==> command(run) == seq![
            "symbolic-ref"@,
            "--quiet"@,
            "--short"@,
            "refs/remotes/origin/HEAD"@,
        ],
        run.stage == CommitStage::ConfiguredDefault ==> command(run) == seq![
            "config"@,
            "--get"@,
            "init.defaultBranch"@,
        ],
        run.stage == CommitStage::ListStaged || run.stage == CommitStage::CountStaged ==> command(
            run,
        ) == seq!["diff"@, "--cached"@, "--name-only"@, "-z"@],
        run.stage == CommitStage::AskStaged ==> command(run) == seq![
            "diff"@,
            "--cached"@,
            "--quiet"@,
        ],
        run.stage == CommitStage::ReadSha ==> command(run) == seq!["rev-parse"@, "HEAD"@],
        run.stage == CommitStage::AddPaths ==> command(run).len() == 2 + run.asked.len() && command(
            run,
        ).take(2) == seq!["add"@, "--"@] && command(run).skip(2) == run.asked,
        run.stage == CommitStage::Anchors || run.stage == CommitStage::SignOff || run.stage
            == CommitStage::Done || run.stage == CommitStage::Refused ==> command(run).len() == 0,
{
    if run.stage == CommitStage::AddPaths {
        assert(command(run).take(2) =~= seq!["add"@, "--"@]);
        assert(command(run).skip(2) =~= run.asked);
    }
}

/// The commit is made with the message of the request, signed where there is a
/// trailer, and the message ends in a line feed.
pub proof fn law_commits_carry_the_message(run: RunView)
    requires
        run.stage == CommitStage::Commit,
    ensures
        command(run).len() == 3,
        command(run)[0] == "commit"@ && command(run)[1] == "-m"@,
        command(run)[2] == text::join(
            git::message_lines(
                run.input.commit_type@,
                text::opt_text(run.input.scope),
                run.input.description@,
                text::texts(run.input.body@),
                run.input.closes@,
                run.input.refs@,
                run.trailer,
            ),
            seq!['\n'],
        ).push('\n'),
{
    let lines = git::message_lines(
        run.input.commit_type@,
        text::opt_text(run.input.scope),
        run.input.description@,
        text::texts(run.input.body@),
        run.input.closes@,
        run.input.refs@,
        run.trailer,
    );
    reveal_strlit("\n");
    assert("\n"@ =~= seq!['\n']);
    assert(text::join(lines, "\n"@) + "\n"@ =~= text::join(lines, seq!['\n']).push('\n'));
}

/// A commit of a snapshot takes the snapshot up into the working tree, and
/// what it holds is what was asked for.
pub proof fn law_snapshots_are_taken_up(run: RunView, said: Seq<char>, listed: Seq<char>)
    requires
        run.stage == CommitStage::ApplySnapshot,
        run.input.checkpoint is Some,
    ensures
        ({
            let s1 = next(run, ReplyView::Printed(said));
            let s2 = next(s1, ReplyView::Printed(listed));
            &&& command(run) == seq!["checkout"@, run.input.checkpoint->0@, "--"@, "."@]
            &&& command(s1) == seq![
                "stash"@,
                "show"@,
                "--name-only"@,
                "-z"@,
                run.input.checkpoint->0@,
            ]
            &&& s2.stage == CommitStage::ListStaged
            &&& s2.asked == paths_in(listed)
        }),
{
}

} // verus!
