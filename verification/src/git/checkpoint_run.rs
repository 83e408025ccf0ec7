//! Taking a checkpoint, one git command at a time.
//!
//! A checkpoint packs the index and the working tree into a stash commit and
//! leaves both as they are. Untracked files are staged for the snapshot and
//! taken out of the index again.

use crate::git;
use crate::git::commit_run;
use crate::git::commit_run::GitReply;
use crate::git::{
    branch_name, check_checkpoint_message, check_snapshot, checkpoint_report, listed_paths,
    selector, untracked_commands,
};
use crate::text;
use crate::text::owned;
use vstd::prelude::*;

verus! {

/// How far a checkpoint has come; each stage waits for one command.
#[derive(Clone, Copy, Debug, PartialEq, Eq, Structural)]
pub enum CheckpointStage {
    FindRoot,
    SymbolicHead,
    NamedHead,
    ListUntracked,
    AddUntracked,
    Create,
    Store,
    ResetUntracked,
    ListStash,
    Done,
    Refused,
}

/// A checkpoint under way.
#[derive(Debug)]
pub struct CheckpointRun {
    label: String,
    with_untracked: bool,
    stage: CheckpointStage,
    root: String,
    branch: String,
    untracked: Vec<String>,
    sha: String,
    told: String,
}

/// What a [`CheckpointRun`] stands for.
#[verifier::ext_equal]
pub struct CheckpointView {
    pub label: Seq<char>,
    /// Whether untracked files go in.
    pub with_untracked: bool,
    pub stage: CheckpointStage,
    /// The root of the repository.
    pub root: Seq<char>,
    /// The branch that is checked out.
    pub branch: Seq<char>,
    /// The untracked files.
    pub untracked: Seq<Seq<char>>,
    /// The name of the snapshot.
    pub sha: Seq<char>,
    /// The selector of the checkpoint, or why there is none.
    pub told: Seq<char>,
}

impl View for CheckpointRun {
    type V = CheckpointView;

    closed spec fn view(&self) -> CheckpointView {
        CheckpointView {
            label: self.label@,
            with_untracked: self.with_untracked,
            stage: self.stage,
            root: self.root@,
            branch: self.branch@,
            untracked: text::texts(self.untracked@),
            sha: self.sha@,
            told: self.told@,
        }
    }
}

/// The run before its first step.
pub open spec fn started(label: Seq<char>, with_untracked: bool) -> CheckpointView {
    CheckpointView {
        label,
        with_untracked,
        stage: CheckpointStage::FindRoot,
        root: Seq::empty(),
        branch: Seq::empty(),
        untracked: Seq::empty(),
        sha: Seq::empty(),
        told: Seq::empty(),
    }
}

/// The run after it was refused.
pub open spec fn refused(run: CheckpointView, why: Seq<char>) -> CheckpointView {
    CheckpointView { stage: CheckpointStage::Refused, told: why, ..run }
}

/// The run once the branch is known.
pub open spec fn on_branch(run: CheckpointView, branch: Seq<char>) -> CheckpointView {
    CheckpointView {
        branch,
        stage: if run.with_untracked {
            CheckpointStage::ListUntracked
        } else {
            CheckpointStage::Create
        },
        ..run
    }
}

/// The selector that a listing tells; the newest entry has a name of its own.
pub open spec fn selector_in(listed: Seq<char>) -> Seq<char> {
    if listed.len() > 0 {
        listed
    } else {
        "stash@{0}"@
    }
}

/// The run after a step.
pub open spec fn next(run: CheckpointView, reply: commit_run::ReplyView) -> CheckpointView {
    match (run.stage, reply) {
        (CheckpointStage::FindRoot, commit_run::ReplyView::Printed(s)) => CheckpointView {
            root: s,
            stage: CheckpointStage::SymbolicHead,
            ..run
        },
        (CheckpointStage::SymbolicHead, commit_run::ReplyView::Printed(s)) => if s.len() > 0 {
            on_branch(run, s)
        } else {
            CheckpointView { stage: CheckpointStage::NamedHead, ..run }
        },
        (CheckpointStage::SymbolicHead, commit_run::ReplyView::Failed(_)) => CheckpointView {
            stage: CheckpointStage::NamedHead,
            ..run
        },
        (CheckpointStage::NamedHead, commit_run::ReplyView::Printed(s)) => on_branch(run, s),
        (CheckpointStage::ListUntracked, commit_run::ReplyView::Printed(s)) => {
            let untracked = commit_run::paths_in(s);
            CheckpointView {
                untracked,
                stage: if untracked.len() > 0 {
                    CheckpointStage::AddUntracked
                } else {
                    CheckpointStage::Create
                },
                ..run
            }
        },
        (CheckpointStage::AddUntracked, commit_run::ReplyView::Printed(_)) => CheckpointView {
            stage: CheckpointStage::Create,
            ..run
        },
        (CheckpointStage::Create, commit_run::ReplyView::Printed(s)) => if s.len() == 0 {
            refused(
                run,
                "git_checkpoint: git stash create produced no commit (nothing to snapshot)"@,
            )
        } else {
            CheckpointView { sha: s, stage: CheckpointStage::Store, ..run }
        },
        (CheckpointStage::Store, commit_run::ReplyView::Printed(_)) => CheckpointView {
            stage: if run.untracked.len() > 0 {
                CheckpointStage::ResetUntracked
            } else {
                CheckpointStage::ListStash
            },
            ..run
        },
        (CheckpointStage::ResetUntracked, _) => CheckpointView {
            stage: CheckpointStage::ListStash,
            ..run
        },
        (CheckpointStage::ListStash, commit_run::ReplyView::Printed(s)) => CheckpointView {
            told: selector_in(s),
            stage: CheckpointStage::Done,
            ..run
        },
        (CheckpointStage::Done, _) => run,
        (CheckpointStage::Refused, _) => run,
        (_, commit_run::ReplyView::Failed(why)) => refused(run, why),
        _ => run,
    }
}

/// The git command of a stage.
pub open spec fn command(run: CheckpointView) -> Seq<Seq<char>> {
    match run.stage {
        CheckpointStage::FindRoot => seq!["rev-parse"@, "--show-toplevel"@],
        CheckpointStage::SymbolicHead => seq!["symbolic-ref"@, "--quiet"@, "--short"@, "HEAD"@],
        CheckpointStage::NamedHead => seq!["rev-parse"@, "--abbrev-ref"@, "HEAD"@],
        CheckpointStage::ListUntracked => seq![
            "ls-files"@,
            "--others"@,
            "--exclude-standard"@,
            "-z"@,
        ],
        CheckpointStage::AddUntracked => seq!["add"@, "--"@] + run.untracked,
        CheckpointStage::Create => seq!["stash"@, "create"@, run.label],
        CheckpointStage::Store => seq!["stash"@, "store"@, "-m"@, run.label, run.sha],
        CheckpointStage::ResetUntracked => seq!["reset"@, "-q"@, "--"@] + run.untracked,
        CheckpointStage::ListStash => seq!["stash"@, "list"@, "-1"@, "--format=%gd"@],
        _ => Seq::empty(),
    }
}

/// Whether a run that stages untracked files knows any.
pub open spec fn is_coherent(run: CheckpointView) -> bool {
    run.stage == CheckpointStage::AddUntracked || run.stage == CheckpointStage::ResetUntracked
        ==> run.untracked.len() > 0
}

impl CheckpointRun {
    /// Starts a checkpoint; a blank label is refused at once.
    pub fn start(label: String, with_untracked: bool) -> (r: Result<CheckpointRun, String>)
        ensures
            text::trim(label@).len() > 0 ==> r is Ok && r->Ok_0@ == started(label@, with_untracked),
            text::trim(label@).len() == 0 ==> r is Err && r->Err_0@
                == "git_checkpoint: message must be a non-empty string"@,
    {
        match check_checkpoint_message(label.as_str()) {
            Err(why) => Err(why),
            Ok(_) => {
                let run = CheckpointRun {
                    label,
                    with_untracked,
                    stage: CheckpointStage::FindRoot,
                    root: String::new(),
                    branch: String::new(),
                    untracked: Vec::new(),
                    sha: String::new(),
                    told: String::new(),
                };
                assert(run@ =~= started(label@, with_untracked));
                Ok(run)
            },
        }
    }

    /// How far the checkpoint has come.
    pub fn stage(&self) -> (r: CheckpointStage)
        ensures
            r == self@.stage,
    {
        self.stage
    }

    /// The root of the repository.
    pub fn root(&self) -> (r: &str)
        ensures
            r@ == self@.root,
    {
        self.root.as_str()
    }

    /// The branch that is checked out.
    pub fn branch(&self) -> (r: &str)
        ensures
            r@ == self@.branch,
    {
        self.branch.as_str()
    }

    /// The name of the snapshot.
    pub fn sha(&self) -> (r: &str)
        ensures
            r@ == self@.sha,
    {
        self.sha.as_str()
    }

    /// The selector of the checkpoint, or why there is none.
    pub fn told(&self) -> (r: &str)
        ensures
            r@ == self@.told,
    {
        self.told.as_str()
    }

    /// What is told of the checkpoint.
    pub fn report(&self) -> (r: String)
        ensures
            r@ == "Checkpoint "@ + self@.told + " ("@ + git::short_name(self@.sha) + ") on "@
                + self@.branch + "\n"@ + self@.label,
    {
        checkpoint_report(
            self.told.as_str(),
            self.sha.as_str(),
            self.branch.as_str(),
            self.label.as_str(),
        )
    }

    /// The git command of the stage.
    pub fn command(&self) -> (r: Vec<String>)
        requires
            is_coherent(self@),
        ensures
            text::texts(r@) == command(self@),
    {
        let mut r: Vec<String> = Vec::new();
        match self.stage {
            CheckpointStage::FindRoot => {
                r.push(owned("rev-parse"));
                r.push(owned("--show-toplevel"));
            },
            CheckpointStage::SymbolicHead => {
                r.push(owned("symbolic-ref"));
                r.push(owned("--quiet"));
                r.push(owned("--short"));
                r.push(owned("HEAD"));
            },
            CheckpointStage::NamedHead => {
                r.push(owned("rev-parse"));
                r.push(owned("--abbrev-ref"));
                r.push(owned("HEAD"));
            },
            CheckpointStage::ListUntracked => {
                r.push(owned("ls-files"));
                r.push(owned("--others"));
                r.push(owned("--exclude-standard"));
                r.push(owned("-z"));
            },
            CheckpointStage::AddUntracked => {
                if let Some((add, _)) = untracked_commands(&self.untracked) {
                    r = add;
                }
            },
            CheckpointStage::Create => {
                r.push(owned("stash"));
                r.push(owned("create"));
                r.push(owned(self.label.as_str()));
            },
            CheckpointStage::Store => {
                r.push(owned("stash"));
                r.push(owned("store"));
                r.push(owned("-m"));
                r.push(owned(self.label.as_str()));
                r.push(owned(self.sha.as_str()));
            },
            CheckpointStage::ResetUntracked => {
                if let Some((_, reset)) = untracked_commands(&self.untracked) {
                    r = reset;
                }
            },
            CheckpointStage::ListStash => {
                r.push(owned("stash"));
                r.push(owned("list"));
                r.push(owned("-1"));
                r.push(owned("--format=%gd"));
            },
            _ => {},
        }
        assert(text::texts(r@) =~= command(self@));
        r
    }

    fn refuse(&mut self, why: String)
        ensures
            final(self)@ == refused(old(self)@, why@),
    {
        self.stage = CheckpointStage::Refused;
        self.told = why;
    }

    fn take_branch(&mut self, branch: String)
        ensures
            final(self)@ == on_branch(old(self)@, branch@),
    {
        self.branch = branch;
        self.stage = if self.with_untracked {
            CheckpointStage::ListUntracked
        } else {
            CheckpointStage::Create
        };
    }

    /// Takes what came of the command of the stage.
    pub fn advance(&mut self, reply: GitReply)
        requires
            is_coherent(old(self)@),
        ensures
            final(self)@ == next(old(self)@, reply@),
            is_coherent(final(self)@),
    {
        match (self.stage, reply) {
            (CheckpointStage::FindRoot, GitReply::Printed(s)) => {
                self.root = s;
                self.stage = CheckpointStage::SymbolicHead;
            },
            (CheckpointStage::SymbolicHead, GitReply::Printed(s)) => {
                match branch_name(Some(s.as_str())) {
                    Some(branch) => self.take_branch(branch),
                    None => {
                        self.stage = CheckpointStage::NamedHead;
                    },
                }
            },
            (CheckpointStage::SymbolicHead, GitReply::Failed(_)) => {
                self.stage = CheckpointStage::NamedHead;
            },
            (CheckpointStage::NamedHead, GitReply::Printed(s)) => {
                self.take_branch(s);
            },
            (CheckpointStage::ListUntracked, GitReply::Printed(s)) => {
                self.untracked = listed_paths(s.as_str());
                assert(text::texts(self.untracked@).len() == self.untracked@.len());
                self.stage = if self.untracked.len() > 0 {
                    CheckpointStage::AddUntracked
                } else {
                    CheckpointStage::Create
                };
            },
            (CheckpointStage::AddUntracked, GitReply::Printed(_)) => {
                self.stage = CheckpointStage::Create;
            },
            (CheckpointStage::Create, GitReply::Printed(s)) => {
                match check_snapshot(s.as_str()) {
                    Err(why) => self.refuse(why),
                    Ok(_) => {
                        self.sha = s;
                        self.stage = CheckpointStage::Store;
                    },
                }
            },
            (CheckpointStage::Store, GitReply::Printed(_)) => {
                self.stage = if self.untracked.len() > 0 {
                    CheckpointStage::ResetUntracked
                } else {
                    CheckpointStage::ListStash
                };
            },
            (CheckpointStage::ResetUntracked, _) => {
                self.stage = CheckpointStage::ListStash;
            },
            (CheckpointStage::ListStash, GitReply::Printed(s)) => {
                self.told = selector(s.as_str());
                self.stage = CheckpointStage::Done;
            },
            (CheckpointStage::Done, _) => {},
            (CheckpointStage::Refused, _) => {},
            (_, GitReply::Failed(why)) => {
                self.refuse(why);
            },
            _ => {},
        }
    }
}

/// Whether a run has something to show for itself: a checkpoint that is done
/// or stored has a label and a snapshot.
pub open spec fn is_sound(run: CheckpointView) -> bool {
    &&& text::trim(run.label).len() > 0
    &&& (run.stage == CheckpointStage::Store || run.stage == CheckpointStage::ResetUntracked
        || run.stage == CheckpointStage::ListStash || run.stage == CheckpointStage::Done)
        ==> run.sha.len() > 0
    &&& !run.with_untracked ==> run.untracked.len() == 0
    &&& run.stage == CheckpointStage::ListUntracked ==> run.with_untracked
}

/// A checkpoint is only stored where a snapshot was made, and untracked files
/// are only touched where they were asked for.
pub proof fn law_checkpoints_hold_a_snapshot(
    run: CheckpointView,
    reply: commit_run::ReplyView,
)
    requires
        is_sound(run),
    ensures
        is_sound(next(run, reply)),
{
}

/// Untracked files that were staged for a snapshot are taken out of the index
/// again, exactly those, once the snapshot is stored.
pub proof fn law_untracked_files_are_taken_back(run: CheckpointView, printed: Seq<char>)
    requires
        run.stage == CheckpointStage::Store,
        run.untracked.len() > 0,
    ensures
        command(next(run, commit_run::ReplyView::Printed(printed))) == seq![
            "reset"@,
            "-q"@,
            "--"@,
        ] + run.untracked,
{
}

/// Whether a command only reads, or writes to the index and to the stash: the
/// files of the working tree stay as they are.
pub open spec fn leaves_files(command: Seq<Seq<char>>) -> bool {
    ||| command.len() == 0
    ||| command[0] == "rev-parse"@
    ||| command[0] == "symbolic-ref"@
    ||| command[0] == "ls-files"@
    ||| command.len() > 1 && command[0] == "add"@ && command[1] == "--"@
    ||| command.len() > 1 && command[0] == "stash"@ && (command[1] == "create"@ || command[1]
        == "store"@ || command[1] == "list"@)
    ||| command.len() > 2 && command[0] == "reset"@ && command[1] == "-q"@ && command[2] == "--"@
}

/// A checkpoint is taken without clearing the working tree.
pub proof fn law_checkpoints_leave_files(run: CheckpointView)
    ensures
        leaves_files(command(run)),
{
}

/// A checkpoint keeps its label and whether untracked files go along, and each
/// reply tells one thing: the root, the branch, the untracked files, the
/// snapshot. No other reply changes them.
pub proof fn law_each_reply_tells_one_thing(run: CheckpointView, reply: commit_run::ReplyView)
    ensures
        ({
            let after = next(run, reply);
            &&& after.label == run.label && after.with_untracked == run.with_untracked
            &&& after.root != run.root ==> run.stage == CheckpointStage::FindRoot
            &&& after.branch != run.branch ==> run.stage == CheckpointStage::SymbolicHead
                || run.stage == CheckpointStage::NamedHead
            &&& after.untracked != run.untracked ==> run.stage == CheckpointStage::ListUntracked
            &&& after.sha != run.sha ==> run.stage == CheckpointStage::Create
            &&& after.told != run.told ==> after.stage == CheckpointStage::Refused || after.stage
                == CheckpointStage::Done
        }),
{
}

/// A failed command refuses the checkpoint and tells why, but for the question
/// for the branch, which has another to fall back on, and for taking untracked
/// files back, which ends nothing.
pub proof fn law_failed_commands_refuse(run: CheckpointView, why: Seq<char>)
    requires
        run.stage != CheckpointStage::Done,
        run.stage != CheckpointStage::Refused,
    ensures
        ({
            let after = next(run, commit_run::ReplyView::Failed(why));
            if run.stage == CheckpointStage::SymbolicHead {
                after == (CheckpointView { stage: CheckpointStage::NamedHead, ..run })
            } else if run.stage == CheckpointStage::ResetUntracked {
                after == (CheckpointView { stage: CheckpointStage::ListStash, ..run })
            } else {
                after == (CheckpointView { stage: CheckpointStage::Refused, told: why, ..run })
            }
        }),
{
}

/// What a checkpoint learns from what a command printed, and what it does
/// next. Untracked files are listed where they are to go along, and staged
/// where there are any; a snapshot of nothing is refused; a snapshot is stored,
/// and named as the list names it.
pub proof fn law_checkpoints_go_in_order(run: CheckpointView, printed: Seq<char>)
    ensures
        ({
            let after = next(run, commit_run::ReplyView::Printed(printed));
            let on = if run.with_untracked {
                CheckpointStage::ListUntracked
            } else {
                CheckpointStage::Create
            };
            &&& run.stage == CheckpointStage::FindRoot ==> after.root == printed && after.stage
                == CheckpointStage::SymbolicHead
            &&& run.stage == CheckpointStage::SymbolicHead && printed.len() > 0 ==> after.branch
                == printed && after.stage == on
            &&& run.stage == CheckpointStage::SymbolicHead && printed.len() == 0 ==> after.stage
                == CheckpointStage::NamedHead
            &&& run.stage == CheckpointStage::NamedHead ==> after.branch == printed && after.stage
                == on
            &&& run.stage == CheckpointStage::ListUntracked ==> after.untracked
                == commit_run::paths_in(printed) && after.stage == if commit_run::paths_in(
                printed,
            ).len() > 0 {
                CheckpointStage::AddUntracked
            } else {
                CheckpointStage::Create
            }
            &&& run.stage == CheckpointStage::AddUntracked ==> after.stage
                == CheckpointStage::Create
            &&& run.stage == CheckpointStage::Create && printed.len() == 0 ==> after.stage
                == CheckpointStage::Refused
            &&& run.stage == CheckpointStage::Create && printed.len() > 0 ==> after.sha == printed
                && after.stage == CheckpointStage::Store
            &&& run.stage == CheckpointStage::Store ==> after.stage == if run.untracked.len() > 0 {
                CheckpointStage::ResetUntracked
            } else {
                CheckpointStage::ListStash
            }
            &&& run.stage == CheckpointStage::ListStash ==> after.stage == CheckpointStage::Done
            &&& run.stage == CheckpointStage::ListStash && printed.len() > 0 ==> after.told
                == printed
            &&& run.stage == CheckpointStage::ListStash && printed.len() == 0 ==> after.told
                == "stash@{0}"@
        }),
{
}

/// The snapshot is made and stored under the label, and what is stored is the
/// snapshot that was made; the untracked files that are staged are those that
/// are taken back.
pub proof fn law_snapshots_are_stored_under_the_label(run: CheckpointView)
    ensures
        run.stage == CheckpointStage::Create ==> command(run) == seq![
            "stash"@,
            "create"@,
            run.label,
        ],
        run.stage == CheckpointStage::Store ==> command(run) == seq![
            "stash"@,
            "store"@,
            "-m"@,
            run.label,
            run.sha,
        ],
        run.stage == CheckpointStage::AddUntracked ==> command(run).len() == 2
            + run.untracked.len() && command(run).take(2) == seq!["add"@, "--"@] && command(
            run,
        ).skip(2) == run.untracked,
        run.stage == CheckpointStage::ResetUntracked ==> command(run).len() == 3
            + run.untracked.len() && command(run).skip(3) == run.untracked,
        run.stage == CheckpointStage::ListUntracked ==> command(run) == seq![
            "ls-files"@,
            "--others"@,
            "--exclude-standard"@,
            "-z"@,
        ],
        run.stage == CheckpointStage::ListStash ==> command(run) == seq![
            "stash"@,
            "list"@,
            "-1"@,
            "--format=%gd"@,
        ],
        run.stage == CheckpointStage::FindRoot ==> command(run) == seq![
            "rev-parse"@,
            "--show-toplevel"@,
        ],
        run.stage == CheckpointStage::SymbolicHead ==> command(run) == seq![
            "symbolic-ref"@,
            "--quiet"@,
            "--short"@,
            "HEAD"@,
        ],
        run.stage == CheckpointStage::NamedHead ==> command(run) == seq![
            "rev-parse"@,
            "--abbrev-ref"@,
            "HEAD"@,
        ],
{
    if run.stage == CheckpointStage::AddUntracked {
        assert(command(run).take(2) =~= seq!["add"@, "--"@]);
        assert(command(run).skip(2) =~= run.untracked);
    }
    if run.stage == CheckpointStage::ResetUntracked {
        assert(command(run).skip(3) =~= run.untracked);
    }
}

} // verus!
