//! Carrying out a hunk, one file operation at a time.
//!
//! [`first_stage`] and [`next_stage`] decide; whoever carries out the
//! operation of a stage hands back what came of it.

use crate::apply_patch::edit;
use crate::apply_patch::edit::apply_update_chunks;
use crate::apply_patch::hunk;
use crate::apply_patch::hunk::{HunkView, PatchHunk};
use crate::apply_patch::report;
use crate::apply_patch::report::{HunkOutcome, OutcomeView};
use crate::text;
use vstd::prelude::*;

verus! {

/// How far a hunk has been carried out; each stage waits for one operation.
#[derive(Debug)]
pub enum Stage {
    /// The directory of the new file is to be made.
    AddParent,
    /// The new file's place is to be looked at.
    AddProbe,
    /// The new file is to be written.
    AddWrite { existed: bool, old: Option<String> },
    /// Whether the path is protected is to be found out.
    AskProtected,
    /// The file that goes is to be looked at.
    DeleteProbe,
    /// The file is to be removed.
    DeleteRemove { old: Option<String> },
    /// The file that changes is to be read.
    UpdateRead,
    /// The changed file is to be written.
    UpdateWrite { old: String, new: String },
    /// The directory of the destination is to be made.
    MoveParent { old: String, new: String },
    /// The destination is to be looked at.
    MoveProbe { old: String, new: String },
    /// The destination is to be written.
    MoveWrite { old: String, new: String, dest_existed: bool, dest_old: Option<String> },
    /// The source is to be removed.
    MoveRemove { old: String, new: String, dest_existed: bool, dest_old: Option<String> },
    /// The hunk is carried out.
    Done(HunkOutcome),
    /// The whole patch stops here.
    Stopped(String),
}

/// What a [`Stage`] stands for.
#[verifier::ext_equal]
pub enum StageView {
    AddParent,
    AddProbe,
    AddWrite { existed: bool, old: Option<Seq<char>> },
    AskProtected,
    DeleteProbe,
    DeleteRemove { old: Option<Seq<char>> },
    UpdateRead,
    UpdateWrite { old: Seq<char>, new: Seq<char> },
    MoveParent { old: Seq<char>, new: Seq<char> },
    MoveProbe { old: Seq<char>, new: Seq<char> },
    MoveWrite { old: Seq<char>, new: Seq<char>, dest_existed: bool, dest_old: Option<Seq<char>> },
    MoveRemove { old: Seq<char>, new: Seq<char>, dest_existed: bool, dest_old: Option<Seq<char>> },
    Done(OutcomeView),
    Stopped(Seq<char>),
}

impl View for Stage {
    type V = StageView;

    open spec fn view(&self) -> StageView {
        match *self {
            Stage::AddParent => StageView::AddParent,
            Stage::AddProbe => StageView::AddProbe,
            Stage::AddWrite { existed, old } => StageView::AddWrite {
                existed,
                old: text::opt_text(old),
            },
            Stage::AskProtected => StageView::AskProtected,
            Stage::DeleteProbe => StageView::DeleteProbe,
            Stage::DeleteRemove { old } => StageView::DeleteRemove { old: text::opt_text(old) },
            Stage::UpdateRead => StageView::UpdateRead,
            Stage::UpdateWrite { old, new } => StageView::UpdateWrite { old: old@, new: new@ },
            Stage::MoveParent { old, new } => StageView::MoveParent { old: old@, new: new@ },
            Stage::MoveProbe { old, new } => StageView::MoveProbe { old: old@, new: new@ },
            Stage::MoveWrite { old, new, dest_existed, dest_old } => StageView::MoveWrite {
                old: old@,
                new: new@,
                dest_existed,
                dest_old: text::opt_text(dest_old),
            },
            Stage::MoveRemove { old, new, dest_existed, dest_old } => StageView::MoveRemove {
                old: old@,
                new: new@,
                dest_existed,
                dest_old: text::opt_text(dest_old),
            },
            Stage::Done(outcome) => StageView::Done(outcome@),
            Stage::Stopped(error) => StageView::Stopped(error@),
        }
    }
}

/// What came of an operation.
#[derive(Debug)]
pub enum StepEvent {
    /// It was done.
    Done,
    /// It could not be done.
    Failed(String),
    /// What stands at a place: whether anything does, and its text, where it
    /// can be read as text.
    Probed { existed: bool, old: Option<String> },
    /// The text of a file.
    Content(String),
    /// Whether the path is protected.
    Protected(bool),
}

/// What a [`StepEvent`] stands for.
#[verifier::ext_equal]
pub enum EventView {
    Done,
    Failed(Seq<char>),
    Probed { existed: bool, old: Option<Seq<char>> },
    Content(Seq<char>),
    Protected(bool),
}

impl View for StepEvent {
    type V = EventView;

    open spec fn view(&self) -> EventView {
        match *self {
            StepEvent::Done => EventView::Done,
            StepEvent::Failed(error) => EventView::Failed(error@),
            StepEvent::Probed { existed, old } => EventView::Probed {
                existed,
                old: text::opt_text(old),
            },
            StepEvent::Content(s) => EventView::Content(s@),
            StepEvent::Protected(b) => EventView::Protected(b),
        }
    }
}

/// Which file an operation is about.
#[derive(Clone, Copy, Debug, PartialEq, Eq, Structural)]
pub enum Place {
    Source,
    Destination,
}

/// The operation that a stage waits for.
#[derive(Clone, Copy, Debug, PartialEq, Eq, Structural)]
pub enum FileAction {
    MakeParent(Place),
    Probe(Place),
    AskProtected,
    Read,
    Write(Place),
    Remove,
    Nothing,
}

/// The operation that a stage waits for.
pub open spec fn action(stage: StageView) -> FileAction {
    match stage {
        StageView::AddParent => FileAction::MakeParent(Place::Source),
        StageView::AddProbe => FileAction::Probe(Place::Source),
        StageView::AddWrite { .. } => FileAction::Write(Place::Source),
        StageView::AskProtected => FileAction::AskProtected,
        StageView::DeleteProbe => FileAction::Probe(Place::Source),
        StageView::DeleteRemove { .. } => FileAction::Remove,
        StageView::UpdateRead => FileAction::Read,
        StageView::UpdateWrite { .. } => FileAction::Write(Place::Source),
        StageView::MoveParent { .. } => FileAction::MakeParent(Place::Destination),
        StageView::MoveProbe { .. } => FileAction::Probe(Place::Destination),
        StageView::MoveWrite { .. } => FileAction::Write(Place::Destination),
        StageView::MoveRemove { .. } => FileAction::Remove,
        StageView::Done(_) => FileAction::Nothing,
        StageView::Stopped(_) => FileAction::Nothing,
    }
}

/// Whether an event answers an operation.
pub open spec fn answers(a: FileAction, event: EventView) -> bool {
    match a {
        FileAction::MakeParent(_) => event is Done || event is Failed,
        FileAction::Probe(_) => event is Probed,
        FileAction::AskProtected => event is Protected,
        FileAction::Read => event is Content || event is Failed,
        FileAction::Write(_) => event is Done || event is Failed,
        FileAction::Remove => event is Done || event is Failed,
        FileAction::Nothing => false,
    }
}

/// The stage at which a hunk starts.
pub open spec fn first(h: HunkView) -> StageView {
    match h {
        HunkView::Add { .. } => StageView::AddParent,
        HunkView::Delete { .. } => StageView::AskProtected,
        HunkView::Update { .. } => StageView::UpdateRead,
    }
}

/// Whether a stage is one of a hunk of that kind.
pub open spec fn belongs(h: HunkView, stage: StageView) -> bool {
    match stage {
        StageView::AddParent => h is Add,
        StageView::AddProbe => h is Add,
        StageView::AddWrite { .. } => h is Add,
        StageView::AskProtected => h is Delete,
        StageView::DeleteProbe => h is Delete,
        StageView::DeleteRemove { .. } => h is Delete,
        StageView::UpdateRead => h is Update,
        StageView::UpdateWrite { .. } => h matches HunkView::Update { move_to: None, .. },
        StageView::MoveParent { .. } => h matches HunkView::Update { move_to: Some(_), .. },
        StageView::MoveProbe { .. } => h matches HunkView::Update { move_to: Some(_), .. },
        StageView::MoveWrite { .. } => h matches HunkView::Update { move_to: Some(_), .. },
        StageView::MoveRemove { .. } => h matches HunkView::Update { move_to: Some(_), .. },
        StageView::Done(outcome) => report::fits(h, outcome),
        StageView::Stopped(_) => true,
    }
}

/// The stage after a file was read that is to change: chunks that cannot be
/// placed fail the hunk.
pub open spec fn after_read(h: HunkView, place: Seq<char>, content: Seq<char>) -> StageView {
    match h {
        HunkView::Update { move_to, chunks, .. } => match edit::updated(content, chunks) {
            Err(e) => StageView::Done(
                OutcomeView::UpdateFailed { message: edit::update_message(place, e) },
            ),
            Ok(new) => match move_to {
                None => StageView::UpdateWrite { old: content, new },
                Some(_) => StageView::MoveParent { old: content, new },
            },
        },
        _ => StageView::UpdateRead,
    }
}

/// The stage behind a stage, out of what came of its operation. `place` is
/// where the file of the hunk is.
pub open spec fn next(h: HunkView, stage: StageView, event: EventView, place: Seq<char>) -> StageView {
    match (stage, event) {
        (StageView::AddParent, EventView::Done) => StageView::AddProbe,
        (StageView::AddProbe, EventView::Probed { existed, old }) => StageView::AddWrite {
            existed,
            old,
        },
        (StageView::AddWrite { existed, old }, EventView::Done) => StageView::Done(
            OutcomeView::Created { existed, old },
        ),
        (StageView::AskProtected, EventView::Protected(b)) => if b {
            StageView::Done(OutcomeView::Refused)
        } else {
            StageView::DeleteProbe
        },
        (StageView::DeleteProbe, EventView::Probed { old, .. }) => StageView::DeleteRemove { old },
        (StageView::DeleteRemove { old }, EventView::Done) => StageView::Done(
            OutcomeView::Deleted { old },
        ),
        (StageView::DeleteRemove { .. }, EventView::Failed(_)) => StageView::Done(
            OutcomeView::DeleteFailed,
        ),
        (StageView::UpdateRead, EventView::Content(content)) => after_read(h, place, content),
        (StageView::UpdateRead, EventView::Failed(message)) => StageView::Done(
            OutcomeView::UpdateFailed { message },
        ),
        (StageView::UpdateWrite { old, new }, EventView::Done) => StageView::Done(
            OutcomeView::Written { old, new },
        ),
        (StageView::MoveParent { old, new }, EventView::Done) => StageView::MoveProbe { old, new },
        (
            StageView::MoveProbe { old, new },
            EventView::Probed { existed, old: dest_old },
        ) => StageView::MoveWrite { old, new, dest_existed: existed, dest_old },
        (
            StageView::MoveWrite { old, new, dest_existed, dest_old },
            EventView::Done,
        ) => StageView::MoveRemove { old, new, dest_existed, dest_old },
        (
            StageView::MoveRemove { old, new, dest_existed, dest_old },
            EventView::Done,
        ) => StageView::Done(OutcomeView::Moved { old, new, dest_existed, dest_old }),
        (
            StageView::MoveRemove { old, new, dest_existed, dest_old },
            EventView::Failed(_),
        ) => StageView::Done(OutcomeView::LeftOriginal { old, new, dest_existed, dest_old }),
        (_, EventView::Failed(error)) => StageView::Stopped(error),
        _ => stage,
    }
}

/// The text that a stage writes.
pub open spec fn text_to_write(h: HunkView, stage: StageView) -> Seq<char> {
    match (h, stage) {
        (HunkView::Add { contents, .. }, StageView::AddWrite { .. }) => contents,
        (_, StageView::UpdateWrite { new, .. }) => new,
        (_, StageView::MoveWrite { new, .. }) => new,
        _ => Seq::empty(),
    }
}

/// The stage at which a hunk starts.
pub fn first_stage(h: &PatchHunk) -> (r: Stage)
    ensures
        r@ == first(h@),
        belongs(h@, r@),
{
    match h {
        PatchHunk::AddFile { .. } => Stage::AddParent,
        PatchHunk::DeleteFile { .. } => Stage::AskProtected,
        PatchHunk::UpdateFile { .. } => Stage::UpdateRead,
    }
}

/// The operation that a stage waits for.
pub fn action_of(stage: &Stage) -> (r: FileAction)
    ensures
        r == action(stage@),
{
    match stage {
        Stage::AddParent => FileAction::MakeParent(Place::Source),
        Stage::AddProbe => FileAction::Probe(Place::Source),
        Stage::AddWrite { .. } => FileAction::Write(Place::Source),
        Stage::AskProtected => FileAction::AskProtected,
        Stage::DeleteProbe => FileAction::Probe(Place::Source),
        Stage::DeleteRemove { .. } => FileAction::Remove,
        Stage::UpdateRead => FileAction::Read,
        Stage::UpdateWrite { .. } => FileAction::Write(Place::Source),
        Stage::MoveParent { .. } => FileAction::MakeParent(Place::Destination),
        Stage::MoveProbe { .. } => FileAction::Probe(Place::Destination),
        Stage::MoveWrite { .. } => FileAction::Write(Place::Destination),
        Stage::MoveRemove { .. } => FileAction::Remove,
        Stage::Done(_) => FileAction::Nothing,
        Stage::Stopped(_) => FileAction::Nothing,
    }
}

/// The text that a stage writes.
pub fn stage_text<'a>(h: &'a PatchHunk, stage: &'a Stage) -> (r: &'a str)
    ensures
        r@ == text_to_write(h@, stage@),
{
    proof {
        reveal_strlit("");
        assert(""@ =~= Seq::<char>::empty());
    }
    match stage {
        Stage::AddWrite { .. } => match h {
            PatchHunk::AddFile { contents, .. } => contents.as_str(),
            _ => "",
        },
        Stage::UpdateWrite { new, .. } => new.as_str(),
        Stage::MoveWrite { new, .. } => new.as_str(),
        _ => "",
    }
}

fn stage_after_read(h: &PatchHunk, place: &str, content: String) -> (r: Stage)
    requires
        h@ is Update,
    ensures
        r@ == after_read(h@, place@, content@),
{
    match h {
        PatchHunk::UpdateFile { move_to, chunks, .. } => {
            let changed = apply_update_chunks(place, content.as_str(), chunks.as_slice());
            match changed {
                Err(e) => Stage::Done(HunkOutcome::UpdateFailed { message: e.message() }),
                Ok((old, new)) => match move_to {
                    None => Stage::UpdateWrite { old, new },
                    Some(_) => Stage::MoveParent { old, new },
                },
            }
        },
        _ => Stage::UpdateRead,
    }
}

/// The stage behind a stage, out of what came of its operation.
pub fn next_stage(h: &PatchHunk, stage: Stage, event: StepEvent, place: &str) -> (r: Stage)
    requires
        belongs(h@, stage@),
        answers(action(stage@), event@),
    ensures
        r@ == next(h@, stage@, event@, place@),
        belongs(h@, r@),
        r matches Stage::Done(outcome) ==> report::fits(h@, outcome@),
{
    match (stage, event) {
        (Stage::AddParent, StepEvent::Done) => Stage::AddProbe,
        (Stage::AddProbe, StepEvent::Probed { existed, old }) => Stage::AddWrite { existed, old },
        (Stage::AddWrite { existed, old }, StepEvent::Done) => Stage::Done(
            HunkOutcome::Created { existed, old },
        ),
        (Stage::AskProtected, StepEvent::Protected(b)) => if b {
            Stage::Done(HunkOutcome::Refused)
        } else {
            Stage::DeleteProbe
        },
        (Stage::DeleteProbe, StepEvent::Probed { old, .. }) => Stage::DeleteRemove { old },
        (Stage::DeleteRemove { old }, StepEvent::Done) => Stage::Done(HunkOutcome::Deleted { old }),
        (Stage::DeleteRemove { .. }, StepEvent::Failed(_)) => Stage::Done(
            HunkOutcome::DeleteFailed,
        ),
        (Stage::UpdateRead, StepEvent::Content(content)) => stage_after_read(h, place, content),
        (Stage::UpdateRead, StepEvent::Failed(message)) => Stage::Done(
            HunkOutcome::UpdateFailed { message },
        ),
        (Stage::UpdateWrite { old, new }, StepEvent::Done) => Stage::Done(
            HunkOutcome::Written { old, new },
        ),
        (Stage::MoveParent { old, new }, StepEvent::Done) => Stage::MoveProbe { old, new },
        (
            Stage::MoveProbe { old, new },
            StepEvent::Probed { existed, old: dest_old },
        ) => Stage::MoveWrite { old, new, dest_existed: existed, dest_old },
        (
            Stage::MoveWrite { old, new, dest_existed, dest_old },
            StepEvent::Done,
        ) => Stage::MoveRemove { old, new, dest_existed, dest_old },
        (Stage::MoveRemove { old, new, dest_existed, dest_old }, StepEvent::Done) => Stage::Done(
            HunkOutcome::Moved { old, new, dest_existed, dest_old },
        ),
        (
            Stage::MoveRemove { old, new, dest_existed, dest_old },
            StepEvent::Failed(_),
        ) => Stage::Done(HunkOutcome::LeftOriginal { old, new, dest_existed, dest_old }),
        (_, StepEvent::Failed(error)) => Stage::Stopped(error),
        (stage, _) => stage,
    }
}

// ---------------------------------------------------------------------------
// What a hunk does to files
// ---------------------------------------------------------------------------

/// What an operation does where nothing fails: the files after it, and what
/// comes of it. A file is its text; `from` and `to` are where the files of the
/// hunk are.
pub open spec fn performed(
    files: Map<Seq<char>, Seq<char>>,
    h: HunkView,
    stage: StageView,
    from: Seq<char>,
    to: Seq<char>,
    protected: bool,
) -> (Map<Seq<char>, Seq<char>>, EventView) {
    match action(stage) {
        FileAction::MakeParent(_) => (files, EventView::Done),
        FileAction::Probe(place) => {
            let path = if place == Place::Source {
                from
            } else {
                to
            };
            let there = files.dom().contains(path);
            (
                files,
                EventView::Probed {
                    existed: there,
                    old: if there {
                        Some(files[path])
                    } else {
                        None
                    },
                },
            )
        },
        FileAction::AskProtected => (files, EventView::Protected(protected)),
        FileAction::Read => (
            files,
            if files.dom().contains(from) {
                EventView::Content(files[from])
            } else {
                EventView::Failed(Seq::empty())
            },
        ),
        FileAction::Write(place) => (
            files.insert(
                if place == Place::Source {
                    from
                } else {
                    to
                },
                text_to_write(h, stage),
            ),
            EventView::Done,
        ),
        FileAction::Remove => (
            files.remove(from),
            if files.dom().contains(from) {
                EventView::Done
            } else {
                EventView::Failed(Seq::empty())
            },
        ),
        FileAction::Nothing => (files, EventView::Done),
    }
}

/// The files after a hunk was carried out from a stage on, with at most `fuel`
/// operations, and the stage that was reached.
pub open spec fn carried_out(
    files: Map<Seq<char>, Seq<char>>,
    h: HunkView,
    stage: StageView,
    from: Seq<char>,
    to: Seq<char>,
    protected: bool,
    fuel: nat,
) -> (Map<Seq<char>, Seq<char>>, StageView)
    decreases fuel,
{
    if fuel == 0 || action(stage) == FileAction::Nothing {
        (files, stage)
    } else {
        let (after, event) = performed(files, h, stage, from, to, protected);
        carried_out(
            after,
            h,
            next(h, stage, event, from),
            from,
            to,
            protected,
            (fuel - 1) as nat,
        )
    }
}

/// How many operations a hunk takes at most.
pub open spec fn most_operations() -> nat {
    5
}

/// What a hunk says that it does to files.
pub open spec fn effect(
    files: Map<Seq<char>, Seq<char>>,
    h: HunkView,
    from: Seq<char>,
    to: Seq<char>,
    protected: bool,
) -> Map<Seq<char>, Seq<char>> {
    match h {
        HunkView::Add { contents, .. } => files.insert(from, contents),
        HunkView::Delete { .. } => if protected {
            files
        } else {
            files.remove(from)
        },
        HunkView::Update { move_to, chunks, .. } => if !files.dom().contains(from) {
            files
        } else {
            match edit::updated(files[from], chunks) {
                Err(_) => files,
                Ok(new) => match move_to {
                    None => files.insert(from, new),
                    Some(_) => files.insert(to, new).remove(from),
                },
            }
        },
    }
}

/// Where operations fail only for missing files, a hunk does what it says: one that adds
/// leaves its text, one that deletes leaves nothing at its path unless the path
/// is protected, one that updates leaves the changed text in place or at the
/// destination, and one that has no file to update, or whose chunks cannot be
/// placed, leaves the files as they were.
pub proof fn law_hunks_do_what_they_say(
    files: Map<Seq<char>, Seq<char>>,
    h: HunkView,
    from: Seq<char>,
    to: Seq<char>,
    protected: bool,
)
    ensures
        ({
            let (after, stage) = carried_out(
                files,
                h,
                first(h),
                from,
                to,
                protected,
                most_operations(),
            );
            &&& stage is Done
            &&& report::fits(h, stage->Done_0)
            &&& after == effect(files, h, from, to, protected)
        }),
{
    reveal_with_fuel(carried_out, 6);
    let start = first(h);
    let (after1, event1) = performed(files, h, start, from, to, protected);
    let stage1 = next(h, start, event1, from);
    let all = carried_out(files, h, start, from, to, protected, most_operations());
    assert(all == carried_out(after1, h, stage1, from, to, protected, 4));
    match h {
        HunkView::Add { .. } => {},
        HunkView::Delete { .. } => {
            if !files.dom().contains(from) {
                assert(files.remove(from) =~= files);
            }
        },
        HunkView::Update { move_to, chunks, .. } => {
            if files.dom().contains(from) {
                if let Ok(new) = edit::updated(files[from], chunks) {
                    if move_to is Some {
                        assert(all.0 =~= files.insert(to, new).remove(from));
                    }
                }
            }
        },
    }
}

/// A protected path is never removed.
pub proof fn law_protected_paths_stay(h: HunkView, place: Seq<char>)
    requires
        h is Delete,
    ensures
        next(h, first(h), EventView::Protected(true), place) == StageView::Done(
            OutcomeView::Refused,
        ),
{
}

/// The outcome of a hunk tells the files as they were: whether the file, or
/// the one at the destination, was there and what it held, and what an updated
/// file held before and holds now.
pub proof fn law_outcomes_tell_the_files_as_they_were(
    files: Map<Seq<char>, Seq<char>>,
    h: HunkView,
    from: Seq<char>,
    to: Seq<char>,
    protected: bool,
)
    ensures
        ({
            let outcome = carried_out(
                files,
                h,
                first(h),
                from,
                to,
                protected,
                most_operations(),
            ).1->Done_0;
            let was = files.dom().contains(from);
            let text_was = if was {
                Some(files[from])
            } else {
                None
            };
            let dest_was = files.dom().contains(to);
            let dest_text = if dest_was {
                Some(files[to])
            } else {
                None
            };
            match h {
                HunkView::Add { .. } => outcome == (OutcomeView::Created {
                    existed: was,
                    old: text_was,
                }),
                HunkView::Delete { .. } => if protected {
                    outcome is Refused
                } else if was {
                    outcome == (OutcomeView::Deleted { old: text_was })
                } else {
                    outcome is DeleteFailed
                },
                HunkView::Update { move_to, chunks, .. } => if !was {
                    outcome is UpdateFailed
                } else {
                    match edit::updated(files[from], chunks) {
                        Err(e) => outcome == (OutcomeView::UpdateFailed {
                            message: edit::update_message(from, e),
                        }),
                        Ok(new) => if move_to is None {
                            outcome == (OutcomeView::Written { old: files[from], new })
                        } else if from != to {
                            outcome == (OutcomeView::Moved {
                                old: files[from],
                                new,
                                dest_existed: dest_was,
                                dest_old: dest_text,
                            })
                        } else {
                            outcome matches OutcomeView::Moved { old, new: now, .. } && old
                                == files[from] && now == new
                        },
                    }
                },
            }
        }),
{
    reveal_with_fuel(carried_out, 6);
    let start = first(h);
    let (after1, event1) = performed(files, h, start, from, to, protected);
    let stage1 = next(h, start, event1, from);
    assert(carried_out(files, h, start, from, to, protected, most_operations()) == carried_out(
        after1,
        h,
        stage1,
        from,
        to,
        protected,
        4,
    ));
}

/// An operation that fails ends the hunk: a file that cannot be read fails the
/// update with the reason, a file that cannot be deleted fails the deletion,
/// an original that cannot be removed after a move is left, and everything
/// else stops the patch with the reason.
pub proof fn law_failed_operations_end_the_hunk(
    h: HunkView,
    stage: StageView,
    error: Seq<char>,
    place: Seq<char>,
)
    requires
        answers(action(stage), EventView::Failed(error)),
    ensures
        ({
            let after = next(h, stage, EventView::Failed(error), place);
            match stage {
                StageView::UpdateRead => after == StageView::Done(
                    OutcomeView::UpdateFailed { message: error },
                ),
                StageView::DeleteRemove { .. } => after == StageView::Done(
                    OutcomeView::DeleteFailed,
                ),
                StageView::MoveRemove { old, new, dest_existed, dest_old } => after
                    == StageView::Done(
                    OutcomeView::LeftOriginal { old, new, dest_existed, dest_old },
                ),
                _ => after == StageView::Stopped(error),
            }
        }),
{
}

/// A file is written where the hunk says and with the text that it leads to:
/// an added file with the text of the hunk, an updated one with its updated
/// text, at the destination where there is one. Nothing is removed before the
/// text stands at the destination.
pub proof fn law_writes_are_of_the_new_text(
    h: HunkView,
    stage: StageView,
    content: Seq<char>,
    place: Seq<char>,
)
    requires
        belongs(h, stage),
    ensures
        action(stage) is Write ==> (h matches HunkView::Add { contents, .. } ==> text_to_write(
            h,
            stage,
        ) == contents),
        next(h, StageView::UpdateRead, EventView::Content(content), place) matches StageView::UpdateWrite {
            old,
            new,
        } ==> old == content && text_to_write(
            h,
            next(h, StageView::UpdateRead, EventView::Content(content), place),
        ) == new,
        action(stage) == FileAction::Remove && h is Update ==> stage is MoveRemove,
        action(stage) is Write && h is Update ==> (action(stage) == FileAction::Write(
            Place::Destination,
        ) <==> h->move_to is Some),
        stage matches StageView::MoveWrite { new, .. } ==> text_to_write(h, stage) == new && next(
            h,
            stage,
            EventView::Done,
            place,
        ) is MoveRemove,
{
}

} // verus!
