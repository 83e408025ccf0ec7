//! Carrying out a patch, hunk by hunk.
//!
//! A [`PatchRun`] says which file operation comes next and keeps the account;
//! whoever carries out the operation hands back what came of it.

use crate::apply_patch::hunk;
use crate::apply_patch::hunk::{HunkView, PatchError, PatchHunk};
use crate::apply_patch::parser;
use crate::apply_patch::parser::parse_apply_patch;
use crate::apply_patch::report;
use crate::apply_patch::report::{
    edits_of, hunk_dest, hunk_path, touches_of, EditRecord, EditView, FileTouchNote, OutcomeView,
    PatchReport, ReportView, TouchView,
};
use crate::apply_patch::steps;
use crate::apply_patch::steps::{
    action_of, first_stage, next_stage, stage_text, EventView, FileAction, Stage, StageView,
    StepEvent,
};
use crate::text;
use vstd::prelude::*;

verus! {

/// A patch that is being carried out.
#[derive(Debug)]
pub struct PatchRun {
    hunks: Vec<PatchHunk>,
    at: usize,
    stage: Option<Stage>,
    report: PatchReport,
    edits: Vec<EditRecord>,
    touches: Vec<FileTouchNote>,
    intent: Option<String>,
}

/// What a [`PatchRun`] stands for.
#[verifier::ext_equal]
pub struct RunView {
    pub hunks: Seq<HunkView>,
    /// How many hunks are carried out.
    pub at: int,
    /// How far the next hunk is; none where there is none.
    pub stage: Option<StageView>,
    pub report: ReportView,
    pub edits: Seq<EditView>,
    pub touches: Seq<TouchView>,
    pub intent: Option<Seq<char>>,
}

impl View for PatchRun {
    type V = RunView;

    closed spec fn view(&self) -> RunView {
        RunView {
            hunks: hunk::hunk_views(self.hunks@),
            at: self.at as int,
            stage: match self.stage {
                Some(stage) => Some(stage@),
                None => None,
            },
            report: self.report@,
            edits: report::edit_views(self.edits@),
            touches: report::touch_views(self.touches@),
            intent: text::opt_text(self.intent),
        }
    }
}

/// Where the hunk of that number starts.
pub open spec fn start_of(hunks: Seq<HunkView>, k: int) -> Option<StageView> {
    if 0 <= k < hunks.len() {
        Some(steps::first(hunks[k]))
    } else {
        None
    }
}

/// A run that has done nothing yet.
pub open spec fn started(hunks: Seq<HunkView>, intent: Option<Seq<char>>) -> RunView {
    RunView {
        hunks,
        at: 0,
        stage: start_of(hunks, 0),
        report: report::empty_report(),
        edits: Seq::empty(),
        touches: Seq::empty(),
        intent,
    }
}

/// The run after its hunk was carried out.
pub open spec fn after_hunk(run: RunView, outcome: OutcomeView) -> RunView {
    let h = run.hunks[run.at];
    let diff = report::told_diff(h, outcome);
    RunView {
        at: run.at + 1,
        stage: start_of(run.hunks, run.at + 1),
        report: report::reported(run.report, h, outcome, diff),
        edits: run.edits + report::edits(h, outcome),
        touches: run.touches + report::touches(h, outcome, diff, run.intent),
        ..run
    }
}

/// The run after an operation. `place` is where the file of the hunk is.
pub open spec fn next(run: RunView, event: EventView, place: Seq<char>) -> RunView {
    match run.stage {
        None => run,
        Some(stage) => match steps::next(run.hunks[run.at], stage, event, place) {
            StageView::Done(outcome) => after_hunk(run, outcome),
            stage => RunView { stage: Some(stage), ..run },
        },
    }
}

/// The operation that a run waits for.
pub open spec fn action(run: RunView) -> FileAction {
    match run.stage {
        None => FileAction::Nothing,
        Some(stage) => steps::action(stage),
    }
}

/// Whether a run is as one is that was started and taken on: its stage is one
/// of its hunk, and it has reported each hunk before that once.
pub open spec fn is_coherent(run: RunView) -> bool {
    &&& 0 <= run.at <= run.hunks.len()
    &&& run.report.results.len() == run.at
    &&& report::is_balanced(run.report)
    &&& match run.stage {
        None => run.at == run.hunks.len(),
        Some(stage) => run.at < run.hunks.len() && !(stage is Done) && steps::belongs(
            run.hunks[run.at],
            stage,
        ),
    }
}

/// A run stays as it should be.
pub proof fn lemma_coherent(run: RunView, event: EventView, place: Seq<char>)
    requires
        is_coherent(run),
        steps::answers(action(run), event),
        run.stage matches Some(stage) ==> steps::belongs(
            run.hunks[run.at],
            steps::next(run.hunks[run.at], stage, event, place),
        ),
    ensures
        is_coherent(next(run, event, place)),
{
    if let Some(stage) = run.stage {
        if let StageView::Done(outcome) = steps::next(run.hunks[run.at], stage, event, place) {
            let h = run.hunks[run.at];
            report::law_every_hunk_is_reported_once(
                run.report,
                h,
                outcome,
                report::told_diff(h, outcome),
            );
        }
    }
}

/// A run that is over and was not stopped has reported every hunk once: as
/// added, as modified, as deleted, or as a failure.
pub proof fn law_finished_runs_report_every_hunk(run: RunView)
    requires
        is_coherent(run),
        run.stage is None,
    ensures
        run.report.results.len() == run.hunks.len(),
        run.report.added.len() + run.report.modified.len() + run.report.deleted.len()
            + run.report.failures.len() == run.hunks.len(),
{
}

/// A run that was stopped, or is over, stays as it is.
pub proof fn law_stopped_runs_stay(run: RunView, event: EventView, place: Seq<char>)
    requires
        action(run) == FileAction::Nothing,
        !(event is Failed),
        run.stage matches Some(stage) ==> stage is Stopped,
    ensures
        next(run, event, place) == run,
{
}

impl PatchRun {
    /// Starts on a patch; one that does not parse is rejected.
    pub fn start(patch: &str, intent: Option<String>) -> (r: Result<PatchRun, PatchError>)
        ensures
            match parser::parse(patch@) {
                Ok(hunks) => r is Ok && r->Ok_0@ == started(hunks, text::opt_text(intent))
                    && is_coherent(r->Ok_0@),
                Err(e) => r is Err && r->Err_0@ == e,
            },
    {
        let hunks = match parse_apply_patch(patch) {
            Ok(hunks) => hunks,
            Err(e) => return Err(e),
        };
        let stage = if hunks.len() > 0 {
            Some(first_stage(&hunks[0]))
        } else {
            None
        };
        let run = PatchRun {
            hunks,
            at: 0,
            stage,
            report: PatchReport::new(),
            edits: Vec::new(),
            touches: Vec::new(),
            intent,
        };
        assert(run@ =~= started(hunk::hunk_views(run.hunks@), text::opt_text(intent)));
        Ok(run)
    }

    /// The hunks of the patch.
    pub fn hunks(&self) -> (r: &Vec<PatchHunk>)
        ensures
            hunk::hunk_views(r@) == self@.hunks,
    {
        &self.hunks
    }

    /// The report so far.
    pub fn report(&self) -> (r: &PatchReport)
        ensures
            r@ == self@.report,
    {
        &self.report
    }

    /// The edits so far.
    pub fn edits(&self) -> (r: &Vec<EditRecord>)
        ensures
            report::edit_views(r@) == self@.edits,
    {
        &self.edits
    }

    /// The notices so far.
    pub fn touches(&self) -> (r: &Vec<FileTouchNote>)
        ensures
            report::touch_views(r@) == self@.touches,
    {
        &self.touches
    }

    /// The operation that the run waits for.
    pub fn action(&self) -> (r: FileAction)
        ensures
            r == action(self@),
    {
        match &self.stage {
            Some(stage) => action_of(stage),
            None => FileAction::Nothing,
        }
    }

    /// What stopped the run.
    pub fn stopped(&self) -> (r: Option<&str>)
        ensures
            match self@.stage {
                Some(StageView::Stopped(why)) => text::opt_str(r) == Some(why),
                _ => r is None,
            },
    {
        match &self.stage {
            Some(Stage::Stopped(why)) => Some(why.as_str()),
            _ => None,
        }
    }

    /// The path of the file that is next, and where it moves.
    pub fn paths(&self) -> (r: (&str, Option<&str>))
        requires
            is_coherent(self@),
            self@.stage is Some,
        ensures
            r.0@ == hunk::path_of(self@.hunks[self@.at]),
            r.1 is Some ==> r.1->0@ == hunk::dest_of(self@.hunks[self@.at]),
            r.1 is Some <==> self@.hunks[self@.at] matches HunkView::Update {
                move_to: Some(_),
                ..
            },
    {
        let h = &self.hunks[self.at];
        (hunk_path(h), hunk_dest(h))
    }

    /// The text that the operation writes.
    pub fn text_to_write(&self) -> (r: &str)
        requires
            is_coherent(self@),
            self@.stage is Some,
        ensures
            r@ == steps::text_to_write(self@.hunks[self@.at], self@.stage->0),
    {
        match &self.stage {
            Some(stage) => stage_text(&self.hunks[self.at], stage),
            None => "",
        }
    }

    /// Takes the run on, out of what came of its operation. `place` is where
    /// the file of the hunk is.
    pub fn advance(&mut self, event: StepEvent, place: &str)
        requires
            is_coherent(old(self)@),
            steps::answers(action(old(self)@), event@),
        ensures
            final(self)@ == next(old(self)@, event@, place@),
            is_coherent(final(self)@),
    {
        let ghost before = self@;
        let stage = match self.stage.take() {
            Some(stage) => stage,
            None => return,
        };
        let ghost was = stage@;
        let ghost told = event@;
        let h = &self.hunks[self.at];
        assert(h@ == before.hunks[before.at]);
        assert(self.at < self.hunks.len());
        let reached = next_stage(h, stage, event, place);
        proof {
            lemma_coherent(before, told, place@);
        }
        match reached {
            Stage::Done(outcome) => {
                let mut edits = edits_of(h, &outcome);
                let diff = self.report.record(h, &outcome);
                let mut touches = touches_of(h, &outcome, diff.as_str(), opt_slice(&self.intent));
                let ghost edits_before = self.edits@;
                let ghost touches_before = self.touches@;
                let ghost new_edits = edits@;
                let ghost new_touches = touches@;
                self.edits.append(&mut edits);
                self.touches.append(&mut touches);
                proof {
                    assert(report::edit_views(self.edits@) =~= report::edit_views(edits_before)
                        + report::edit_views(new_edits));
                    assert(report::touch_views(self.touches@) =~= report::touch_views(
                        touches_before,
                    ) + report::touch_views(new_touches));
                }
                self.at = self.at + 1;
                self.stage = if self.at < self.hunks.len() {
                    Some(first_stage(&self.hunks[self.at]))
                } else {
                    None
                };
                assert(self@ =~= after_hunk(before, outcome@));
            },
            stage => {
                self.stage = Some(stage);
                assert(self@ =~= RunView { stage: Some(stage@), ..before });
            },
        }
    }
}

/// An optional string, borrowed.
fn opt_slice(s: &Option<String>) -> (r: Option<&str>)
    ensures
        text::opt_str(r) == text::opt_text(*s),
{
    match s {
        Some(s) => Some(s.as_str()),
        None => None,
    }
}

// ---------------------------------------------------------------------------
// What a patch does to files
// ---------------------------------------------------------------------------

/// The files after a run was taken on by at most `fuel` operations, and the
/// run then. Operations fail only for missing files; `place` says where the
/// file of a path is, `protected` which places must stay.
pub open spec fn run_out(
    files: Map<Seq<char>, Seq<char>>,
    run: RunView,
    place: spec_fn(Seq<char>) -> Seq<char>,
    protected: spec_fn(Seq<char>) -> bool,
    fuel: nat,
) -> (Map<Seq<char>, Seq<char>>, RunView)
    decreases fuel,
{
    if fuel == 0 || action(run) == FileAction::Nothing {
        (files, run)
    } else {
        let h = run.hunks[run.at];
        let from = place(hunk::path_of(h));
        let to = place(hunk::dest_of(h));
        let (after, event) = steps::performed(
            files,
            h,
            run.stage->0,
            from,
            to,
            protected(from),
        );
        run_out(after, next(run, event, from), place, protected, (fuel - 1) as nat)
    }
}

/// The files after the first `k` hunks, each of which does what it says.
pub open spec fn patched(
    files: Map<Seq<char>, Seq<char>>,
    hunks: Seq<HunkView>,
    place: spec_fn(Seq<char>) -> Seq<char>,
    protected: spec_fn(Seq<char>) -> bool,
    k: int,
) -> Map<Seq<char>, Seq<char>>
    decreases k,
{
    if k <= 0 {
        files
    } else {
        let h = hunks[k - 1];
        let from = place(hunk::path_of(h));
        let to = place(hunk::dest_of(h));
        steps::effect(
            patched(files, hunks, place, protected, k - 1),
            h,
            from,
            to,
            protected(from),
        )
    }
}

proof fn lemma_one_hunk(
    files: Map<Seq<char>, Seq<char>>,
    run: RunView,
    place: spec_fn(Seq<char>) -> Seq<char>,
    protected: spec_fn(Seq<char>) -> bool,
    n: nat,
    fuel: nat,
) -> (r: (RunView, nat))
    requires
        0 <= run.at < run.hunks.len(),
        run.stage is Some,
        !(run.stage->0 is Done),
        ({
            let h = run.hunks[run.at];
            let from = place(hunk::path_of(h));
            steps::carried_out(
                files,
                h,
                run.stage->0,
                from,
                place(hunk::dest_of(h)),
                protected(from),
                n,
            ).1 is Done
        }),
        fuel >= n,
    ensures
        ({
            let h = run.hunks[run.at];
            let from = place(hunk::path_of(h));
            let after = steps::carried_out(
                files,
                h,
                run.stage->0,
                from,
                place(hunk::dest_of(h)),
                protected(from),
                n,
            ).0;
            &&& run_out(files, run, place, protected, fuel) == run_out(
                after,
                r.0,
                place,
                protected,
                r.1,
            )
            &&& r.0.hunks == run.hunks
            &&& r.0.at == run.at + 1
            &&& r.0.stage == start_of(run.hunks, run.at + 1)
            &&& r.1 >= fuel - n
        }),
    decreases n,
{
    let h = run.hunks[run.at];
    let from = place(hunk::path_of(h));
    let to = place(hunk::dest_of(h));
    let stage = run.stage->0;
    let (after, event) = steps::performed(files, h, stage, from, to, protected(from));
    let reached = steps::next(h, stage, event, from);
    let taken_on = next(run, event, from);
    assert(n > 0 && steps::action(stage) != FileAction::Nothing);
    assert(run_out(files, run, place, protected, fuel) == run_out(
        after,
        taken_on,
        place,
        protected,
        (fuel - 1) as nat,
    ));
    if reached is Done {
        assert(steps::action(reached) == FileAction::Nothing);
        assert(steps::carried_out(
            after,
            h,
            reached,
            from,
            to,
            protected(from),
            (n - 1) as nat,
        ) == (after, reached));
        (taken_on, (fuel - 1) as nat)
    } else {
        lemma_one_hunk(after, taken_on, place, protected, (n - 1) as nat, (fuel - 1) as nat)
    }
}

proof fn lemma_rest(
    files: Map<Seq<char>, Seq<char>>,
    run: RunView,
    place: spec_fn(Seq<char>) -> Seq<char>,
    protected: spec_fn(Seq<char>) -> bool,
    fuel: nat,
    start: Map<Seq<char>, Seq<char>>,
)
    requires
        0 <= run.at <= run.hunks.len(),
        run.stage == start_of(run.hunks, run.at),
        fuel >= steps::most_operations() * (run.hunks.len() - run.at),
        files == patched(start, run.hunks, place, protected, run.at),
    ensures
        ({
            let (after, reached) = run_out(files, run, place, protected, fuel);
            &&& reached.stage is None
            &&& reached.at == run.hunks.len()
            &&& after == patched(start, run.hunks, place, protected, run.hunks.len() as int)
        }),
    decreases run.hunks.len() - run.at,
{
    if run.at < run.hunks.len() {
        let h = run.hunks[run.at];
        let from = place(hunk::path_of(h));
        let to = place(hunk::dest_of(h));
        steps::law_hunks_do_what_they_say(files, h, from, to, protected(from));
        let (reached, left) = lemma_one_hunk(
            files,
            run,
            place,
            protected,
            steps::most_operations(),
            fuel,
        );
        let after = steps::effect(files, h, from, to, protected(from));
        assert(after == patched(start, run.hunks, place, protected, run.at + 1));
        lemma_rest(after, reached, place, protected, left, start);
    }
}

/// Where operations fail only for missing files, a patch is carried out to its
/// end, in at most five operations for each hunk, and leaves what its hunks
/// say, one after the other.
pub proof fn law_patches_do_what_they_say(
    files: Map<Seq<char>, Seq<char>>,
    hunks: Seq<HunkView>,
    intent: Option<Seq<char>>,
    place: spec_fn(Seq<char>) -> Seq<char>,
    protected: spec_fn(Seq<char>) -> bool,
    fuel: nat,
)
    requires
        fuel >= steps::most_operations() * hunks.len(),
    ensures
        ({
            let (after, reached) = run_out(
                files,
                started(hunks, intent),
                place,
                protected,
                fuel,
            );
            &&& reached.stage is None
            &&& reached.at == hunks.len()
            &&& after == patched(files, hunks, place, protected, hunks.len() as int)
        }),
{
    lemma_rest(files, started(hunks, intent), place, protected, fuel, files);
}

/// Whether the account of a run agrees with itself: the files noted as touched
/// are those of the report.
pub open spec fn notes_agree(run: RunView) -> bool {
    run.report.touched == Seq::new(run.touches.len(), |i: int| run.touches[i].path)
}

/// A run keeps its hunks and its reason, and its account only grows: what was
/// reported, edited and touched stays. The files noted as touched are those of
/// the report. It goes on to the next hunk when one is done, and by one only.
pub proof fn law_accounts_only_grow(run: RunView, event: EventView, place: Seq<char>)
    requires
        notes_agree(run),
    ensures
        ({
            let after = next(run, event, place);
            &&& notes_agree(after)
            &&& after.hunks == run.hunks
            &&& after.intent == run.intent
            &&& after.at == run.at || after.at == run.at + 1
            &&& after.at == run.at ==> after.report == run.report && after.edits == run.edits
                && after.touches == run.touches
            &&& run.edits.len() <= after.edits.len() && after.edits.take(run.edits.len() as int)
                == run.edits
            &&& run.touches.len() <= after.touches.len() && after.touches.take(
                run.touches.len() as int,
            ) == run.touches
            &&& after.at == run.at + 1 ==> after.report.results.drop_last() == run.report.results
                && after.edits.skip(run.edits.len() as int).len() == after.edits.len()
                - run.edits.len()
        }),
        notes_agree(started(run.hunks, run.intent)),
{
    let after = next(run, event, place);
    let first = started(run.hunks, run.intent);
    assert(first.report.touched =~= Seq::new(first.touches.len(), |i: int| first.touches[i].path));
    if let Some(stage) = run.stage {
        let h = run.hunks[run.at];
        if let StageView::Done(outcome) = steps::next(h, stage, event, place) {
            let diff = report::told_diff(h, outcome);
            report::law_reports_grow_by_the_hunk(run.report, h, outcome, diff);
            report::law_notes_are_of_the_touched_paths(
                run.report,
                h,
                outcome,
                diff,
                run.intent,
                0,
            );
            let notes = report::touches(h, outcome, diff, run.intent);
            assert(after.touches == run.touches + notes);
            assert(after.report.touched =~= Seq::new(
                after.touches.len(),
                |i: int| after.touches[i].path,
            ));
            assert(after.edits.take(run.edits.len() as int) =~= run.edits);
            assert(after.touches.take(run.touches.len() as int) =~= run.touches);
        } else {
            assert(after.edits.take(run.edits.len() as int) =~= run.edits);
            assert(after.touches.take(run.touches.len() as int) =~= run.touches);
        }
    } else {
        assert(after.edits.take(run.edits.len() as int) =~= run.edits);
        assert(after.touches.take(run.touches.len() as int) =~= run.touches);
    }
}

/// The account of a hunk that is done holds its edits and notes, as those of
/// the hunk alone, and the run goes on with the next hunk from its first
/// stage, or is over behind the last.
pub proof fn law_done_hunks_are_accounted_for(
    run: RunView,
    event: EventView,
    place: Seq<char>,
    outcome: OutcomeView,
)
    requires
        0 <= run.at < run.hunks.len(),
        run.stage is Some,
        steps::next(run.hunks[run.at], run.stage->0, event, place) == StageView::Done(outcome),
    ensures
        ({
            let after = next(run, event, place);
            let h = run.hunks[run.at];
            &&& after.edits.skip(run.edits.len() as int) == report::edits(h, outcome)
            &&& after.touches.skip(run.touches.len() as int) == report::touches(
                h,
                outcome,
                report::told_diff(h, outcome),
                run.intent,
            )
            &&& after.report.failures.len() == run.report.failures.len() + if report::is_success(
                outcome,
            ) {
                0int
            } else {
                1int
            }
            &&& after.at == run.at + 1
            &&& run.at + 1 < run.hunks.len() ==> after.stage == Some(
                steps::first(run.hunks[run.at + 1]),
            )
            &&& run.at + 1 == run.hunks.len() ==> after.stage is None
        }),
{
    let after = next(run, event, place);
    let h = run.hunks[run.at];
    assert(after.edits.skip(run.edits.len() as int) =~= report::edits(h, outcome));
    assert(after.touches.skip(run.touches.len() as int) =~= report::touches(
        h,
        outcome,
        report::told_diff(h, outcome),
        run.intent,
    ));
}

} // verus!
