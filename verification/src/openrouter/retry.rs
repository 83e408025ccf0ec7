//! Trying a request again.
//!
//! A [`RetryRun`] says what comes next; whoever does it hands back what came
//! of it.

use crate::openrouter;
use crate::openrouter::{after_failure, attempt_count, is_retryable_error, RetryStep};
use vstd::prelude::*;

verus! {

/// What comes next.
#[derive(Debug, Clone, Copy, PartialEq, Eq, Structural)]
pub enum RetryPhase {
    /// The request is to be sent; with a client of its own where earlier
    /// connections are to be left alone.
    Try { fresh_client: bool },
    /// The consumer is to drop the output of the try that failed; the coming
    /// try is number `attempt`, counted from one, of `max`.
    RollBack { attempt: u32, max: u32 },
    /// The coming try is to be waited for.
    Wait,
    /// The answer was streamed.
    Done,
    /// The last error is to be handed on.
    GiveUp,
}

/// What came of it.
#[derive(Debug)]
pub enum RetryEvent {
    /// It was done: the answer was streamed, the consumer told, or the wait is
    /// over.
    Done,
    /// The try failed. The error is in lower case; `transient` says whether it
    /// shows a transport that failed in passing, `saw_output` whether the
    /// consumer was given output.
    Failed { error: String, transient: bool, saw_output: bool },
}

/// A request that is being tried.
#[derive(Debug)]
pub struct RetryRun {
    attempt: u32,
    max: u32,
    phase: RetryPhase,
}

/// What a [`RetryRun`] stands for.
pub struct RetryView {
    /// The number of the try, counted from zero.
    pub attempt: u32,
    /// How many tries there are at most.
    pub max: u32,
    pub phase: RetryPhase,
}

impl View for RetryRun {
    type V = RetryView;

    closed spec fn view(&self) -> RetryView {
        RetryView { attempt: self.attempt, max: self.max, phase: self.phase }
    }
}

/// A run before its first try.
pub open spec fn started(max_retries: u32) -> RetryView {
    RetryView {
        attempt: 0,
        max: if max_retries == 0 {
            1
        } else {
            max_retries
        },
        phase: RetryPhase::Try { fresh_client: false },
    }
}

/// The run after something was done. An event that cannot come changes
/// nothing.
pub open spec fn next(run: RetryView, event: RetryEvent) -> RetryView {
    match (run.phase, event) {
        (RetryPhase::Try { .. }, RetryEvent::Done) => RetryView {
            phase: RetryPhase::Done,
            ..run
        },
        (
            RetryPhase::Try { .. },
            RetryEvent::Failed { error, transient, saw_output },
        ) => match openrouter::retry_step(
            run.attempt,
            run.max,
            openrouter::is_retryable(error@, transient),
            saw_output,
        ) {
            RetryStep::Retry => RetryView {
                attempt: (run.attempt + 1) as u32,
                phase: RetryPhase::Wait,
                ..run
            },
            RetryStep::RollBackAndRetry { attempt, max } => RetryView {
                attempt: (run.attempt + 1) as u32,
                phase: RetryPhase::RollBack { attempt, max },
                ..run
            },
            RetryStep::GiveUp => RetryView { phase: RetryPhase::GiveUp, ..run },
        },
        (RetryPhase::RollBack { .. }, RetryEvent::Done) => RetryView {
            phase: RetryPhase::Wait,
            ..run
        },
        (RetryPhase::Wait, RetryEvent::Done) => RetryView {
            phase: RetryPhase::Try { fresh_client: true },
            ..run
        },
        _ => run,
    }
}

/// Whether a run is as one is that was started and taken on.
pub open spec fn is_coherent(run: RetryView) -> bool {
    &&& run.attempt < run.max
    &&& run.phase matches RetryPhase::Try { fresh_client } ==> fresh_client == (run.attempt > 0)
    &&& run.phase matches RetryPhase::RollBack { attempt, max } ==> attempt == run.attempt + 1
        && max == run.max
    &&& run.phase is RollBack || run.phase is Wait ==> run.attempt > 0
}

/// Whether a run is over.
pub open spec fn is_over(run: RetryView) -> bool {
    run.phase is Done || run.phase is GiveUp
}

/// How much a run can still do.
pub open spec fn left(run: RetryView) -> int {
    let tries = run.max - run.attempt;
    match run.phase {
        RetryPhase::RollBack { .. } => 3 * tries,
        RetryPhase::Wait => 3 * tries - 1,
        RetryPhase::Try { .. } => 3 * tries - 2,
        _ => 0,
    }
}

/// Every run ends: whatever comes, it has less to do than before, and no try
/// is beyond the last.
pub proof fn law_runs_end(run: RetryView, event: RetryEvent)
    requires
        is_coherent(run),
        !is_over(run),
        event is Failed ==> run.phase is Try,
    ensures
        is_coherent(next(run, event)),
        0 <= left(next(run, event)) < left(run),
{
}

/// Before an answer starts anew the consumer drops what it had of the one that
/// failed, and it is asked to only where it had something.
pub proof fn law_output_is_rolled_back(
    run: RetryView,
    error: String,
    transient: bool,
    saw_output: bool,
)
    requires
        is_coherent(run),
        run.phase is Try,
    ensures
        ({
            let after = next(run, RetryEvent::Failed { error, transient, saw_output });
            &&& after.phase is RollBack ==> saw_output
            &&& after.phase is Wait ==> !saw_output
            &&& after.phase is RollBack || after.phase is Wait || after.phase is GiveUp
        }),
{
}

/// A client of its own is taken for every try but the first.
pub proof fn law_later_tries_leave_connections_alone(run: RetryView)
    requires
        is_coherent(run),
    ensures
        run.phase matches RetryPhase::Try { fresh_client } ==> (fresh_client <==> run.attempt
            > 0),
{
}

impl RetryRun {
    /// A run before its first try, with that many tries configured.
    pub fn start(max_retries: u32) -> (r: RetryRun)
        ensures
            r@ == started(max_retries),
            is_coherent(r@),
    {
        RetryRun {
            attempt: 0,
            max: attempt_count(max_retries),
            phase: RetryPhase::Try { fresh_client: false },
        }
    }

    /// What comes next.
    pub fn phase(&self) -> (r: RetryPhase)
        ensures
            r == self@.phase,
    {
        self.phase
    }

    /// The number of the try, counted from zero.
    pub fn attempt(&self) -> (r: u32)
        ensures
            r == self@.attempt,
    {
        self.attempt
    }

    /// Takes the run on.
    pub fn advance(&mut self, event: &RetryEvent)
        requires
            is_coherent(old(self)@),
        ensures
            final(self)@ == next(old(self)@, *event),
            is_coherent(final(self)@),
    {
        match (self.phase, event) {
            (RetryPhase::Try { .. }, RetryEvent::Done) => {
                self.phase = RetryPhase::Done;
            },
            (RetryPhase::Try { .. }, RetryEvent::Failed { error, transient, saw_output }) => {
                let retryable = is_retryable_error(error.as_str(), *transient);
                match after_failure(self.attempt, self.max, retryable, *saw_output) {
                    RetryStep::Retry => {
                        self.attempt = self.attempt + 1;
                        self.phase = RetryPhase::Wait;
                    },
                    RetryStep::RollBackAndRetry { attempt, max } => {
                        self.attempt = self.attempt + 1;
                        self.phase = RetryPhase::RollBack { attempt, max };
                    },
                    RetryStep::GiveUp => {
                        self.phase = RetryPhase::GiveUp;
                    },
                }
            },
            (RetryPhase::RollBack { .. }, RetryEvent::Done) => {
                self.phase = RetryPhase::Wait;
            },
            (RetryPhase::Wait, RetryEvent::Done) => {
                self.phase = RetryPhase::Try { fresh_client: true };
            },
            _ => {},
        }
    }
}

/// A run has as many tries as are allowed, and at least one. A try that
/// succeeds ends it; one that fails is given up exactly where trying again
/// cannot help or no try is left, and is else counted, once. Undoing what was
/// shown and waiting lead to the next try.
pub proof fn law_tries_are_counted_once(
    run: RetryView,
    error: String,
    transient: bool,
    saw_output: bool,
    max_retries: u32,
)
    requires
        is_coherent(run),
        run.phase is Try,
    ensures
        started(max_retries).attempt == 0,
        started(max_retries).max >= 1,
        max_retries > 0 ==> started(max_retries).max == max_retries,
        max_retries == 0 ==> started(max_retries).max == 1,
        started(max_retries).phase == (RetryPhase::Try { fresh_client: false }),
        next(run, RetryEvent::Done) == (RetryView { phase: RetryPhase::Done, ..run }),
        ({
            let after = next(run, RetryEvent::Failed { error, transient, saw_output });
            let again = openrouter::is_retryable(error@, transient) && run.attempt + 1 < run.max;
            &&& after.max == run.max
            &&& after.phase is GiveUp <==> !again
            &&& again ==> after.attempt == run.attempt + 1
            &&& !again ==> after.attempt == run.attempt
            &&& again && saw_output ==> after.phase == (RetryPhase::RollBack {
                attempt: (run.attempt + 2) as u32,
                max: run.max,
            })
            &&& again && !saw_output ==> after.phase == RetryPhase::Wait
            &&& again ==> next(
                RetryView { phase: RetryPhase::Wait, ..after },
                RetryEvent::Done,
            ).phase == (RetryPhase::Try { fresh_client: true })
            &&& again && saw_output ==> next(after, RetryEvent::Done) == (RetryView {
                phase: RetryPhase::Wait,
                ..after
            })
        }),
{
}

} // verus!
