//! The loop that reads the notices of opened files.

use vstd::prelude::*;

verus! {

/// How long to wait for notices before looking again whether to stop, in milliseconds.
pub const WAIT_MILLIS: u16 = 100;

/// What reading the notices came to.
#[derive(Debug, Clone, Copy, PartialEq, Eq, Structural)]
pub enum ReadOutcome {
    /// There are notices.
    Notices,
    /// There are none yet.
    WouldBlock,
    /// A signal came in between.
    Interrupted,
    /// Reading does not work.
    Failed,
}

/// What the loop does next.
#[derive(Debug, Clone, Copy, PartialEq, Eq, Structural)]
pub enum ReaderStep {
    /// Look whether to stop.
    CheckStop,
    /// Read the notices that there are.
    Read,
    /// Go through the notices that were read.
    Process,
    /// Wait for notices, at most so many milliseconds.
    Wait { millis: u16 },
    /// Leave the loop.
    Finish,
}

/// The step that follows looking whether to stop.
pub open spec fn step_after_check(stop: bool) -> ReaderStep {
    if stop {
        ReaderStep::Finish
    } else {
        ReaderStep::Read
    }
}

/// The step that follows reading.
pub open spec fn step_after_read(outcome: ReadOutcome) -> ReaderStep {
    match outcome {
        ReadOutcome::Notices => ReaderStep::Process,
        ReadOutcome::WouldBlock => ReaderStep::Wait { millis: WAIT_MILLIS },
        ReadOutcome::Interrupted => ReaderStep::CheckStop,
        ReadOutcome::Failed => ReaderStep::Finish,
    }
}

/// The step that follows `step`, where `stop` is what looking whether to stop gives, and `outcome`
/// what reading comes to. A loop that has finished stays so.
pub open spec fn next_step(step: ReaderStep, stop: bool, outcome: ReadOutcome) -> ReaderStep {
    match step {
        ReaderStep::CheckStop => step_after_check(stop),
        ReaderStep::Read => step_after_read(outcome),
        ReaderStep::Process => ReaderStep::CheckStop,
        ReaderStep::Wait { .. } => ReaderStep::CheckStop,
        ReaderStep::Finish => ReaderStep::Finish,
    }
}

impl ReaderStep {
    /// What follows looking whether to stop.
    pub fn after_check(stop: bool) -> (step: ReaderStep)
        ensures
            step == step_after_check(stop),
            forall|outcome: ReadOutcome|
                step == #[trigger] next_step(ReaderStep::CheckStop, stop, outcome),
    {
        if stop {
            ReaderStep::Finish
        } else {
            ReaderStep::Read
        }
    }

    /// What follows reading.
    pub fn after_read(outcome: ReadOutcome) -> (step: ReaderStep)
        ensures
            step == step_after_read(outcome),
            forall|stop: bool| step == #[trigger] next_step(ReaderStep::Read, stop, outcome),
    {
        match outcome {
            ReadOutcome::Notices => ReaderStep::Process,
            ReadOutcome::WouldBlock => ReaderStep::Wait { millis: WAIT_MILLIS },
            ReadOutcome::Interrupted => ReaderStep::CheckStop,
            ReadOutcome::Failed => ReaderStep::Finish,
        }
    }

    /// What follows going through the notices.
    pub fn after_process() -> (step: ReaderStep)
        ensures
            step == ReaderStep::CheckStop,
            forall|stop: bool, outcome: ReadOutcome|
                step == #[trigger] next_step(ReaderStep::Process, stop, outcome),
    {
        ReaderStep::CheckStop
    }

    /// What follows waiting, whether notices came or the time ran out.
    pub fn after_wait() -> (step: ReaderStep)
        ensures
            step == ReaderStep::CheckStop,
            forall|millis: u16, stop: bool, outcome: ReadOutcome|
                step == #[trigger] next_step(ReaderStep::Wait { millis }, stop, outcome),
    {
        ReaderStep::CheckStop
    }
}

/// Where the loop stands once it has looked whether to stop, and, unless it finished then, has
/// read and done what reading asked for.
pub open spec fn after_round(stop: bool, outcome: ReadOutcome) -> ReaderStep {
    let checked = next_step(ReaderStep::CheckStop, stop, outcome);
    let read = next_step(checked, stop, outcome);
    match read {
        ReaderStep::CheckStop => ReaderStep::CheckStop,
        other => next_step(other, stop, outcome),
    }
}

/// Whether the loop goes on through all of `rounds`, each what looking whether to stop gives and
/// what reading comes to.
pub open spec fn goes_on(rounds: Seq<(bool, ReadOutcome)>) -> bool
    decreases rounds.len(),
{
    rounds.len() == 0 || (goes_on(rounds.drop_last()) && after_round(
        rounds.last().0,
        rounds.last().1,
    ) == ReaderStep::CheckStop)
}

/// The loop ends if and only if it is to stop when it looks, or reading fails for good. In all
/// other cases it looks and reads again: after notices, after waiting for some, and after a
/// signal.
pub proof fn loop_ends_only_to_stop_or_on_failure(rounds: Seq<(bool, ReadOutcome)>)
    ensures
        goes_on(rounds) <==> forall|k: int|
            0 <= k < rounds.len() ==> !(#[trigger] rounds[k]).0 && rounds[k].1
                != ReadOutcome::Failed,
        rounds.len() > 0 ==> {
            ||| after_round(rounds.last().0, rounds.last().1) == ReaderStep::CheckStop
            ||| after_round(rounds.last().0, rounds.last().1) == ReaderStep::Finish
        },
    decreases rounds.len(),
{
    if rounds.len() > 0 {
        let front = rounds.drop_last();
        loop_ends_only_to_stop_or_on_failure(front);
        assert forall|k: int| 0 <= k < front.len() implies #[trigger] rounds[k] == front[k] by {}
        assert(rounds[rounds.len() - 1] == rounds.last());
        if goes_on(rounds) {
            assert forall|k: int| 0 <= k < rounds.len() implies !(#[trigger] rounds[k]).0
                && rounds[k].1 != ReadOutcome::Failed by {
                if k < front.len() {
                    assert(!front[k].0 && front[k].1 != ReadOutcome::Failed);
                }
            }
        }
        if forall|k: int|
            0 <= k < rounds.len() ==> !(#[trigger] rounds[k]).0 && rounds[k].1
                != ReadOutcome::Failed {
            assert forall|k: int| 0 <= k < front.len() implies !(#[trigger] front[k]).0
                && front[k].1 != ReadOutcome::Failed by {
                assert(rounds[k] == front[k]);
            }
        }
    }
}

/// A loop that is to stop when it first looks reads nothing: no round of it gets to reading.
pub proof fn stopped_loop_does_not_read(outcome: ReadOutcome)
    ensures
        next_step(ReaderStep::CheckStop, true, outcome) == ReaderStep::Finish,
        after_round(true, outcome) == ReaderStep::Finish,
{
}

/// What follows each step: after looking, an end or a read; after reading, going through the
/// notices, a wait of a tenth of a second, another look, or the end; and after notices or a wait,
/// another look.
pub proof fn what_follows_each_step(stop: bool, outcome: ReadOutcome, millis: u16)
    ensures
        step_after_check(true) == ReaderStep::Finish,
        step_after_check(false) == ReaderStep::Read,
        step_after_read(ReadOutcome::Notices) == ReaderStep::Process,
        step_after_read(ReadOutcome::WouldBlock) == (ReaderStep::Wait { millis: 100 }),
        step_after_read(ReadOutcome::Interrupted) == ReaderStep::CheckStop,
        step_after_read(ReadOutcome::Failed) == ReaderStep::Finish,
        next_step(ReaderStep::CheckStop, stop, outcome) == step_after_check(stop),
        next_step(ReaderStep::Read, stop, outcome) == step_after_read(outcome),
        next_step(ReaderStep::Process, stop, outcome) == ReaderStep::CheckStop,
        next_step(ReaderStep::Wait { millis }, stop, outcome) == ReaderStep::CheckStop,
        next_step(ReaderStep::Finish, stop, outcome) == ReaderStep::Finish,
{
}

} // verus!
