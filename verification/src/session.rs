//! The order of a run and what becomes of a failure.
//!
//! A run without the control surface decodes the file, draws its waveform
//! and plays it, and ends at the first of these that fails. Under the
//! control surface a failed play action ends nothing: it is shown to the
//! user and the surface goes on.

use vstd::prelude::*;
use crate::error::{message_of, PlayerError};

verus! {

/// The operations of a run, in their order.
#[derive(Clone, Copy, Debug, PartialEq, Eq, Structural)]
pub enum Step {
    Decode,
    Visualize,
    Play,
}

/// What follows an operation.
#[derive(Clone, Copy, Debug, PartialEq, Eq, Structural)]
pub enum Progress {
    /// The run goes on with this operation.
    Continue(Step),
    /// The run has ended, every operation done.
    Succeeded,
    /// The run has ended at this operation, which failed.
    Failed(Step),
}

/// The operation that a run begins with.
pub fn first_step() -> (step: Step)
    ensures
        step == Step::Decode,
{
    Step::Decode
}

/// What follows an operation that succeeded or failed.
pub open spec fn progress_after(step: Step, succeeded: bool) -> Progress {
    if !succeeded {
        Progress::Failed(step)
    } else {
        match step {
            Step::Decode => Progress::Continue(Step::Visualize),
            Step::Visualize => Progress::Continue(Step::Play),
            Step::Play => Progress::Succeeded,
        }
    }
}

/// Decides what follows an operation: a failure ends the run at that
/// operation, a success leads to the next one, and the run succeeds after
/// the last.
pub fn advance(step: Step, succeeded: bool) -> (next: Progress)
    ensures
        next == progress_after(step, succeeded),
{
    if !succeeded {
        Progress::Failed(step)
    } else {
        match step {
            Step::Decode => Progress::Continue(Step::Visualize),
            Step::Visualize => Progress::Continue(Step::Play),
            Step::Play => Progress::Succeeded,
        }
    }
}

/// How a run ends whose three operations would succeed or fail as given:
/// at the first that fails, or with success where none does.
pub open spec fn run_end(decode: bool, visualize: bool, play: bool) -> Progress {
    if !decode {
        Progress::Failed(Step::Decode)
    } else if !visualize {
        Progress::Failed(Step::Visualize)
    } else if !play {
        Progress::Failed(Step::Play)
    } else {
        Progress::Succeeded
    }
}

/// How a run ends that starts at the given operation and follows
/// `progress_after`, an operation being asked for its outcome only when the
/// run has reached it.
pub open spec fn run_from(step: Step, decode: bool, visualize: bool, play: bool) -> Progress
    decreases 3 - rank(step),
{
    match step {
        Step::Decode => match progress_after(Step::Decode, decode) {
            Progress::Continue(_) => run_from(Step::Visualize, decode, visualize, play),
            ended => ended,
        },
        Step::Visualize => match progress_after(Step::Visualize, visualize) {
            Progress::Continue(_) => run_from(Step::Play, decode, visualize, play),
            ended => ended,
        },
        Step::Play => progress_after(Step::Play, play),
    }
}

/// The place of an operation in the order of a run.
pub open spec fn rank(step: Step) -> nat {
    match step {
        Step::Decode => 0,
        Step::Visualize => 1,
        Step::Play => 2,
    }
}

/// A run from the first operation ends at the first operation that fails:
/// nothing after a failure decides anything, and the run succeeds exactly
/// where all three do.
pub proof fn lemma_run_ends_at_first_failure(decode: bool, visualize: bool, play: bool)
    ensures
        run_from(Step::Decode, decode, visualize, play) == run_end(decode, visualize, play),
        run_end(decode, visualize, play) == Progress::Succeeded <==> decode && visualize && play,
        !decode ==> run_end(decode, visualize, play) == run_end(decode, !visualize, !play),
        !visualize ==> run_end(decode, visualize, play) == run_end(decode, visualize, !play),
{
    reveal_with_fuel(run_from, 4);
}

/// The exit code of a run: 0 for success, 1 for a failure.
pub fn exit_code(succeeded: bool) -> (code: u8)
    ensures
        code == (if succeeded { 0u8 } else { 1u8 }),
{
    if succeeded {
        0
    } else {
        1
    }
}

/// What the control surface shows after a play action: nothing after a
/// success, the text of the error after a failure. The surface goes on in
/// both cases.
pub fn play_notice(outcome: Result<(), PlayerError>) -> (notice: Option<&'static str>)
    ensures
        outcome is Ok ==> notice is None,
        outcome matches Err(e) ==> (notice matches Some(text) && text@ == message_of(e)),
{
    match outcome {
        Ok(()) => None,
        Err(e) => Some(e.message()),
    }
}

} // verus!
