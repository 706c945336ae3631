//! The guard of the one-time terminal setup. Some consoles must be told once
//! per process to interpret styling sequences. The guard decides who does
//! that; doing it is left to the caller that is told to.

use vstd::prelude::*;

verus! {

/// How far the setup has come.
#[derive(Clone, Copy, Debug, PartialEq, Eq, Structural)]
pub enum Setup {
    /// Nobody has asked for the setup yet.
    Uninitialized,
    /// One caller is performing the setup.
    InProgress,
    /// The setup was performed, whether or not it succeeded.
    Done,
}

/// What a caller that asked for the setup has to do.
#[derive(Clone, Copy, Debug, PartialEq, Eq, Structural)]
pub enum Turn {
    /// Perform the setup, then report it with `finish`.
    Run,
    /// Another caller is performing the setup: wait until it is done.
    Wait,
    /// The setup is done: go on.
    Skip,
}

/// What happens to a guard: a caller asks for the setup, or the caller that
/// performed it reports that it is finished.
#[derive(Clone, Copy, Debug, PartialEq, Eq, Structural)]
pub enum Event {
    Request,
    Finish,
}

/// The answer to a caller that asks for the setup in a given state.
pub open spec fn turn_in(state: Setup) -> Turn {
    match state {
        Setup::Uninitialized => Turn::Run,
        Setup::InProgress => Turn::Wait,
        Setup::Done => Turn::Skip,
    }
}

/// The state of a guard after an event.
pub open spec fn step(state: Setup, event: Event) -> Setup {
    match (state, event) {
        (Setup::Uninitialized, Event::Request) => Setup::InProgress,
        (Setup::InProgress, Event::Finish) => Setup::Done,
        _ => state,
    }
}

/// The state of a guard that was new before a sequence of events.
pub open spec fn state_after(events: Seq<Event>) -> Setup
    decreases events.len(),
{
    if events.len() == 0 {
        Setup::Uninitialized
    } else {
        step(state_after(events.drop_last()), events.last())
    }
}

/// How many of the requests in a sequence of events on a new guard are
/// answered with `Turn::Run`.
pub open spec fn runs(events: Seq<Event>) -> nat
    decreases events.len(),
{
    if events.len() == 0 {
        0
    } else {
        let before = events.drop_last();
        if events.last() == Event::Request && turn_in(state_after(before)) == Turn::Run {
            runs(before) + 1
        } else {
            runs(before)
        }
    }
}

/// Asks for the terminal setup. The first caller on a new guard is told to
/// perform it; every later caller is told to wait while it is being
/// performed, or to go on once it is done.
pub fn enable_ansi(state: &mut Setup) -> (turn: Turn)
    ensures
        turn == turn_in(*old(state)),
        *final(state) == step(*old(state), Event::Request),
{
    match *state {
        Setup::Uninitialized => {
            *state = Setup::InProgress;
            Turn::Run
        },
        Setup::InProgress => Turn::Wait,
        Setup::Done => Turn::Skip,
    }
}

/// Reports that the setup was performed. Whether it succeeded makes no
/// difference: it is not tried again.
pub fn finish(state: &mut Setup)
    ensures
        *final(state) == step(*old(state), Event::Finish),
{
    match *state {
        Setup::InProgress => {
            *state = Setup::Done;
        },
        _ => {},
    }
}

/// However often and in whatever order callers ask for the setup and report
/// it finished, at most one request is answered with `Turn::Run`: the setup
/// is performed at most once. No request is answered so once the guard has
/// left its first state, and it never returns there.
pub proof fn lemma_setup_runs_at_most_once(events: Seq<Event>)
    ensures
        runs(events) <= 1,
        runs(events) == 0 <==> state_after(events) == Setup::Uninitialized,
    decreases events.len(),
{
    if events.len() > 0 {
        lemma_setup_runs_at_most_once(events.drop_last());
    }
}

} // verus!
