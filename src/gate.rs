//! The single decision of how a run ends: the countdown finishing on its own
//! races an interrupt request, and whichever comes first decides.

use vstd::prelude::*;

verus! {

/// How a run ended.
#[derive(Debug, Clone, Copy, PartialEq, Eq, Structural)]
pub enum Outcome {
    CompletedNormally,
    Interrupted,
}

/// What the supervisor can be told.
#[derive(Debug, Clone, Copy, PartialEq, Eq, Structural)]
pub enum Event {
    /// The render loop reached the end of its countdown.
    EngineFinished,
    /// The host asked the process to stop.
    InterruptRequested,
}

/// What to do once the outcome is decided.
#[derive(Debug, Clone, Copy, PartialEq, Eq, Structural)]
pub struct Finalize {
    pub outcome: Outcome,
    /// Make the terminal cursor visible again.
    pub restore_cursor: bool,
    /// Sound the alarm (only after a countdown that ran to its end).
    pub sound_alarm: bool,
}

/// The actions for the outcome that `ev` decides.
pub open spec fn finalize_for(ev: Event) -> Finalize {
    match ev {
        Event::EngineFinished => Finalize {
            outcome: Outcome::CompletedNormally,
            restore_cursor: true,
            sound_alarm: true,
        },
        Event::InterruptRequested => Finalize {
            outcome: Outcome::Interrupted,
            restore_cursor: true,
            sound_alarm: false,
        },
    }
}

/// The decision taken on `ev` when the outcome so far is `decided`: only
/// the first event decides; any later one is disregarded.
pub open spec fn decision(decided: Option<Outcome>, ev: Event) -> Option<Finalize> {
    if decided is None {
        Some(finalize_for(ev))
    } else {
        None
    }
}

pub open spec fn next_outcome(decided: Option<Outcome>, ev: Event) -> Option<Outcome> {
    if decided is None {
        Some(finalize_for(ev).outcome)
    } else {
        decided
    }
}

/// The outcome after `events`, starting from `decided`.
pub open spec fn outcome_after(decided: Option<Outcome>, events: Seq<Event>) -> Option<Outcome>
    decreases events.len(),
{
    if events.len() == 0 {
        decided
    } else {
        outcome_after(next_outcome(decided, events[0]), events.drop_first())
    }
}

/// How many of the decisions taken over `events` restore the cursor.
pub open spec fn restores(decided: Option<Outcome>, events: Seq<Event>) -> nat
    decreases events.len(),
{
    if events.len() == 0 {
        0
    } else {
        let here: nat = match decision(decided, events[0]) {
            Some(f) => if f.restore_cursor {
                1
            } else {
                0
            },
            None => 0,
        };
        here + restores(next_outcome(decided, events[0]), events.drop_first())
    }
}

/// How many of the decisions taken over `events` sound the alarm.
pub open spec fn alarms(decided: Option<Outcome>, events: Seq<Event>) -> nat
    decreases events.len(),
{
    if events.len() == 0 {
        0
    } else {
        let here: nat = match decision(decided, events[0]) {
            Some(f) => if f.sound_alarm {
                1
            } else {
                0
            },
            None => 0,
        };
        here + alarms(next_outcome(decided, events[0]), events.drop_first())
    }
}

/// Once decided, no event restores the cursor, sounds the alarm, or changes
/// the outcome again.
pub proof fn lemma_decided_is_final(o: Outcome, events: Seq<Event>)
    ensures
        restores(Some(o), events) == 0,
        alarms(Some(o), events) == 0,
        outcome_after(Some(o), events) == Some(o),
    decreases events.len(),
{
    if events.len() > 0 {
        lemma_decided_is_final(o, events.drop_first());
    }
}

/// Whatever events arrive, and in whatever order, the first one alone
/// decides the outcome; the cursor is restored exactly once; the alarm
/// sounds once if the countdown finished first and never if an interrupt
/// came first.
pub proof fn lemma_single_finalization(events: Seq<Event>)
    requires
        events.len() > 0,
    ensures
        outcome_after(None, events) == Some(finalize_for(events[0]).outcome),
        restores(None, events) == 1,
        events[0] == Event::InterruptRequested ==> alarms(None, events) == 0 && outcome_after(
            None,
            events,
        ) == Some(Outcome::Interrupted),
        events[0] == Event::EngineFinished ==> alarms(None, events) == 1,
{
    lemma_decided_is_final(finalize_for(events[0]).outcome, events.drop_first());
}

/// The supervisor's state: the outcome, once decided.
pub struct Gate {
    decided: Option<Outcome>,
}

impl View for Gate {
    type V = Option<Outcome>;

    closed spec fn view(&self) -> Option<Outcome> {
        self.decided
    }
}

impl Gate {
    pub fn new() -> (r: Gate)
        ensures
            r@ is None,
    {
        Gate { decided: None }
    }

    /// Takes an event: the first one decides the outcome and returns what to
    /// do; any later one returns `None` and changes nothing.
    pub fn decide(&mut self, ev: Event) -> (r: Option<Finalize>)
        ensures
            r == decision(old(self)@, ev),
            final(self)@ == next_outcome(old(self)@, ev),
    {
        if self.decided.is_some() {
            return None;
        }
        let f = match ev {
            Event::EngineFinished => Finalize {
                outcome: Outcome::CompletedNormally,
                restore_cursor: true,
                sound_alarm: true,
            },
            Event::InterruptRequested => Finalize {
                outcome: Outcome::Interrupted,
                restore_cursor: true,
                sound_alarm: false,
            },
        };
        self.decided = Some(f.outcome);
        Some(f)
    }

    pub fn outcome(&self) -> (r: Option<Outcome>)
        ensures
            r == self@,
    {
        self.decided
    }
}

} // verus!
