//! The shared clock and the tracks that follow it: what each decides on
//! every tick.

use crate::euclid::Pattern;
use crate::model::cycle_seq;
use vstd::arithmetic::div_mod::{lemma_add_mod_noop_right, lemma_mod_self_0, lemma_small_mod};
use vstd::prelude::*;

verus! {

/// The time from one tick to the next, in milliseconds.
pub const TICK_MILLIS: u64 = 200;

/// How many ticks may wait for one track; when more pile up, the oldest
/// are dropped and the track skips those beats, so that the clock never
/// waits for a track.
pub const QUEUE_DEPTH: usize = 16;

/// The counter of ticks that one clock hands to every track.
pub struct Clock {
    sent: usize,
}

impl Clock {
    /// The number of ticks handed out so far, which is also the value of
    /// the last one.
    pub closed spec fn sent(&self) -> nat {
        self.sent as nat
    }

    /// A clock that has not ticked yet.
    pub fn new() -> (c: Clock)
        ensures
            c.sent() == 0,
    {
        Clock { sent: 0 }
    }

    /// The next tick: one more than the last, starting from 1. Once the
    /// counter is exhausted there is no further tick and nothing changes.
    pub fn advance(&mut self) -> (tick: Option<usize>)
        ensures
            old(self).sent() < usize::MAX ==> tick == Some((old(self).sent() + 1) as usize)
                && final(self).sent() == old(self).sent() + 1,
            old(self).sent() >= usize::MAX ==> tick.is_none() && final(self).sent() == old(self).sent(),
    {
        if self.sent == usize::MAX {
            return None;
        }
        self.sent += 1;
        Some(self.sent)
    }
}

/// Where a track stands in its life. A stopped track never runs again.
#[derive(Clone, Copy, Debug, PartialEq, Eq, Structural)]
pub enum TrackState {
    Idle,
    Running,
    Stopped,
}

/// What reaches a track from its subscription to the clock.
#[derive(Clone, Copy, Debug, PartialEq, Eq, Structural)]
pub enum ClockEvent {
    /// The tick with this value.
    Tick(usize),
    /// The track fell behind and this many ticks were dropped, oldest
    /// first.
    Lagged(u64),
    /// The clock is gone.
    Closed,
}

/// What a track asks of its output after an event.
#[derive(Clone, Copy, Debug, PartialEq, Eq, Structural)]
pub enum Action {
    /// A hit: send note-on and note-off, one right after the other.
    Trigger,
    /// A rest: send nothing.
    Rest,
    /// Nothing to play; the track goes on.
    Skip,
    /// The track does not run; stop feeding it.
    Halt,
}

/// The fire / no-fire decisions of `n` consecutive ticks, for a track
/// whose cursor stands at `from` in a pattern of steps `s`.
pub open spec fn decisions(s: Seq<u8>, from: nat, n: nat) -> Seq<bool> {
    Seq::new(n, |i: int| s[(from + i) % (s.len() as int)] == 1u8)
}

/// One voice: a pattern and the cursor that walks round it, one step for
/// every tick.
pub struct Track {
    pattern: Pattern,
    cursor: usize,
    state: TrackState,
}

impl Track {
    /// The steps of the pattern the track plays.
    pub closed spec fn steps(&self) -> Seq<u8> {
        self.pattern@
    }

    /// The position of the step that the next tick plays.
    pub closed spec fn cursor(&self) -> nat {
        self.cursor as nat
    }

    /// Where the track stands in its life.
    pub closed spec fn state(&self) -> TrackState {
        self.state
    }

    /// The cursor points at one of the pattern's steps. Every track does
    /// this, at all times.
    pub open spec fn wf(&self) -> bool {
        self.cursor() < self.steps().len()
    }

    #[verifier::type_invariant]
    spec fn cursor_in_pattern(&self) -> bool {
        self.wf()
    }

    /// A track for `pattern`, idle, with its cursor on the first step. A
    /// pattern without steps cannot be played: then there is no track.
    pub fn new(pattern: Pattern) -> (t: Option<Track>)
        ensures
            pattern@.len() == 0 <==> t.is_none(),
            t.is_some() ==> t.unwrap().wf() && t.unwrap().steps() == pattern@
                && t.unwrap().cursor() == 0 && t.unwrap().state() == TrackState::Idle,
    {
        if pattern.len() == 0 {
            None
        } else {
            Some(Track { pattern, cursor: 0, state: TrackState::Idle })
        }
    }

    /// The state, for the code that drives the track.
    pub fn current_state(&self) -> (s: TrackState)
        ensures
            s == self.state(),
    {
        self.state
    }

    /// Subscribes an idle track to the clock; a running or stopped track
    /// stays as it is.
    pub fn start(&mut self)
        ensures
            final(self).steps() == old(self).steps(),
            final(self).cursor() == old(self).cursor(),
            final(self).state() == if old(self).state() == TrackState::Idle {
                TrackState::Running
            } else {
                old(self).state()
            },
    {
        proof {
            use_type_invariant(&*self);
        }
        if self.state == TrackState::Idle {
            self.state = TrackState::Running;
        }
    }

    /// Stops the track for good, whatever it was doing: on cancellation,
    /// or when its output failed.
    pub fn stop(&mut self)
        ensures
            final(self).steps() == old(self).steps(),
            final(self).cursor() == old(self).cursor(),
            final(self).state() == TrackState::Stopped,
    {
        proof {
            use_type_invariant(&*self);
        }
        self.state = TrackState::Stopped;
    }

    /// Plays one tick on a running track: says whether the step under the
    /// cursor is a hit, and moves the cursor one step on, round the
    /// pattern. A track that is not running says nothing and stays put.
    pub fn tick(&mut self) -> (fire: Option<bool>)
        ensures
            old(self).wf(),
            final(self).wf(),
            final(self).steps() == old(self).steps(),
            final(self).state() == old(self).state(),
            old(self).state() == TrackState::Running ==> fire == Some(
                old(self).steps()[old(self).cursor() as int] == 1u8,
            ) && final(self).cursor() == (old(self).cursor() as int + 1) % (old(self).steps().len() as int),
            old(self).state() != TrackState::Running ==> fire.is_none() && final(self).cursor()
                == old(self).cursor(),
    {
        proof {
            use_type_invariant(&*self);
        }
        if self.state != TrackState::Running {
            return None;
        }
        let n = self.pattern.len();
        let step = self.pattern.step(self.cursor);
        proof {
            if self.cursor + 1 == n {
                lemma_mod_self_0(n as int);
            } else {
                lemma_small_mod((self.cursor + 1) as nat, n as nat);
            }
        }
        self.cursor = if self.cursor + 1 == n { 0 } else { self.cursor + 1 };
        Some(step == 1)
    }

    /// What the track does about an event from the clock. A tick is
    /// played as `tick` says, whatever its value; dropped ticks are beats
    /// skipped, with the cursor left where it was; a clock that is gone
    /// stops the track; and a track that is not running halts whatever
    /// arrives.
    pub fn on_event(&mut self, event: ClockEvent) -> (action: Action)
        ensures
            old(self).wf(),
            final(self).wf(),
            final(self).steps() == old(self).steps(),
            old(self).state() != TrackState::Running ==> action == Action::Halt && final(self).cursor() == old(self).cursor() && final(self).state() == old(self).state(),
            old(self).state() == TrackState::Running ==> match event {
                ClockEvent::Tick(_) => {
                    &&& action == if old(self).steps()[old(self).cursor() as int] == 1u8 {
                        Action::Trigger
                    } else {
                        Action::Rest
                    }
                    &&& final(self).cursor() == (old(self).cursor() as int + 1) % (old(self).steps().len() as int)
                    &&& final(self).state() == TrackState::Running
                },
                ClockEvent::Lagged(_) => {
                    &&& action == Action::Skip
                    &&& final(self).cursor() == old(self).cursor()
                    &&& final(self).state() == TrackState::Running
                },
                ClockEvent::Closed => {
                    &&& action == Action::Halt
                    &&& final(self).cursor() == old(self).cursor()
                    &&& final(self).state() == TrackState::Stopped
                },
            },
    {
        proof {
            use_type_invariant(&*self);
        }
        if self.state != TrackState::Running {
            return Action::Halt;
        }
        match event {
            ClockEvent::Tick(_) => match self.tick() {
                Some(true) => Action::Trigger,
                _ => Action::Rest,
            },
            ClockEvent::Lagged(_) => Action::Skip,
            ClockEvent::Closed => {
                self.stop();
                Action::Halt
            },
        }
    }

    /// Plays `ticks` ticks in a row on a running track and collects the
    /// decisions: they are the steps of the pattern read round and round
    /// from where the cursor stood, whatever any other track does.
    pub fn run(&mut self, ticks: usize) -> (fired: Vec<bool>)
        requires
            old(self).state() == TrackState::Running,
        ensures
            old(self).wf(),
            final(self).wf(),
            final(self).steps() == old(self).steps(),
            final(self).state() == TrackState::Running,
            fired@ == decisions(old(self).steps(), old(self).cursor(), ticks as nat),
            final(self).cursor() == (old(self).cursor() + ticks) % (old(self).steps().len() as int),
    {
        proof {
            use_type_invariant(&*self);
        }
        let ghost start = self.cursor();
        let ghost n = self.steps().len() as int;
        let mut fired: Vec<bool> = Vec::new();
        let mut i: usize = 0;
        proof {
            lemma_small_mod(start, n as nat);
        }
        while i < ticks
            invariant
                i <= ticks,
                self.wf(),
                self.steps() == old(self).steps(),
                self.state() == TrackState::Running,
                n == self.steps().len(),
                start == old(self).cursor(),
                self.cursor() == (start + i) % n,
                fired@ == decisions(self.steps(), start, i as nat),
            decreases ticks - i,
        {
            let fire = self.tick();
            if let Some(hit) = fire {
                fired.push(hit);
            }
            proof {
                lemma_add_mod_noop_right(1, start + i, n);
                assert(fired@ =~= decisions(self.steps(), start, (i + 1) as nat));
            }
            i += 1;
        }
        fired
    }
}

/// The decisions of a track that starts on the first step are the hits
/// of the pattern played round and round.
pub proof fn law_decisions_follow_cycle(s: Seq<u8>, n: nat)
    requires
        s.len() > 0,
    ensures
        decisions(s, 0, n) == cycle_seq(s, n).map_values(|b: u8| b == 1u8),
{
    assert(decisions(s, 0, n) =~= cycle_seq(s, n).map_values(|b: u8| b == 1u8));
}

} // verus!
