//! The order of a tick.
//!
//! A [`Scheduler`] says what is to be done next and keeps the set of bodies
//! touched since the last output. It performs nothing itself: whoever runs
//! the match does what [`Scheduler::advance`] returns and then asks again.

use crate::game::{is_won, Game};
use crate::physics_world::{note_handle, BodyHandle};
use vstd::prelude::*;

verus! {

/// Where the match stands within a tick.
#[derive(Clone, Copy, Debug, PartialEq, Eq, Structural)]
pub enum Phase {
    Idle,
    ApplyingInput,
    Stepping,
    Resolving,
    Emitting,
    Sleeping,
}

/// What is to be done on entering a phase.
#[derive(Clone, Copy, Debug, PartialEq, Eq, Structural)]
pub enum Action {
    /// Take the queued commands and apply them.
    ApplyInput,
    /// Carry out the pending requests and step the engine once.
    StepEngine,
    /// Resolve the contacts of the step and remove what is stale.
    Resolve,
    /// Write out the touched entities.
    EmitBodies,
    /// Wait for the rest of the tick's time.
    Sleep,
    /// Write out that the match is won.
    EmitWon,
    /// Stop.
    Halt,
}

/// The mathematical content of a [`Scheduler`].
pub struct SchedulerView {
    pub phase: Phase,
    /// The match was found won at the end of an output.
    pub won: bool,
    /// The bodies touched since the last output.
    pub updated_handles: Set<BodyHandle>,
}

impl SchedulerView {
    /// The state that follows. `won_now` says whether the match is won as
    /// the game stands; it counts only on leaving the output of the
    /// entities. A tick runs through input, step, resolving, output and
    /// sleep. After the sleep of the tick that found the match won comes
    /// one more output, of the win, and then the match rests.
    pub open spec fn next(self, won_now: bool) -> SchedulerView {
        match self.phase {
            Phase::Idle => if self.won {
                self
            } else {
                SchedulerView { phase: Phase::ApplyingInput, ..self }
            },
            Phase::ApplyingInput => SchedulerView { phase: Phase::Stepping, ..self },
            Phase::Stepping => SchedulerView { phase: Phase::Resolving, ..self },
            Phase::Resolving => SchedulerView { phase: Phase::Emitting, ..self },
            Phase::Emitting => if self.won {
                SchedulerView { phase: Phase::Idle, ..self }
            } else {
                SchedulerView {
                    phase: Phase::Sleeping,
                    won: won_now,
                    updated_handles: Set::empty(),
                }
            },
            Phase::Sleeping => if self.won {
                SchedulerView { phase: Phase::Emitting, ..self }
            } else {
                SchedulerView { phase: Phase::ApplyingInput, ..self }
            },
        }
    }

    /// What is to be done in this state.
    pub open spec fn action(self) -> Action {
        match self.phase {
            Phase::Idle => Action::Halt,
            Phase::ApplyingInput => Action::ApplyInput,
            Phase::Stepping => Action::StepEngine,
            Phase::Resolving => Action::Resolve,
            Phase::Emitting => if self.won {
                Action::EmitWon
            } else {
                Action::EmitBodies
            },
            Phase::Sleeping => Action::Sleep,
        }
    }

    /// The state after `n` steps during which the match is not won.
    pub open spec fn run(self, n: nat) -> SchedulerView
        decreases n,
    {
        if n == 0 {
            self
        } else {
            self.run((n - 1) as nat).next(false)
        }
    }

    /// Without a win the phases come round: five steps after input is
    /// applied, input is applied again.
    pub proof fn lemma_tick_comes_round(self)
        requires
            self.phase == Phase::ApplyingInput,
            !self.won,
        ensures
            self.run(1).action() == Action::StepEngine,
            self.run(2).action() == Action::Resolve,
            self.run(3).action() == Action::EmitBodies,
            self.run(4).action() == Action::Sleep,
            self.run(5).action() == Action::ApplyInput,
            !self.run(5).won,
            self.run(5).updated_handles == Set::<BodyHandle>::empty(),
    {
        reveal_with_fuel(SchedulerView::run, 6);
    }

    /// A match found won at the end of an output has its win written out
    /// once, after the sleep of that tick, and then rests for good.
    pub proof fn lemma_win_ends_match(self, later: bool)
        requires
            self.phase == Phase::Emitting,
            !self.won,
        ensures
            self.next(true).action() == Action::Sleep,
            self.next(true).next(later).action() == Action::EmitWon,
            self.next(true).next(later).next(later).action() == Action::Halt,
            self.next(true).next(later).next(later).next(later) == self.next(true).next(later).next(
                later,
            ),
    {
    }
}

/// The state of the tick loop.
pub struct Scheduler {
    phase: Phase,
    won: bool,
    updated_handles: Vec<BodyHandle>,
}

impl View for Scheduler {
    type V = SchedulerView;

    closed spec fn view(&self) -> SchedulerView {
        SchedulerView {
            phase: self.phase,
            won: self.won,
            updated_handles: self.updated_handles@.to_set(),
        }
    }
}

impl Scheduler {
    /// No handle stands twice among the touched ones.
    pub closed spec fn wf(&self) -> bool {
        self.updated_handles@.no_duplicates()
    }

    /// A scheduler before the first tick, with nothing touched.
    pub fn new() -> (scheduler: Scheduler)
        ensures
            scheduler.wf(),
            scheduler@ == (SchedulerView {
                phase: Phase::Idle,
                won: false,
                updated_handles: Set::empty(),
            }),
    {
        let scheduler = Scheduler { phase: Phase::Idle, won: false, updated_handles: Vec::new() };
        assert(scheduler.updated_handles@.to_set() =~= Set::<BodyHandle>::empty());
        scheduler
    }

    /// The phase the match is in.
    pub fn phase(&self) -> (phase: Phase)
        ensures
            phase == self@.phase,
    {
        self.phase
    }

    /// Whether the match has been found won.
    pub fn won(&self) -> (won: bool)
        ensures
            won == self@.won,
    {
        self.won
    }

    /// The bodies touched since the last output, each once.
    pub fn updated_handles(&self) -> (handles: &Vec<BodyHandle>)
        requires
            self.wf(),
        ensures
            handles@.no_duplicates(),
            handles@.to_set() == self@.updated_handles,
    {
        &self.updated_handles
    }

    /// Marks the bodies `handles` as touched.
    pub fn touch(&mut self, handles: &Vec<BodyHandle>)
        requires
            old(self).wf(),
        ensures
            final(self).wf(),
            final(self)@ == (SchedulerView {
                updated_handles: old(self)@.updated_handles.union(handles@.to_set()),
                ..old(self)@
            }),
    {
        let mut i: usize = 0;
        while i < handles.len()
            invariant
                i <= handles.len(),
                self.wf(),
                self.phase == old(self).phase,
                self.won == old(self).won,
                forall|h: BodyHandle|
                    self.updated_handles@.contains(h) <==> (old(self).updated_handles@.contains(h)
                        || exists|k: int| 0 <= k < i && handles@[k] == h),
            decreases handles.len() - i,
        {
            let ghost before = self.updated_handles@;
            note_handle(&mut self.updated_handles, handles[i]);
            proof {
                let after = self.updated_handles@;
                assert forall|h: BodyHandle| after.contains(h) <==> (before.contains(h) || h
                    == handles@[i as int]) by {
                    assert(after.to_set().contains(h) == after.contains(h));
                    assert(before.to_set().contains(h) == before.contains(h));
                }
            }
            i += 1;
        }
        proof {
            assert(self.updated_handles@.to_set() =~= old(self).updated_handles@.to_set().union(
                handles@.to_set(),
            ));
        }
    }

    /// Moves on to the next phase and returns what is to be done in it.
    /// Leaving the output of the entities, the win is evaluated on
    /// `game_state` and the set of touched bodies is emptied.
    pub fn advance(&mut self, game_state: &Game) -> (action: Action)
        requires
            old(self).wf(),
            game_state.wf(),
        ensures
            final(self).wf(),
            final(self)@ == old(self)@.next(game_state@.won()),
            action == final(self)@.action(),
    {
        match self.phase {
            Phase::Idle => {
                if !self.won {
                    self.phase = Phase::ApplyingInput;
                }
            },
            Phase::ApplyingInput => {
                self.phase = Phase::Stepping;
            },
            Phase::Stepping => {
                self.phase = Phase::Resolving;
            },
            Phase::Resolving => {
                self.phase = Phase::Emitting;
            },
            Phase::Emitting => {
                if self.won {
                    self.phase = Phase::Idle;
                } else {
                    self.phase = Phase::Sleeping;
                    self.won = is_won(game_state);
                    self.updated_handles = Vec::new();
                    assert(self.updated_handles@.to_set() =~= Set::<BodyHandle>::empty());
                }
            },
            Phase::Sleeping => {
                if self.won {
                    self.phase = Phase::Emitting;
                } else {
                    self.phase = Phase::ApplyingInput;
                }
            },
        }
        match self.phase {
            Phase::Idle => Action::Halt,
            Phase::ApplyingInput => Action::ApplyInput,
            Phase::Stepping => Action::StepEngine,
            Phase::Resolving => Action::Resolve,
            Phase::Emitting => if self.won {
                Action::EmitWon
            } else {
                Action::EmitBodies
            },
            Phase::Sleeping => Action::Sleep,
        }
    }
}

/// How long to sleep so that a tick that has taken `elapsed` lasts
/// `period`: the rest of the period, or nothing where the tick has already
/// taken as long or longer.
pub fn remaining_time(elapsed: u64, period: u64) -> (rest: u64)
    ensures
        rest == if elapsed < period {
            period - elapsed
        } else {
            0
        },
{
    if elapsed < period {
        period - elapsed
    } else {
        0
    }
}

} // verus!
