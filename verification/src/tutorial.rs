//! The eleven-step tutorial: which goal each step waits for and how steps
//! advance.

use vstd::prelude::*;

verus! {

/// Number of tutorial steps.
pub const TUT_LEN: usize = 11;

/// What the player must do to finish a tutorial step.
#[derive(Clone, Copy, PartialEq, Eq, Structural, Debug)]
pub enum TutGoal {
    Move,
    Orbit,
    Mine,
    Deposit,
    PlaceExtractor,
    PowerExtractor,
    DeliverPacket,
    GetDrone,
    BuildTurret,
    Research,
    Launch,
}

pub open spec fn goal_of(step: usize) -> TutGoal {
    if step == 0 {
        TutGoal::Move
    } else if step == 1 {
        TutGoal::Orbit
    } else if step == 2 {
        TutGoal::Mine
    } else if step == 3 {
        TutGoal::Deposit
    } else if step == 4 {
        TutGoal::PlaceExtractor
    } else if step == 5 {
        TutGoal::PowerExtractor
    } else if step == 6 {
        TutGoal::DeliverPacket
    } else if step == 7 {
        TutGoal::GetDrone
    } else if step == 8 {
        TutGoal::BuildTurret
    } else if step == 9 {
        TutGoal::Research
    } else {
        TutGoal::Launch
    }
}

/// The steps in order: move, orbit the camera, mine, deposit, place an
/// extractor, power it, deliver a packet, get a drone, build a turret,
/// research, launch; any step past the end waits for the launch.
pub proof fn lemma_steps(step: usize)
    ensures
        goal_of(0) == TutGoal::Move,
        goal_of(1) == TutGoal::Orbit,
        goal_of(2) == TutGoal::Mine,
        goal_of(3) == TutGoal::Deposit,
        goal_of(4) == TutGoal::PlaceExtractor,
        goal_of(5) == TutGoal::PowerExtractor,
        goal_of(6) == TutGoal::DeliverPacket,
        goal_of(7) == TutGoal::GetDrone,
        goal_of(8) == TutGoal::BuildTurret,
        goal_of(9) == TutGoal::Research,
        step >= 10 ==> goal_of(step) == TutGoal::Launch,
{
}

pub struct Tutorial {
    pub step: usize,
    pub done: bool,
}

impl Tutorial {
    pub fn new() -> (t: Tutorial)
        ensures
            t.step == 0,
            !t.done,
    {
        Tutorial { step: 0, done: false }
    }

    /// The goal the current step waits for.
    pub fn goal(&self) -> (g: TutGoal)
        ensures
            g == goal_of(self.step),
    {
        let s = self.step;
        if s == 0 {
            TutGoal::Move
        } else if s == 1 {
            TutGoal::Orbit
        } else if s == 2 {
            TutGoal::Mine
        } else if s == 3 {
            TutGoal::Deposit
        } else if s == 4 {
            TutGoal::PlaceExtractor
        } else if s == 5 {
            TutGoal::PowerExtractor
        } else if s == 6 {
            TutGoal::DeliverPacket
        } else if s == 7 {
            TutGoal::GetDrone
        } else if s == 8 {
            TutGoal::BuildTurret
        } else if s == 9 {
            TutGoal::Research
        } else {
            TutGoal::Launch
        }
    }

    /// The player skips the current step (nothing happens once finished).
    pub fn skip(&mut self)
        requires
            old(self).step < usize::MAX,
        ensures
            final(self).done == old(self).done,
            final(self).step == if old(self).done { old(self).step as int } else { old(self).step + 1 },
    {
        if !self.done {
            self.step = self.step + 1;
        }
    }

    /// One tutorial tick: moves on when the goal was met, finishes after the
    /// last step. Returns the step whose text should show, if any.
    pub fn tick(&mut self, goal_met: bool) -> (show: Option<usize>)
        requires
            old(self).step < usize::MAX,
        ensures
            old(self).done ==> final(self).step == old(self).step && final(self).done && show is None,
            !old(self).done ==> {
                let s = if goal_met { old(self).step + 1 } else { old(self).step as int };
                &&& final(self).step == s
                &&& final(self).done == (s >= TUT_LEN)
                &&& show == if s >= TUT_LEN { None } else { Some(s as usize) }
            },
    {
        if self.done {
            return None;
        }
        if goal_met {
            self.step = self.step + 1;
        }
        if self.step >= TUT_LEN {
            self.done = true;
            return None;
        }
        Some(self.step)
    }
}

} // verus!
