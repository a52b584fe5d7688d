//! The day/night calendar: how long each phase lasts and what happens when
//! one ends; and the launch engine's ignition decision.

use vstd::prelude::*;
use crate::kinds::{Phase, phase_len_secs};

verus! {

/// Length of `phase` on day `day`, in whole seconds.
pub fn phase_len(phase: Phase, day: u32) -> (s: u32)
    ensures
        s == phase_len_secs(phase, day),
{
    match phase {
        Phase::Dawn => 22,
        Phase::Day => 115,
        Phase::Dusk => 18,
        Phase::Night => {
            if day <= 10 {
                75 + 6 * day
            } else {
                140
            }
        },
    }
}

/// What ending a phase does to the calendar.
pub struct PhaseStep {
    pub phase: Phase,
    pub day: u32,
    /// The night is over: the adaptation report is due.
    pub report: bool,
    /// Message for the player, if any.
    pub notice: Option<&'static str>,
}

pub open spec fn next_phase(p: Phase) -> Phase {
    match p {
        Phase::Dawn => Phase::Day,
        Phase::Day => Phase::Dusk,
        Phase::Dusk => Phase::Night,
        Phase::Night => Phase::Dawn,
    }
}

/// Dawn gives way to day, day to dusk, dusk to night; when the night ends the
/// calendar rolls over to the next dawn and the report is due.
pub fn end_phase(phase: Phase, day: u32) -> (st: PhaseStep)
    requires
        phase == Phase::Night ==> day < u32::MAX,
    ensures
        st.phase == next_phase(phase),
        st.day == if phase == Phase::Night { day + 1 } else { day as int },
        st.report == (phase == Phase::Night),
        st.notice matches Some(m) ==> (phase == Phase::Dawn && m@ == "Day phase: explore and expand."@) || (
        phase == Phase::Day && m@ == "DUSK: ancient machinery is waking up."@),
        st.notice is None <==> (phase == Phase::Dusk || phase == Phase::Night),
{
    match phase {
        Phase::Dawn => PhaseStep { phase: Phase::Day, day, report: false, notice: Some("Day phase: explore and expand.") },
        Phase::Day => PhaseStep {
            phase: Phase::Dusk,
            day,
            report: false,
            notice: Some("DUSK: ancient machinery is waking up."),
        },
        Phase::Dusk => PhaseStep { phase: Phase::Night, day, report: false, notice: None },
        Phase::Night => PhaseStep { phase: Phase::Dawn, day: day + 1, report: true, notice: None },
    }
}

/// A full cycle of four phases returns to the same phase one day later, with
/// exactly one report on the way.
pub proof fn lemma_full_cycle(p: Phase)
    ensures
        next_phase(next_phase(next_phase(next_phase(p)))) == p,
        (p == Phase::Night) as int + (next_phase(p) == Phase::Night) as int + (next_phase(next_phase(p))
            == Phase::Night) as int + (next_phase(next_phase(next_phase(p))) == Phase::Night) as int == 1,
{
}

/// The calendar: dawn lasts 22 s, day 115 s, dusk 18 s, and the night of
/// day `d` lasts 75 + 6·d seconds, capped at 140; the phases follow each
/// other dawn, day, dusk, night, and back to dawn.
pub proof fn lemma_calendar(day: u32)
    ensures
        phase_len_secs(Phase::Dawn, day) == 22,
        phase_len_secs(Phase::Day, day) == 115,
        phase_len_secs(Phase::Dusk, day) == 18,
        phase_len_secs(Phase::Night, day) == if 75 + 6 * day <= 140 { 75 + 6 * day } else { 140 },
        next_phase(Phase::Dawn) == Phase::Day,
        next_phase(Phase::Day) == Phase::Dusk,
        next_phase(Phase::Dusk) == Phase::Night,
        next_phase(Phase::Night) == Phase::Dawn,
{
}

/// Nights never get shorter from one day to the next, and never exceed 140 s.
pub proof fn lemma_nights_lengthen(d1: u32, d2: u32)
    requires
        d1 <= d2,
    ensures
        phase_len_secs(Phase::Night, d1) <= phase_len_secs(Phase::Night, d2) <= 140,
{
}

// ---------------- launch ----------------
/// Engine segments needed for ignition.
pub const LAUNCH_SEGMENTS: u32 = 6;

/// What the launch sequencer does this tick.
#[derive(Clone, Copy, PartialEq, Eq, Structural, Debug)]
pub enum LaunchAction {
    /// Nothing armed and not enough segments.
    Wait,
    /// All segments online: start the ignition countdown.
    Arm,
    /// A segment went down during the countdown: abort.
    Abort,
    /// Keep counting down.
    Count,
}

/// Decides from whether the countdown runs and how many finished segments
/// stand.
pub fn launch_step(counting: bool, built: u32) -> (a: LaunchAction)
    ensures
        a == if !counting {
            if built >= LAUNCH_SEGMENTS {
                LaunchAction::Arm
            } else {
                LaunchAction::Wait
            }
        } else if built < LAUNCH_SEGMENTS {
            LaunchAction::Abort
        } else {
            LaunchAction::Count
        },
{
    if !counting {
        if built >= LAUNCH_SEGMENTS {
            LaunchAction::Arm
        } else {
            LaunchAction::Wait
        }
    } else if built < LAUNCH_SEGMENTS {
        LaunchAction::Abort
    } else {
        LaunchAction::Count
    }
}

} // verus!
