//! The ancient machines: their kinds, nest growth and where corruption
//! spreads.

use vstd::prelude::*;
use crate::rng::{Rng, xorshift};
use crate::kinds::Phase;

verus! {

#[derive(Clone, Copy, PartialEq, Eq, Structural, Debug)]
pub enum EKind {
    Mite,
    Knight,
    Spitter,
    Priest,
    Leech,
    Bomber,
    Titan,
    Parasite,
}

/// Every enemy kind, in the order of the wave weights.
pub const EKINDS: [EKind; 8] = [
    EKind::Mite,
    EKind::Knight,
    EKind::Spitter,
    EKind::Priest,
    EKind::Leech,
    EKind::Bomber,
    EKind::Titan,
    EKind::Parasite,
];

/// Nests grow one level every three days.
pub open spec fn spec_nest_level(day: u32) -> u32 {
    (1 + (if day >= 1 { day - 1 } else { 0 }) / 3) as u32
}

pub fn nest_level(day: u32) -> (l: u32)
    ensures
        l == spec_nest_level(day),
        l >= 1,
{
    1 + day.saturating_sub(1) / 3
}

/// Enemies head home while it is dawn or day, unless the final assault is
/// under way or a relic storm makes them aggressive.
pub fn calm(phase: Phase, final_mode: bool, aggress: bool) -> (b: bool)
    ensures
        b == ((phase == Phase::Dawn || phase == Phase::Day) && !final_mode && !aggress),
{
    let daylight = match phase {
        Phase::Dawn | Phase::Day => true,
        _ => false,
    };
    daylight && !final_mode && !aggress
}

/// A kind of building an enemy hunts.
#[derive(Clone, Copy, PartialEq, Eq, Structural, Debug)]
pub enum Prey {
    /// Any building with construction under way or done.
    Standing,
    /// Rail, arc and mortar turrets, whether or not construction has begun.
    Guns,
    /// Finished buildings drawing more than a fifth of their power.
    Powered,
    /// Conveyors, sorters and silos, whether or not construction has begun.
    Logistics,
    /// Pylons that are not disabled, whether or not construction has begun.
    Pylons,
}

/// One step of an enemy's target search: the nearest candidate of a sort
/// within a range in surface units.
#[derive(Clone, Copy, PartialEq, Eq, Structural, Debug)]
pub enum Aim {
    Player(u32),
    Drone(u32),
    Building(Prey, u32),
}

/// Where each kind of enemy looks for a target, in order; the first step
/// that finds one wins, and an enemy that finds none follows the flow field.
pub open spec fn aim_table(k: EKind) -> Seq<Aim> {
    match k {
        EKind::Mite | EKind::Knight => seq![Aim::Player(10), Aim::Drone(8), Aim::Building(Prey::Standing, 6)],
        EKind::Titan => seq![Aim::Player(10), Aim::Building(Prey::Standing, 6)],
        EKind::Spitter => seq![
            Aim::Building(Prey::Guns, 15),
            Aim::Player(15),
            Aim::Building(Prey::Standing, 14),
        ],
        EKind::Priest => seq![],
        EKind::Leech => seq![Aim::Building(Prey::Powered, 22), Aim::Drone(12)],
        EKind::Bomber => seq![Aim::Building(Prey::Logistics, 34)],
        EKind::Parasite => seq![Aim::Building(Prey::Pylons, 60)],
    }
}

pub fn aim_order(k: EKind) -> (v: Vec<Aim>)
    ensures
        v@ == aim_table(k),
{
    match k {
        EKind::Mite | EKind::Knight => vec![Aim::Player(10), Aim::Drone(8), Aim::Building(Prey::Standing, 6)],
        EKind::Titan => vec![Aim::Player(10), Aim::Building(Prey::Standing, 6)],
        EKind::Spitter => vec![Aim::Building(Prey::Guns, 15), Aim::Player(15), Aim::Building(Prey::Standing, 14)],
        EKind::Priest => Vec::new(),
        EKind::Leech => vec![Aim::Building(Prey::Powered, 22), Aim::Drone(12)],
        EKind::Bomber => vec![Aim::Building(Prey::Logistics, 34)],
        EKind::Parasite => vec![Aim::Building(Prey::Pylons, 60)],
    }
}

/// How an enemy moves relative to its target.
#[derive(Clone, Copy, PartialEq, Eq, Structural, Debug)]
pub enum Stance {
    Advance,
    Retreat,
    Hold,
}

/// Spitters keep their distance: a hurt spitter (under 40% health) backs
/// off, one farther than 11 units closes in, one nearer than 7 backs off,
/// and one in between holds its ground. Every other kind charges.
pub open spec fn spec_stance(k: EKind, hurt: bool, far: bool, near: bool) -> Stance {
    if k != EKind::Spitter {
        Stance::Advance
    } else if hurt {
        Stance::Retreat
    } else if far {
        Stance::Advance
    } else if near {
        Stance::Retreat
    } else {
        Stance::Hold
    }
}

pub fn stance(k: EKind, hurt: bool, far: bool, near: bool) -> (s: Stance)
    ensures
        s == spec_stance(k, hurt, far, near),
{
    if k != EKind::Spitter {
        Stance::Advance
    } else if hurt {
        Stance::Retreat
    } else if far {
        Stance::Advance
    } else if near {
        Stance::Retreat
    } else {
        Stance::Hold
    }
}

/// What an enemy does when its attack lands.
#[derive(Clone, Copy, PartialEq, Eq, Structural, Debug)]
pub enum Strike {
    /// Fires a projectile at the target.
    Shoot,
    /// Explodes, destroying itself.
    Detonate,
    /// Disables the pylon it reached, destroying itself.
    Sabotage,
    /// Hits the target and everything around it.
    Sweep,
    /// Hits the target in melee; `slows` marks a slowing hit.
    Melee { slows: bool },
}

pub open spec fn spec_strike(k: EKind) -> Strike {
    match k {
        EKind::Spitter => Strike::Shoot,
        EKind::Bomber => Strike::Detonate,
        EKind::Parasite => Strike::Sabotage,
        EKind::Titan => Strike::Sweep,
        EKind::Leech => Strike::Melee { slows: true },
        _ => Strike::Melee { slows: false },
    }
}

pub fn strike_of(k: EKind) -> (s: Strike)
    ensures
        s == spec_strike(k),
{
    match k {
        EKind::Spitter => Strike::Shoot,
        EKind::Bomber => Strike::Detonate,
        EKind::Parasite => Strike::Sabotage,
        EKind::Titan => Strike::Sweep,
        EKind::Leech => Strike::Melee { slows: true },
        _ => Strike::Melee { slows: false },
    }
}

/// What each kind does when its attack lands: spitters shoot, bombers
/// explode, parasites sabotage pylons, titans sweep; every other kind hits in
/// melee, and of those only leeches slow their victims.
pub proof fn lemma_strikes(k: EKind)
    ensures
        (spec_strike(k) == Strike::Shoot) <==> k == EKind::Spitter,
        (spec_strike(k) == Strike::Detonate) <==> k == EKind::Bomber,
        (spec_strike(k) == Strike::Sabotage) <==> k == EKind::Parasite,
        (spec_strike(k) == Strike::Sweep) <==> k == EKind::Titan,
        (spec_strike(k) is Melee) <==> (k == EKind::Mite || k == EKind::Knight || k == EKind::Priest || k
            == EKind::Leech),
        spec_strike(k) matches Strike::Melee { slows } ==> (slows <==> k == EKind::Leech),
{
}

/// Only spitters keep their distance. Any other kind always advances; a
/// hurt spitter always backs off; a healthy one closes in when far, backs
/// off when near, and holds between.
pub proof fn lemma_stances(k: EKind, hurt: bool, far: bool, near: bool)
    ensures
        k != EKind::Spitter ==> spec_stance(k, hurt, far, near) == Stance::Advance,
        k == EKind::Spitter && hurt ==> spec_stance(k, hurt, far, near) == Stance::Retreat,
        k == EKind::Spitter && !hurt && far ==> spec_stance(k, hurt, far, near) == Stance::Advance,
        k == EKind::Spitter && !hurt && !far && near ==> spec_stance(k, hurt, far, near) == Stance::Retreat,
        k == EKind::Spitter && !hurt && !far && !near ==> spec_stance(k, hurt, far, near) == Stance::Hold,
{
}

/// How each kind hunts. Mites and knights go for the player within 10, then
/// a drone within 8, then any standing building within 6; titans the same
/// without drones; spitters first look for a gun turret within 15, then the
/// player, then a building within 14; leeches go for a powered building
/// within 22, then a drone within 12; bombers for logistics within 34;
/// parasites for a pylon within 60; priests hunt nothing.
pub proof fn lemma_hunting(k: EKind)
    ensures
        aim_table(EKind::Knight) == aim_table(EKind::Mite),
        aim_table(EKind::Mite).len() == 3,
        aim_table(EKind::Mite)[0] == Aim::Player(10),
        aim_table(EKind::Mite)[1] == Aim::Drone(8),
        aim_table(EKind::Mite)[2] == Aim::Building(Prey::Standing, 6),
        aim_table(EKind::Titan) == seq![aim_table(EKind::Mite)[0], aim_table(EKind::Mite)[2]],
        aim_table(EKind::Spitter).len() == 3,
        aim_table(EKind::Spitter)[0] == Aim::Building(Prey::Guns, 15),
        aim_table(EKind::Spitter)[1] == Aim::Player(15),
        aim_table(EKind::Spitter)[2] == Aim::Building(Prey::Standing, 14),
        aim_table(EKind::Leech).len() == 2,
        aim_table(EKind::Leech)[0] == Aim::Building(Prey::Powered, 22),
        aim_table(EKind::Leech)[1] == Aim::Drone(12),
        aim_table(EKind::Bomber).len() == 1,
        aim_table(EKind::Bomber)[0] == Aim::Building(Prey::Logistics, 34),
        aim_table(EKind::Parasite).len() == 1,
        aim_table(EKind::Parasite)[0] == Aim::Building(Prey::Pylons, 60),
        (aim_table(k).len() == 0) <==> k == EKind::Priest,
{
}

/// Nests start at level 1 and gain one level every three days.
pub proof fn lemma_nest_growth(day: u32)
    ensures
        spec_nest_level(0) == 1,
        1 <= day <= 3 ==> spec_nest_level(day) == 1,
        day >= 1 && day <= u32::MAX - 3 ==> spec_nest_level((day + 3) as u32) == spec_nest_level(day) + 1,
        day >= 1 ==> spec_nest_level((day - 1) as u32) <= spec_nest_level(day),
{
}

/// A draw below `n` from the generator state that follows `s`.
pub open spec fn draw_below(s: u64, n: int) -> int {
    (xorshift(s) as int) % n
}

/// The cell a nest of `level` corrupts next: uniformly within 4 + level
/// cells of the nest along each axis (x drawn first).
pub fn corruption_target(nest: (i32, i32), level: u32, rng: &mut Rng) -> (c: (i32, i32))
    requires
        level <= 1_000_000,
        -1_000_000 <= nest.0 <= 1_000_000,
        -1_000_000 <= nest.1 <= 1_000_000,
    ensures
        ({
            let r = 4 + level;
            let s1 = xorshift(old(rng).0);
            &&& c.0 == nest.0 + draw_below(old(rng).0, 2 * r + 1) - r
            &&& c.1 == nest.1 + draw_below(s1, 2 * r + 1) - r
            &&& final(rng).0 == xorshift(s1)
            &&& nest.0 - r <= c.0 <= nest.0 + r
            &&& nest.1 - r <= c.1 <= nest.1 + r
        }),
{
    let r = 4 + level as i32;
    let dx = rng.below(r * 2 + 1);
    let dy = rng.below(r * 2 + 1);
    (nest.0 + dx - r, nest.1 + dy - r)
}

} // verus!
