//! The discrete vocabulary of the colony: resource kinds, terrain, the
//! day/night phases, damage sources and world events.

use vstd::prelude::*;

verus! {

// ---------------- resource kinds ----------------
/// Number of resource kinds.
pub const NRES: usize = 8;
pub const R_SCRAP: usize = 0;
pub const R_ALLOY: usize = 1;
pub const R_CRYSTAL: usize = 2;
pub const R_COOLANT: usize = 3;
pub const R_CIRCUIT: usize = 4;
pub const R_RELIC: usize = 5;
pub const R_CORE: usize = 6;
pub const R_LPART: usize = 7;

/// Display name of a resource kind.
pub open spec fn spec_res_name(i: usize) -> Seq<char> {
    if i == R_SCRAP {
        "Scrap"@
    } else if i == R_ALLOY {
        "Alloy"@
    } else if i == R_CRYSTAL {
        "Crystal"@
    } else if i == R_COOLANT {
        "Coolant"@
    } else if i == R_CIRCUIT {
        "Circuit"@
    } else if i == R_RELIC {
        "Relic"@
    } else if i == R_CORE {
        "DrnCore"@
    } else {
        "L.Part"@
    }
}

/// Display name of resource kind `i` (`i < NRES`).
pub fn res_name(i: usize) -> (s: &'static str)
    requires
        i < NRES,
    ensures
        s@ == spec_res_name(i),
{
    if i == R_SCRAP {
        "Scrap"
    } else if i == R_ALLOY {
        "Alloy"
    } else if i == R_CRYSTAL {
        "Crystal"
    } else if i == R_COOLANT {
        "Coolant"
    } else if i == R_CIRCUIT {
        "Circuit"
    } else if i == R_RELIC {
        "Relic"
    } else if i == R_CORE {
        "DrnCore"
    } else {
        "L.Part"
    }
}

// ---------------- terrain ----------------
#[derive(Clone, Copy, PartialEq, Eq, Structural, Debug)]
pub enum Terrain {
    Hull,
    Regolith,
    Crystal,
    Marsh,
    Ruin,
    Glass,
    Growth,
}

/// The byte that stands for a terrain in a save file.
pub open spec fn terrain_code(t: Terrain) -> u8 {
    match t {
        Terrain::Hull => 0,
        Terrain::Regolith => 1,
        Terrain::Crystal => 2,
        Terrain::Marsh => 3,
        Terrain::Ruin => 4,
        Terrain::Glass => 5,
        Terrain::Growth => 6,
    }
}

/// The terrain a save-file byte decodes to: unknown bytes read as hull.
pub open spec fn terrain_of_code(b: u8) -> Terrain {
    if b == 1 {
        Terrain::Regolith
    } else if b == 2 {
        Terrain::Crystal
    } else if b == 3 {
        Terrain::Marsh
    } else if b == 4 {
        Terrain::Ruin
    } else if b == 5 {
        Terrain::Glass
    } else if b == 6 {
        Terrain::Growth
    } else {
        Terrain::Hull
    }
}

pub open spec fn terrain_name(t: Terrain) -> Seq<char> {
    match t {
        Terrain::Hull => "Hull Plate"@,
        Terrain::Regolith => "Regolith Dust"@,
        Terrain::Crystal => "Crystal Scar"@,
        Terrain::Marsh => "Coolant Marsh"@,
        Terrain::Ruin => "Black-Metal Ruin"@,
        Terrain::Glass => "Reactor Glass"@,
        Terrain::Growth => "Corrupted Growth"@,
    }
}

impl Terrain {
    pub fn name(self) -> (s: &'static str)
        ensures
            s@ == terrain_name(self),
    {
        match self {
            Terrain::Hull => "Hull Plate",
            Terrain::Regolith => "Regolith Dust",
            Terrain::Crystal => "Crystal Scar",
            Terrain::Marsh => "Coolant Marsh",
            Terrain::Ruin => "Black-Metal Ruin",
            Terrain::Glass => "Reactor Glass",
            Terrain::Growth => "Corrupted Growth",
        }
    }

    pub fn to_u8(self) -> (b: u8)
        ensures
            b == terrain_code(self),
    {
        match self {
            Terrain::Hull => 0,
            Terrain::Regolith => 1,
            Terrain::Crystal => 2,
            Terrain::Marsh => 3,
            Terrain::Ruin => 4,
            Terrain::Glass => 5,
            Terrain::Growth => 6,
        }
    }

    pub fn from_u8(b: u8) -> (t: Terrain)
        ensures
            t == terrain_of_code(b),
    {
        match b {
            1 => Terrain::Regolith,
            2 => Terrain::Crystal,
            3 => Terrain::Marsh,
            4 => Terrain::Ruin,
            5 => Terrain::Glass,
            6 => Terrain::Growth,
            _ => Terrain::Hull,
        }
    }
}

/// Decoding the code of a terrain gives the terrain back.
pub proof fn lemma_terrain_code_roundtrip(t: Terrain)
    ensures
        terrain_of_code(terrain_code(t)) == t,
        terrain_code(t) < 7,
{
}

/// A byte below 7 is the code of the terrain it decodes to; any other byte
/// decodes to hull plate.
pub proof fn lemma_terrain_decode_encode(b: u8)
    ensures
        b < 7 ==> terrain_code(terrain_of_code(b)) == b,
        b >= 7 ==> terrain_of_code(b) == Terrain::Hull,
{
}

// ---------------- day / night phases ----------------
#[derive(Clone, Copy, PartialEq, Eq, Structural, Debug)]
pub enum Phase {
    Dawn,
    Day,
    Dusk,
    Night,
}

pub open spec fn phase_code(p: Phase) -> u8 {
    match p {
        Phase::Dawn => 0,
        Phase::Day => 1,
        Phase::Dusk => 2,
        Phase::Night => 3,
    }
}

pub open spec fn phase_of_code(b: u8) -> Phase {
    if b == 1 {
        Phase::Day
    } else if b == 2 {
        Phase::Dusk
    } else if b == 3 {
        Phase::Night
    } else {
        Phase::Dawn
    }
}

pub open spec fn phase_name(p: Phase) -> Seq<char> {
    match p {
        Phase::Dawn => "DAWN"@,
        Phase::Day => "DAY"@,
        Phase::Dusk => "DUSK"@,
        Phase::Night => "NIGHT ASSAULT"@,
    }
}

/// Length of a phase in whole seconds; nights lengthen by six seconds a day
/// up to 140 seconds.
pub open spec fn phase_len_secs(p: Phase, day: u32) -> u32 {
    match p {
        Phase::Dawn => 22,
        Phase::Day => 115,
        Phase::Dusk => 18,
        Phase::Night => if 75 + 6 * day <= 140 { (75 + 6 * day) as u32 } else { 140 },
    }
}

impl Phase {
    pub fn name(self) -> (s: &'static str)
        ensures
            s@ == phase_name(self),
    {
        match self {
            Phase::Dawn => "DAWN",
            Phase::Day => "DAY",
            Phase::Dusk => "DUSK",
            Phase::Night => "NIGHT ASSAULT",
        }
    }

    pub fn to_u8(self) -> (b: u8)
        ensures
            b == phase_code(self),
    {
        match self {
            Phase::Dawn => 0,
            Phase::Day => 1,
            Phase::Dusk => 2,
            Phase::Night => 3,
        }
    }

    pub fn from_u8(b: u8) -> (p: Phase)
        ensures
            p == phase_of_code(b),
    {
        match b {
            1 => Phase::Day,
            2 => Phase::Dusk,
            3 => Phase::Night,
            _ => Phase::Dawn,
        }
    }
}

/// Decoding the code of a phase gives the phase back.
pub proof fn lemma_phase_code_roundtrip(p: Phase)
    ensures
        phase_of_code(phase_code(p)) == p,
        phase_code(p) < 4,
{
}

/// A byte below 4 is the code of the phase it decodes to; any other byte
/// decodes to dawn.
pub proof fn lemma_phase_decode_encode(b: u8)
    ensures
        b < 4 ==> phase_code(phase_of_code(b)) == b,
        b >= 4 ==> phase_of_code(b) == Phase::Dawn,
{
}

// ---------------- damage sources ----------------
#[derive(Clone, Copy, PartialEq, Eq, Structural, Debug)]
pub enum DmgSrc {
    PKin,
    PArc,
    PHam,
    Turret,
    Mortar,
    Wall,
    Drone,
    Enemy,
    Hazard,
}

/// Kill-tally slot of a damage source; hazards share the enemy slot.
pub open spec fn dmg_slot(s: DmgSrc) -> usize {
    match s {
        DmgSrc::PKin => 0,
        DmgSrc::PArc => 1,
        DmgSrc::PHam => 2,
        DmgSrc::Turret => 3,
        DmgSrc::Mortar => 4,
        DmgSrc::Wall => 5,
        DmgSrc::Drone => 6,
        DmgSrc::Enemy => 7,
        DmgSrc::Hazard => 7,
    }
}

impl DmgSrc {
    pub fn idx(self) -> (i: usize)
        ensures
            i == dmg_slot(self),
            i < 8,
    {
        match self {
            DmgSrc::PKin => 0,
            DmgSrc::PArc => 1,
            DmgSrc::PHam => 2,
            DmgSrc::Turret => 3,
            DmgSrc::Mortar => 4,
            DmgSrc::Wall => 5,
            DmgSrc::Drone => 6,
            DmgSrc::Enemy => 7,
            DmgSrc::Hazard => 7,
        }
    }
}

// ---------------- world events ----------------
#[derive(Clone, Copy, PartialEq, Eq, Structural, Debug)]
pub enum GEvent {
    Eclipse,
    Meteor,
    Flood,
    Bloom,
    GhostSignal,
    Merchant,
    Quake,
    RelicStorm,
}

pub open spec fn event_name(e: GEvent) -> Seq<char> {
    match e {
        GEvent::Eclipse => "ECLIPSE"@,
        GEvent::Meteor => "METEOR RAIN"@,
        GEvent::Flood => "COOLANT FLOOD"@,
        GEvent::Bloom => "CORRUPTION BLOOM"@,
        GEvent::GhostSignal => "GHOST SIGNAL"@,
        GEvent::Merchant => "MERCHANT ARK"@,
        GEvent::Quake => "HULL QUAKE"@,
        GEvent::RelicStorm => "RELIC STORM"@,
    }
}

/// How long an event stays active, in whole seconds.
pub open spec fn event_secs(e: GEvent) -> u32 {
    match e {
        GEvent::Eclipse => 45,
        GEvent::Meteor => 25,
        GEvent::Flood => 30,
        GEvent::Bloom => 50,
        GEvent::GhostSignal => 25,
        GEvent::Merchant => 45,
        GEvent::Quake => 3,
        GEvent::RelicStorm => 45,
    }
}

impl GEvent {
    pub fn name(self) -> (s: &'static str)
        ensures
            s@ == event_name(self),
    {
        match self {
            GEvent::Eclipse => "ECLIPSE",
            GEvent::Meteor => "METEOR RAIN",
            GEvent::Flood => "COOLANT FLOOD",
            GEvent::Bloom => "CORRUPTION BLOOM",
            GEvent::GhostSignal => "GHOST SIGNAL",
            GEvent::Merchant => "MERCHANT ARK",
            GEvent::Quake => "HULL QUAKE",
            GEvent::RelicStorm => "RELIC STORM",
        }
    }

    /// Active duration in whole seconds.
    pub fn duration_secs(self) -> (d: u32)
        ensures
            d == event_secs(self),
    {
        match self {
            GEvent::Eclipse => 45,
            GEvent::Meteor => 25,
            GEvent::Flood => 30,
            GEvent::Bloom => 50,
            GEvent::GhostSignal => 25,
            GEvent::Merchant => 45,
            GEvent::Quake => 3,
            GEvent::RelicStorm => 45,
        }
    }
}

/// The numbering the save format uses: terrains are numbered in the order
/// hull plate, regolith, crystal scar, marsh, ruin, reactor glass, growth
/// (0 to 6), phases dawn to night (0 to 3); each player weapon, turrets,
/// mortars, walls, drones and enemies have their own kill-tally slot (0 to
/// 7) and hazards count with enemies.
pub proof fn lemma_codes()
    ensures
        terrain_code(Terrain::Hull) == 0 && terrain_code(Terrain::Regolith) == 1 && terrain_code(Terrain::Crystal) == 2
            && terrain_code(Terrain::Marsh) == 3 && terrain_code(Terrain::Ruin) == 4 && terrain_code(Terrain::Glass) == 5
            && terrain_code(Terrain::Growth) == 6,
        phase_code(Phase::Dawn) == 0 && phase_code(Phase::Day) == 1 && phase_code(Phase::Dusk) == 2 && phase_code(
            Phase::Night,
        ) == 3,
        dmg_slot(DmgSrc::PKin) == 0 && dmg_slot(DmgSrc::PArc) == 1 && dmg_slot(DmgSrc::PHam) == 2 && dmg_slot(
            DmgSrc::Turret,
        ) == 3 && dmg_slot(DmgSrc::Mortar) == 4 && dmg_slot(DmgSrc::Wall) == 5 && dmg_slot(DmgSrc::Drone) == 6
            && dmg_slot(DmgSrc::Enemy) == 7 && dmg_slot(DmgSrc::Hazard) == 7,
{
}

/// How long each event stays active: eclipse, merchant and relic storm 45 s,
/// meteor rain and ghost signal 25 s, coolant flood 30 s, corruption bloom
/// 50 s, hull quake 3 s.
pub proof fn lemma_event_durations()
    ensures
        event_secs(GEvent::Eclipse) == 45 && event_secs(GEvent::Merchant) == 45 && event_secs(GEvent::RelicStorm) == 45,
        event_secs(GEvent::Meteor) == 25 && event_secs(GEvent::GhostSignal) == 25,
        event_secs(GEvent::Flood) == 30 && event_secs(GEvent::Bloom) == 50 && event_secs(GEvent::Quake) == 3,
{
}

} // verus!
