//! Starting and finishing research at the reliquary, and what the
//! researched technologies change.

use vstd::prelude::*;

verus! {

/// The answer to a request to start researching a technology.
pub open spec fn start_answer(already: bool, researching: bool, affordable: bool) -> Result<(), Seq<char>> {
    if already {
        Err("Already researched"@)
    } else if researching {
        Err("Research already in progress"@)
    } else if !affordable {
        Err("Insufficient resources"@)
    } else {
        Ok(())
    }
}

/// Whether technology `i` may start now: it must not be researched yet,
/// nothing else may be in progress, and its cost must be payable. On `Ok`
/// the caller pays and starts the timer.
pub fn try_start(unlocked: &Vec<bool>, researching: bool, i: usize, affordable: bool) -> (r: Result<(), &'static str>)
    requires
        i < unlocked@.len(),
    ensures
        match (r, start_answer(unlocked@[i as int], researching, affordable)) {
            (Ok(()), Ok(())) => true,
            (Err(e), Err(m)) => e@ == m,
            _ => false,
        },
{
    if unlocked[i] {
        return Err("Already researched");
    }
    if researching {
        return Err("Research already in progress");
    }
    if !affordable {
        return Err("Insufficient resources");
    }
    Ok(())
}

/// Technology whose completion widens the drone command bandwidth.
pub const BANDWIDTH_TECH: usize = 14;

/// Marks technology `i` researched; returns how many drones of command
/// bandwidth it adds.
pub fn finish_research(unlocked: &mut Vec<bool>, i: usize) -> (bonus: u32)
    requires
        i < old(unlocked)@.len(),
    ensures
        final(unlocked)@ == old(unlocked)@.update(i as int, true),
        bonus == if i == BANDWIDTH_TECH { 4u32 } else { 0u32 },
{
    unlocked.set(i, true);
    if i == BANDWIDTH_TECH {
        4
    } else {
        0
    }
}

/// Technology `i` is researched (indices past the end are not).
pub open spec fn has(unlocked: Seq<bool>, i: int) -> bool {
    0 <= i < unlocked.len() && unlocked[i]
}

/// The effects of the researched technologies. Multipliers are in percent.
pub struct TechEffects {
    pub packet_pct: u32,
    pub storage_pct: u32,
    pub sorter: bool,
    pub overclock_pct: u32,
    pub pylon_pct: u32,
    pub fusion_pct: u32,
    pub solar_night_pct: u32,
    pub brownout: bool,
    pub rail_pct: u32,
    pub arc_chain: u32,
    pub mortar_cluster: bool,
    pub shield_cap_pct: u32,
    pub drone_speed_pct: u32,
    pub drone_armor: u32,
    pub emerg: bool,
    pub stam_pct: u32,
    pub oxy_pct: u32,
    pub arc_heat_pct: u32,
    pub hammer_pct: u32,
    pub radar_pct: u32,
    pub ruin_scan: bool,
    pub ruin_yield_pct: u32,
    pub corrupt_res: u32,
    pub nest_loc: bool,
}

/// `on` when the technology is researched, `off` otherwise.
pub open spec fn pick(u: Seq<bool>, i: int, on: u32, off: u32) -> u32 {
    if has(u, i) {
        on
    } else {
        off
    }
}

/// The effects `unlocked` grants, technology by technology.
pub open spec fn effects_of(u: Seq<bool>) -> TechEffects {
    TechEffects {
        packet_pct: pick(u, 0, 160, 100),
        storage_pct: pick(u, 1, 180, 100),
        sorter: has(u, 2),
        overclock_pct: pick(u, 3, 130, 100),
        pylon_pct: pick(u, 4, 140, 100),
        fusion_pct: pick(u, 5, 125, 100),
        solar_night_pct: pick(u, 6, 35, 0),
        brownout: has(u, 7),
        rail_pct: pick(u, 8, 150, 100),
        arc_chain: pick(u, 9, 3, 1),
        mortar_cluster: has(u, 10),
        shield_cap_pct: pick(u, 11, 200, 100),
        drone_speed_pct: pick(u, 12, 140, 100),
        drone_armor: pick(u, 13, 3, 0),
        emerg: has(u, 15),
        stam_pct: pick(u, 16, 150, 100),
        oxy_pct: pick(u, 17, 50, 100),
        arc_heat_pct: pick(u, 18, 60, 100),
        hammer_pct: pick(u, 19, 160, 100),
        radar_pct: pick(u, 20, 160, 100),
        ruin_scan: has(u, 21),
        ruin_yield_pct: pick(u, 21, 150, 100),
        corrupt_res: pick(u, 22, 1, 0),
        nest_loc: has(u, 23),
    }
}

/// Each effect comes from its own technology, whatever else is researched:
/// mag-rail packets (0) speed packets to 160%, compression silos (1) raise
/// storage to 180%, heuristic sorters (2) unlock the sorter, overclock
/// protocols (3) run machines at 130%, long-span pylons (4) reach 140%,
/// fusion catalysis (5) gives 125%, photonic banks (6) keep 35% solar at
/// night, brownout dampers (7), rail autoloaders (8) 150%, arc cascade (9)
/// chains to 3 targets instead of 1, cluster shells (10), aegis capacitors
/// (11) double shields, drone servos (12) 140% speed, drone plating (13) 3
/// armour, (15) emergency protocol, (16) 150% stamina, (17) half the oxygen
/// use, (18) 60% arc heat, (19) 160% hammer, (20) 160% radar, (21) ruin scan
/// and 150% ruin yield, (22) one point of corruption resistance, (23) nest
/// locations. Technology 14 grants nothing here.
pub proof fn lemma_each_tech_its_effect(u: Seq<bool>)
    ensures
        effects_of(u).packet_pct == if (0 < u.len() && u[0]) { 160u32 } else { 100u32 },
        effects_of(u).storage_pct == if (1 < u.len() && u[1]) { 180u32 } else { 100u32 },
        effects_of(u).sorter == (2 < u.len() && u[2]),
        effects_of(u).overclock_pct == if (3 < u.len() && u[3]) { 130u32 } else { 100u32 },
        effects_of(u).pylon_pct == if (4 < u.len() && u[4]) { 140u32 } else { 100u32 },
        effects_of(u).fusion_pct == if (5 < u.len() && u[5]) { 125u32 } else { 100u32 },
        effects_of(u).solar_night_pct == if (6 < u.len() && u[6]) { 35u32 } else { 0u32 },
        effects_of(u).brownout == (7 < u.len() && u[7]),
        effects_of(u).rail_pct == if (8 < u.len() && u[8]) { 150u32 } else { 100u32 },
        effects_of(u).arc_chain == if (9 < u.len() && u[9]) { 3u32 } else { 1u32 },
        effects_of(u).mortar_cluster == (10 < u.len() && u[10]),
        effects_of(u).shield_cap_pct == if (11 < u.len() && u[11]) { 200u32 } else { 100u32 },
        effects_of(u).drone_speed_pct == if (12 < u.len() && u[12]) { 140u32 } else { 100u32 },
        effects_of(u).drone_armor == if (13 < u.len() && u[13]) { 3u32 } else { 0u32 },
        effects_of(u).emerg == (15 < u.len() && u[15]),
        effects_of(u).stam_pct == if (16 < u.len() && u[16]) { 150u32 } else { 100u32 },
        effects_of(u).oxy_pct == if (17 < u.len() && u[17]) { 50u32 } else { 100u32 },
        effects_of(u).arc_heat_pct == if (18 < u.len() && u[18]) { 60u32 } else { 100u32 },
        effects_of(u).hammer_pct == if (19 < u.len() && u[19]) { 160u32 } else { 100u32 },
        effects_of(u).radar_pct == if (20 < u.len() && u[20]) { 160u32 } else { 100u32 },
        effects_of(u).ruin_scan == (21 < u.len() && u[21]),
        effects_of(u).ruin_yield_pct == if (21 < u.len() && u[21]) { 150u32 } else { 100u32 },
        effects_of(u).corrupt_res == if (22 < u.len() && u[22]) { 1u32 } else { 0u32 },
        effects_of(u).nest_loc == (23 < u.len() && u[23]),
{
}

fn researched(unlocked: &Vec<bool>, i: usize) -> (b: bool)
    ensures
        b == has(unlocked@, i as int),
{
    i < unlocked.len() && unlocked[i]
}

fn choose_pct(on: bool, a: u32, b: u32) -> (r: u32)
    ensures
        r == if on { a } else { b },
{
    if on {
        a
    } else {
        b
    }
}

/// The effects of everything researched so far.
pub fn tech_effects(unlocked: &Vec<bool>) -> (fx: TechEffects)
    ensures
        fx == effects_of(unlocked@),
{
    let u = |i: usize| -> (b: bool)
        ensures
            b == has(unlocked@, i as int),
        { researched(unlocked, i) };
    TechEffects {
        packet_pct: choose_pct(u(0), 160, 100),
        storage_pct: choose_pct(u(1), 180, 100),
        sorter: u(2),
        overclock_pct: choose_pct(u(3), 130, 100),
        pylon_pct: choose_pct(u(4), 140, 100),
        fusion_pct: choose_pct(u(5), 125, 100),
        solar_night_pct: choose_pct(u(6), 35, 0),
        brownout: u(7),
        rail_pct: choose_pct(u(8), 150, 100),
        arc_chain: choose_pct(u(9), 3, 1),
        mortar_cluster: u(10),
        shield_cap_pct: choose_pct(u(11), 200, 100),
        drone_speed_pct: choose_pct(u(12), 140, 100),
        drone_armor: choose_pct(u(13), 3, 0),
        emerg: u(15),
        stam_pct: choose_pct(u(16), 150, 100),
        oxy_pct: choose_pct(u(17), 50, 100),
        arc_heat_pct: choose_pct(u(18), 60, 100),
        hammer_pct: choose_pct(u(19), 160, 100),
        radar_pct: choose_pct(u(20), 160, 100),
        ruin_scan: u(21),
        ruin_yield_pct: choose_pct(u(21), 150, 100),
        corrupt_res: choose_pct(u(22), 1, 0),
        nest_loc: u(23),
    }
}

/// Research starts exactly when the technology is not researched yet,
/// nothing else is in progress and its cost can be paid; otherwise the
/// refusal names the first of these that fails.
pub proof fn lemma_start_rules(already: bool, researching: bool, affordable: bool)
    ensures
        start_answer(already, researching, affordable) is Ok <==> (!already && !researching && affordable),
        already ==> start_answer(already, researching, affordable) == Err::<(), Seq<char>>("Already researched"@),
        !already && researching ==> start_answer(already, researching, affordable) == Err::<(), Seq<char>>(
            "Research already in progress"@,
        ),
        !already && !researching && !affordable ==> start_answer(already, researching, affordable) == Err::<
            (),
            Seq<char>,
        >("Insufficient resources"@),
{
}

/// A technology once researched can never be started again.
pub proof fn lemma_researched_stays_done(unlocked: Seq<bool>, i: int, researching: bool, affordable: bool)
    requires
        0 <= i < unlocked.len(),
    ensures
        start_answer(unlocked.update(i, true)[i], researching, affordable) == Err::<(), Seq<char>>(
            "Already researched"@,
        ),
{
}

} // verus!
