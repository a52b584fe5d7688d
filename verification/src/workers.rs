//! Worker drones: their job states and the search for ruins to salvage.

use vstd::prelude::*;
use crate::grid::{Grid, NCELLS, MAP, cell_index, in_bounds, lemma_cell_index_bounds};
use crate::kinds::Terrain;
use crate::enemies::draw_below;
use crate::rng::{Rng, xorshift};

verus! {

#[derive(Clone, Copy, PartialEq, Eq, Structural, Debug)]
pub enum DState {
    Idle,
    Haul,
    Build,
    Repair,
    Recharge,
    Flee,
    Salvage,
}

/// How many of the drones in `s` are on a job (not idle).
pub open spec fn busy(s: Seq<DState>) -> nat
    decreases s.len(),
{
    if s.len() == 0 {
        0
    } else {
        busy(s.drop_last()) + if s.last() != DState::Idle { 1nat } else { 0nat }
    }
}

proof fn lemma_busy_bound(s: Seq<DState>)
    ensures
        busy(s) <= s.len(),
    decreases s.len(),
{
    if s.len() > 0 {
        lemma_busy_bound(s.drop_last());
    }
}

/// Counting busy drones: a lone drone counts when it is not idle, and the
/// count of two groups together is the sum of their counts.
pub proof fn lemma_busy_counts(s: Seq<DState>, t: Seq<DState>, d: DState)
    ensures
        busy(seq![d]) == if d == DState::Idle { 0nat } else { 1nat },
        busy(s + t) == busy(s) + busy(t),
    decreases t.len(),
{
    assert(seq![d].drop_last() =~= Seq::<DState>::empty());
    assert(busy(Seq::<DState>::empty()) == 0);
    assert(seq![d].last() == d);
    if t.len() == 0 {
        assert(s + t =~= s);
    } else {
        lemma_busy_counts(s, t.drop_last(), d);
        assert((s + t).drop_last() =~= s + t.drop_last());
    }
}

/// Counts the drones on a job.
pub fn busy_count(states: &Vec<DState>) -> (n: u32)
    requires
        states@.len() <= u32::MAX,
    ensures
        n == busy(states@),
{
    let mut n: u32 = 0;
    let mut i: usize = 0;
    while i < states.len()
        invariant
            i <= states@.len(),
            states@.len() <= u32::MAX,
            n == busy(states@.take(i as int)),
        decreases states@.len() - i,
    {
        proof {
            assert(states@.take(i + 1).drop_last() =~= states@.take(i as int));
            lemma_busy_bound(states@.take(i as int));
        }
        if states[i] != DState::Idle {
            n = n + 1;
        }
        i = i + 1;
    }
    assert(states@.take(i as int) =~= states@);
    n
}

/// How far (in cells, per axis) a drone looks for ruins.
pub const RUIN_SCAN: i32 = 28;

/// The cell at offset (`dx`, `dy`) from `c0` is a discovered ruin that still
/// holds relics, within the scan window.
pub open spec fn ruin_at(g: &Grid, deposit: Seq<bool>, c0: (i32, i32), dx: int, dy: int) -> bool {
    let c = ((c0.0 + dx) as i32, (c0.1 + dy) as i32);
    &&& -RUIN_SCAN <= dx <= RUIN_SCAN
    &&& -RUIN_SCAN <= dy <= RUIN_SCAN
    &&& in_bounds(c)
    &&& g.cell(c).terrain == Terrain::Ruin
    &&& g.cell(c).disc
    &&& deposit[cell_index(c)]
}

/// Offset (`dx1`, `dy1`) is examined before (`dx2`, `dy2`): rows first.
pub open spec fn scanned_before(dx1: int, dy1: int, dx2: int, dy2: int) -> bool {
    dy1 < dy2 || (dy1 == dy2 && dx1 < dx2)
}

/// Offset (`dx`, `dy`) is the closest ruin, the first examined among equally
/// close ones.
pub open spec fn closest_ruin(g: &Grid, deposit: Seq<bool>, c0: (i32, i32), dx: int, dy: int) -> bool {
    &&& ruin_at(g, deposit, c0, dx, dy)
    &&& forall|ex: int, ey: int|
        #[trigger] ruin_at(g, deposit, c0, ex, ey) ==> ex * ex + ey * ey > dx * dx + dy * dy || (ex * ex + ey * ey
            == dx * dx + dy * dy && !scanned_before(ex, ey, dx, dy))
}

/// The ruin a drone salvages: a discovered black-metal ruin with relics
/// left, at most 28 cells away along each axis, no farther (in straight-line
/// distance) than any other such ruin, and of equally near ones the first
/// in row-by-row order.
pub proof fn lemma_ruin_choice(g: &Grid, deposit: Seq<bool>, c0: (i32, i32), dx: int, dy: int, ex: int, ey: int)
    ensures
        ruin_at(g, deposit, c0, dx, dy) <==> ({
            let c = ((c0.0 + dx) as i32, (c0.1 + dy) as i32);
            &&& -28 <= dx <= 28 && -28 <= dy <= 28
            &&& in_bounds(c)
            &&& g.cell(c).terrain == Terrain::Ruin && g.cell(c).disc && deposit[cell_index(c)]
        }),
        closest_ruin(g, deposit, c0, dx, dy) && ruin_at(g, deposit, c0, ex, ey) ==> dx * dx + dy * dy <= ex * ex + ey * ey,
        closest_ruin(g, deposit, c0, dx, dy) && ruin_at(g, deposit, c0, ex, ey) && ex * ex + ey * ey == dx * dx + dy * dy
            ==> dy < ey || (dy == ey && dx <= ex),
{
}

/// The nearest discovered ruin with relics left (squared distance in cells)
/// within 28 cells of `c0` along each axis; `deposit` tells which cells still
/// hold resources.
pub fn nearest_ruin(grid: &Grid, deposit: &Vec<bool>, c0: (i32, i32)) -> (r: Option<(i32, i32)>)
    requires
        grid.wf(),
        deposit@.len() == NCELLS,
        -1_000_000 <= c0.0 <= 1_000_000,
        -1_000_000 <= c0.1 <= 1_000_000,
    ensures
        r is None <==> forall|dx: int, dy: int| !#[trigger] ruin_at(grid, deposit@, c0, dx, dy),
        r matches Some(c) ==> exists|dx: int, dy: int|
            #[trigger] closest_ruin(grid, deposit@, c0, dx, dy) && c.0 == c0.0 + dx && c.1 == c0.1 + dy,
{
    let mut best: Option<(i32, i32, i32)> = None;
    let mut dy: i32 = -RUIN_SCAN;
    while dy <= RUIN_SCAN
        invariant
            grid.wf(),
            deposit@.len() == NCELLS,
            -1_000_000 <= c0.0 <= 1_000_000,
            -1_000_000 <= c0.1 <= 1_000_000,
            -RUIN_SCAN <= dy <= RUIN_SCAN + 1,
            best is None ==> forall|ex: int, ey: int|
                #[trigger] ruin_at(grid, deposit@, c0, ex, ey) ==> !scanned_before(ex, ey, -RUIN_SCAN as int, dy as int),
            best matches Some((bx, by, bd)) ==> {
                &&& ruin_at(grid, deposit@, c0, bx as int, by as int)
                &&& scanned_before(bx as int, by as int, -RUIN_SCAN as int, dy as int)
                &&& bd == bx * bx + by * by
                &&& forall|ex: int, ey: int|
                    #[trigger] ruin_at(grid, deposit@, c0, ex, ey) && scanned_before(ex, ey, -RUIN_SCAN as int, dy as int)
                        ==> ex * ex + ey * ey > bd || (ex * ex + ey * ey == bd && !scanned_before(ex, ey, bx as int, by as int))
            },
        decreases RUIN_SCAN + 1 - dy,
    {
        let mut dx: i32 = -RUIN_SCAN;
        while dx <= RUIN_SCAN
            invariant
                grid.wf(),
                deposit@.len() == NCELLS,
                -1_000_000 <= c0.0 <= 1_000_000,
                -1_000_000 <= c0.1 <= 1_000_000,
                -RUIN_SCAN <= dy <= RUIN_SCAN,
                -RUIN_SCAN <= dx <= RUIN_SCAN + 1,
                best is None ==> forall|ex: int, ey: int|
                    #[trigger] ruin_at(grid, deposit@, c0, ex, ey) ==> !scanned_before(ex, ey, dx as int, dy as int),
                best matches Some((bx, by, bd)) ==> {
                    &&& ruin_at(grid, deposit@, c0, bx as int, by as int)
                    &&& scanned_before(bx as int, by as int, dx as int, dy as int)
                    &&& bd == bx * bx + by * by
                    &&& forall|ex: int, ey: int|
                        #[trigger] ruin_at(grid, deposit@, c0, ex, ey) && scanned_before(ex, ey, dx as int, dy as int)
                            ==> ex * ex + ey * ey > bd || (ex * ex + ey * ey == bd && !scanned_before(ex, ey, bx as int, by as int))
                },
            decreases RUIN_SCAN + 1 - dx,
        {
            let c = (c0.0 + dx, c0.1 + dy);
            if Grid::inb(c) {
                proof {
                    lemma_cell_index_bounds(c);
                }
                let i = Grid::idx(c);
                let cell = grid.at(c);
                if cell.terrain == Terrain::Ruin && cell.disc && deposit[i] {
                    assert(-28 <= dx <= 28 && -28 <= dy <= 28);
                    assert(0 <= dx * dx <= 784 && 0 <= dy * dy <= 784) by (nonlinear_arith)
                        requires
                            -28 <= dx <= 28,
                            -28 <= dy <= 28,
                    ;
                    let dd = dx * dx + dy * dy;
                    let better = match best {
                        None => true,
                        Some((_, _, bd)) => dd < bd,
                    };
                    if better {
                        best = Some((dx, dy, dd));
                    }
                }
            }
            dx = dx + 1;
        }
        dy = dy + 1;
    }
    match best {
        None => None,
        Some((bx, by, _)) => {
            let r = (c0.0 + bx, c0.1 + by);
            assert(closest_ruin(grid, deposit@, c0, bx as int, by as int));
            Some(r)
        },
    }
}

/// `v` clamped to the inner map (1 ..= MAP - 2).
pub open spec fn clamp_inner(v: int) -> int {
    if v < 1 {
        1
    } else if v > MAP - 2 {
        (MAP - 2) as int
    } else {
        v
    }
}

/// A cell near `c` for a wandering drone: up to `spread` cells away along
/// each axis (x drawn first), kept inside the map's border.
pub fn jitter_cell(c: (i32, i32), spread: i32, rng: &mut Rng) -> (t: (i32, i32))
    requires
        0 <= spread <= 1000,
        -1_000_000 <= c.0 <= 1_000_000,
        -1_000_000 <= c.1 <= 1_000_000,
    ensures
        ({
            let s1 = xorshift(old(rng).0);
            &&& t.0 == clamp_inner(c.0 + draw_below(old(rng).0, 2 * spread + 1) - spread)
            &&& t.1 == clamp_inner(c.1 + draw_below(s1, 2 * spread + 1) - spread)
            &&& final(rng).0 == xorshift(s1)
            &&& 1 <= t.0 <= MAP - 2
            &&& 1 <= t.1 <= MAP - 2
        }),
{
    let x = c.0 + rng.below(spread * 2 + 1) - spread;
    let y = c.1 + rng.below(spread * 2 + 1) - spread;
    (clamp_i32(x, 1, MAP - 2), clamp_i32(y, 1, MAP - 2))
}

fn clamp_i32(v: i32, lo: i32, hi: i32) -> (r: i32)
    requires
        lo <= hi,
    ensures
        r == if v < lo { lo } else if v > hi { hi } else { v },
{
    if v < lo {
        lo
    } else if v > hi {
        hi
    } else {
        v
    }
}

/// The cell a wandering drone heads for, drawn from generator state `s`:
/// up to `spread` cells from `c` along each axis, inside the map's border.
pub open spec fn jittered(c: (i32, i32), spread: int, s: u64) -> (i32, i32) {
    (
        clamp_inner(c.0 + draw_below(s, 2 * spread + 1) - spread) as i32,
        clamp_inner(c.1 + draw_below(xorshift(s), 2 * spread + 1) - spread) as i32,
    )
}

/// A wandering drone heads for an inner cell (columns and rows 1 to 94) at
/// most `spread` cells from `c` along each axis, or the nearest inner cell
/// when `c` is near the edge; the column comes from the next draw and the
/// row from the one after.
pub proof fn lemma_wander_cell(c: (i32, i32), spread: int, s: u64)
    requires
        0 <= spread,
        1 <= c.0 <= MAP - 2,
        1 <= c.1 <= MAP - 2,
    ensures
        1 <= jittered(c, spread, s).0 <= MAP - 2,
        1 <= jittered(c, spread, s).1 <= MAP - 2,
        c.0 - spread <= jittered(c, spread, s).0 <= c.0 + spread,
        c.1 - spread <= jittered(c, spread, s).1 <= c.1 + spread,
        jittered(c, spread, s).0 as int == clamp_inner(c.0 + (xorshift(s) as int) % (2 * spread + 1) - spread),
        jittered(c, spread, s).1 as int == clamp_inner(c.1 + (xorshift(xorshift(s)) as int) % (2 * spread + 1) - spread),
{
}

/// A drone's orders: its job, the building it works on and the cell it
/// heads for.
pub struct DroneMind {
    pub state: DState,
    pub target: Option<u64>,
    pub tcell: Option<(i32, i32)>,
}

/// What a drone sees when it picks its next job. Each candidate is the
/// nearest one that fits, and is only looked for when it matters.
pub struct DroneView {
    /// Enemies are within 9 units.
    pub threatened: bool,
    /// The nearest finished cradle, looked for when the charge is below 25.
    pub recharge_at: Option<u64>,
    /// A ghost signal scrambles the drones' orders.
    pub scrambled: bool,
    /// The nearest finished silo or core, looked for when carrying cargo.
    pub depot: Option<u64>,
    /// The nearest building under construction.
    pub unbuilt: Option<u64>,
    /// The nearest finished building below 65% health, looked for when
    /// more than 2 scrap is banked.
    pub damaged: Option<u64>,
    /// The nearest finished machine jammed with at least 4 units of output.
    pub jammed: Option<u64>,
    /// The nearest salvageable ruin.
    pub ruin: Option<(i32, i32)>,
    /// The cell of the rally point, if one is set.
    pub rally: Option<(i32, i32)>,
    /// The drone's own cell.
    pub cell: (i32, i32),
}

/// The coordinates the decision may jitter stay far from overflow.
pub open spec fn view_in_range(v: DroneView) -> bool {
    &&& -1_000_000 <= v.cell.0 <= 1_000_000
    &&& -1_000_000 <= v.cell.1 <= 1_000_000
    &&& (v.rally matches Some(r) ==> -1_000_000 <= r.0 <= 1_000_000 && -1_000_000 <= r.1 <= 1_000_000)
}

/// The job a drone takes, in order of priority: flee from enemies, recharge
/// when low, wander when scrambled, bring cargo home, build, repair, empty a
/// jammed machine, salvage a ruin, else idle near the rally point. Returns
/// the new orders and the generator state after the draws made.
pub open spec fn decided(v: DroneView, m: DroneMind, s: u64) -> (DroneMind, u64) {
    if v.threatened {
        (DroneMind { state: DState::Flee, ..m }, s)
    } else if v.recharge_at is Some {
        (DroneMind { state: DState::Recharge, target: v.recharge_at, ..m }, s)
    } else if v.scrambled {
        (DroneMind { state: DState::Idle, tcell: Some(jittered(v.cell, 5, s)), ..m }, xorshift(xorshift(s)))
    } else if v.depot is Some {
        (DroneMind { state: DState::Haul, target: v.depot, tcell: None }, s)
    } else if v.unbuilt is Some {
        (DroneMind { state: DState::Build, target: v.unbuilt, ..m }, s)
    } else if v.damaged is Some {
        (DroneMind { state: DState::Repair, target: v.damaged, ..m }, s)
    } else if v.jammed is Some {
        (DroneMind { state: DState::Haul, target: v.jammed, ..m }, s)
    } else if v.ruin is Some {
        (DroneMind { state: DState::Salvage, target: None, tcell: v.ruin }, s)
    } else {
        match v.rally {
            Some(r) => (DroneMind { state: DState::Idle, tcell: Some(jittered(r, 3, s)), ..m }, xorshift(xorshift(s))),
            None => (DroneMind { state: DState::Idle, tcell: None, ..m }, s),
        }
    }
}

/// The order of a drone's priorities. Enemies nearby make it flee; else a
/// low charge with a cradle in reach sends it to recharge; else a scrambling
/// signal makes it wander; else cargo with a depot in reach is brought home
/// before anything is built; else it builds, then repairs, then empties a
/// jammed machine, then salvages a ruin, in that order; with nothing to do it
/// idles. The generator is drawn from only when the drone wanders.
pub proof fn lemma_job_priorities(v: DroneView, m: DroneMind, s: u64)
    ensures
        ({
            let (m2, s2) = decided(v, m, s);
            &&& v.threatened ==> m2.state == DState::Flee && m2.target == m.target && m2.tcell == m.tcell && s2 == s
            &&& !v.threatened && v.recharge_at is Some ==> m2.state == DState::Recharge && m2.target == v.recharge_at
                && m2.tcell == m.tcell && s2 == s
            &&& !v.threatened && v.recharge_at is None && v.scrambled ==> m2.state == DState::Idle && m2.target
                == m.target && m2.tcell is Some
            &&& !v.threatened && v.recharge_at is None && !v.scrambled && v.depot is Some ==> m2.state == DState::Haul
                && m2.target == v.depot && m2.tcell is None && s2 == s
            &&& !v.threatened && v.recharge_at is None && !v.scrambled && v.depot is None && v.unbuilt is Some
                ==> m2.state == DState::Build && m2.target == v.unbuilt && m2.tcell == m.tcell && s2 == s
            &&& !v.threatened && v.recharge_at is None && !v.scrambled && v.depot is None && v.unbuilt is None
                && v.damaged is Some ==> m2.state == DState::Repair && m2.target == v.damaged && m2.tcell == m.tcell
                && s2 == s
            &&& !v.threatened && v.recharge_at is None && !v.scrambled && v.depot is None && v.unbuilt is None
                && v.damaged is None && v.jammed is Some ==> m2.state == DState::Haul && m2.target == v.jammed
                && m2.tcell == m.tcell && s2 == s
            &&& !v.threatened && v.recharge_at is None && !v.scrambled && v.depot is None && v.unbuilt is None
                && v.damaged is None && v.jammed is None && v.ruin is Some ==> m2.state == DState::Salvage
                && m2.target is None && m2.tcell == v.ruin && s2 == s
            &&& !v.threatened && v.recharge_at is None && !v.scrambled && v.depot is None && v.unbuilt is None
                && v.damaged is None && v.jammed is None && v.ruin is None ==> m2.state == DState::Idle && m2.target
                == m.target && (m2.tcell is Some <==> v.rally is Some) && (v.rally is None ==> s2 == s)
        }),
{
}

/// A drone picks its next job from what it sees (see `decided`).
pub fn decide_job(mind: &mut DroneMind, view: &DroneView, rng: &mut Rng)
    requires
        view_in_range(*view),
    ensures
        (*final(mind), final(rng).0) == decided(*view, *old(mind), old(rng).0),
{
    if view.threatened {
        mind.state = DState::Flee;
        return;
    }
    if let Some(e) = view.recharge_at {
        mind.state = DState::Recharge;
        mind.target = Some(e);
        return;
    }
    if view.scrambled {
        mind.state = DState::Idle;
        mind.tcell = Some(jitter_cell(view.cell, 5, rng));
        return;
    }
    if let Some(e) = view.depot {
        mind.state = DState::Haul;
        mind.target = Some(e);
        mind.tcell = None;
        return;
    }
    if let Some(e) = view.unbuilt {
        mind.state = DState::Build;
        mind.target = Some(e);
        return;
    }
    if let Some(e) = view.damaged {
        mind.state = DState::Repair;
        mind.target = Some(e);
        return;
    }
    if let Some(e) = view.jammed {
        mind.state = DState::Haul;
        mind.target = Some(e);
        return;
    }
    if let Some(c) = view.ruin {
        mind.state = DState::Salvage;
        mind.tcell = Some(c);
        mind.target = None;
        return;
    }
    mind.state = DState::Idle;
    match view.rally {
        Some(r) => {
            mind.tcell = Some(jitter_cell(r, 3, rng));
        },
        None => {
            mind.tcell = None;
        },
    }
}

/// How many drones the colony may field: the command bandwidth, but at most
/// three per finished cradle.
pub fn drone_cap(bandwidth: u32, cradles: u32) -> (cap: u32)
    requires
        cradles <= u32::MAX / 3,
    ensures
        cap == if bandwidth < 3 * cradles { bandwidth as int } else { 3 * cradles },
{
    let per = cradles * 3;
    if bandwidth < per {
        bandwidth
    } else {
        per
    }
}

} // verus!
