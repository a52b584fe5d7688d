//! World events: which may come next, and their effects on the grid
//! (coolant floods, meteor strikes, relic storms).

use vstd::prelude::*;
use crate::flow::{adj, neighbour_step};
use crate::grid::{Cell, Grid, MAP, NCELLS, NTILES, cell_index, coords, in_bounds, tile_of, lemma_cell_index_bounds, lemma_coords_index, lemma_tile_bounds};
use crate::kinds::{GEvent, Terrain, R_COOLANT, R_RELIC};
use crate::rng::{Rng, xorshift};

verus! {

/// What the event in its active phase currently does to the colony.
#[derive(Clone, Copy, PartialEq, Eq, Structural, Debug)]
pub struct EventFlags {
    /// An eclipse dims solar output.
    pub dimmed: bool,
    /// A bloom speeds corruption up.
    pub bloom: bool,
    /// A ghost signal scrambles drones.
    pub scramble: bool,
    /// A merchant is open for trade.
    pub trade: bool,
    /// A relic storm keeps enemies on the attack.
    pub aggress: bool,
    /// A coolant flood slows movement.
    pub flood_slow: bool,
}

/// The event in its active phase, given the director's event and phase
/// (0 warning, 1 active).
pub open spec fn live_event(cur: Option<(GEvent, u8)>) -> Option<GEvent> {
    match cur {
        Some((e, ph)) => if ph == 1 { Some(e) } else { None },
        None => None,
    }
}

/// The effects of the director's current event: only an event in its active
/// phase has any.
pub fn event_flags(cur: Option<(GEvent, u8)>) -> (f: EventFlags)
    ensures
        f.dimmed == (live_event(cur) == Some(GEvent::Eclipse)),
        f.bloom == (live_event(cur) == Some(GEvent::Bloom)),
        f.scramble == (live_event(cur) == Some(GEvent::GhostSignal)),
        f.trade == (live_event(cur) == Some(GEvent::Merchant)),
        f.aggress == (live_event(cur) == Some(GEvent::RelicStorm)),
        f.flood_slow == (live_event(cur) == Some(GEvent::Flood)),
{
    let mut f = EventFlags { dimmed: false, bloom: false, scramble: false, trade: false, aggress: false, flood_slow: false };
    if let Some((e, ph)) = cur {
        if ph == 1 {
            match e {
                GEvent::Eclipse => f.dimmed = true,
                GEvent::Bloom => f.bloom = true,
                GEvent::GhostSignal => f.scramble = true,
                GEvent::Merchant => f.trade = true,
                GEvent::RelicStorm => f.aggress = true,
                GEvent::Flood => f.flood_slow = true,
                _ => {},
            }
        }
    }
    f
}

/// `e` when `c` holds, nothing otherwise.
pub open spec fn offer_if(c: bool, e: (GEvent, u32)) -> Seq<(GEvent, u32)> {
    if c {
        seq![e]
    } else {
        seq![]
    }
}

/// The events the director may pick, with their weights in tenths: an
/// eclipse once two solar sails stand, meteors and floods always, a
/// corruption bloom while nests live, a ghost signal once two drones fly,
/// the merchant from day 2, a hull quake from day 3 when four walls or gates
/// stand, a relic storm from day 3.
pub open spec fn event_menu(solars: usize, walls: usize, nests: usize, drones: usize, day: u32) -> Seq<(GEvent, u32)> {
    offer_if(solars >= 2, (GEvent::Eclipse, 10u32)) + seq![(GEvent::Meteor, 9u32), (GEvent::Flood, 7u32)]
        + offer_if(nests > 0, (GEvent::Bloom, 10u32)) + offer_if(drones >= 2, (GEvent::GhostSignal, 8u32))
        + offer_if(day >= 2, (GEvent::Merchant, 10u32)) + offer_if(day >= 3 && walls >= 4, (GEvent::Quake, 8u32))
        + offer_if(day >= 3, (GEvent::RelicStorm, 7u32))
}

/// Position of an event kind in the director's listing.
pub open spec fn listing_rank(e: GEvent) -> int {
    match e {
        GEvent::Eclipse => 0,
        GEvent::Meteor => 1,
        GEvent::Flood => 2,
        GEvent::Bloom => 3,
        GEvent::GhostSignal => 4,
        GEvent::Merchant => 5,
        GEvent::Quake => 6,
        GEvent::RelicStorm => 7,
    }
}

/// Which events the director may pick, and how likely each is: an eclipse
/// (weight 1.0) exactly when two solar sails stand, meteors (0.9) and floods
/// (0.7) always, a corruption bloom (1.0) exactly while nests live, a ghost
/// signal (0.8) exactly when two drones fly, the merchant (1.0) exactly from
/// day 2, a hull quake (0.8) exactly from day 3 with four walls or gates, a
/// relic storm (0.7) exactly from day 3. Each event is listed at most once,
/// in a fixed order.
#[verifier::spinoff_prover]
#[verifier::rlimit(40)]
pub proof fn lemma_event_menu(solars: usize, walls: usize, nests: usize, drones: usize, day: u32)
    ensures
        ({
            let m = event_menu(solars, walls, nests, drones, day);
            &&& m.contains((GEvent::Eclipse, 10u32)) <==> solars >= 2
            &&& m.contains((GEvent::Meteor, 9u32))
            &&& m.contains((GEvent::Flood, 7u32))
            &&& m.contains((GEvent::Bloom, 10u32)) <==> nests > 0
            &&& m.contains((GEvent::GhostSignal, 8u32)) <==> drones >= 2
            &&& m.contains((GEvent::Merchant, 10u32)) <==> day >= 2
            &&& m.contains((GEvent::Quake, 8u32)) <==> (day >= 3 && walls >= 4)
            &&& m.contains((GEvent::RelicStorm, 7u32)) <==> day >= 3
            &&& forall|i: int| 0 <= i < m.len() ==> #[trigger] m[i] == (GEvent::Eclipse, 10u32) || m[i] == (GEvent::Meteor, 9u32)
                || m[i] == (GEvent::Flood, 7u32) || m[i] == (GEvent::Bloom, 10u32) || m[i] == (GEvent::GhostSignal, 8u32)
                || m[i] == (GEvent::Merchant, 10u32) || m[i] == (GEvent::Quake, 8u32) || m[i] == (GEvent::RelicStorm, 7u32)
            &&& forall|i: int, j: int| 0 <= i < j < m.len() ==> listing_rank(#[trigger] m[i].0) < listing_rank(#[trigger] m[j].0)
        }),
{
    let a = offer_if(solars >= 2, (GEvent::Eclipse, 10u32));
    let a1 = a + offer_if(true, (GEvent::Meteor, 9u32));
    let b = a1 + offer_if(true, (GEvent::Flood, 7u32));
    let c = b + offer_if(nests > 0, (GEvent::Bloom, 10u32));
    let d = c + offer_if(drones >= 2, (GEvent::GhostSignal, 8u32));
    let e = d + offer_if(day >= 2, (GEvent::Merchant, 10u32));
    let f = e + offer_if(day >= 3 && walls >= 4, (GEvent::Quake, 8u32));
    let m = f + offer_if(day >= 3, (GEvent::RelicStorm, 7u32));
    assert(b =~= a + seq![(GEvent::Meteor, 9u32), (GEvent::Flood, 7u32)]);
    assert(m == event_menu(solars, walls, nests, drones, day));
    assert(a =~= seq![] + offer_if(solars >= 2, (GEvent::Eclipse, 10u32)));
    lemma_offer_appended(seq![], solars >= 2, (GEvent::Eclipse, 10u32), 0);
    lemma_offer_appended(a, true, (GEvent::Meteor, 9u32), 1);
    lemma_offer_appended(a1, true, (GEvent::Flood, 7u32), 2);
    lemma_offer_appended(b, nests > 0, (GEvent::Bloom, 10u32), 3);
    lemma_offer_appended(c, drones >= 2, (GEvent::GhostSignal, 8u32), 4);
    lemma_offer_appended(d, day >= 2, (GEvent::Merchant, 10u32), 5);
    lemma_offer_appended(e, day >= 3 && walls >= 4, (GEvent::Quake, 8u32), 6);
    lemma_offer_appended(f, day >= 3, (GEvent::RelicStorm, 7u32), 7);
    assert(ranked_below(seq![], 0));
    assert(ranked_below(a, 1));
    assert(ranked_below(a1, 2));
    assert(ranked_below(b, 3));
    assert(ranked_below(c, 4));
    assert(ranked_below(d, 5));
    assert(ranked_below(e, 6));
    assert(ranked_below(f, 7));
    assert(ranked_below(m, 8));
    assert(!seq![].contains((GEvent::Eclipse, 10u32)));
    assert forall|x: (GEvent, u32)| #[trigger] m.contains(x) <==> ((solars >= 2 && x == (GEvent::Eclipse, 10u32)) || x == (
    GEvent::Meteor, 9u32) || x == (GEvent::Flood, 7u32) || (nests > 0 && x == (GEvent::Bloom, 10u32)) || (drones >= 2 && x == (
    GEvent::GhostSignal, 8u32)) || (day >= 2 && x == (GEvent::Merchant, 10u32)) || (day >= 3 && walls >= 4 && x == (
    GEvent::Quake, 8u32)) || (day >= 3 && x == (GEvent::RelicStorm, 7u32))) by {
        assert(m.contains(x) == (f.contains(x) || (day >= 3 && x == (GEvent::RelicStorm, 7u32))));
        assert(f.contains(x) == (e.contains(x) || (day >= 3 && walls >= 4 && x == (GEvent::Quake, 8u32))));
        assert(e.contains(x) == (d.contains(x) || (day >= 2 && x == (GEvent::Merchant, 10u32))));
        assert(d.contains(x) == (c.contains(x) || (drones >= 2 && x == (GEvent::GhostSignal, 8u32))));
        assert(c.contains(x) == (b.contains(x) || (nests > 0 && x == (GEvent::Bloom, 10u32))));
        assert(b.contains(x) == (a1.contains(x) || x == (GEvent::Flood, 7u32)));
        assert(a1.contains(x) == (a.contains(x) || x == (GEvent::Meteor, 9u32)));
        assert(a.contains(x) == (seq![].contains(x) || (solars >= 2 && x == (GEvent::Eclipse, 10u32))));
        assert(!seq![].contains(x));
    }
    assert forall|i: int| 0 <= i < m.len() implies #[trigger] m[i] == (GEvent::Eclipse, 10u32) || m[i] == (GEvent::Meteor, 9u32)
        || m[i] == (GEvent::Flood, 7u32) || m[i] == (GEvent::Bloom, 10u32) || m[i] == (GEvent::GhostSignal, 8u32)
        || m[i] == (GEvent::Merchant, 10u32) || m[i] == (GEvent::Quake, 8u32) || m[i] == (GEvent::RelicStorm, 7u32) by {
        assert(m.contains(m[i]));
    }
}

/// Ranks in `s` increase strictly and stay below `r`.
pub open spec fn ranked_below(s: Seq<(GEvent, u32)>, r: int) -> bool {
    &&& forall|i: int, j: int| 0 <= i < j < s.len() ==> listing_rank(#[trigger] s[i].0) < listing_rank(#[trigger] s[j].0)
    &&& forall|i: int| 0 <= i < s.len() ==> listing_rank(#[trigger] s[i].0) < r
}

/// Appending an optional entry: what the list holds, and its order when the
/// entry ranks after everything listed so far.
proof fn lemma_offer_appended(s: Seq<(GEvent, u32)>, c: bool, e: (GEvent, u32), r: int)
    ensures
        forall|x: (GEvent, u32)| #[trigger] (s + offer_if(c, e)).contains(x) <==> (s.contains(x) || (c && x == e)),
        ranked_below(s, r) && r <= listing_rank(e.0) ==> ranked_below(s + offer_if(c, e), listing_rank(e.0) + 1),
{
    let t = s + offer_if(c, e);
    assert forall|x: (GEvent, u32)| #[trigger] t.contains(x) <==> (s.contains(x) || (c && x == e)) by {
        if t.contains(x) {
            let k = choose|k: int| 0 <= k < t.len() && t[k] == x;
            if k < s.len() {
                assert(s[k] == x);
            }
        }
        if s.contains(x) {
            let k = choose|k: int| 0 <= k < s.len() && s[k] == x;
            assert(t[k] == x);
        }
        if c && x == e {
            assert(t[s.len() as int] == x);
        }
    }
}


pub fn event_options(solars: usize, walls: usize, nests: usize, drones: usize, day: u32) -> (v: Vec<(GEvent, u32)>)
    ensures
        v@ == event_menu(solars, walls, nests, drones, day),
{
    let mut v: Vec<(GEvent, u32)> = Vec::new();
    if solars >= 2 {
        v.push((GEvent::Eclipse, 10));
    }
    let ghost p1 = offer_if(solars >= 2, (GEvent::Eclipse, 10u32));
    assert(v@ =~= p1);
    v.push((GEvent::Meteor, 9));
    v.push((GEvent::Flood, 7));
    let ghost p2 = p1 + seq![(GEvent::Meteor, 9u32), (GEvent::Flood, 7u32)];
    assert(v@ =~= p2);
    if nests > 0 {
        v.push((GEvent::Bloom, 10));
    }
    let ghost p3 = p2 + offer_if(nests > 0, (GEvent::Bloom, 10u32));
    assert(v@ =~= p3);
    if drones >= 2 {
        v.push((GEvent::GhostSignal, 8));
    }
    let ghost p4 = p3 + offer_if(drones >= 2, (GEvent::GhostSignal, 8u32));
    assert(v@ =~= p4);
    if day >= 2 {
        v.push((GEvent::Merchant, 10));
    }
    let ghost p5 = p4 + offer_if(day >= 2, (GEvent::Merchant, 10u32));
    assert(v@ =~= p5);
    if day >= 3 && walls >= 4 {
        v.push((GEvent::Quake, 8));
    }
    let ghost p6 = p5 + offer_if(day >= 3 && walls >= 4, (GEvent::Quake, 8u32));
    assert(v@ =~= p6);
    if day >= 3 {
        v.push((GEvent::RelicStorm, 7));
    }
    let ghost p7 = p6 + offer_if(day >= 3, (GEvent::RelicStorm, 7u32));
    assert(v@ =~= p7);
    v
}

/// A cell turned into coolant marsh.
pub open spec fn flooded(c: Cell) -> Cell {
    Cell { terrain: Terrain::Marsh, res_kind: R_COOLANT, ..c }
}

/// Most cells one flood converts before it stops looking.
pub const FLOOD_LIMIT: usize = 70;

/// What the flood has done so far, given the cells `c0` before it began.
pub open spec fn flood_inv(g: &Grid, c0: Seq<Cell>, d0: Seq<bool>, conv: Seq<(i32, i32)>) -> bool {
    &&& g.wf()
    &&& c0.len() == NCELLS
    &&& d0.len() == NTILES
    &&& forall|i: int|
        0 <= i < NCELLS ==> #[trigger] g.cells@[i] == if conv.contains(coords(i)) {
            flooded(c0[i])
        } else {
            c0[i]
        }
    &&& forall|k: int|
        0 <= k < conv.len() ==> {
            let i = cell_index(#[trigger] conv[k]);
            &&& in_bounds(conv[k])
            &&& c0[i].terrain != Terrain::Marsh
            &&& c0[i].walk
            &&& c0[i].occ.is_none()
            &&& exists|n: int| adj(n, i) && g.cells@[n].terrain == Terrain::Marsh
        }
    &&& forall|a: int, b: int| 0 <= a < b < conv.len() ==> conv[a] != conv[b]
    &&& forall|t: int|
        0 <= t < NTILES ==> #[trigger] g.dirty@[t] == (d0[t] || exists|i: int|
            0 <= i < NCELLS && conv.contains(coords(i)) && tile_of(coords(i)) == t)
}

/// A flood in progress: the cells, the generator state and the cells
/// flooded so far.
pub struct FloodState {
    pub cells: Seq<Cell>,
    pub s: u64,
    pub conv: Seq<(i32, i32)>,
}

/// The `d`-th neighbour of (x, y): right, left, next row, previous row.
pub open spec fn side_of(x: int, y: int, d: int) -> (i32, i32) {
    if d == 0 {
        ((x + 1) as i32, y as i32)
    } else if d == 1 {
        ((x - 1) as i32, y as i32)
    } else if d == 2 {
        (x as i32, (y + 1) as i32)
    } else {
        (x as i32, (y - 1) as i32)
    }
}

/// The marsh at (x, y) reaches toward its `d`-th neighbour: a walkable,
/// unoccupied non-marsh neighbour costs a draw, and floods when the draw's
/// top 24 bits fall in the lowest quarter.
pub open spec fn spread_to(st: FloodState, x: int, y: int, d: int) -> FloodState {
    let c = side_of(x, y, d);
    let i = cell_index(c);
    let cell = st.cells[i];
    if cell.terrain != Terrain::Marsh && cell.walk && cell.occ.is_none() {
        let s2 = xorshift(st.s);
        if (s2 >> 40u64) < 0x40_0000u64 {
            FloodState { cells: st.cells.update(i, flooded(cell)), s: s2, conv: st.conv.push(c) }
        } else {
            FloodState { s: s2, ..st }
        }
    } else {
        st
    }
}

/// The marsh at (x, y) has reached toward its first `n` neighbours.
pub open spec fn spread_dirs(st: FloodState, x: int, y: int, n: nat) -> FloodState
    decreases n,
{
    if n == 0 {
        st
    } else {
        spread_to(spread_dirs(st, x, y, (n - 1) as nat), x, y, n - 1)
    }
}

/// The turn of cell (x, y) in the scan: a marsh cell reaches toward its
/// four neighbours, unless 70 cells have flooded already.
pub open spec fn flood_at(st: FloodState, x: int, y: int) -> FloodState {
    if st.conv.len() >= FLOOD_LIMIT || st.cells[cell_index((x as i32, y as i32))].terrain != Terrain::Marsh {
        st
    } else {
        spread_dirs(st, x, y, 4)
    }
}

/// The flood after the first `k` inner cells (columns and rows 1 to 94,
/// row by row) have had their turn.
pub open spec fn flood_scan(st0: FloodState, k: nat) -> FloodState
    decreases k,
{
    if k == 0 {
        st0
    } else {
        flood_at(flood_scan(st0, (k - 1) as nat), 1 + (k - 1) % 94, 1 + (k - 1) / 94)
    }
}

/// Once 70 cells have flooded, the rest of the scan changes nothing.
proof fn lemma_flood_saturated(st0: FloodState, j: nat, m: nat)
    requires
        j <= m,
        flood_scan(st0, j).conv.len() >= FLOOD_LIMIT,
    ensures
        flood_scan(st0, m) == flood_scan(st0, j),
    decreases m,
{
    if m > j {
        lemma_flood_saturated(st0, j, (m - 1) as nat);
    }
}

/// Scan position of inner cell (x, y).
proof fn lemma_scan_pos(x: int, y: int)
    requires
        1 <= x <= 94,
        1 <= y <= 94,
    ensures
        ((y - 1) * 94 + (x - 1)) % 94 == x - 1,
        ((y - 1) * 94 + (x - 1)) / 94 == y - 1,
        0 <= (y - 1) * 94 + (x - 1),
{
    assert(((y - 1) * 94 + (x - 1)) % 94 == x - 1 && ((y - 1) * 94 + (x - 1)) / 94 == y - 1) by (nonlinear_arith)
        requires
            1 <= x <= 94,
            1 <= y <= 94,
    ;
}

/// A cell the flood can take: walkable, unoccupied and not marsh yet.
pub open spec fn floodable(c: Cell) -> bool {
    c.terrain != Terrain::Marsh && c.walk && c.occ.is_none()
}

/// One reach of the marsh at inner cell (x, y) toward a neighbour changes
/// at most that neighbour and draws once exactly when the flood can take it;
/// it then floods with chance one in four: when the draw's top 24 bits fall
/// in the lowest quarter.
pub proof fn lemma_reach(st: FloodState, x: int, y: int, d: int)
    requires
        1 <= x <= 94,
        1 <= y <= 94,
        0 <= d < 4,
        st.cells.len() == NCELLS,
    ensures
        ({
            let i = cell_index(side_of(x, y, d));
            let r = spread_to(st, x, y, d);
            &&& 0 <= i < NCELLS
            &&& r.cells.len() == NCELLS
            &&& forall|j: int| 0 <= j < NCELLS && j != i ==> #[trigger] r.cells[j] == st.cells[j]
            &&& r.cells[i] == st.cells[i] || (floodable(st.cells[i]) && r.cells[i] == flooded(st.cells[i]))
            &&& r.s == if floodable(st.cells[i]) { xorshift(st.s) } else { st.s }
            &&& r.conv == st.conv || (r.conv == st.conv.push(side_of(x, y, d)) && floodable(st.cells[i]) && r.cells[i]
                == flooded(st.cells[i]))
            &&& (r.conv.len() == st.conv.len() + 1) <==> (floodable(st.cells[i]) && (xorshift(st.s) >> 40u64) < 0x40_0000u64)
        }),
{
}

/// The turn of a marsh cell: while fewer than 70 cells have flooded, the
/// marsh at inner cell (x, y) reaches toward all four neighbours (right,
/// left, next row, previous row). It draws from the generator once for each
/// neighbour the flood can take, changes no cell but those neighbours, and a
/// neighbour that changes becomes coolant marsh and is recorded as flooded.
#[verifier::spinoff_prover]
#[verifier::rlimit(80)]
pub proof fn lemma_marsh_turn(st: FloodState, x: int, y: int)
    requires
        1 <= x <= 94,
        1 <= y <= 94,
        st.cells.len() == NCELLS,
        st.conv.len() < FLOOD_LIMIT,
        st.cells[cell_index((x as i32, y as i32))].terrain == Terrain::Marsh,
    ensures
        ({
            let r = flood_at(st, x, y);
            let e = cell_index(((x + 1) as i32, y as i32));
            let w = cell_index(((x - 1) as i32, y as i32));
            let n = cell_index((x as i32, (y + 1) as i32));
            let so = cell_index((x as i32, (y - 1) as i32));
            let draws = (if floodable(st.cells[e]) { 1nat } else { 0nat }) + (if floodable(st.cells[w]) { 1nat } else { 0nat })
                + (if floodable(st.cells[n]) { 1nat } else { 0nat }) + (if floodable(st.cells[so]) { 1nat } else { 0nat });
            &&& r.s == rng_iter(st.s, draws)
            &&& r.cells.len() == NCELLS
            &&& forall|j: int| 0 <= j < NCELLS && j != e && j != w && j != n && j != so ==> #[trigger] r.cells[j] == st.cells[j]
            &&& forall|j: int|
                (j == e || j == w || j == n || j == so) ==> #[trigger] r.cells[j] == st.cells[j] || (floodable(st.cells[j])
                    && r.cells[j] == flooded(st.cells[j]))
            &&& st.conv.len() <= r.conv.len() <= st.conv.len() + 4
            &&& r.conv.subrange(0, st.conv.len() as int) == st.conv
            &&& forall|k: int|
                st.conv.len() <= k < r.conv.len() ==> {
                    let c = #[trigger] r.conv[k];
                    &&& (c == ((x + 1) as i32, y as i32) || c == ((x - 1) as i32, y as i32) || c == (x as i32, (y + 1) as i32)
                        || c == (x as i32, (y - 1) as i32))
                    &&& floodable(st.cells[cell_index(c)])
                    &&& r.cells[cell_index(c)] == flooded(st.cells[cell_index(c)])
                }
        }),
{
    let e = cell_index(((x + 1) as i32, y as i32));
    let w = cell_index(((x - 1) as i32, y as i32));
    let n = cell_index((x as i32, (y + 1) as i32));
    let so = cell_index((x as i32, (y - 1) as i32));
    assert(side_of(x, y, 0) == ((x + 1) as i32, y as i32));
    assert(side_of(x, y, 1) == ((x - 1) as i32, y as i32));
    assert(side_of(x, y, 2) == (x as i32, (y + 1) as i32));
    assert(side_of(x, y, 3) == (x as i32, (y - 1) as i32));
    assert(e == y * 96 + x + 1 && w == y * 96 + x - 1 && n == (y + 1) * 96 + x && so == (y - 1) * 96 + x);
    let s0 = st;
    let s1 = spread_dirs(st, x, y, 1);
    let s2 = spread_dirs(st, x, y, 2);
    let s3 = spread_dirs(st, x, y, 3);
    let s4 = spread_dirs(st, x, y, 4);
    assert(s1 == spread_to(s0, x, y, 0)) by {
        reveal_with_fuel(spread_dirs, 2);
    }
    assert(s2 == spread_to(s1, x, y, 1)) by {
        reveal_with_fuel(spread_dirs, 2);
    }
    assert(s3 == spread_to(s2, x, y, 2)) by {
        reveal_with_fuel(spread_dirs, 2);
    }
    assert(s4 == spread_to(s3, x, y, 3)) by {
        reveal_with_fuel(spread_dirs, 2);
    }
    lemma_reach(s0, x, y, 0);
    lemma_reach(s1, x, y, 1);
    lemma_reach(s2, x, y, 2);
    lemma_reach(s3, x, y, 3);
    assert(s1.cells[w] == st.cells[w] && s1.cells[n] == st.cells[n] && s1.cells[so] == st.cells[so]);
    assert(s2.cells[n] == st.cells[n] && s2.cells[so] == st.cells[so] && s2.cells[e] == s1.cells[e]);
    assert(s3.cells[so] == st.cells[so] && s3.cells[e] == s1.cells[e] && s3.cells[w] == s2.cells[w]);
    assert(s4.cells[e] == s1.cells[e] && s4.cells[w] == s2.cells[w] && s4.cells[n] == s3.cells[n]);
    let d0: nat = if floodable(st.cells[e]) { 1nat } else { 0nat };
    let d1: nat = if floodable(st.cells[w]) { 1nat } else { 0nat };
    let d2: nat = if floodable(st.cells[n]) { 1nat } else { 0nat };
    let d3: nat = if floodable(st.cells[so]) { 1nat } else { 0nat };
    assert(s1.s == rng_iter(st.s, d0)) by {
        reveal_with_fuel(rng_iter, 2);
    }
    assert(s2.s == rng_iter(st.s, d0 + d1)) by {
        reveal_with_fuel(rng_iter, 2);
    }
    assert(s3.s == rng_iter(st.s, d0 + d1 + d2)) by {
        reveal_with_fuel(rng_iter, 2);
    }
    assert(s4.s == rng_iter(st.s, d0 + d1 + d2 + d3)) by {
        reveal_with_fuel(rng_iter, 2);
    }
    assert(flood_at(st, x, y) == s4);
    assert(s4.conv.subrange(0, st.conv.len() as int) =~= st.conv);
}

/// The coolant flood: scanning the inner map row by row, every marsh cell
/// spreads to each walkable, unoccupied non-marsh neighbour with chance one
/// in four (cells flooded earlier in the scan spread too); the scan stops
/// taking new sources once 70 cells have flooded. Returns the flooded cells,
/// whose deposits now hold coolant.
pub fn flood(grid: &mut Grid, rng: &mut Rng) -> (conv: Vec<(i32, i32)>)
    requires
        old(grid).wf(),
    ensures
        ({
            let st = flood_scan((FloodState { cells: old(grid).cells@, s: old(rng).0, conv: seq![] }), 94 * 94);
            &&& final(grid).cells@ == st.cells
            &&& final(rng).0 == st.s
            &&& conv@ == st.conv
        }),
        conv@.len() <= FLOOD_LIMIT + 3,
        flood_inv(final(grid), old(grid).cells@, old(grid).dirty@, conv@),
        final(grid).flow@ == old(grid).flow@,
        final(grid).seed == old(grid).seed,
        final(grid).flow_dirty == old(grid).flow_dirty,
        final(grid).power_dirty == old(grid).power_dirty,
        final(grid).nests_gen@ == old(grid).nests_gen@,
{
    let ghost c0 = grid.cells@;
    let ghost d0 = grid.dirty@;
    let ghost st0 = FloodState { cells: c0, s: rng.0, conv: seq![] };
    let mut conv: Vec<(i32, i32)> = Vec::new();
    let dirs: [(i32, i32); 4] = [(1, 0), (-1, 0), (0, 1), (0, -1)];
    let mut y: i32 = 1;
    proof {
        assert(conv@ =~= seq![]);
    }
    while y < MAP - 1
        invariant
            1 <= y <= MAP - 1,
            (FloodState { cells: grid.cells@, s: rng.0, conv: conv@ }) == flood_scan(st0, ((y - 1) * 94) as nat),
            flood_inv(grid, c0, d0, conv@),
            conv@.len() <= FLOOD_LIMIT + 3,
            dirs@ == seq![(1i32, 0i32), (-1i32, 0i32), (0i32, 1i32), (0i32, -1i32)],
            grid.flow@ == old(grid).flow@,
            grid.seed == old(grid).seed,
            grid.flow_dirty == old(grid).flow_dirty,
            grid.power_dirty == old(grid).power_dirty,
            grid.nests_gen@ == old(grid).nests_gen@,
        decreases MAP - 1 - y,
    {
        let mut x: i32 = 1;
        while x < MAP - 1
            invariant
                1 <= y < MAP - 1,
                1 <= x <= MAP - 1,
                (FloodState { cells: grid.cells@, s: rng.0, conv: conv@ }) == flood_scan(st0, ((y - 1) * 94 + (x - 1)) as nat),
                flood_inv(grid, c0, d0, conv@),
                conv@.len() <= FLOOD_LIMIT + 3,
                dirs@ == seq![(1i32, 0i32), (-1i32, 0i32), (0i32, 1i32), (0i32, -1i32)],
                grid.flow@ == old(grid).flow@,
                grid.seed == old(grid).seed,
                grid.flow_dirty == old(grid).flow_dirty,
                grid.power_dirty == old(grid).power_dirty,
                grid.nests_gen@ == old(grid).nests_gen@,
            ensures
                (FloodState { cells: grid.cells@, s: rng.0, conv: conv@ }) == flood_scan(st0, (y * 94) as nat),
            decreases MAP - 1 - x,
        {
            let ghost k = ((y - 1) * 94 + (x - 1)) as nat;
            proof {
                lemma_scan_pos(x as int, y as int);
                lemma_cell_index_bounds((x, y));
            }
            if conv.len() >= FLOOD_LIMIT {
                proof {
                    lemma_flood_saturated(st0, k, (y * 94) as nat);
                }
                break;
            }
            if grid.at((x, y)).terrain == Terrain::Marsh {
                let mut d: usize = 0;
                while d < 4
                    invariant
                        1 <= y < MAP - 1,
                        1 <= x < MAP - 1,
                        d <= 4,
                        flood_inv(grid, c0, d0, conv@),
                        conv@.len() < FLOOD_LIMIT + d,
                        grid.cell((x, y)).terrain == Terrain::Marsh,
                        k == ((y - 1) * 94 + (x - 1)) as nat,
                        flood_scan(st0, k).conv.len() < FLOOD_LIMIT,
                        flood_scan(st0, k).cells[cell_index((x, y))].terrain == Terrain::Marsh,
                        (FloodState { cells: grid.cells@, s: rng.0, conv: conv@ }) == spread_dirs(flood_scan(st0, k), x as int, y as int, d as nat),
                        dirs@ == seq![(1i32, 0i32), (-1i32, 0i32), (0i32, 1i32), (0i32, -1i32)],
                        grid.flow@ == old(grid).flow@,
                        grid.seed == old(grid).seed,
                        grid.flow_dirty == old(grid).flow_dirty,
                        grid.power_dirty == old(grid).power_dirty,
                        grid.nests_gen@ == old(grid).nests_gen@,
                    decreases 4 - d,
                {
                    let ghost pre = FloodState { cells: grid.cells@, s: rng.0, conv: conv@ };
                    let o = dirs[d];
                    let c = (x + o.0, y + o.1);
                    let cell = *grid.at(c);
                    proof {
                        assert(c == side_of(x as int, y as int, d as int));
                        lemma_cell_index_bounds(c);
                    }
                    if cell.terrain != Terrain::Marsh && cell.walk && cell.occ.is_none() && (rng.next() >> 40u64)
                        < 0x40_0000u64 {
                        let ghost before = conv@;
                        let ghost cs = grid.cells@;
                        let ghost ds = grid.dirty@;
                        let ci = Grid::idx(c);
                        let si = Grid::idx((x, y));
                        proof {
                            lemma_cell_index_bounds(c);
                            lemma_cell_index_bounds((x, y));
                            lemma_tile_bounds(c);
                            reveal(neighbour_step);
                            assert(adj(si as int, ci as int));
                            assert(!before.contains(c)) by {
                                if before.contains(c) {
                                    assert(coords(ci as int) == c);
                                    assert(cs[ci as int] == flooded(c0[ci as int]));
                                }
                            }
                            assert(!before.contains(coords(ci as int)));
                            assert(cs[ci as int] == c0[ci as int]);
                        }
                        let mut nc = cell;
                        nc.terrain = Terrain::Marsh;
                        nc.res_kind = R_COOLANT;
                        grid.set(c, nc);
                        grid.mark(c);
                        conv.push(c);
                        proof {
                            let now = conv@;
                            assert forall|v: (i32, i32)| #[trigger] now.contains(v) == (before.contains(v) || v == c) by {
                                if now.contains(v) {
                                    let k = choose|k: int| 0 <= k < now.len() && now[k] == v;
                                    if k < before.len() {
                                        assert(before[k] == v);
                                    }
                                }
                                if before.contains(v) {
                                    let k = choose|k: int| 0 <= k < before.len() && before[k] == v;
                                    assert(now[k] == v);
                                }
                                if v == c {
                                    assert(now[now.len() - 1] == c);
                                }
                            }
                            assert forall|i: int| 0 <= i < NCELLS implies #[trigger] grid.cells@[i] == if now.contains(
                                coords(i),
                            ) {
                                flooded(c0[i])
                            } else {
                                c0[i]
                            } by {
                                lemma_coords_index(i);
                                if i != ci as int {
                                    assert(cs[i] == grid.cells@[i]);
                                    assert(coords(i) != c);
                                }
                            }
                            assert forall|k: int| 0 <= k < now.len() implies {
                                let i = cell_index(#[trigger] now[k]);
                                &&& in_bounds(now[k])
                                &&& c0[i].terrain != Terrain::Marsh
                                &&& c0[i].walk
                                &&& c0[i].occ.is_none()
                                &&& exists|n: int| adj(n, i) && grid.cells@[n].terrain == Terrain::Marsh
                            } by {
                                if k < before.len() {
                                    assert(now[k] == before[k]);
                                    let i = cell_index(before[k]);
                                    let n = choose|n: int| adj(n, i) && cs[n].terrain == Terrain::Marsh;
                                    assert(grid.cells@[n].terrain == Terrain::Marsh) by {
                                        if n == ci as int {
                                        } else {
                                            assert(cs[n] == grid.cells@[n]);
                                        }
                                    }
                                } else {
                                    assert(now[k] == c);
                                    assert(grid.cells@[si as int].terrain == Terrain::Marsh);
                                }
                            }
                            assert forall|t: int| 0 <= t < NTILES implies #[trigger] grid.dirty@[t] == (d0[t] || exists|i: int|
                                0 <= i < NCELLS && now.contains(coords(i)) && tile_of(coords(i)) == t) by {
                                if t == tile_of(c) {
                                    assert(coords(ci as int) == c);
                                    assert(now.contains(coords(ci as int)));
                                } else {
                                    assert(ds[t] == grid.dirty@[t]);
                                    if exists|i: int| 0 <= i < NCELLS && now.contains(coords(i)) && tile_of(coords(i)) == t {
                                        let i = choose|i: int|
                                            0 <= i < NCELLS && now.contains(coords(i)) && tile_of(coords(i)) == t;
                                        assert(before.contains(coords(i)));
                                    }
                                }
                            }
                        }
                    }
                    proof {
                        assert((FloodState { cells: grid.cells@, s: rng.0, conv: conv@ }) == spread_to(
                            pre,
                            x as int,
                            y as int,
                            d as int,
                        ));
                    }
                    d = d + 1;
                }
                proof {
                    assert(spread_dirs(flood_scan(st0, k), x as int, y as int, 4) == flood_at(
                        flood_scan(st0, k),
                        x as int,
                        y as int,
                    ));
                    assert(flood_scan(st0, k + 1) == flood_at(flood_scan(st0, k), x as int, y as int));
                }
            } else {
                proof {
                    assert(flood_scan(st0, k + 1) == flood_at(flood_scan(st0, k), x as int, y as int));
                }
            }
            x = x + 1;
        }
        y = y + 1;
    }
    conv
}

/// The generator state after `n` steps from `s`.
pub open spec fn rng_iter(s: u64, n: nat) -> u64
    decreases n,
{
    if n == 0 {
        s
    } else {
        xorshift(rng_iter(s, (n - 1) as nat))
    }
}

/// The `k`-th inner cell a meteor may strike, drawn from state `s`
/// (column first).
pub open spec fn meteor_cell(s: u64, k: nat) -> (i32, i32) {
    (
        (1 + xorshift(rng_iter(s, 2 * k)) as int % (MAP - 2)) as i32,
        (1 + xorshift(rng_iter(s, 2 * k + 1)) as int % (MAP - 2)) as i32,
    )
}

/// Where a meteor strikes: up to ten random inner cells are drawn and the
/// first discovered one is hit; None when all ten are still hidden.
pub fn meteor_target(grid: &Grid, rng: &mut Rng) -> (r: Option<(i32, i32)>)
    requires
        grid.wf(),
    ensures
        r matches Some(c) ==> exists|k: nat|
            k < 10 && c == #[trigger] meteor_cell(old(rng).0, k) && grid.cell(c).disc && final(rng).0 == rng_iter(
                old(rng).0,
                2 * k + 2,
            ) && forall|j: nat| j < k ==> !grid.cell(#[trigger] meteor_cell(old(rng).0, j)).disc,
        r is None ==> final(rng).0 == rng_iter(old(rng).0, 20) && forall|j: nat|
            j < 10 ==> !grid.cell(#[trigger] meteor_cell(old(rng).0, j)).disc,
        r matches Some(c) ==> 1 <= c.0 <= MAP - 2 && 1 <= c.1 <= MAP - 2,
{
    let ghost s0 = rng.0;
    let mut k: u32 = 0;
    while k < 10
        invariant
            grid.wf(),
            k <= 10,
            s0 == old(rng).0,
            rng.0 == rng_iter(s0, 2 * k as nat),
            forall|j: nat| j < k ==> !grid.cell(#[trigger] meteor_cell(s0, j)).disc,
        decreases 10 - k,
    {
        let x = 1 + rng.below(MAP - 2);
        let y = 1 + rng.below(MAP - 2);
        let c = (x, y);
        proof {
            assert(rng_iter(s0, 2 * k as nat + 1) == xorshift(rng_iter(s0, 2 * k as nat)));
            assert(rng_iter(s0, 2 * k as nat + 2) == xorshift(rng_iter(s0, 2 * k as nat + 1)));
            assert(c == meteor_cell(s0, k as nat));
        }
        if grid.at(c).disc {
            proof {
                let kk = k as nat;
                assert(rng.0 == rng_iter(s0, 2 * kk + 2));
                assert(kk < 10 && c == meteor_cell(s0, kk) && grid.cell(c).disc);
            }
            return Some(c);
        }
        k = k + 1;
    }
    None
}

/// A cell seeded with relic shards.
pub open spec fn relic_seeded(c: Cell) -> Cell {
    Cell { res_kind: R_RELIC, ..c }
}

/// The first `n` tries of a relic storm over `cells` from generator state
/// `s`: each try draws an inner cell (column first); a free, walkable cell is
/// seeded and the size of its deposit drawn next. Gives the seeded cells
/// with their size draws, and the generator state after the tries.
pub open spec fn storm(cells: Seq<Cell>, s: u64, n: nat) -> (Seq<((i32, i32), u64)>, u64)
    decreases n,
{
    if n == 0 {
        (seq![], s)
    } else {
        let (h, t) = storm(cells, s, (n - 1) as nat);
        let x = (1 + xorshift(t) as int % (MAP - 2)) as i32;
        let y = (1 + xorshift(xorshift(t)) as int % (MAP - 2)) as i32;
        let t2 = xorshift(xorshift(t));
        let cell = cells[cell_index((x, y))];
        if cell.occ.is_none() && cell.walk {
            (h.push(((x, y), xorshift(t2))), xorshift(t2))
        } else {
            (h, t2)
        }
    }
}

/// A relic storm of `n` tries draws two coordinates per try and one size per
/// deposit seeded, finds at most one deposit per try, and seeds only free,
/// walkable inner cells.
pub proof fn lemma_storm_draws(cells: Seq<Cell>, s: u64, n: nat)
    ensures
        storm(cells, s, n).1 == rng_iter(s, 2 * n + storm(cells, s, n).0.len()),
        storm(cells, s, n).0.len() <= n,
        forall|k: int|
            0 <= k < storm(cells, s, n).0.len() ==> {
                let c = #[trigger] storm(cells, s, n).0[k].0;
                &&& 1 <= c.0 <= MAP - 2
                &&& 1 <= c.1 <= MAP - 2
                &&& cells[cell_index(c)].occ.is_none()
                &&& cells[cell_index(c)].walk
            },
    decreases n,
{
    if n > 0 {
        lemma_storm_draws(cells, s, (n - 1) as nat);
        let (h, t) = storm(cells, s, (n - 1) as nat);
        let a = 2 * (n - 1) + h.len();
        assert(rng_iter(s, (a + 1) as nat) == xorshift(t));
        assert(rng_iter(s, (a + 2) as nat) == xorshift(xorshift(t)));
        assert(rng_iter(s, (a + 3) as nat) == xorshift(xorshift(xorshift(t))));
        let r = storm(cells, s, n);
        assert forall|k: int| 0 <= k < r.0.len() implies {
            let c = #[trigger] r.0[k].0;
            &&& 1 <= c.0 <= MAP - 2
            &&& 1 <= c.1 <= MAP - 2
            &&& cells[cell_index(c)].occ.is_none()
            &&& cells[cell_index(c)].walk
        } by {
            if k < h.len() {
                assert(r.0[k] == h[k]);
            }
        }
    }
}

/// The `k`-th cell a meteor may strike is an inner cell whose column and
/// row come from the generator's draws number 2k+1 and 2k+2.
pub proof fn lemma_meteor_draws(s: u64, k: nat)
    ensures
        meteor_cell(s, k).0 as int == 1 + rng_iter(s, 2 * k + 1) as int % 94,
        meteor_cell(s, k).1 as int == 1 + rng_iter(s, 2 * k + 2) as int % 94,
        1 <= meteor_cell(s, k).0 <= MAP - 2,
        1 <= meteor_cell(s, k).1 <= MAP - 2,
{
    assert(rng_iter(s, 2 * k + 1) == xorshift(rng_iter(s, 2 * k)));
    assert(rng_iter(s, 2 * k + 2) == xorshift(rng_iter(s, 2 * k + 1)));
}

/// The relic storm: twelve random inner cells are tried; each free,
/// walkable one gets a relic deposit, whose size is drawn from the generator
/// right after the cell. Returns the seeded cells with their raw size draws.
pub fn relic_storm(grid: &mut Grid, rng: &mut Rng) -> (hits: Vec<((i32, i32), u64)>)
    requires
        old(grid).wf(),
    ensures
        final(grid).wf(),
        hits@ == storm(old(grid).cells@, old(rng).0, 12).0,
        final(rng).0 == storm(old(grid).cells@, old(rng).0, 12).1,
        hits@.len() <= 12,
        forall|k: int|
            0 <= k < hits@.len() ==> {
                let c = #[trigger] hits@[k].0;
                &&& 1 <= c.0 <= MAP - 2
                &&& 1 <= c.1 <= MAP - 2
                &&& old(grid).cell(c).occ.is_none()
                &&& old(grid).cell(c).walk
            },
        forall|i: int|
            0 <= i < NCELLS ==> #[trigger] final(grid).cells@[i] == if exists|k: int|
                0 <= k < hits@.len() && hits@[k].0 == coords(i) {
                relic_seeded(old(grid).cells@[i])
            } else {
                old(grid).cells@[i]
            },
        forall|t: int|
            0 <= t < NTILES ==> #[trigger] final(grid).dirty@[t] == (old(grid).dirty@[t] || exists|k: int|
                0 <= k < hits@.len() && tile_of(hits@[k].0) == t),
        final(grid).flow@ == old(grid).flow@,
        final(grid).seed == old(grid).seed,
        final(grid).flow_dirty == old(grid).flow_dirty,
        final(grid).power_dirty == old(grid).power_dirty,
        final(grid).nests_gen@ == old(grid).nests_gen@,
{
    let ghost g0 = *grid;
    let ghost c0 = grid.cells@;
    let ghost d0 = grid.dirty@;
    let ghost s0 = rng.0;
    let mut hits: Vec<((i32, i32), u64)> = Vec::new();
    let mut n: u32 = 0;
    while n < 12
        invariant
            grid.wf(),
            g0.wf(),
            c0 == g0.cells@,
            d0 == g0.dirty@,
            n <= 12,
            hits@.len() <= n,
            s0 == old(rng).0,
            hits@ == storm(c0, s0, n as nat).0,
            rng.0 == storm(c0, s0, n as nat).1,
            forall|k: int|
                0 <= k < hits@.len() ==> {
                    let c = #[trigger] hits@[k].0;
                    &&& 1 <= c.0 <= MAP - 2
                    &&& 1 <= c.1 <= MAP - 2
                    &&& g0.cell(c).occ.is_none()
                    &&& g0.cell(c).walk
                },
            forall|i: int|
                0 <= i < NCELLS ==> #[trigger] grid.cells@[i] == if exists|k: int|
                    0 <= k < hits@.len() && hits@[k].0 == coords(i) {
                    relic_seeded(c0[i])
                } else {
                    c0[i]
                },
            forall|t: int|
                0 <= t < NTILES ==> #[trigger] grid.dirty@[t] == (d0[t] || exists|k: int|
                    0 <= k < hits@.len() && tile_of(hits@[k].0) == t),
            grid.flow@ == old(grid).flow@,
            grid.seed == old(grid).seed,
            grid.flow_dirty == old(grid).flow_dirty,
            grid.power_dirty == old(grid).power_dirty,
            grid.nests_gen@ == old(grid).nests_gen@,
        decreases 12 - n,
    {
        let ghost t = rng.0;
        let x = 1 + rng.below(MAP - 2);
        let y = 1 + rng.below(MAP - 2);
        let c = (x, y);
        let cell = *grid.at(c);
        proof {
            lemma_cell_index_bounds(c);
            lemma_tile_bounds(c);
            assert(grid.cells@[cell_index(c)].occ == c0[cell_index(c)].occ);
            assert(grid.cells@[cell_index(c)].walk == c0[cell_index(c)].walk);
        }
        if cell.occ.is_none() && cell.walk {
            let ghost before = hits@;
            let ghost cs = grid.cells@;
            let ghost ds = grid.dirty@;
            let ci = Grid::idx(c);
            proof {
                assert(coords(ci as int) == c);
                if exists|k: int| 0 <= k < before.len() && before[k].0 == coords(ci as int) {
                    assert(cs[ci as int] == relic_seeded(c0[ci as int]));
                } else {
                    assert(cs[ci as int] == c0[ci as int]);
                }
            }
            let mut nc = cell;
            nc.res_kind = R_RELIC;
            grid.set(c, nc);
            let draw = rng.next();
            grid.mark(c);
            hits.push((c, draw));
            proof {
                let now = hits@;
                assert(now[now.len() - 1].0 == c);
                assert forall|i: int| 0 <= i < NCELLS implies #[trigger] grid.cells@[i] == if exists|k: int|
                    0 <= k < now.len() && now[k].0 == coords(i) {
                    relic_seeded(c0[i])
                } else {
                    c0[i]
                } by {
                    lemma_coords_index(i);
                    if exists|k: int| 0 <= k < before.len() && before[k].0 == coords(i) {
                        let k = choose|k: int| 0 <= k < before.len() && before[k].0 == coords(i);
                        assert(now[k].0 == coords(i));
                    }
                    if exists|k: int| 0 <= k < now.len() && now[k].0 == coords(i) {
                        let k = choose|k: int| 0 <= k < now.len() && now[k].0 == coords(i);
                        if k < before.len() {
                            assert(before[k].0 == coords(i));
                        }
                    }
                    if i != ci as int {
                        assert(cs[i] == grid.cells@[i]);
                        assert(coords(i) != c);
                    }
                }
                assert forall|t: int| 0 <= t < NTILES implies #[trigger] grid.dirty@[t] == (d0[t] || exists|k: int|
                    0 <= k < now.len() && tile_of(now[k].0) == t) by {
                    if t == tile_of(c) {
                    } else {
                        assert(ds[t] == grid.dirty@[t]);
                        if exists|k: int| 0 <= k < now.len() && tile_of(now[k].0) == t {
                            let k = choose|k: int| 0 <= k < now.len() && tile_of(now[k].0) == t;
                            assert(before[k].0 == now[k].0);
                        }
                        if exists|k: int| 0 <= k < before.len() && tile_of(before[k].0) == t {
                            let k = choose|k: int| 0 <= k < before.len() && tile_of(before[k].0) == t;
                            assert(before[k].0 == now[k].0);
                        }
                    }
                }
                assert forall|k: int| 0 <= k < now.len() implies {
                    let c = #[trigger] now[k].0;
                    &&& 1 <= c.0 <= MAP - 2
                    &&& 1 <= c.1 <= MAP - 2
                    &&& g0.cell(c).occ.is_none()
                    &&& g0.cell(c).walk
                } by {
                    if k < before.len() {
                        assert(before[k] == now[k]);
                    } else {
                        assert(c0[ci as int].occ == cs[ci as int].occ && c0[ci as int].walk == cs[ci as int].walk);
                    }
                }
            }
        }
        n = n + 1;
    }
    hits
}

} // verus!
