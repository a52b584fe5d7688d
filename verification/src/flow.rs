//! The enemy flow field: for every cell, the cheapest cost of walking from
//! the core out to it, where a step onto a cell holding a building (other
//! than a conveyor) costs 14 and any other step costs 1. Enemies walk
//! downhill on this field toward the core.

use vstd::prelude::*;
use crate::grid::{Cell, Grid, MAP, NCELLS, cell_index, col_of, in_bounds, lemma_cell_index_bounds};

verus! {

/// Distance of a cell that cannot be reached.
pub const UNREACHED: u32 = 0xFFFF_FFFF;

/// Cells `i` and `j` are 4-neighbours (by row-major index).
pub open spec fn adj(i: int, j: int) -> bool {
    &&& 0 <= i < NCELLS
    &&& 0 <= j < NCELLS
    &&& neighbour_step(i, j)
}

/// `j` lies one column or one row away from `i`, without wrapping around a
/// row end.
#[verifier::opaque]
pub open spec fn neighbour_step(i: int, j: int) -> bool {
    ||| j == i + 1 && col_of(i) != MAP - 1
    ||| j == i - 1 && col_of(i) != 0
    ||| j == i + MAP
    ||| j == i - MAP
}

/// Price of stepping onto a cell: buildings are passable for pathing but
/// expensive, so enemies flow around short walls and smash through long ones.
pub open spec fn step_cost(cell: Cell) -> int {
    if cell.occ.is_some() && !cell.conv {
        14
    } else {
        1
    }
}

/// Pathing prices: stepping onto a cell that holds a building other than a
/// conveyor or sorter costs 14, any other step costs 1; enemies never price
/// a step below 1.
pub proof fn lemma_step_prices(cell: Cell)
    ensures
        step_cost(cell) == if cell.occ is Some && !cell.conv { 14int } else { 1int },
        1 <= step_cost(cell) <= 14,
{
}

/// No cell could be reached more cheaply through a neighbour.
pub open spec fn flow_closed(cells: Seq<Cell>, dist: Seq<u32>) -> bool {
    forall|i: int, j: int|
        #![trigger adj(i, j)]
        adj(i, j) && dist[i] != UNREACHED && cells[j].walk ==> dist[j] <= dist[i] + step_cost(cells[j])
}

/// Every reached cell other than the source is walkable and reached through
/// a neighbour at no more than its own distance minus its step cost.
#[verifier::opaque]
pub open spec fn flow_supported(cells: Seq<Cell>, dist: Seq<u32>, s: int) -> bool {
    forall|k: int|
        0 <= k < NCELLS && k != s && #[trigger] dist[k] != UNREACHED ==> {
            &&& cells[k].walk
            &&& exists|p: int|
                #![trigger adj(p, k)]
                adj(p, k) && dist[p] != UNREACHED && dist[p] + step_cost(cells[k]) <= dist[k]
        }
}

/// `dist` is the flow field of `cells` rooted at cell index `s`: the source
/// is at 0, no neighbour offers a cheaper way in, and every other reached
/// cell is reached exactly through one of its neighbours.
pub open spec fn is_flow_field(cells: Seq<Cell>, dist: Seq<u32>, s: int) -> bool {
    &&& dist.len() == NCELLS
    &&& dist[s] == 0
    &&& flow_closed(cells, dist)
    &&& flow_exact(cells, dist, s)
}

/// Every reached cell other than the source is walkable and reached through
/// a neighbour at exactly its own distance minus its step cost.
pub open spec fn flow_exact(cells: Seq<Cell>, dist: Seq<u32>, s: int) -> bool {
    forall|k: int|
        0 <= k < NCELLS && k != s && #[trigger] dist[k] != UNREACHED ==> {
            &&& cells[k].walk
            &&& exists|p: int|
                #![trigger adj(p, k)]
                adj(p, k) && dist[p] != UNREACHED && dist[k] == dist[p] + step_cost(cells[k])
        }
}

pub open spec fn sum_dist(s: Seq<u32>) -> int
    decreases s.len(),
{
    if s.len() == 0 {
        0
    } else {
        sum_dist(s.drop_last()) + s.last()
    }
}

proof fn lemma_sum_nonneg(s: Seq<u32>)
    ensures
        sum_dist(s) >= 0,
    decreases s.len(),
{
    if s.len() > 0 {
        lemma_sum_nonneg(s.drop_last());
    }
}

/// Lowering some entries of a sequence (and raising none) lowers its sum.
proof fn lemma_sum_decreases(a: Seq<u32>, b: Seq<u32>)
    requires
        a.len() == b.len(),
        forall|i: int| 0 <= i < a.len() ==> #[trigger] a[i] <= b[i],
    ensures
        sum_dist(a) <= sum_dist(b),
        (exists|k: int| 0 <= k < a.len() && #[trigger] a[k] < b[k]) ==> sum_dist(a) < sum_dist(b),
    decreases a.len(),
{
    if a.len() > 0 {
        let n = a.len() - 1;
        assert(a[n] <= b[n]);
        lemma_sum_decreases(a.drop_last(), b.drop_last());
        assert forall|i: int| 0 <= i < a.drop_last().len() implies #[trigger] a.drop_last()[i] <= b.drop_last()[i] by {
            assert(a[i] <= b[i]);
        }
        if exists|k: int| 0 <= k < a.len() && #[trigger] a[k] < b[k] {
            let k = choose|k: int| 0 <= k < a.len() && #[trigger] a[k] < b[k];
            if k < n {
                assert(a.drop_last()[k] < b.drop_last()[k]);
            }
        }
    }
}

/// Invariants kept while distances are being lowered.
pub open spec fn flow_inv(cells: Seq<Cell>, dist: Seq<u32>, s: int) -> bool {
    &&& cells.len() == NCELLS
    &&& dist.len() == NCELLS
    &&& 0 <= s < NCELLS
    &&& dist[s] == 0
    &&& flow_supported(cells, dist, s)
}

/// Lowers the distance of `j` through its neighbour `i` if that is cheaper.
fn relax_edge(cells: &Vec<Cell>, dist: &mut Vec<u32>, i: usize, j: usize, Ghost(s): Ghost<int>) -> (changed: bool)
    requires
        flow_inv(cells@, old(dist)@, s),
        adj(i as int, j as int),
    ensures
        flow_inv(cells@, final(dist)@, s),
        forall|k: int| 0 <= k < NCELLS ==> #[trigger] final(dist)@[k] <= old(dist)@[k],
        changed ==> final(dist)@[j as int] < old(dist)@[j as int],
        !changed ==> final(dist)@ == old(dist)@,
        !changed ==> (old(dist)@[i as int] != UNREACHED && cells@[j as int].walk ==> old(dist)@[j as int]
            <= old(dist)@[i as int] + step_cost(cells@[j as int])),
{
    let di = dist[i];
    if di == UNREACHED || !cells[j].walk {
        return false;
    }
    let c = &cells[j];
    let cost: u64 = if c.occ.is_some() && !c.conv { 14 } else { 1 };
    let nd: u64 = di as u64 + cost;
    if nd < dist[j] as u64 {
        let ghost d0 = dist@;
        dist.set(j, nd as u32);
        proof {
            reveal(flow_supported);
            let d1 = dist@;
            assert(j as int != s) by {
                if j as int == s {
                    assert(d0[s] == 0);
                }
            }
            assert(i != j);
            assert forall|k: int|
                0 <= k < NCELLS && k != s && #[trigger] d1[k] != UNREACHED implies {
                    &&& cells@[k].walk
                    &&& exists|p: int|
                        #![trigger adj(p, k)]
                        adj(p, k) && d1[p] != UNREACHED && d1[p] + step_cost(cells@[k]) <= d1[k]
                } by {
                if k == j as int {
                    assert(adj(i as int, k) && d1[i as int] != UNREACHED && d1[i as int] + step_cost(cells@[k]) <= d1[k]);
                } else {
                    assert(d0[k] != UNREACHED);
                    let p = choose|p: int|
                        #![trigger adj(p, k)]
                        adj(p, k) && d0[p] != UNREACHED && d0[p] + step_cost(cells@[k]) <= d0[k];
                    assert(adj(p, k) && d1[p] != UNREACHED && d1[p] + step_cost(cells@[k]) <= d1[k]);
                }
            }
        }
        true
    } else {
        false
    }
}

/// Cell `j` cannot be reached more cheaply through its neighbour `i`.
pub open spec fn edge_ok(cells: Seq<Cell>, dist: Seq<u32>, i: int, j: int) -> bool {
    dist[i] != UNREACHED && cells[j].walk ==> dist[j] <= dist[i] + step_cost(cells[j])
}

/// Relaxes every neighbour of cell `i`.
fn relax_from(cells: &Vec<Cell>, dist: &mut Vec<u32>, i: usize, Ghost(s): Ghost<int>) -> (changed: bool)
    requires
        flow_inv(cells@, old(dist)@, s),
        i < NCELLS,
    ensures
        flow_inv(cells@, final(dist)@, s),
        forall|k: int| 0 <= k < NCELLS ==> #[trigger] final(dist)@[k] <= old(dist)@[k],
        changed ==> exists|k: int| 0 <= k < NCELLS && #[trigger] final(dist)@[k] < old(dist)@[k],
        !changed ==> final(dist)@ == old(dist)@,
        !changed ==> forall|j: int|
            #![trigger adj(i as int, j)]
            adj(i as int, j) && final(dist)@[i as int] != UNREACHED && cells@[j].walk ==> final(dist)@[j]
                <= final(dist)@[i as int] + step_cost(cells@[j]),
{
    reveal(neighbour_step);
    let ghost d0 = dist@;
    let ghost ii = i as int;
    let mut changed = false;
    let ghost mut w: int = 0;
    let col = i % 96;
    if col != 95 {
        if relax_edge(cells, dist, i, i + 1, Ghost(s)) {
            changed = true;
            proof { w = ii + 1; }
        }
    }
    assert(changed ==> 0 <= w < NCELLS && dist@[w] < d0[w]);
    assert(!changed ==> dist@ == d0 && (col != 95 ==> edge_ok(cells@, d0, ii, ii + 1)));
    let ghost d1 = dist@;
    if col != 0 {
        if relax_edge(cells, dist, i, i - 1, Ghost(s)) {
            changed = true;
            proof { w = ii - 1; }
        } else {
            proof {
                if changed {
                    assert(dist@[w] < d0[w]);
                }
            }
        }
    }
    assert(forall|k: int| 0 <= k < NCELLS ==> #[trigger] dist@[k] <= d0[k]);
    assert(changed ==> 0 <= w < NCELLS && dist@[w] < d0[w]);
    assert(!changed ==> dist@ == d0 && (col != 95 ==> edge_ok(cells@, d0, ii, ii + 1)) && (col != 0
        ==> edge_ok(cells@, d0, ii, ii - 1)));
    let ghost d2 = dist@;
    if i + 96 < NCELLS {
        if relax_edge(cells, dist, i, i + 96, Ghost(s)) {
            changed = true;
            proof { w = ii + 96; }
        } else {
            proof {
                if changed {
                    assert(dist@[w] < d0[w]);
                }
            }
        }
    }
    assert(forall|k: int| 0 <= k < NCELLS ==> #[trigger] dist@[k] <= d0[k]);
    assert(changed ==> 0 <= w < NCELLS && dist@[w] < d0[w]);
    assert(!changed ==> dist@ == d0 && (col != 95 ==> edge_ok(cells@, d0, ii, ii + 1)) && (col != 0
        ==> edge_ok(cells@, d0, ii, ii - 1)) && (ii + 96 < NCELLS ==> edge_ok(cells@, d0, ii, ii + 96)));
    if i >= 96 {
        if relax_edge(cells, dist, i, i - 96, Ghost(s)) {
            changed = true;
            proof { w = ii - 96; }
        } else {
            proof {
                if changed {
                    assert(dist@[w] < d0[w]);
                }
            }
        }
    }
    assert(forall|k: int| 0 <= k < NCELLS ==> #[trigger] dist@[k] <= d0[k]);
    assert(changed ==> 0 <= w < NCELLS && dist@[w] < d0[w]);
    proof {
        if !changed {
            assert(dist@ == d0);
            assert(col as int == col_of(ii));
            assert forall|j: int|
                #![trigger adj(ii, j)]
                adj(ii, j) && dist@[ii] != UNREACHED && cells@[j].walk implies dist@[j]
                    <= dist@[ii] + step_cost(cells@[j]) by {
                if j == ii + 1 && col_of(ii) != MAP - 1 {
                    assert(edge_ok(cells@, d0, ii, ii + 1));
                } else if j == ii - 1 && col_of(ii) != 0 {
                    assert(edge_ok(cells@, d0, ii, ii - 1));
                } else if j == ii + MAP {
                    assert(edge_ok(cells@, d0, ii, ii + 96));
                } else {
                    assert(edge_ok(cells@, d0, ii, ii - 96));
                }
            }
        }
    }
    changed
}

/// Which cells a sweep has already visited after `k` steps.
pub open spec fn visited(i: int, k: int, backward: bool) -> bool {
    if backward {
        i >= NCELLS - k
    } else {
        i < k
    }
}

/// One pass over all cells, forward or backward.
fn sweep(cells: &Vec<Cell>, dist: &mut Vec<u32>, backward: bool, Ghost(s): Ghost<int>) -> (changed: bool)
    requires
        flow_inv(cells@, old(dist)@, s),
    ensures
        flow_inv(cells@, final(dist)@, s),
        forall|k: int| 0 <= k < NCELLS ==> #[trigger] final(dist)@[k] <= old(dist)@[k],
        changed ==> exists|k: int| 0 <= k < NCELLS && #[trigger] final(dist)@[k] < old(dist)@[k],
        !changed ==> flow_closed(cells@, final(dist)@),
{
    let ghost d0 = dist@;
    let mut changed = false;
    let mut k: usize = 0;
    while k < NCELLS
        invariant
            k <= NCELLS,
            flow_inv(cells@, dist@, s),
            forall|m: int| 0 <= m < NCELLS ==> #[trigger] dist@[m] <= d0[m],
            changed ==> exists|m: int| 0 <= m < NCELLS && #[trigger] dist@[m] < d0[m],
            !changed ==> dist@ == d0,
            !changed ==> forall|i: int, j: int|
                #![trigger adj(i, j)]
                visited(i, k as int, backward) && adj(i, j) && dist@[i] != UNREACHED && cells@[j].walk
                    ==> dist@[j] <= dist@[i] + step_cost(cells@[j]),
        decreases NCELLS - k,
    {
        let i = if backward { NCELLS - 1 - k } else { k };
        let ghost before = dist@;
        let c = relax_from(cells, dist, i, Ghost(s));
        proof {
            if c {
                let m = choose|m: int| 0 <= m < NCELLS && #[trigger] dist@[m] < before[m];
                assert(dist@[m] < d0[m]);
            } else if changed {
                let m = choose|m: int| 0 <= m < NCELLS && #[trigger] before[m] < d0[m];
                assert(dist@[m] < d0[m]);
            }
        }
        changed = changed || c;
        k = k + 1;
    }
    proof {
        if !changed {
            assert forall|i: int, j: int|
                #![trigger adj(i, j)]
                adj(i, j) && dist@[i] != UNREACHED && cells@[j].walk implies dist@[j] <= dist@[i] + step_cost(
                    cells@[j],
                ) by {
                assert(visited(i, NCELLS as int, backward));
            }
        }
    }
    changed
}

/// The flow field of `cells` rooted at `start`, computed by sweeping until no
/// distance can be lowered.
pub fn flow_field(cells: &Vec<Cell>, start: (i32, i32)) -> (dist: Vec<u32>)
    requires
        cells@.len() == NCELLS,
        in_bounds(start),
    ensures
        is_flow_field(cells@, dist@, cell_index(start)),
{
    let s = Grid::idx(start);
    let mut dist: Vec<u32> = Vec::new();
    let mut i: usize = 0;
    while i < NCELLS
        invariant
            i <= NCELLS,
            dist@.len() == i,
            forall|k: int| 0 <= k < i ==> #[trigger] dist@[k] == UNREACHED,
        decreases NCELLS - i,
    {
        dist.push(UNREACHED);
        i = i + 1;
    }
    dist.set(s, 0);
    let ghost sg = s as int;
    assert(flow_supported(cells@, dist@, sg)) by {
        reveal(flow_supported);
    }
    let mut backward = false;
    loop
        invariant
            flow_inv(cells@, dist@, sg),
        ensures
            flow_inv(cells@, dist@, sg),
            flow_closed(cells@, dist@),
        decreases sum_dist(dist@),
    {
        let ghost before = dist@;
        let changed = sweep(cells, &mut dist, backward, Ghost(sg));
        if !changed {
            break;
        }
        proof {
            lemma_sum_decreases(dist@, before);
            lemma_sum_nonneg(dist@);
        }
        backward = !backward;
    }
    proof {
        reveal(flow_supported);
        assert forall|k: int|
            0 <= k < NCELLS && k != sg && #[trigger] dist@[k] != UNREACHED implies {
                &&& cells@[k].walk
                &&& exists|p: int|
                    #![trigger adj(p, k)]
                    adj(p, k) && dist@[p] != UNREACHED && dist@[k] == dist@[p] + step_cost(cells@[k])
            } by {
            let p = choose|p: int|
                #![trigger adj(p, k)]
                adj(p, k) && dist@[p] != UNREACHED && dist@[p] + step_cost(cells@[k]) <= dist@[k];
            assert(adj(p, k));
        }
    }
    dist
}

/// `w` is a walk that starts at the source `s` and only steps onto walkable
/// neighbouring cells.
pub open spec fn is_walk(cells: Seq<Cell>, w: Seq<int>, s: int) -> bool {
    &&& w.len() >= 1
    &&& w[0] == s
    &&& forall|k: int| 0 <= k < w.len() - 1 ==> #[trigger] walk_step(cells, w, k)
}

/// Step `k` of walk `w` moves to a walkable neighbouring cell.
pub open spec fn walk_step(cells: Seq<Cell>, w: Seq<int>, k: int) -> bool {
    adj(w[k], w[k + 1]) && cells[w[k + 1]].walk
}

/// Total step cost of a walk (the starting cell is free).
pub open spec fn walk_cost(cells: Seq<Cell>, w: Seq<int>) -> int
    decreases w.len(),
{
    if w.len() <= 1 {
        0
    } else {
        walk_cost(cells, w.drop_last()) + step_cost(cells[w.last()])
    }
}

/// No walk from the source is cheaper than the flow field says: the distance
/// at the end of any walk is at most the walk's cost.
pub proof fn lemma_flow_field_is_lower_bound(cells: Seq<Cell>, dist: Seq<u32>, s: int, w: Seq<int>)
    requires
        cells.len() == NCELLS,
        0 <= s < NCELLS,
        is_flow_field(cells, dist, s),
        is_walk(cells, w, s),
    ensures
        dist[w.last()] <= walk_cost(cells, w),
    decreases w.len(),
{
    if w.len() > 1 {
        let v = w.drop_last();
        assert(is_walk(cells, v, s)) by {
            assert forall|k: int| 0 <= k < v.len() - 1 implies #[trigger] walk_step(cells, v, k) by {
                assert(walk_step(cells, w, k));
                assert(w[k] == v[k] && w[k + 1] == v[k + 1]);
            }
        }
        lemma_flow_field_is_lower_bound(cells, dist, s, v);
        let n = w.len() - 2;
        assert(w[n] == v.last());
        assert(walk_step(cells, w, n));
        assert(w[n + 1] == w.last());
    }
}

/// Every reached cell is reached by a walk from the source that costs
/// exactly its distance.
pub proof fn lemma_flow_field_is_attained(cells: Seq<Cell>, dist: Seq<u32>, s: int, k: int) -> (w: Seq<int>)
    requires
        cells.len() == NCELLS,
        0 <= s < NCELLS,
        is_flow_field(cells, dist, s),
        0 <= k < NCELLS,
        dist[k] != UNREACHED,
    ensures
        is_walk(cells, w, s),
        w.last() == k,
        walk_cost(cells, w) == dist[k],
    decreases dist[k],
{
    if k == s {
        let w = seq![s];
        assert(w.drop_last().len() == 0);
        w
    } else {
        let p = choose|p: int|
            #![trigger adj(p, k)]
            adj(p, k) && dist[p] != UNREACHED && dist[k] == dist[p] + step_cost(cells[k]);
        let v = lemma_flow_field_is_attained(cells, dist, s, p);
        let w = v.push(k);
        assert(w.drop_last() == v);
        assert forall|m: int| 0 <= m < w.len() - 1 implies #[trigger] walk_step(cells, w, m) by {
            if m < v.len() - 1 {
                assert(walk_step(cells, v, m));
                assert(v[m] == w[m] && v[m + 1] == w[m + 1]);
            } else {
                assert(w[m] == v.last());
            }
        }
        w
    }
}

impl Grid {
    /// Recomputes the flow field toward the core at `core` (when there is
    /// one) and clears the pending flag.
    pub fn recompute_flow(&mut self, core: Option<(i32, i32)>)
        requires
            old(self).wf(),
            core matches Some(c) ==> in_bounds(c),
        ensures
            final(self).wf(),
            !final(self).flow_dirty,
            match core {
                Some(c) => is_flow_field(old(self).cells@, final(self).flow@, cell_index(c)),
                None => final(self).flow@ == old(self).flow@,
            },
            final(self).cells@ == old(self).cells@,
            final(self).dirty@ == old(self).dirty@,
            final(self).seed == old(self).seed,
            final(self).power_dirty == old(self).power_dirty,
            final(self).nests_gen@ == old(self).nests_gen@,
    {
        self.flow_dirty = false;
        if let Some(c) = core {
            self.flow = flow_field(&self.cells, c);
        }
    }
}

/// The eight neighbour offsets, in the order they are examined.
pub open spec fn offset(k: int) -> (int, int) {
    if k == 0 {
        (1, 0)
    } else if k == 1 {
        (-1, 0)
    } else if k == 2 {
        (0, 1)
    } else if k == 3 {
        (0, -1)
    } else if k == 4 {
        (1, 1)
    } else if k == 5 {
        (-1, 1)
    } else if k == 6 {
        (1, -1)
    } else {
        (-1, -1)
    }
}

/// The cell at offset `k` from `c`.
pub open spec fn offset_cell(c: (i32, i32), k: int) -> (int, int) {
    (c.0 + offset(k).0, c.1 + offset(k).1)
}

/// The neighbour at offset `k` is on the map and reached by the field.
pub open spec fn offset_reached(flow: Seq<u32>, c: (i32, i32), k: int) -> bool {
    let n = offset_cell(c, k);
    0 <= n.0 < MAP && 0 <= n.1 < MAP && flow[n.1 * MAP + n.0] != UNREACHED
}

/// Field value at the neighbour at offset `k`.
pub open spec fn offset_dist(flow: Seq<u32>, c: (i32, i32), k: int) -> u32 {
    let n = offset_cell(c, k);
    flow[n.1 * MAP + n.0]
}

/// Offset `k` is the first reached neighbour with the lowest field value.
pub open spec fn best_offset(flow: Seq<u32>, c: (i32, i32), k: int) -> bool {
    &&& 0 <= k < 8
    &&& offset_reached(flow, c, k)
    &&& forall|m: int|
        0 <= m < k && #[trigger] offset_reached(flow, c, m) ==> offset_dist(flow, c, m) > offset_dist(flow, c, k)
    &&& forall|m: int|
        k < m < 8 && #[trigger] offset_reached(flow, c, m) ==> offset_dist(flow, c, m) >= offset_dist(flow, c, k)
}

impl Grid {
    /// Which way is downhill on the flow field from `c`: the offset to the
    /// first (in examination order) of the eight neighbours with the lowest
    /// reached distance. None off the map, at the core itself (distance 0),
    /// and where no neighbour is reached.
    pub fn flow_step(&self, c: (i32, i32)) -> (r: Option<(i32, i32)>)
        requires
            self.wf(),
        ensures
            r is None <==> (!in_bounds(c) || self.flow@[cell_index(c)] == 0 || forall|m: int|
                0 <= m < 8 ==> !#[trigger] offset_reached(self.flow@, c, m)),
            r matches Some(o) ==> exists|k: int|
                best_offset(self.flow@, c, k) && o.0 == offset(k).0 && o.1 == offset(k).1,
    {
        if !Grid::inb(c) {
            return None;
        }
        let offs: [(i32, i32); 8] = [(1, 0), (-1, 0), (0, 1), (0, -1), (1, 1), (-1, 1), (1, -1), (-1, -1)];
        let mut best: Option<(usize, u32)> = None;
        let mut k: usize = 0;
        while k < 8
            invariant
                self.wf(),
                in_bounds(c),
                k <= 8,
                forall|m: int| 0 <= m < 8 ==> #[trigger] offs@[m] == (offset(m).0 as i32, offset(m).1 as i32),
                best is None ==> forall|m: int| 0 <= m < k ==> !#[trigger] offset_reached(self.flow@, c, m),
                best matches Some((b, d)) ==> {
                    &&& b < k
                    &&& offset_reached(self.flow@, c, b as int)
                    &&& d == offset_dist(self.flow@, c, b as int)
                    &&& forall|m: int|
                        0 <= m < b && #[trigger] offset_reached(self.flow@, c, m) ==> offset_dist(self.flow@, c, m) > d
                    &&& forall|m: int|
                        b < m < k && #[trigger] offset_reached(self.flow@, c, m) ==> offset_dist(self.flow@, c, m) >= d
                },
            decreases 8 - k,
        {
            let o = offs[k];
            let nc = (c.0 + o.0, c.1 + o.1);
            if Grid::inb(nc) {
                let d = self.flow[Grid::idx(nc)];
                if d != UNREACHED {
                    let better = match best {
                        None => true,
                        Some((_, bd)) => d < bd,
                    };
                    if better {
                        best = Some((k, d));
                    }
                }
            }
            k = k + 1;
        }
        proof {
            lemma_cell_index_bounds(c);
        }
        let here = self.flow[Grid::idx(c)];
        match best {
            None => None,
            Some((b, d)) => {
                if here != UNREACHED && d >= here && here == 0 {
                    None
                } else {
                    let r = offs[b];
                    assert(best_offset(self.flow@, c, b as int));
                    assert(r.0 == offset(b as int).0 && r.1 == offset(b as int).1);
                    assert(offset_reached(self.flow@, c, b as int));
                    Some(r)
                }
            }
        }
    }
}

/// On a flow field, every reached cell other than the core has a reached
/// neighbour, and the first lowest one among the eight (the step an enemy
/// takes) is strictly closer to the core: enemies always walk downhill.
pub proof fn lemma_flow_step_descends(cells: Seq<Cell>, flow: Seq<u32>, s: int, c: (i32, i32), k: int)
    requires
        cells.len() == NCELLS,
        0 <= s < NCELLS,
        is_flow_field(cells, flow, s),
        in_bounds(c),
        cell_index(c) != s,
        flow[cell_index(c)] != UNREACHED,
    ensures
        flow[cell_index(c)] != 0,
        exists|m: int| 0 <= m < 8 && #[trigger] offset_reached(flow, c, m),
        best_offset(flow, c, k) ==> offset_dist(flow, c, k) < flow[cell_index(c)],
{
    let i = cell_index(c);
    lemma_cell_index_bounds(c);
    let p = choose|p: int|
        #![trigger adj(p, i)]
        adj(p, i) && flow[p] != UNREACHED && flow[i] == flow[p] + step_cost(cells[i]);
    reveal(neighbour_step);
    assert(adj(p, i));
    assert(i == c.1 * 96 + c.0);
    // the offset that leads from c to p
    let m: int = if i == p + 1 {
        1
    } else if i == p - 1 {
        0
    } else if i == p + MAP {
        3
    } else {
        2
    };
    if i == p + 1 {
        assert(c.0 >= 1) by {
            if c.0 == 0 {
                assert(p == c.1 * 96 - 1);
                assert(c.1 >= 1);
                assert((c.1 * 96 - 1) % 96 == 95) by (nonlinear_arith)
                    requires
                        c.1 >= 1,
                ;
            }
        }
    } else if i == p - 1 {
        assert(c.0 <= 94) by {
            if c.0 == 95 {
                assert(p == c.1 * 96 + 96);
                assert((c.1 * 96 + 96) % 96 == 0) by (nonlinear_arith)
                    requires
                        c.1 >= 0,
                ;
            }
        }
    }
    assert(offset_cell(c, m).1 * MAP + offset_cell(c, m).0 == p);
    assert(offset_reached(flow, c, m));
    assert(offset_dist(flow, c, m) == flow[p]);
    if best_offset(flow, c, k) {
        if m < k {
            assert(offset_dist(flow, c, m) > offset_dist(flow, c, k));
        } else if m > k {
            assert(offset_dist(flow, c, m) >= offset_dist(flow, c, k));
        }
    }
}

} // verus!
