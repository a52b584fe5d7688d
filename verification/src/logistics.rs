//! Conveyor logistics: breadth-first routing of item packets through the
//! conveyor network to a machine that takes them.

use vstd::prelude::*;
use std::collections::HashMap;
use crate::defs::{BKind, machine_accepts, accepts, bdef, building_foot, foot_cells, footprint};
use crate::flow::{adj, neighbour_step};
use crate::grid::{Cell, Grid, MAP, NCELLS, cell_index, coords, in_bounds, lemma_cell_index_bounds, lemma_coords_index};
use crate::kinds::NRES;

verus! {

broadcast use vstd::std_specs::hash::group_hash_axioms;

/// What routing needs to know about a machine.
#[derive(Clone, Copy)]
pub struct MachInfo {
    pub kind: BKind,
    pub recipe: u8,
    /// Construction has finished.
    pub built: bool,
    /// The input buffer for each resource still has room (holds under 12).
    pub room: [bool; 8],
}

/// Cell index `n` holds a finished machine, other than `exclude`, that takes
/// `res` and has room for it.
pub open spec fn takes_packet(
    cells: Seq<Cell>,
    machines: Map<u64, MachInfo>,
    res: usize,
    exclude: u64,
    n: int,
) -> bool {
    match cells[n].occ {
        Some(e) => {
            &&& e != exclude
            &&& !cells[n].conv
            &&& machines.contains_key(e)
            &&& machines[e].built
            &&& machine_accepts(machines[e].kind, machines[e].recipe, res)
            &&& machines[e].room[res as int]
        },
        None => false,
    }
}

/// Packets of `res` may travel through cell index `n`: it carries a conveyor
/// and, if it is a sorter, its filter lets `res` pass.
pub open spec fn passes(cells: Seq<Cell>, filters: Map<usize, usize>, res: usize, n: int) -> bool {
    &&& cells[n].conv
    &&& !(filters.contains_key(n as usize) && filters[n as usize] < NRES && filters[n as usize] != res)
}

/// Step `k` of `path` moves to a 4-neighbour.
pub open spec fn route_step(path: Seq<(i32, i32)>, k: int) -> bool {
    adj(cell_index(path[k]), cell_index(path[k + 1]))
}

/// `path` leads from `start` through the conveyor network without
/// revisiting a cell, and ends next to a machine that takes the packet.
pub open spec fn valid_route(
    cells: Seq<Cell>,
    machines: Map<u64, MachInfo>,
    filters: Map<usize, usize>,
    start: (i32, i32),
    res: usize,
    exclude: u64,
    path: Seq<(i32, i32)>,
) -> bool {
    &&& path.len() >= 1
    &&& path[0] == start
    &&& forall|k: int| 0 <= k < path.len() ==> #[trigger] in_bounds(path[k])
    &&& forall|k: int| 1 <= k < path.len() ==> passes(cells, filters, res, #[trigger] cell_index(path[k]))
    &&& forall|k: int| 0 <= k < path.len() - 1 ==> #[trigger] route_step(path, k)
    &&& forall|i: int, j: int| 0 <= i < j < path.len() ==> path[i] != path[j]
    &&& exists|n: int| #[trigger] adj(cell_index(path.last()), n) && takes_packet(cells, machines, res, exclude, n)
}

/// The `d`-th neighbour of cell index `c` (right, left, next row, previous
/// row), when it is on the map.
fn neighbour(c: usize, d: usize) -> (n: Option<usize>)
    requires
        c < NCELLS,
        d < 4,
    ensures
        n matches Some(m) ==> adj(c as int, m as int) && dir_of(c as int, m as int) == d,
        n is None ==> forall|m: int| !(#[trigger] adj(c as int, m) && dir_of(c as int, m) == d),
        n matches Some(m) ==> nbr(c as int, d as int) == Some(m as int),
        n is None ==> nbr(c as int, d as int) is None,
{
    reveal(neighbour_step);
    let col = c % 96;
    if d == 0 {
        if col != 95 { Some(c + 1) } else { None }
    } else if d == 1 {
        if col != 0 { Some(c - 1) } else { None }
    } else if d == 2 {
        if c + 96 < NCELLS { Some(c + 96) } else { None }
    } else {
        if c >= 96 { Some(c - 96) } else { None }
    }
}

/// Which of the four directions leads from `c` to `m`.
pub open spec fn dir_of(c: int, m: int) -> int {
    if m == c + 1 {
        0
    } else if m == c - 1 {
        1
    } else if m == c + MAP {
        2
    } else {
        3
    }
}

/// Every neighbour lies in one of the four directions.
proof fn lemma_dir_of(c: int, m: int)
    requires
        adj(c, m),
    ensures
        0 <= dir_of(c, m) < 4,
{
}

/// The `d`-th neighbour of cell index `c` in search order: right, left,
/// next row, previous row; `None` off the map.
pub open spec fn nbr(c: int, d: int) -> Option<int> {
    if d == 0 {
        if c % 96 != 95 { Some(c + 1) } else { None }
    } else if d == 1 {
        if c % 96 != 0 { Some(c - 1) } else { None }
    } else if d == 2 {
        if c + 96 < NCELLS { Some(c + 96) } else { None }
    } else {
        if c >= 96 { Some(c - 96) } else { None }
    }
}

/// The search's bookkeeping: the cells queued so far, in order, and for each
/// cell the one it was reached from (`NCELLS` while unreached).
pub struct BfsState {
    pub queue: Seq<usize>,
    pub prev: Seq<usize>,
}

/// Looks at neighbour `n` of `c`: an unreached cell that packets may pass is
/// queued and reached from `c`.
pub open spec fn visit(cells: Seq<Cell>, filters: Map<usize, usize>, res: usize, st: BfsState, c: int, n: Option<int>) -> BfsState {
    match n {
        Some(m) => if st.prev[m] == NCELLS && passes(cells, filters, res, m) {
            BfsState { queue: st.queue.push(m as usize), prev: st.prev.update(m, c as usize) }
        } else {
            st
        },
        None => st,
    }
}

/// Expanding `c`: its first `d` neighbours in search order are looked at.
pub open spec fn expand_upto(cells: Seq<Cell>, filters: Map<usize, usize>, res: usize, st: BfsState, c: int, d: nat) -> BfsState
    decreases d,
{
    if d == 0 {
        st
    } else {
        visit(cells, filters, res, expand_upto(cells, filters, res, st, c, (d - 1) as nat), c, nbr(c, d - 1))
    }
}

/// The breadth-first search from cell index `s` once the first `k` queued
/// cells have been expanded (or the queue ran out).
pub open spec fn bfs_state(cells: Seq<Cell>, filters: Map<usize, usize>, res: usize, s: int, k: nat) -> BfsState
    decreases k,
{
    if k == 0 {
        BfsState { queue: seq![s as usize], prev: Seq::new(NCELLS as nat, |v: int| if v == s { s as usize } else { NCELLS }) }
    } else {
        let st = bfs_state(cells, filters, res, s, (k - 1) as nat);
        if k - 1 < st.queue.len() {
            expand_upto(cells, filters, res, st, st.queue[k - 1] as int, 4)
        } else {
            st
        }
    }
}

/// Cell index `c` lies next to a machine that takes the packet.
pub open spec fn feeds(cells: Seq<Cell>, machines: Map<u64, MachInfo>, res: usize, exclude: u64, c: int) -> bool {
    exists|m: int| #[trigger] adj(c, m) && takes_packet(cells, machines, res, exclude, m)
}

/// The search's bookkeeping is well formed.
pub open spec fn bfs_wf(st: BfsState) -> bool {
    &&& st.prev.len() == NCELLS
    &&& forall|i: int| 0 <= i < st.queue.len() ==> #[trigger] st.queue[i] < NCELLS
}

proof fn lemma_nbr(c: int, d: int)
    requires
        0 <= c < NCELLS,
    ensures
        nbr(c, d) matches Some(m) ==> 0 <= m < NCELLS,
{
}

/// Expanding keeps the bookkeeping well formed, only appends to the queue and
/// never changes how a reached cell was reached.
proof fn lemma_expand_grows(cells: Seq<Cell>, filters: Map<usize, usize>, res: usize, st: BfsState, c: int, d: nat)
    requires
        bfs_wf(st),
        0 <= c < NCELLS,
    ensures
        bfs_wf(expand_upto(cells, filters, res, st, c, d)),
        st.queue.len() <= expand_upto(cells, filters, res, st, c, d).queue.len(),
        forall|i: int| 0 <= i < st.queue.len() ==> #[trigger] expand_upto(cells, filters, res, st, c, d).queue[i] == st.queue[i],
        forall|v: int| 0 <= v < NCELLS && st.prev[v] != NCELLS ==> #[trigger] expand_upto(cells, filters, res, st, c, d).prev[v] == st.prev[v],
    decreases d,
{
    if d > 0 {
        lemma_expand_grows(cells, filters, res, st, c, (d - 1) as nat);
        lemma_nbr(c, d - 1);
    }
}

proof fn lemma_bfs_wf(cells: Seq<Cell>, filters: Map<usize, usize>, res: usize, s: int, k: nat)
    requires
        0 <= s < NCELLS,
    ensures
        bfs_wf(bfs_state(cells, filters, res, s, k)),
    decreases k,
{
    if k > 0 {
        lemma_bfs_wf(cells, filters, res, s, (k - 1) as nat);
        let st = bfs_state(cells, filters, res, s, (k - 1) as nat);
        if k - 1 < st.queue.len() {
            lemma_expand_grows(cells, filters, res, st, st.queue[k - 1] as int, 4);
        }
    }
}

/// Later stages of the search only append to the queue and never change how
/// a reached cell was reached.
proof fn lemma_bfs_grows(cells: Seq<Cell>, filters: Map<usize, usize>, res: usize, s: int, k: nat, k2: nat)
    requires
        0 <= s < NCELLS,
        k <= k2,
    ensures
        bfs_state(cells, filters, res, s, k).queue.len() <= bfs_state(cells, filters, res, s, k2).queue.len(),
        forall|i: int| 0 <= i < bfs_state(cells, filters, res, s, k).queue.len() ==> #[trigger] bfs_state(cells, filters, res, s, k2).queue[i]
            == bfs_state(cells, filters, res, s, k).queue[i],
        forall|v: int| 0 <= v < NCELLS && bfs_state(cells, filters, res, s, k).prev[v] != NCELLS ==> #[trigger] bfs_state(cells, filters, res, s, k2).prev[v]
            == bfs_state(cells, filters, res, s, k).prev[v],
    decreases k2,
{
    if k < k2 {
        lemma_bfs_grows(cells, filters, res, s, k, (k2 - 1) as nat);
        lemma_bfs_wf(cells, filters, res, s, (k2 - 1) as nat);
        let st = bfs_state(cells, filters, res, s, (k2 - 1) as nat);
        if k2 - 1 < st.queue.len() {
            lemma_expand_grows(cells, filters, res, st, st.queue[k2 - 1] as int, 4);
        }
    }
}

/// Once every queued cell is expanded, the search stays where it is.
proof fn lemma_bfs_done(cells: Seq<Cell>, filters: Map<usize, usize>, res: usize, s: int, k: nat, k2: nat)
    requires
        bfs_state(cells, filters, res, s, k).queue.len() <= k,
        k <= k2,
    ensures
        bfs_state(cells, filters, res, s, k2) == bfs_state(cells, filters, res, s, k),
    decreases k2,
{
    if k < k2 {
        lemma_bfs_done(cells, filters, res, s, k, (k2 - 1) as nat);
    }
}

fn takes(grid: &Grid, machines: &HashMap<u64, MachInfo>, res: usize, exclude: u64, n: usize) -> (b: bool)
    requires
        grid.wf(),
        n < NCELLS,
        res < NRES,
    ensures
        b == takes_packet(grid.cells@, machines@, res, exclude, n as int),
{
    let cell = &grid.cells[n];
    match cell.occ {
        Some(e) => {
            if e != exclude && !cell.conv {
                match machines.get(&e) {
                    Some(m) => m.built && accepts(m.kind, m.recipe, res) && m.room[res],
                    None => false,
                }
            } else {
                false
            }
        },
        None => false,
    }
}

/// Bookkeeping of the search: every reached cell other than the start was
/// reached from an earlier reached neighbour one level closer to the start,
/// through cells packets may pass.
pub open spec fn search_inv(
    cells: Seq<Cell>,
    filters: Map<usize, usize>,
    res: usize,
    s: int,
    prev: Seq<usize>,
    depth: Seq<nat>,
) -> bool {
    &&& prev.len() == NCELLS
    &&& depth.len() == NCELLS
    &&& 0 <= s < NCELLS
    &&& prev[s] == s
    &&& depth[s] == 0
    &&& forall|v: int| 0 <= v < NCELLS ==> #[trigger] prev[v] <= NCELLS
    &&& forall|v: int|
        0 <= v < NCELLS && v != s && #[trigger] prev[v] != NCELLS ==> {
            &&& prev[prev[v] as int] != NCELLS
            &&& adj(prev[v] as int, v)
            &&& passes(cells, filters, res, v)
            &&& depth[v] == depth[prev[v] as int] + 1
        }
}

/// Walks the reached-from links back from `c` to the start and returns the
/// path in travel order.
fn trace_back(
    prev: &Vec<usize>,
    c: usize,
    Ghost(cells): Ghost<Seq<Cell>>,
    Ghost(filters): Ghost<Map<usize, usize>>,
    Ghost(res): Ghost<usize>,
    Ghost(s): Ghost<int>,
    Ghost(depth): Ghost<Seq<nat>>,
) -> (path: Vec<(i32, i32)>)
    requires
        search_inv(cells, filters, res, s, prev@, depth),
        c < NCELLS,
        prev@[c as int] != NCELLS,
    ensures
        path@.len() >= 1,
        path@.len() == depth[c as int] + 1,
        path@[0] == coords(s),
        path@.last() == coords(c as int),
        forall|k: int| 0 <= k < path@.len() ==> #[trigger] in_bounds(path@[k]),
        forall|k: int| 1 <= k < path@.len() ==> passes(cells, filters, res, #[trigger] cell_index(path@[k])),
        forall|k: int| 0 <= k < path@.len() - 1 ==> #[trigger] route_step(path@, k),
        forall|i: int, j: int| 0 <= i < j < path@.len() ==> path@[i] != path@[j],
        forall|k: int| 1 <= k < path@.len() ==> prev@[#[trigger] cell_index(path@[k])] as int == cell_index(path@[k - 1]),
{
    // cells from c back to the start
    let mut rev: Vec<usize> = Vec::new();
    let mut cur = c;
    rev.push(cur);
    while prev[cur] != cur
        invariant
            search_inv(cells, filters, res, s, prev@, depth),
            cur < NCELLS,
            prev@[cur as int] != NCELLS,
            rev@.len() >= 1,
            rev@[0] == c,
            rev@.last() == cur,
            forall|k: int| 0 <= k < rev@.len() ==> #[trigger] rev@[k] < NCELLS && prev@[rev@[k] as int] != NCELLS,
            forall|k: int| 0 <= k < rev@.len() ==> depth[#[trigger] rev@[k] as int] + k == depth[c as int],
            forall|k: int| 0 <= k < rev@.len() - 1 ==> #[trigger] rev@[k] != s && adj(rev@[k + 1] as int, rev@[k] as int)
                && prev@[rev@[k] as int] == rev@[k + 1],
        decreases depth[cur as int],
    {
        assert(cur as int != s);
        let p = prev[cur];
        rev.push(p);
        cur = p;
    }
    assert(cur as int == s) by {
        if cur as int != s {
            assert(depth[cur as int] == depth[prev@[cur as int] as int] + 1);
        }
    }
    assert(rev@.len() == depth[c as int] + 1) by {
        assert(depth[rev@[rev@.len() - 1] as int] + (rev@.len() - 1) == depth[c as int]);
    }
    // reverse into travel order
    let n = rev.len();
    assert(forall|m: int| 0 <= m < rev@.len() ==> #[trigger] rev@[m] < NCELLS && prev@[rev@[m] as int] != NCELLS);
    let mut path: Vec<(i32, i32)> = Vec::new();
    let mut k: usize = 0;
    while k < n
        invariant
            n == rev@.len(),
            k <= n,
            path@.len() == k,
            forall|m: int| 0 <= m < rev@.len() ==> #[trigger] rev@[m] < NCELLS,
            forall|m: int| 0 <= m < k ==> #[trigger] path@[m] == coords(rev@[n - 1 - m] as int),
        decreases n - k,
    {
        let i = rev[n - 1 - k];
        let x = (i % 96) as i32;
        let y = (i / 96) as i32;
        path.push((x, y));
        k = k + 1;
    }
    proof {
        assert forall|m: int| 0 <= m < path@.len() implies #[trigger] in_bounds(path@[m]) && cell_index(path@[m])
            == rev@[n - 1 - m] as int by {
            lemma_coords_index(rev@[n - 1 - m] as int);
        }
        assert forall|m: int| 1 <= m < path@.len() implies passes(cells, filters, res, #[trigger] cell_index(path@[m])) by {
            assert(in_bounds(path@[m]) && cell_index(path@[m]) == rev@[n - 1 - m] as int);
            let r = n - 1 - m;
            assert(0 <= r < rev@.len() - 1);
            assert(rev@[r] != s && adj(rev@[r + 1] as int, rev@[r] as int));
            assert(rev@[r] < NCELLS && prev@[rev@[r] as int] != NCELLS);
        }
        assert forall|m: int| 0 <= m < path@.len() - 1 implies #[trigger] route_step(path@, m) by {
            assert(in_bounds(path@[m]) && cell_index(path@[m]) == rev@[n - 1 - m] as int);
            assert(in_bounds(path@[m + 1]) && cell_index(path@[m + 1]) == rev@[n - 1 - (m + 1)] as int);
            let r = n - 1 - (m + 1);
            assert(adj(rev@[r + 1] as int, rev@[r] as int));
        }
        assert forall|m: int| 1 <= m < path@.len() implies prev@[#[trigger] cell_index(path@[m])] as int == cell_index(path@[m - 1]) by {
            assert(in_bounds(path@[m]) && cell_index(path@[m]) == rev@[n - 1 - m] as int);
            assert(in_bounds(path@[m - 1]) && cell_index(path@[m - 1]) == rev@[n - 1 - (m - 1)] as int);
            let r = n - 1 - m;
            assert(prev@[rev@[r] as int] == rev@[r + 1]);
        }
        assert forall|i: int, j: int| 0 <= i < j < path@.len() implies path@[i] != path@[j] by {
            assert(in_bounds(path@[i]) && cell_index(path@[i]) == rev@[n - 1 - i] as int);
            assert(in_bounds(path@[j]) && cell_index(path@[j]) == rev@[n - 1 - j] as int);
            assert(depth[rev@[n - 1 - i] as int] + (n - 1 - i) == depth[c as int]);
            assert(depth[rev@[n - 1 - j] as int] + (n - 1 - j) == depth[c as int]);
        }
    }
    path
}

/// `q` is a walk from `start` through cells packets of `res` may pass.
pub open spec fn walk_from(
    cells: Seq<Cell>,
    filters: Map<usize, usize>,
    res: usize,
    start: (i32, i32),
    q: Seq<(i32, i32)>,
) -> bool {
    &&& q.len() >= 1
    &&& q[0] == start
    &&& forall|k: int| 0 <= k < q.len() ==> #[trigger] in_bounds(q[k])
    &&& forall|k: int| 1 <= k < q.len() ==> passes(cells, filters, res, #[trigger] cell_index(q[k]))
    &&& forall|k: int| 0 <= k < q.len() - 1 ==> #[trigger] route_step(q, k)
}

/// Cell index `v` lies on the conveyor network reachable from `start`.
pub open spec fn reaches(cells: Seq<Cell>, filters: Map<usize, usize>, res: usize, start: (i32, i32), v: int) -> bool {
    exists|q: Seq<(i32, i32)>| #[trigger] walk_from(cells, filters, res, start, q) && cell_index(q.last()) == v
}

/// At least `n` distinct cells are reachable from `start`.
pub open spec fn network_at_least(
    cells: Seq<Cell>,
    filters: Map<usize, usize>,
    res: usize,
    start: (i32, i32),
    n: nat,
) -> bool {
    exists|S: Set<usize>|
        S.finite() && S.len() >= n && forall|v: usize| #[trigger] S.contains(v) ==> reaches(cells, filters, res, start, v as int)
}

/// Following the reached-from links back from a reached cell gives a walk
/// from the start to it.
proof fn lemma_reached_walk(
    cells: Seq<Cell>,
    filters: Map<usize, usize>,
    res: usize,
    s: int,
    prev: Seq<usize>,
    depth: Seq<nat>,
    v: int,
) -> (q: Seq<(i32, i32)>)
    requires
        search_inv(cells, filters, res, s, prev, depth),
        0 <= v < NCELLS,
        prev[v] != NCELLS,
    ensures
        walk_from(cells, filters, res, coords(s), q),
        cell_index(q.last()) == v,
    decreases depth[v],
{
    lemma_coords_index(v);
    if v == s {
        let q = seq![coords(s)];
        assert(q.last() == coords(s));
        q
    } else {
        let u = prev[v] as int;
        let q0 = lemma_reached_walk(cells, filters, res, s, prev, depth, u);
        let q = q0.push(coords(v));
        assert forall|k: int| 0 <= k < q.len() implies #[trigger] in_bounds(q[k]) by {
            if k < q0.len() {
                assert(q[k] == q0[k]);
            }
        }
        assert forall|k: int| 1 <= k < q.len() implies passes(cells, filters, res, #[trigger] cell_index(q[k])) by {
            if k < q0.len() {
                assert(q[k] == q0[k]);
            }
        }
        assert forall|k: int| 0 <= k < q.len() - 1 implies #[trigger] route_step(q, k) by {
            if k < q0.len() - 1 {
                assert(q[k] == q0[k] && q[k + 1] == q0[k + 1]);
                assert(route_step(q0, k));
            } else {
                assert(q[k] == q0.last());
            }
        }
        q
    }
}

/// When every queued cell is expanded, every cell on a walk from the start
/// is reached.
proof fn lemma_walk_all_reached(
    cells: Seq<Cell>,
    filters: Map<usize, usize>,
    res: usize,
    s: int,
    prev: Seq<usize>,
    depth: Seq<nat>,
    queue: Seq<usize>,
    q: Seq<(i32, i32)>,
    k: int,
)
    requires
        queue_covers(queue, prev),
        expanded_upto(cells, filters, res, queue, prev, depth, queue.len() as int),
        prev.len() == NCELLS,
        0 <= s < NCELLS,
        prev[s] != NCELLS,
        q.len() >= 1,
        cell_index(q[0]) == s,
        forall|j: int| 0 <= j < q.len() ==> #[trigger] in_bounds(q[j]),
        forall|j: int| 1 <= j < q.len() ==> passes(cells, filters, res, #[trigger] cell_index(q[j])),
        forall|j: int| 0 <= j < q.len() - 1 ==> #[trigger] route_step(q, j),
        0 <= k < q.len(),
    ensures
        prev[cell_index(q[k])] != NCELLS,
    decreases k,
{
    if k > 0 {
        lemma_walk_all_reached(cells, filters, res, s, prev, depth, queue, q, k - 1);
        let u = cell_index(q[k - 1]);
        assert(in_bounds(q[k - 1]));
        lemma_cell_index_bounds(q[k - 1]);
        let j = choose|j: int| 0 <= j < queue.len() && queue[j] == u;
        assert(route_step(q, k - 1));
        assert(adj(queue[j] as int, cell_index(q[k])));
        assert(passes(cells, filters, res, cell_index(q[k])));
    }
}

/// The search queue lists reached cells in order of nondecreasing depth.
pub open spec fn queue_sorted(queue: Seq<usize>, depth: Seq<nat>) -> bool {
    forall|i: int, j: int|
        0 <= i <= j < queue.len() ==> #[trigger] depth[queue[i] as int] <= #[trigger] depth[queue[j] as int]
}

/// Every reached cell is in the search queue.
pub open spec fn queue_covers(queue: Seq<usize>, prev: Seq<usize>) -> bool {
    forall|v: int| 0 <= v < NCELLS && #[trigger] prev[v] != NCELLS ==> exists|i: int| 0 <= i < queue.len() && queue[i] == v
}

/// The first `done` queued cells have been expanded: each neighbour that
/// packets may pass is reached, at most one level deeper.
pub open spec fn expanded_upto(
    cells: Seq<Cell>,
    filters: Map<usize, usize>,
    res: usize,
    queue: Seq<usize>,
    prev: Seq<usize>,
    depth: Seq<nat>,
    done: int,
) -> bool {
    forall|i: int, n: int|
        0 <= i < done && #[trigger] adj(queue[i] as int, n) && passes(cells, filters, res, n) ==> prev[n] != NCELLS
            && depth[n] <= depth[queue[i] as int] + 1
}

/// No neighbour of the first `done` queued cells takes the packet.
pub open spec fn checked_upto(
    cells: Seq<Cell>,
    machines: Map<u64, MachInfo>,
    res: usize,
    exclude: u64,
    queue: Seq<usize>,
    done: int,
) -> bool {
    forall|i: int, m: int| 0 <= i < done && #[trigger] adj(queue[i] as int, m) ==> !takes_packet(cells, machines, res, exclude, m)
}

/// Along any walk from the start through cells packets may pass, the cells
/// less than `D` steps out are reached no deeper than their step, when every
/// cell shallower than the queue entry `done` (of depth `D`) is expanded.
proof fn lemma_walk_reached(
    cells: Seq<Cell>,
    filters: Map<usize, usize>,
    res: usize,
    s: int,
    prev: Seq<usize>,
    depth: Seq<nat>,
    queue: Seq<usize>,
    done: int,
    q: Seq<(i32, i32)>,
    k: int,
)
    requires
        queue_sorted(queue, depth),
        queue_covers(queue, prev),
        expanded_upto(cells, filters, res, queue, prev, depth, done),
        0 <= done < queue.len(),
        prev.len() == NCELLS,
        0 <= s < NCELLS,
        prev[s] != NCELLS,
        depth[s] == 0,
        q.len() >= 1,
        cell_index(q[0]) == s,
        forall|j: int| 0 <= j < q.len() ==> #[trigger] in_bounds(q[j]),
        forall|j: int| 1 <= j < q.len() ==> passes(cells, filters, res, #[trigger] cell_index(q[j])),
        forall|j: int| 0 <= j < q.len() - 1 ==> #[trigger] route_step(q, j),
        0 <= k < q.len(),
        k < depth[queue[done] as int],
    ensures
        prev[cell_index(q[k])] != NCELLS,
        depth[cell_index(q[k])] <= k,
    decreases k,
{
    if k > 0 {
        lemma_walk_reached(cells, filters, res, s, prev, depth, queue, done, q, k - 1);
        let u = cell_index(q[k - 1]);
        assert(in_bounds(q[k - 1]));
        lemma_cell_index_bounds(q[k - 1]);
        let j = choose|j: int| 0 <= j < queue.len() && queue[j] == u;
        if j >= done {
            assert(depth[queue[done] as int] <= depth[queue[j] as int]);
        }
        assert(route_step(q, k - 1));
        assert(adj(queue[j] as int, cell_index(q[k])));
        assert(passes(cells, filters, res, cell_index(q[k])));
    }
}

/// The search from `start` as far as the route search takes it: at most 500
/// queued cells are expanded.
pub open spec fn search(cells: Seq<Cell>, filters: Map<usize, usize>, res: usize, start: (i32, i32)) -> BfsState {
    bfs_state(cells, filters, res, cell_index(start), 500)
}

/// Queue entry `i` is, among the first 500 queued cells, the first that lies
/// next to a machine taking the packet.
pub open spec fn first_feeder(
    cells: Seq<Cell>,
    machines: Map<u64, MachInfo>,
    res: usize,
    exclude: u64,
    queue: Seq<usize>,
    i: int,
) -> bool {
    &&& 0 <= i < 500
    &&& i < queue.len()
    &&& feeds(cells, machines, res, exclude, queue[i] as int)
    &&& forall|j: int| 0 <= j < i ==> !feeds(cells, machines, res, exclude, #[trigger] queue[j] as int)
}

/// Each cell of `path` after the first was reached from the one before it.
pub open spec fn follows_links(prev: Seq<usize>, path: Seq<(i32, i32)>) -> bool {
    forall|k: int| 1 <= k < path.len() ==> prev[#[trigger] cell_index(path[k])] as int == cell_index(path[k - 1])
}

/// Breadth-first search through the conveyor network from `start` for the
/// closest node next to a finished machine (other than `exclude`) that takes
/// `res` and has room; sorters only pass their filter type. Each node's
/// neighbours are looked at right, left, next row, previous row, so of
/// several equally short routes the one through the earliest queued node is
/// taken. The search gives up after examining 500 nodes.
#[verifier::spinoff_prover]
#[verifier::rlimit(60)]
pub fn route(
    grid: &Grid,
    machines: &HashMap<u64, MachInfo>,
    filters: &HashMap<usize, usize>,
    start: (i32, i32),
    res: usize,
    exclude: u64,
) -> (r: Option<Vec<(i32, i32)>>)
    requires
        grid.wf(),
        in_bounds(start),
        res < NRES,
    ensures
        r matches Some(path) ==> valid_route(grid.cells@, machines@, filters@, start, res, exclude, path@),
        r matches Some(path) ==> forall|q: Seq<(i32, i32)>|
            #[trigger] valid_route(grid.cells@, machines@, filters@, start, res, exclude, q) ==> path@.len() <= q.len(),
        r is None ==> forall|n: int|
            #[trigger] adj(cell_index(start), n) ==> !takes_packet(grid.cells@, machines@, res, exclude, n),
        r is None ==> (forall|q: Seq<(i32, i32)>| !#[trigger] valid_route(grid.cells@, machines@, filters@, start, res, exclude, q))
            || network_at_least(grid.cells@, filters@, res, start, 500),
        r is None <==> forall|i: int|
            0 <= i < 500 && i < search(grid.cells@, filters@, res, start).queue.len() ==> !feeds(
                grid.cells@,
                machines@,
                res,
                exclude,
                #[trigger] search(grid.cells@, filters@, res, start).queue[i] as int,
            ),
        r matches Some(path) ==> exists|i: int|
            #[trigger] first_feeder(grid.cells@, machines@, res, exclude, search(grid.cells@, filters@, res, start).queue, i)
                && cell_index(path@.last()) == search(grid.cells@, filters@, res, start).queue[i] as int
                && follows_links(search(grid.cells@, filters@, res, start).prev, path@),
{
    let s = Grid::idx(start);
    let ghost sg = s as int;
    let ghost cells = grid.cells@;
    let mut prev: Vec<usize> = Vec::new();
    let mut i: usize = 0;
    while i < NCELLS
        invariant
            i <= NCELLS,
            prev@.len() == i,
            forall|k: int| 0 <= k < i ==> #[trigger] prev@[k] == NCELLS,
        decreases NCELLS - i,
    {
        prev.push(NCELLS);
        i = i + 1;
    }
    prev.set(s, s);
    let ghost mut depth: Seq<nat> = Seq::new(NCELLS as nat, |k: int| 0nat);
    let mut queue: Vec<usize> = Vec::new();
    queue.push(s);
    let mut head: usize = 0;
    let mut steps: u32 = 0;
    proof {
        lemma_cell_index_bounds(start);
        assert(prev@ =~= bfs_state(cells, filters@, res, sg, 0).prev);
        assert(queue@ =~= bfs_state(cells, filters@, res, sg, 0).queue);
        assert(queue_covers(queue@, prev@)) by {
            assert forall|v: int| 0 <= v < NCELLS && #[trigger] prev@[v] != NCELLS implies exists|i: int|
                0 <= i < queue@.len() && queue@[i] == v by {
                assert(v == sg);
                assert(queue@[0] == v);
            }
        }
    }
    while head < queue.len()
        invariant
            grid.wf(),
            cells == grid.cells@,
            res < NRES,
            sg == s as int,
            search_inv(cells, filters@, res, sg, prev@, depth),
            head <= queue@.len(),
            forall|k: int| 0 <= k < queue@.len() ==> #[trigger] queue@[k] < NCELLS && prev@[queue@[k] as int] != NCELLS,
            in_bounds(start),
            sg == cell_index(start),
            steps <= 500,
            queue@.len() >= 1,
            queue@[0] == s,
            head >= 1 ==> steps >= 1,
            steps >= 1 ==> forall|n: int|
                #[trigger] adj(sg, n) ==> !takes_packet(cells, machines@, res, exclude, n),
            queue_sorted(queue@, depth),
            head >= 1 ==> forall|k: int| 0 <= k < queue@.len() ==> depth[#[trigger] queue@[k] as int] <= depth[queue@[head - 1] as int] + 1,
            queue_covers(queue@, prev@),
            expanded_upto(cells, filters@, res, queue@, prev@, depth, head as int),
            checked_upto(cells, machines@, res, exclude, queue@, head as int),
            head == 0 ==> queue@.len() == 1,
            steps == head,
            forall|i: int, j: int| 0 <= i < j < queue@.len() ==> queue@[i] != queue@[j],
            queue@ == bfs_state(cells, filters@, res, sg, head as nat).queue,
            prev@ == bfs_state(cells, filters@, res, sg, head as nat).prev,
        ensures
            steps >= 1,
            head == queue@.len() || steps >= 500,
        decreases 500 - steps,
    {
        if steps >= 500 {
            break;
        }
        let c = queue[head];
        proof {
            // every queued cell is at most one level deeper than `c`
            if head >= 1 {
                assert(depth[queue@[head - 1] as int] <= depth[c as int]);
            }
            assert forall|k: int| 0 <= k < queue@.len() implies depth[#[trigger] queue@[k] as int] <= depth[c as int] + 1 by {
                if head >= 1 {
                    assert(depth[queue@[head - 1] as int] <= depth[queue@[head as int] as int]);
                } else {
                    assert(k == 0);
                }
            }
        }
        head = head + 1;
        steps = steps + 1;
        let ghost st0 = bfs_state(cells, filters@, res, sg, (head - 1) as nat);
        // does an adjacent machine accept this resource?
        let mut d: usize = 0;
        while d < 4
            invariant
                grid.wf(),
                cells == grid.cells@,
                res < NRES,
                c < NCELLS,
                search_inv(cells, filters@, res, sg, prev@, depth),
                prev@[c as int] != NCELLS,
                in_bounds(start),
                sg == cell_index(start),
                d <= 4,
                forall|m: int|
                    #[trigger] adj(c as int, m) && dir_of(c as int, m) < d ==> !takes_packet(cells, machines@, res, exclude, m),
                1 <= head <= queue@.len(),
                c == queue@[head - 1],
                forall|k: int| 0 <= k < queue@.len() ==> #[trigger] queue@[k] < NCELLS && prev@[queue@[k] as int] != NCELLS,
                queue_sorted(queue@, depth),
                queue_covers(queue@, prev@),
                expanded_upto(cells, filters@, res, queue@, prev@, depth, head - 1),
                checked_upto(cells, machines@, res, exclude, queue@, head - 1),
                st0 == bfs_state(cells, filters@, res, sg, (head - 1) as nat),
                queue@ == st0.queue,
                prev@ == st0.prev,
                head <= 500,
            decreases 4 - d,
        {
            if let Some(n) = neighbour(c, d) {
                if takes(grid, machines, res, exclude, n) {
                    let path = trace_back(&prev, c, Ghost(cells), Ghost(filters@), Ghost(res), Ghost(sg), Ghost(depth));
                    proof {
                        lemma_cell_index_bounds(start);
                        lemma_coords_index(c as int);
                        assert(coords(sg) == start);
                        assert(cell_index(path@.last()) == c as int);
                        assert(adj(cell_index(path@.last()), n as int));
                        assert forall|q: Seq<(i32, i32)>|
                            #[trigger] valid_route(cells, machines@, filters@, start, res, exclude, q) implies path@.len()
                            <= q.len() by {
                            if q.len() < path@.len() {
                                let k = q.len() - 1;
                                lemma_walk_reached(cells, filters@, res, sg, prev@, depth, queue@, head - 1, q, k);
                                let w = cell_index(q[k]);
                                assert(in_bounds(q[k]));
                                lemma_cell_index_bounds(q[k]);
                                let j = choose|j: int| 0 <= j < queue@.len() && queue@[j] == w;
                                if j >= head - 1 {
                                    assert(depth[queue@[head - 1] as int] <= depth[queue@[j] as int]);
                                }
                                let m = choose|m: int| #[trigger] adj(cell_index(q.last()), m) && takes_packet(cells, machines@, res, exclude, m);
                                assert(adj(queue@[j] as int, m));
                            }
                        }
                        let h = (head - 1) as nat;
                        let Q = search(cells, filters@, res, start);
                        lemma_bfs_grows(cells, filters@, res, sg, h, 500);
                        assert(Q.queue[h as int] == c);
                        assert(feeds(cells, machines@, res, exclude, c as int));
                        assert forall|j: int| 0 <= j < h implies !feeds(cells, machines@, res, exclude, #[trigger] Q.queue[j] as int) by {
                            assert(Q.queue[j] == queue@[j]);
                            if feeds(cells, machines@, res, exclude, queue@[j] as int) {
                                let m = choose|m: int| #[trigger] adj(queue@[j] as int, m) && takes_packet(cells, machines@, res, exclude, m);
                            }
                        }
                        assert(first_feeder(cells, machines@, res, exclude, Q.queue, h as int));
                        assert forall|k: int| 1 <= k < path@.len() implies Q.prev[#[trigger] cell_index(path@[k])] as int == cell_index(path@[k - 1]) by {
                            lemma_cell_index_bounds(path@[k]);
                            lemma_cell_index_bounds(path@[k - 1]);
                            assert(prev@[cell_index(path@[k])] as int == cell_index(path@[k - 1]));
                        }
                        assert(follows_links(Q.prev, path@));
                    }
                    return Some(path);
                }
            }
            proof {
                assert forall|m: int|
                    #[trigger] adj(c as int, m) && dir_of(c as int, m) < d + 1 implies !takes_packet(cells, machines@, res, exclude, m) by {
                    if dir_of(c as int, m) == d {
                        reveal(neighbour_step);
                    }
                }
            }
            d = d + 1;
        }
        proof {
            assert forall|m: int| #[trigger] adj(c as int, m) implies !takes_packet(cells, machines@, res, exclude, m) by {
                lemma_dir_of(c as int, m);
            }
            if steps == 1 {
                assert(c as int == sg);
            }
            assert(checked_upto(cells, machines@, res, exclude, queue@, head as int)) by {
                assert forall|i: int, m: int| 0 <= i < head && #[trigger] adj(queue@[i] as int, m) implies !takes_packet(
                    cells,
                    machines@,
                    res,
                    exclude,
                    m,
                ) by {
                    if i < head - 1 {
                    } else {
                        assert(queue@[i] == c);
                    }
                }
            }
        }
        let mut d: usize = 0;
        while d < 4
            invariant
                grid.wf(),
                cells == grid.cells@,
                res < NRES,
                c < NCELLS,
                sg == s as int,
                search_inv(cells, filters@, res, sg, prev@, depth),
                prev@[c as int] != NCELLS,
                forall|k: int| 0 <= k < queue@.len() ==> #[trigger] queue@[k] < NCELLS && prev@[queue@[k] as int] != NCELLS,
                head <= queue@.len(),
                queue@.len() >= 1,
                queue@[0] == s,
                d <= 4,
                in_bounds(start),
                sg == cell_index(start),
                1 <= steps <= 500,
                forall|n: int| #[trigger] adj(sg, n) ==> !takes_packet(cells, machines@, res, exclude, n),
                1 <= head,
                c == queue@[head - 1],
                queue_sorted(queue@, depth),
                forall|k: int| 0 <= k < queue@.len() ==> depth[#[trigger] queue@[k] as int] <= depth[c as int] + 1,
                queue_covers(queue@, prev@),
                expanded_upto(cells, filters@, res, queue@, prev@, depth, head - 1),
                checked_upto(cells, machines@, res, exclude, queue@, head as int),
                forall|n: int|
                    #[trigger] adj(c as int, n) && dir_of(c as int, n) < d && passes(cells, filters@, res, n) ==> prev@[n]
                        != NCELLS && depth[n] <= depth[c as int] + 1,
                forall|i: int, j: int| 0 <= i < j < queue@.len() ==> queue@[i] != queue@[j],
                st0 == bfs_state(cells, filters@, res, sg, (head - 1) as nat),
                head - 1 < st0.queue.len(),
                c == st0.queue[head - 1],
                queue@ == expand_upto(cells, filters@, res, st0, c as int, d as nat).queue,
                prev@ == expand_upto(cells, filters@, res, st0, c as int, d as nat).prev,
                head <= 500,
            decreases 4 - d,
        {
            let ghost stq = expand_upto(cells, filters@, res, st0, c as int, d as nat);
            if let Some(n) = neighbour(c, d) {
                if prev[n] == NCELLS && grid.cells[n].conv {
                    let blocked = match filters.get(&n) {
                        Some(f) => *f < NRES && *f != res,
                        None => false,
                    };
                    if !blocked {
                        let ghost q0 = queue@;
                        let ghost p0 = prev@;
                        let ghost d0 = depth;
                        proof {
                            assert(n as int != sg);
                            assert(passes(cells, filters@, res, n as int));
                            depth = depth.update(n as int, depth[c as int] + 1);
                        }
                        prev.set(n, c);
                        queue.push(n);
                        proof {
                            assert forall|v: int|
                                0 <= v < NCELLS && v != sg && #[trigger] prev@[v] != NCELLS implies {
                                    &&& prev@[prev@[v] as int] != NCELLS
                                    &&& adj(prev@[v] as int, v)
                                    &&& passes(cells, filters@, res, v)
                                    &&& depth[v] == depth[prev@[v] as int] + 1
                                } by {
                                if v == n as int {
                                } else {
                                    assert(prev@[v] as int != n as int);
                                }
                            }
                            // queued cells keep their depths
                            assert forall|k: int| 0 <= k < q0.len() implies #[trigger] depth[q0[k] as int] == d0[q0[k] as int] by {
                                assert(p0[q0[k] as int] != NCELLS);
                            }
                            assert(queue@[queue@.len() - 1] == n);
                            assert forall|i: int, j: int| 0 <= i < j < queue@.len() implies queue@[i] != queue@[j] by {
                                if j == q0.len() {
                                    assert(p0[q0[i] as int] != NCELLS);
                                } else {
                                    assert(queue@[i] == q0[i] && queue@[j] == q0[j]);
                                }
                            }
                            assert forall|k: int| 0 <= k < queue@.len() implies #[trigger] queue@[k] < NCELLS && prev@[queue@[k] as int] != NCELLS by {
                                if k < q0.len() {
                                    assert(queue@[k] == q0[k]);
                                }
                            }
                            assert(queue_sorted(queue@, depth)) by {
                                assert forall|i: int, j: int| 0 <= i <= j < queue@.len() implies #[trigger] depth[queue@[i] as int]
                                    <= #[trigger] depth[queue@[j] as int] by {
                                    if j < q0.len() {
                                        assert(queue@[i] == q0[i] && queue@[j] == q0[j]);
                                        assert(d0[q0[i] as int] <= d0[q0[j] as int]);
                                    } else if i < q0.len() {
                                        assert(queue@[i] == q0[i]);
                                        assert(d0[q0[i] as int] <= d0[c as int] + 1);
                                    }
                                }
                            }
                            assert forall|k: int| 0 <= k < queue@.len() implies depth[#[trigger] queue@[k] as int] <= depth[c as int] + 1 by {
                                if k < q0.len() {
                                    assert(queue@[k] == q0[k]);
                                }
                            }
                            assert(queue_covers(queue@, prev@)) by {
                                assert forall|v: int| 0 <= v < NCELLS && #[trigger] prev@[v] != NCELLS implies exists|i: int|
                                    0 <= i < queue@.len() && queue@[i] == v by {
                                    if v == n as int {
                                        assert(queue@[queue@.len() - 1] == v);
                                    } else {
                                        assert(p0[v] != NCELLS);
                                        let i = choose|i: int| 0 <= i < q0.len() && q0[i] == v;
                                        assert(queue@[i] == v);
                                    }
                                }
                            }
                            assert(expanded_upto(cells, filters@, res, queue@, prev@, depth, head - 1)) by {
                                assert forall|i: int, m: int|
                                    0 <= i < head - 1 && #[trigger] adj(queue@[i] as int, m) && passes(cells, filters@, res, m) implies prev@[m]
                                    != NCELLS && depth[m] <= depth[queue@[i] as int] + 1 by {
                                    assert(queue@[i] == q0[i]);
                                    assert(p0[m] != NCELLS);
                                    assert(m != n as int);
                                }
                            }
                            assert(checked_upto(cells, machines@, res, exclude, queue@, head as int)) by {
                                assert forall|i: int, m: int| 0 <= i < head && #[trigger] adj(queue@[i] as int, m) implies !takes_packet(
                                    cells,
                                    machines@,
                                    res,
                                    exclude,
                                    m,
                                ) by {
                                    assert(queue@[i] == q0[i]);
                                }
                            }
                            assert forall|m: int|
                                #[trigger] adj(c as int, m) && dir_of(c as int, m) < d && passes(cells, filters@, res, m) implies prev@[m]
                                != NCELLS && depth[m] <= depth[c as int] + 1 by {
                                assert(p0[m] != NCELLS);
                                assert(m != n as int);
                            }
                        }
                    }
                }
            }
            proof {
                let st1 = expand_upto(cells, filters@, res, st0, c as int, (d + 1) as nat);
                assert(st1 == visit(cells, filters@, res, stq, c as int, nbr(c as int, d as int)));
                assert(queue@ =~= st1.queue);
                assert(prev@ =~= st1.prev);
                assert forall|m: int|
                    #[trigger] adj(c as int, m) && dir_of(c as int, m) < d + 1 && passes(cells, filters@, res, m) implies prev@[m]
                    != NCELLS && depth[m] <= depth[c as int] + 1 by {
                    if dir_of(c as int, m) == d {
                        reveal(neighbour_step);
                        if prev@[m] != NCELLS {
                            let i = choose|i: int| 0 <= i < queue@.len() && queue@[i] == m;
                            assert(depth[queue@[i] as int] <= depth[c as int] + 1);
                        }
                    }
                }
            }
            d = d + 1;
        }
        proof {
            assert(bfs_state(cells, filters@, res, sg, head as nat) == expand_upto(cells, filters@, res, st0, c as int, 4));
            assert(expanded_upto(cells, filters@, res, queue@, prev@, depth, head as int)) by {
                assert forall|i: int, m: int|
                    0 <= i < head && #[trigger] adj(queue@[i] as int, m) && passes(cells, filters@, res, m) implies prev@[m]
                    != NCELLS && depth[m] <= depth[queue@[i] as int] + 1 by {
                    if i == head - 1 {
                        assert(queue@[i] == c);
                        lemma_dir_of(c as int, m);
                    }
                }
            }
        }
    }
    proof {
        let Q = search(cells, filters@, res, start);
        if head == queue@.len() {
            lemma_bfs_done(cells, filters@, res, sg, head as nat, 500);
        }
        assert(Q == bfs_state(cells, filters@, res, sg, head as nat));
        assert forall|i: int| 0 <= i < 500 && i < Q.queue.len() implies !feeds(cells, machines@, res, exclude, #[trigger] Q.queue[i] as int) by {
            if feeds(cells, machines@, res, exclude, queue@[i] as int) {
                let m = choose|m: int| #[trigger] adj(queue@[i] as int, m) && takes_packet(cells, machines@, res, exclude, m);
            }
        }
        if head == queue@.len() {
            lemma_cell_index_bounds(start);
            assert forall|q: Seq<(i32, i32)>| !#[trigger] valid_route(cells, machines@, filters@, start, res, exclude, q) by {
                if valid_route(cells, machines@, filters@, start, res, exclude, q) {
                    let k = q.len() - 1;
                    lemma_walk_all_reached(cells, filters@, res, sg, prev@, depth, queue@, q, k);
                    let w = cell_index(q[k]);
                    assert(in_bounds(q[k]));
                    lemma_cell_index_bounds(q[k]);
                    let j = choose|j: int| 0 <= j < queue@.len() && queue@[j] == w;
                    let m = choose|m: int| #[trigger] adj(cell_index(q.last()), m) && takes_packet(cells, machines@, res, exclude, m);
                    assert(adj(queue@[j] as int, m));
                }
            }
        } else {
            lemma_cell_index_bounds(start);
            assert(coords(sg) == start);
            let first = queue@.subrange(0, 500);
            assert(first.no_duplicates());
            first.unique_seq_to_set();
            vstd::seq_lib::seq_to_set_is_finite(first);
            let S = first.to_set();
            assert forall|v: usize| #[trigger] S.contains(v) implies reaches(cells, filters@, res, start, v as int) by {
                assert(first.contains(v));
                let i = choose|i: int| 0 <= i < first.len() && first[i] == v;
                assert(queue@[i] == first[i]);
                let q = lemma_reached_walk(cells, filters@, res, sg, prev@, depth, v as int);
                assert(walk_from(cells, filters@, res, start, q));
            }
            assert(network_at_least(cells, filters@, res, start, 500));
        }
    }
    None
}

/// A sorter's next filter: any (`NRES`) gives way to the first kind, each
/// kind to the next, the last kind back to any.
pub open spec fn next_filter(f: usize) -> usize {
    if f >= NRES {
        0
    } else {
        (f + 1) as usize
    }
}

pub fn cycle_filter(f: usize) -> (g: usize)
    ensures
        g == next_filter(f),
        g <= NRES,
{
    if f >= NRES {
        0
    } else {
        f + 1
    }
}

/// Cycling a sorter's filter nine times brings it back where it was.
pub proof fn lemma_filter_cycle(f: usize)
    requires
        f <= NRES,
    ensures
        next_filter(next_filter(next_filter(next_filter(next_filter(next_filter(next_filter(next_filter(
            next_filter(f),
        )))))))) == f,
{
}

/// A loom switches between its two recipes (circuits 0, launch parts 1).
pub fn toggle_recipe(recipe: u8) -> (r: u8)
    requires
        recipe <= 1,
    ensures
        r == 1 - recipe,
{
    1 - recipe
}

/// The footprint cell and direction order in which a machine looks for a
/// conveyor next to it.
pub open spec fn side_cell(kind: BKind, cell: (i32, i32), k: int) -> (int, int) {
    let f = building_foot(kind) as int;
    let fc = k / 4;
    let d = k % 4;
    let x = cell.0 + fc % f;
    let y = cell.1 + fc / f;
    if d == 0 {
        (x + 1, y)
    } else if d == 1 {
        (x - 1, y)
    } else if d == 2 {
        (x, y + 1)
    } else {
        (x, y - 1)
    }
}

/// Point `n` is a 4-neighbour of (x, y).
pub open spec fn beside(n: (int, int), x: int, y: int) -> bool {
    ((n.0 == x + 1 || n.0 == x - 1) && n.1 == y) || (n.0 == x && (n.1 == y + 1 || n.1 == y - 1))
}

/// A machine looks beside its own footprint: every candidate is a
/// 4-neighbour of one of its cells, and around its first cell it looks right,
/// left, next row, previous row, in that order.
pub proof fn lemma_side_cells(kind: BKind, cell: (i32, i32), k: int)
    ensures
        side_cell(kind, cell, 0) == (cell.0 + 1, cell.1 as int),
        side_cell(kind, cell, 1) == (cell.0 - 1, cell.1 as int),
        side_cell(kind, cell, 2) == (cell.0 as int, cell.1 + 1),
        side_cell(kind, cell, 3) == (cell.0 as int, cell.1 - 1),
        0 <= k < 4 * building_foot(kind) * building_foot(kind) ==> exists|x: int, y: int|
            cell.0 <= x < cell.0 + building_foot(kind) && cell.1 <= y < cell.1 + building_foot(kind) && #[trigger] beside(
                side_cell(kind, cell, k),
                x,
                y,
            ),
{
    let f = building_foot(kind) as int;
    assert(1 <= f <= 2);
    if 0 <= k < 4 * f * f {
        let fc = k / 4;
        assert(0 <= fc < f * f);
        assert(0 <= fc % f < f && 0 <= fc / f < f) by (nonlinear_arith)
            requires
                0 <= fc < f * f,
                1 <= f,
        ;
        let x = cell.0 + fc % f;
        let y = cell.1 + fc / f;
        assert(beside(side_cell(kind, cell, k), x, y));
    }
}

/// Cycling a sorter's filter runs through "any", then each resource kind in
/// order, and back to "any".
pub proof fn lemma_filter_order(f: usize)
    ensures
        next_filter(NRES) == 0,
        f < NRES - 1 ==> next_filter(f) == f + 1,
        next_filter((NRES - 1) as usize) == NRES,
{
}

/// Candidate `k` next to the machine is an on-map conveyor.
pub open spec fn side_conveyor(g: &Grid, kind: BKind, cell: (i32, i32), k: int) -> bool {
    let f = building_foot(kind) as int;
    let n = side_cell(kind, cell, k);
    &&& 0 <= k < 4 * f * f
    &&& in_bounds((n.0 as i32, n.1 as i32))
    &&& g.cell((n.0 as i32, n.1 as i32)).conv
}

/// Where a machine's output enters the conveyor network: the first conveyor
/// found beside its footprint (footprint cells in row order, then right,
/// left, next row, previous row).
pub fn conveyor_next_to(grid: &Grid, kind: BKind, cell: (i32, i32)) -> (r: Option<(i32, i32)>)
    requires
        grid.wf(),
        -1_000_000 <= cell.0 <= 1_000_000,
        -1_000_000 <= cell.1 <= 1_000_000,
    ensures
        r is None <==> forall|k: int| !#[trigger] side_conveyor(grid, kind, cell, k),
        r matches Some(c) ==> exists|k: int|
            #[trigger] side_conveyor(grid, kind, cell, k) && c.0 == side_cell(kind, cell, k).0 && c.1 == side_cell(
                kind,
                cell,
                k,
            ).1 && forall|j: int| 0 <= j < k ==> !#[trigger] side_conveyor(grid, kind, cell, j),
{
    let fcs = foot_cells(kind, cell);
    let f = bdef(kind).foot;
    let dirs: [(i32, i32); 4] = [(1, 0), (-1, 0), (0, 1), (0, -1)];
    let mut i: usize = 0;
    while i < fcs.len()
        invariant
            grid.wf(),
            -1_000_000 <= cell.0 <= 1_000_000,
            -1_000_000 <= cell.1 <= 1_000_000,
            f == building_foot(kind),
            1 <= f <= 2,
            fcs@ == footprint(kind, cell),
            i <= fcs@.len(),
            dirs@ == seq![(1i32, 0i32), (-1i32, 0i32), (0i32, 1i32), (0i32, -1i32)],
            forall|j: int| 0 <= j < 4 * i ==> !#[trigger] side_conveyor(grid, kind, cell, j),
        decreases fcs@.len() - i,
    {
        let fc = fcs[i];
        let mut d: usize = 0;
        while d < 4
            invariant
                grid.wf(),
                -1_000_000 <= cell.0 <= 1_000_000,
                -1_000_000 <= cell.1 <= 1_000_000,
                f == building_foot(kind),
                1 <= f <= 2,
                fcs@ == footprint(kind, cell),
                i < fcs@.len(),
                fc == fcs@[i as int],
                d <= 4,
                dirs@ == seq![(1i32, 0i32), (-1i32, 0i32), (0i32, 1i32), (0i32, -1i32)],
                forall|j: int| 0 <= j < 4 * i + d ==> !#[trigger] side_conveyor(grid, kind, cell, j),
            decreases 4 - d,
        {
            let o = dirs[d];
            let n = (fc.0 + o.0, fc.1 + o.1);
            proof {
                let k = 4 * i + d;
                assert(k / 4 == i && k % 4 == d) by (nonlinear_arith)
                    requires
                        k == 4 * i + d,
                        0 <= d < 4,
                        0 <= i,
                ;
                assert(n.0 == side_cell(kind, cell, k as int).0 && n.1 == side_cell(kind, cell, k as int).1);
                assert(4 * i + d < 4 * f * f) by (nonlinear_arith)
                    requires
                        i < f * f,
                        d < 4,
                ;
            }
            if Grid::inb(n) && grid.at(n).conv {
                assert(side_conveyor(grid, kind, cell, (4 * i + d) as int));
                return Some(n);
            }
            d = d + 1;
        }
        i = i + 1;
    }
    proof {
        assert forall|j: int| !#[trigger] side_conveyor(grid, kind, cell, j) by {
            if 0 <= j && j >= 4 * i {
                assert(i == f * f);
            }
        }
    }
    None
}

} // verus!
