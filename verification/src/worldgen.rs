//! World generation on the discrete grid: scrap clusters, crystal scars,
//! ancient ruins, chokepoint ridges and the home plateau, placed with the
//! world's generator. Each placed cell is reported as a mark, with the draw
//! that sizes its deposit, so that the continuous layers can follow.

use vstd::prelude::*;
use crate::grid::{Cell, Grid, MAP, NCELLS, cell_index, in_bounds, lemma_cell_index_bounds};
use crate::kinds::{Terrain, R_CRYSTAL, R_RELIC, R_SCRAP};
use crate::rng::{Rng, xorshift};

verus! {

/// What generation puts on a cell.
#[derive(Clone, Copy, PartialEq, Eq, Structural, Debug)]
pub enum Feature {
    /// Regolith holding scrap (marsh cells are left alone).
    Scrap,
    /// A crystal scar.
    Crystal,
    /// A black-metal ruin holding relics.
    Ruin,
    /// An impassable glass ridge.
    Ridge,
    /// The walkable hull plate around the core.
    Plateau,
}

/// A cell generation placed a feature on, with the generator draw that
/// sizes its deposit (0 for ridges and the plateau).
#[derive(Clone, Copy, Debug)]
pub struct Mark {
    pub feature: Feature,
    pub cell: (i32, i32),
    pub draw: u64,
}

/// Generation in progress: the cells, the generator state, the marks so far.
pub struct GenState {
    pub cells: Seq<Cell>,
    pub s: u64,
    pub marks: Seq<Mark>,
}

/// A cell once feature `f` is placed on it.
pub open spec fn shaped(f: Feature, c: Cell) -> Cell {
    match f {
        Feature::Scrap => Cell { terrain: Terrain::Regolith, res_kind: R_SCRAP, ..c },
        Feature::Crystal => Cell { terrain: Terrain::Crystal, res_kind: R_CRYSTAL, ..c },
        Feature::Ruin => Cell { terrain: Terrain::Ruin, res_kind: R_RELIC, ..c },
        Feature::Ridge => Cell { terrain: Terrain::Glass, walk: false, ..c },
        Feature::Plateau => Cell { terrain: Terrain::Hull, walk: true, ..c },
    }
}

/// Feature `f` takes hold on cell `c`: scrap spares the marsh.
pub open spec fn takes_hold(f: Feature, c: Cell) -> bool {
    f != Feature::Scrap || c.terrain != Terrain::Marsh
}

/// Deposits get a size draw.
pub open spec fn sized(f: Feature) -> bool {
    f == Feature::Scrap || f == Feature::Crystal || f == Feature::Ruin
}

/// Placing feature `f` on in-bounds cell `c`.
pub open spec fn put(st: GenState, f: Feature, c: (i32, i32)) -> GenState {
    let i = cell_index(c);
    let old_cell = st.cells[i];
    if !takes_hold(f, old_cell) {
        st
    } else if sized(f) {
        let s2 = xorshift(st.s);
        GenState {
            cells: st.cells.update(i, shaped(f, old_cell)),
            s: s2,
            marks: st.marks.push(Mark { feature: f, cell: c, draw: s2 }),
        }
    } else {
        GenState {
            cells: st.cells.update(i, shaped(f, old_cell)),
            s: st.s,
            marks: st.marks.push(Mark { feature: f, cell: c, draw: 0 }),
        }
    }
}

/// The `t`-th offset of the square of radius `r`, row by row.
pub open spec fn blob_offset(r: int, t: int) -> (int, int) {
    (t % (2 * r + 1) - r, t / (2 * r + 1) - r)
}

/// The first `t` offsets of a disc of radius `r` around (cx, cy) have been
/// visited; those on the map and within the disc got feature `f`.
pub open spec fn blob_scan(st: GenState, f: Feature, cx: int, cy: int, r: int, t: nat) -> GenState
    decreases t,
{
    if t == 0 {
        st
    } else {
        let st1 = blob_scan(st, f, cx, cy, r, (t - 1) as nat);
        let o = blob_offset(r, t - 1);
        let c = ((cx + o.0) as i32, (cy + o.1) as i32);
        if in_bounds(c) && o.0 * o.0 + o.1 * o.1 <= r * r {
            put(st1, f, c)
        } else {
            st1
        }
    }
}

/// Feature `f` on the disc of radius `r` around (cx, cy).
pub open spec fn blob(st: GenState, f: Feature, cx: int, cy: int, r: int) -> GenState {
    blob_scan(st, f, cx, cy, r, ((2 * r + 1) * (2 * r + 1)) as nat)
}

/// How clusters of feature `f` are drawn: center at `base` plus a draw
/// below `span` on each axis, skipped within `zone` cells of the map's
/// center on both axes, radius `rbase` plus a draw below 2.
pub open spec fn cluster_shape(f: Feature) -> (int, int, int, int) {
    match f {
        Feature::Scrap => (3, 90, 6, 1),
        Feature::Crystal => (3, 90, 10, 1),
        _ => (4, 88, 9, 0),
    }
}

pub open spec fn abs(v: int) -> int {
    if v < 0 {
        -v
    } else {
        v
    }
}

/// One cluster of feature `f`.
pub open spec fn cluster(st: GenState, f: Feature) -> GenState {
    let (base, span, zone, rbase) = cluster_shape(f);
    let s1 = xorshift(st.s);
    let s2 = xorshift(s1);
    let cx = base + s1 as int % span;
    let cy = base + s2 as int % span;
    if abs(cx - 48) < zone && abs(cy - 48) < zone {
        GenState { s: s2, ..st }
    } else {
        let s3 = xorshift(s2);
        blob(GenState { s: s3, ..st }, f, cx, cy, rbase + s3 as int % 2)
    }
}

/// `n` clusters of feature `f`, one after another.
pub open spec fn clusters(st: GenState, f: Feature, n: nat) -> GenState
    decreases n,
{
    if n == 0 {
        st
    } else {
        cluster(clusters(st, f, (n - 1) as nat), f)
    }
}

/// The first `n` steps of a ridge from (x0, y0) along a row (`horiz`) or a
/// column; every fifth step is a gap, and the home plateau stays clear.
pub open spec fn ridge_scan(st: GenState, x0: int, y0: int, horiz: bool, n: nat) -> GenState
    decreases n,
{
    if n == 0 {
        st
    } else {
        let st1 = ridge_scan(st, x0, y0, horiz, (n - 1) as nat);
        let i = n - 1;
        let c = if horiz {
            ((x0 + i) as i32, y0 as i32)
        } else {
            (x0 as i32, (y0 + i) as i32)
        };
        if i % 5 != 4 && in_bounds(c) && (abs(c.0 - 48) > 8 || abs(c.1 - 48) > 8) {
            put(st1, Feature::Ridge, c)
        } else {
            st1
        }
    }
}

/// One ridge: start at 4 plus a draw below 88 on each axis, along a row when
/// a draw below 2 is 0, 8 plus a draw below 11 steps long.
pub open spec fn ridge(st: GenState) -> GenState {
    let s1 = xorshift(st.s);
    let s2 = xorshift(s1);
    let s3 = xorshift(s2);
    let s4 = xorshift(s3);
    ridge_scan(
        GenState { s: s4, ..st },
        4 + s1 as int % 88,
        4 + s2 as int % 88,
        s3 as int % 2 == 0,
        (8 + s4 as int % 11) as nat,
    )
}

pub open spec fn ridges(st: GenState, n: nat) -> GenState
    decreases n,
{
    if n == 0 {
        st
    } else {
        ridge(ridges(st, (n - 1) as nat))
    }
}

/// The whole placement: 26 scrap clusters, 15 crystal scars, 16 ruins, 12
/// ridges, then the home plateau of radius 7 around the center.
pub open spec fn scattered(st: GenState) -> GenState {
    blob(
        ridges(clusters(clusters(clusters(st, Feature::Scrap, 26), Feature::Crystal, 15), Feature::Ruin, 16), 12),
        Feature::Plateau,
        48,
        48,
        7,
    )
}

pub open spec fn gen_state(g: Grid, rng: Rng, marks: Seq<Mark>) -> GenState {
    GenState { cells: g.cells@, s: rng.0, marks }
}

/// Nothing but the cells changed.
pub open spec fn only_cells(g0: Grid, g1: Grid) -> bool {
    &&& g1.wf()
    &&& g1.dirty@ == g0.dirty@
    &&& g1.flow@ == g0.flow@
    &&& g1.seed == g0.seed
    &&& g1.flow_dirty == g0.flow_dirty
    &&& g1.power_dirty == g0.power_dirty
    &&& g1.nests_gen@ == g0.nests_gen@
}

fn put_cell(grid: &mut Grid, rng: &mut Rng, marks: &mut Vec<Mark>, f: Feature, c: (i32, i32))
    requires
        old(grid).wf(),
        in_bounds(c),
    ensures
        only_cells(*old(grid), *final(grid)),
        gen_state(*final(grid), *final(rng), final(marks)@) == put(gen_state(*old(grid), *old(rng), old(marks)@), f, c),
{
    let cell = *grid.at(c);
    if f == Feature::Scrap && cell.terrain == Terrain::Marsh {
        return;
    }
    let mut nc = cell;
    match f {
        Feature::Scrap => {
            nc.terrain = Terrain::Regolith;
            nc.res_kind = R_SCRAP;
        },
        Feature::Crystal => {
            nc.terrain = Terrain::Crystal;
            nc.res_kind = R_CRYSTAL;
        },
        Feature::Ruin => {
            nc.terrain = Terrain::Ruin;
            nc.res_kind = R_RELIC;
        },
        Feature::Ridge => {
            nc.terrain = Terrain::Glass;
            nc.walk = false;
        },
        Feature::Plateau => {
            nc.terrain = Terrain::Hull;
            nc.walk = true;
        },
    }
    grid.set(c, nc);
    let draw = match f {
        Feature::Scrap | Feature::Crystal | Feature::Ruin => rng.next(),
        _ => 0,
    };
    marks.push(Mark { feature: f, cell: c, draw });
}

proof fn lemma_offset(r: int, dx: int, dy: int)
    requires
        0 <= r <= 7,
        -r <= dx <= r,
        -r <= dy <= r,
    ensures
        blob_offset(r, (dy + r) * (2 * r + 1) + dx + r) == (dx, dy),
        0 <= (dy + r) * (2 * r + 1) + dx + r,
        (dy + r) * (2 * r + 1) + dx + r + 1 == (dy + r) * (2 * r + 1) + (dx + 1) + r,
        (dy + r + 1) * (2 * r + 1) == (dy + r) * (2 * r + 1) + r + r + 1,
        0 <= dx * dx <= 49,
        0 <= dy * dy <= 49,
        0 <= r * r <= 49,
{
    let w = 2 * r + 1;
    let t = (dy + r) * w + dx + r;
    assert(t % w == dx + r && t / w == dy + r) by (nonlinear_arith)
        requires
            t == (dy + r) * w + dx + r,
            0 <= dx + r < w,
            0 <= dy + r,
    ;
    assert(0 <= (dy + r) * w) by (nonlinear_arith)
        requires
            0 <= dy + r,
            w > 0,
    ;
    assert((dy + r + 1) * w == (dy + r) * w + w) by (nonlinear_arith);
    assert(0 <= dx * dx <= 49 && 0 <= dy * dy <= 49 && 0 <= r * r <= 49) by (nonlinear_arith)
        requires
            -7 <= dx <= 7,
            -7 <= dy <= 7,
            0 <= r <= 7,
    ;
}

fn blob_exec(grid: &mut Grid, rng: &mut Rng, marks: &mut Vec<Mark>, f: Feature, cx: i32, cy: i32, r: i32)
    requires
        old(grid).wf(),
        0 <= r <= 7,
        -1000 <= cx <= 1000,
        -1000 <= cy <= 1000,
    ensures
        only_cells(*old(grid), *final(grid)),
        gen_state(*final(grid), *final(rng), final(marks)@) == blob(
            gen_state(*old(grid), *old(rng), old(marks)@),
            f,
            cx as int,
            cy as int,
            r as int,
        ),
{
    let ghost g0 = *grid;
    let ghost st0 = gen_state(*grid, *rng, marks@);
    let ghost w = 2 * r + 1;
    let mut dy: i32 = -r;
    assert((dy + r) * (2 * r + 1) == 0) by (nonlinear_arith)
        requires
            dy == -r,
    ;
    while dy <= r
        invariant
            0 <= r <= 7,
            -1000 <= cx <= 1000,
            -1000 <= cy <= 1000,
            -r <= dy <= r + 1,
            only_cells(g0, *grid),
            st0 == gen_state(*old(grid), *old(rng), old(marks)@),
            g0 == *old(grid),
            gen_state(*grid, *rng, marks@) == blob_scan(st0, f, cx as int, cy as int, r as int, ((dy + r) * (2 * r + 1)) as nat),
        decreases r + 1 - dy,
    {
        let mut dx: i32 = -r;
        while dx <= r
            invariant
                0 <= r <= 7,
                -1000 <= cx <= 1000,
                -1000 <= cy <= 1000,
                -r <= dy <= r,
                -r <= dx <= r + 1,
                only_cells(g0, *grid),
                st0 == gen_state(*old(grid), *old(rng), old(marks)@),
                g0 == *old(grid),
                gen_state(*grid, *rng, marks@) == blob_scan(
                    st0,
                    f,
                    cx as int,
                    cy as int,
                    r as int,
                    ((dy + r) * (2 * r + 1) + dx + r) as nat,
                ),
            decreases r + 1 - dx,
        {
            proof {
                lemma_offset(r as int, dx as int, dy as int);
            }
            let c = (cx + dx, cy + dy);
            if Grid::inb(c) && dx * dx + dy * dy <= r * r {
                put_cell(grid, rng, marks, f, c);
            }
            dx = dx + 1;
        }
        proof {
            lemma_offset(r as int, r as int, dy as int);
        }
        dy = dy + 1;
    }
    proof {
        assert((dy + r) * (2 * r + 1) == (2 * r + 1) * (2 * r + 1)) by (nonlinear_arith)
            requires
                dy == r + 1,
        ;
    }
}

fn abs_i32(v: i32) -> (a: i32)
    requires
        v > i32::MIN,
    ensures
        a == abs(v as int),
{
    if v < 0 {
        -v
    } else {
        v
    }
}

fn cluster_exec(grid: &mut Grid, rng: &mut Rng, marks: &mut Vec<Mark>, f: Feature)
    requires
        old(grid).wf(),
    ensures
        only_cells(*old(grid), *final(grid)),
        gen_state(*final(grid), *final(rng), final(marks)@) == cluster(gen_state(*old(grid), *old(rng), old(marks)@), f),
{
    let shape: (i32, i32, i32, i32) = match f {
        Feature::Scrap => (3, 90, 6, 1),
        Feature::Crystal => (3, 90, 10, 1),
        _ => (4, 88, 9, 0),
    };
    let (base, span, zone, rbase) = shape;
    let cx = base + rng.below(span);
    let cy = base + rng.below(span);
    if abs_i32(cx - 48) < zone && abs_i32(cy - 48) < zone {
        return;
    }
    let r = rbase + rng.below(2);
    blob_exec(grid, rng, marks, f, cx, cy, r);
}

fn clusters_exec(grid: &mut Grid, rng: &mut Rng, marks: &mut Vec<Mark>, f: Feature, n: u32)
    requires
        old(grid).wf(),
    ensures
        only_cells(*old(grid), *final(grid)),
        gen_state(*final(grid), *final(rng), final(marks)@) == clusters(
            gen_state(*old(grid), *old(rng), old(marks)@),
            f,
            n as nat,
        ),
{
    let ghost g0 = *grid;
    let ghost st0 = gen_state(*grid, *rng, marks@);
    let mut k: u32 = 0;
    while k < n
        invariant
            k <= n,
            only_cells(g0, *grid),
            g0 == *old(grid),
            st0 == gen_state(*old(grid), *old(rng), old(marks)@),
            gen_state(*grid, *rng, marks@) == clusters(st0, f, k as nat),
        decreases n - k,
    {
        cluster_exec(grid, rng, marks, f);
        k = k + 1;
    }
}

fn ridge_exec(grid: &mut Grid, rng: &mut Rng, marks: &mut Vec<Mark>)
    requires
        old(grid).wf(),
    ensures
        only_cells(*old(grid), *final(grid)),
        gen_state(*final(grid), *final(rng), final(marks)@) == ridge(gen_state(*old(grid), *old(rng), old(marks)@)),
{
    let ghost g0 = *grid;
    let ghost st0 = gen_state(*grid, *rng, marks@);
    let x0 = 4 + rng.below(88);
    let y0 = 4 + rng.below(88);
    let horiz = rng.below(2) == 0;
    let len = 8 + rng.below(11);
    let ghost st1 = gen_state(*grid, *rng, marks@);
    assert(st1 == GenState { s: st1.s, ..st0 });
    let mut x = x0;
    let mut y = y0;
    let mut i: i32 = 0;
    while i < len
        invariant
            4 <= x0 < 92,
            4 <= y0 < 92,
            8 <= len < 19,
            0 <= i <= len,
            x == if horiz { x0 + i } else { x0 as int },
            y == if horiz { y0 as int } else { y0 + i },
            only_cells(g0, *grid),
            gen_state(*grid, *rng, marks@) == ridge_scan(st1, x0 as int, y0 as int, horiz, i as nat),
        decreases len - i,
    {
        if i % 5 == 4 {
        } else if Grid::inb((x, y)) && (abs_i32(x - 48) > 8 || abs_i32(y - 48) > 8) {
            put_cell(grid, rng, marks, Feature::Ridge, (x, y));
        }
        if horiz {
            x = x + 1;
        } else {
            y = y + 1;
        }
        i = i + 1;
    }
}

fn ridges_exec(grid: &mut Grid, rng: &mut Rng, marks: &mut Vec<Mark>, n: u32)
    requires
        old(grid).wf(),
    ensures
        only_cells(*old(grid), *final(grid)),
        gen_state(*final(grid), *final(rng), final(marks)@) == ridges(gen_state(*old(grid), *old(rng), old(marks)@), n as nat),
{
    let ghost g0 = *grid;
    let ghost st0 = gen_state(*grid, *rng, marks@);
    let mut k: u32 = 0;
    while k < n
        invariant
            k <= n,
            only_cells(g0, *grid),
            g0 == *old(grid),
            st0 == gen_state(*old(grid), *old(rng), old(marks)@),
            gen_state(*grid, *rng, marks@) == ridges(st0, k as nat),
        decreases n - k,
    {
        ridge_exec(grid, rng, marks);
        k = k + 1;
    }
}

/// What each feature makes of a cell: scrap gives regolith holding scrap
/// but spares the marsh, crystal a crystal scar, a ruin black metal holding
/// relics, a ridge impassable glass, the plateau walkable hull plate; only
/// the three deposits get a size draw.
pub proof fn lemma_features(f: Feature, c: Cell)
    ensures
        takes_hold(f, c) <==> !(f == Feature::Scrap && c.terrain == Terrain::Marsh),
        sized(f) <==> (f == Feature::Scrap || f == Feature::Crystal || f == Feature::Ruin),
        f == Feature::Scrap ==> shaped(f, c) == (Cell { terrain: Terrain::Regolith, res_kind: R_SCRAP, ..c }),
        f == Feature::Crystal ==> shaped(f, c) == (Cell { terrain: Terrain::Crystal, res_kind: R_CRYSTAL, ..c }),
        f == Feature::Ruin ==> shaped(f, c) == (Cell { terrain: Terrain::Ruin, res_kind: R_RELIC, ..c }),
        f == Feature::Ridge ==> shaped(f, c) == (Cell { terrain: Terrain::Glass, walk: false, ..c }),
        f == Feature::Plateau ==> shaped(f, c) == (Cell { terrain: Terrain::Hull, walk: true, ..c }),
{
}

proof fn lemma_plateau_scan(st: GenState, t: nat)
    requires
        st.cells.len() == NCELLS,
        t <= 225,
    ensures
        blob_scan(st, Feature::Plateau, 48, 48, 7, t).cells.len() == NCELLS,
        forall|u: int|
            0 <= u < t && in_bounds(((48 + (#[trigger] blob_offset(7, u)).0) as i32, (48 + blob_offset(7, u).1) as i32))
                && blob_offset(7, u).0 * blob_offset(7, u).0 + blob_offset(7, u).1 * blob_offset(7, u).1 <= 49 ==> {
                let c = blob_scan(st, Feature::Plateau, 48, 48, 7, t).cells[cell_index(
                    ((48 + blob_offset(7, u).0) as i32, (48 + blob_offset(7, u).1) as i32),
                )];
                c.terrain == Terrain::Hull && c.walk
            },
    decreases t,
{
    if t > 0 {
        lemma_plateau_scan(st, (t - 1) as nat);
        let st1 = blob_scan(st, Feature::Plateau, 48, 48, 7, (t - 1) as nat);
        let o = blob_offset(7, t - 1);
        let c = ((48 + o.0) as i32, (48 + o.1) as i32);
        if in_bounds(c) && o.0 * o.0 + o.1 * o.1 <= 49 {
            lemma_cell_index_bounds(c);
        }
        assert forall|u: int|
            0 <= u < t && in_bounds(((48 + (#[trigger] blob_offset(7, u)).0) as i32, (48 + blob_offset(7, u).1) as i32))
                && blob_offset(7, u).0 * blob_offset(7, u).0 + blob_offset(7, u).1 * blob_offset(7, u).1 <= 49 implies {
                let c = blob_scan(st, Feature::Plateau, 48, 48, 7, t).cells[cell_index(
                    ((48 + blob_offset(7, u).0) as i32, (48 + blob_offset(7, u).1) as i32),
                )];
                c.terrain == Terrain::Hull && c.walk
            } by {
            lemma_cell_index_bounds(((48 + blob_offset(7, u).0) as i32, (48 + blob_offset(7, u).1) as i32));
        }
    }
}

/// Placing the home plateau makes every cell within 7 of the map's center
/// (48, 48) walkable hull plate, whatever was there before.
pub proof fn lemma_home_plateau(st: GenState, dx: int, dy: int)
    requires
        st.cells.len() == NCELLS,
        dx * dx + dy * dy <= 49,
    ensures
        blob(st, Feature::Plateau, 48, 48, 7).cells[cell_index(((48 + dx) as i32, (48 + dy) as i32))].terrain
            == Terrain::Hull,
        blob(st, Feature::Plateau, 48, 48, 7).cells[cell_index(((48 + dx) as i32, (48 + dy) as i32))].walk,
{
    assert(-7 <= dx <= 7 && -7 <= dy <= 7) by (nonlinear_arith)
        requires
            dx * dx + dy * dy <= 49,
    ;
    lemma_offset(7, dx, dy);
    lemma_plateau_scan(st, 225);
    let u = (dy + 7) * 15 + dx + 7;
    assert(blob_offset(7, u) == (dx, dy));
    assert(0 <= u < 225) by (nonlinear_arith)
        requires
            u == (dy + 7) * 15 + dx + 7,
            -7 <= dx <= 7,
            -7 <= dy <= 7,
    ;
    assert(in_bounds(((48 + blob_offset(7, u).0) as i32, (48 + blob_offset(7, u).1) as i32)));
    assert(((2 * 7int + 1) * (2 * 7int + 1)) as nat == 225nat) by (nonlinear_arith);
    assert(blob(st, Feature::Plateau, 48, 48, 7) == blob_scan(st, Feature::Plateau, 48, 48, 7, 225));
}

/// Places the generated features on a freshly laid-out grid, drawing from
/// the world's generator (see `scattered`), and returns the placed cells in
/// order. Nothing but the cells changes.
pub fn scatter(grid: &mut Grid, rng: &mut Rng) -> (marks: Vec<Mark>)
    requires
        old(grid).wf(),
    ensures
        only_cells(*old(grid), *final(grid)),
        gen_state(*final(grid), *final(rng), marks@) == scattered(gen_state(*old(grid), *old(rng), seq![])),
        forall|dx: int, dy: int|
            dx * dx + dy * dy <= 49 ==> #[trigger] final(grid).cell(((48 + dx) as i32, (48 + dy) as i32)).terrain == Terrain::Hull
                && final(grid).cell(((48 + dx) as i32, (48 + dy) as i32)).walk,
{
    let mut marks: Vec<Mark> = Vec::new();
    clusters_exec(grid, rng, &mut marks, Feature::Scrap, 26);
    clusters_exec(grid, rng, &mut marks, Feature::Crystal, 15);
    clusters_exec(grid, rng, &mut marks, Feature::Ruin, 16);
    ridges_exec(grid, rng, &mut marks, 12);
    let ghost pre = gen_state(*grid, *rng, marks@);
    blob_exec(grid, rng, &mut marks, Feature::Plateau, 48, 48, 7);
    proof {
        assert forall|dx: int, dy: int| dx * dx + dy * dy <= 49 implies #[trigger] grid.cell(
            ((48 + dx) as i32, (48 + dy) as i32),
        ).terrain == Terrain::Hull && grid.cell(((48 + dx) as i32, (48 + dy) as i32)).walk by {
            lemma_home_plateau(pre, dx, dy);
        }
    }
    marks
}

} // verus!
