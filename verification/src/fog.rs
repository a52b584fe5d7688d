//! Fog of war: revealing the cells around the player and radar masts.

use vstd::prelude::*;
use crate::grid::{Grid, NCELLS, NTILES, cell_index, coords, in_bounds, tile_of, lemma_cell_index_bounds, lemma_coords_index, lemma_tile_bounds};

verus! {

/// `p` lies within distance `r` of `c`.
pub open spec fn within(c: (i32, i32), r: i32, p: (i32, i32)) -> bool {
    (p.0 - c.0) * (p.0 - c.0) + (p.1 - c.1) * (p.1 - c.1) <= r * r && r >= 0
}

/// Cells of the disc around `c` visited before row offset `dy`, column
/// offset `dx`.
pub open spec fn seen_before(c: (i32, i32), r: i32, dy: int, dx: int, p: (i32, i32)) -> bool {
    within(c, r, p) && (p.1 - c.1 < dy || (p.1 - c.1 == dy && p.0 - c.0 < dx))
}

proof fn lemma_square_bound(d: int, r: int)
    requires
        d * d <= r * r,
        r >= 0,
    ensures
        -r <= d <= r,
{
    if d > r {
        assert(d * d > r * r) by (nonlinear_arith)
            requires
                d > r,
                r >= 0,
        ;
    }
    if d < -r {
        assert(d * d > r * r) by (nonlinear_arith)
            requires
                d < -r,
                r >= 0,
        ;
    }
}

/// The revealed area is the round disc of radius `r`: it holds its center
/// and the cells exactly `r` away along a row or column but not one step
/// further, nothing for a negative radius, and grows with the radius.
pub proof fn lemma_disc(c: (i32, i32), r: i32, r2: i32, p: (i32, i32))
    ensures
        r >= 0 ==> within(c, r, c),
        r >= 0 && c.0 + r <= i32::MAX && c.1 - r >= i32::MIN ==> within(c, r, ((c.0 + r) as i32, c.1)) && within(c, r, (c.0, (c.1 - r) as i32)),
        r >= 0 && c.0 + r + 1 <= i32::MAX ==> !within(c, r, ((c.0 + r + 1) as i32, c.1)),
        r < 0 ==> !within(c, r, p),
        within(c, r, p) && r <= r2 ==> within(c, r2, p),
        within(c, r, p) ==> -r <= p.0 - c.0 <= r && -r <= p.1 - c.1 <= r,
{
    if r >= 0 {
        assert((r + 1) * (r + 1) > r * r) by (nonlinear_arith)
            requires
                r >= 0,
        ;
    }
    if r >= 0 && c.0 + r <= i32::MAX && c.1 - r >= i32::MIN {
        let q1 = ((c.0 + r) as i32, c.1);
        let q2 = (c.0, (c.1 - r) as i32);
        assert(q1.0 - c.0 == r && q1.1 - c.1 == 0);
        assert(q2.1 - c.1 == -r && q2.0 - c.0 == 0);
        assert((q1.0 - c.0) * (q1.0 - c.0) + (q1.1 - c.1) * (q1.1 - c.1) == r * r) by (nonlinear_arith)
            requires
                q1.0 - c.0 == r && q1.1 - c.1 == 0,
        ;
        assert((q2.0 - c.0) * (q2.0 - c.0) + (q2.1 - c.1) * (q2.1 - c.1) == r * r) by (nonlinear_arith)
            requires
                q2.1 - c.1 == -r && q2.0 - c.0 == 0,
        ;
    }
    if within(c, r, p) && r <= r2 {
        assert(r * r <= r2 * r2) by (nonlinear_arith)
            requires
                0 <= r <= r2,
        ;
    }
    if within(c, r, p) {
        let a = p.0 - c.0;
        let b = p.1 - c.1;
        assert(a * a >= 0 && b * b >= 0) by (nonlinear_arith);
        lemma_square_bound(p.0 - c.0, r as int);
        lemma_square_bound(p.1 - c.1, r as int);
    }
}

/// Discovers every on-map cell within distance `r` of `c`; the tiles of the
/// cells that were still hidden are flagged for re-meshing.
pub fn reveal_area(grid: &mut Grid, c: (i32, i32), r: i32)
    requires
        old(grid).wf(),
        i32::MIN as int <= c.0 - r,
        c.0 + r <= i32::MAX as int,
        i32::MIN as int <= c.1 - r,
        c.1 + r <= i32::MAX as int,
        r < i32::MAX,
    ensures
        final(grid).wf(),
        forall|i: int|
            0 <= i < NCELLS ==> #[trigger] final(grid).cells@[i] == if within(c, r, coords(i)) {
                crate::grid::Cell { disc: true, ..old(grid).cells@[i] }
            } else {
                old(grid).cells@[i]
            },
        forall|t: int|
            0 <= t < NTILES ==> #[trigger] final(grid).dirty@[t] == (old(grid).dirty@[t] || exists|i: int|
                0 <= i < NCELLS && within(c, r, coords(i)) && !old(grid).cells@[i].disc && tile_of(coords(i)) == t),
        final(grid).flow@ == old(grid).flow@,
        final(grid).seed == old(grid).seed,
        final(grid).flow_dirty == old(grid).flow_dirty,
        final(grid).power_dirty == old(grid).power_dirty,
        final(grid).nests_gen@ == old(grid).nests_gen@,
{
    let ghost c0 = grid.cells@;
    let ghost d0 = grid.dirty@;
    if r < 0 {
        return;
    }
    let mut dy: i32 = -r;
    proof {
        assert forall|i: int| 0 <= i < NCELLS implies !#[trigger] seen_before(c, r, -r as int, -r as int, coords(i)) by {
            let q = coords(i);
            if within(c, r, q) {
                assert((q.0 - c.0) * (q.0 - c.0) >= 0 && (q.1 - c.1) * (q.1 - c.1) >= 0) by (nonlinear_arith);
                lemma_square_bound(q.1 - c.1, r as int);
                lemma_square_bound(q.0 - c.0, r as int);
            }
        }
    }
    while dy <= r
        invariant
            grid.wf(),
            0 <= r < i32::MAX,
            -r <= dy <= r + 1,
            i32::MIN as int <= c.0 - r,
            c.0 + r <= i32::MAX as int,
            i32::MIN as int <= c.1 - r,
            c.1 + r <= i32::MAX as int,
            c0.len() == NCELLS,
            d0.len() == NTILES,
            forall|i: int|
                0 <= i < NCELLS ==> #[trigger] grid.cells@[i] == if seen_before(c, r, dy as int, -r as int, coords(i)) {
                    crate::grid::Cell { disc: true, ..c0[i] }
                } else {
                    c0[i]
                },
            forall|t: int|
                0 <= t < NTILES ==> #[trigger] grid.dirty@[t] == (d0[t] || exists|i: int|
                    0 <= i < NCELLS && seen_before(c, r, dy as int, -r as int, coords(i)) && !c0[i].disc && tile_of(
                        coords(i),
                    ) == t),
            grid.flow@ == old(grid).flow@,
            grid.seed == old(grid).seed,
            grid.flow_dirty == old(grid).flow_dirty,
            grid.power_dirty == old(grid).power_dirty,
            grid.nests_gen@ == old(grid).nests_gen@,
        decreases r + 1 - dy,
    {
        let mut dx: i32 = -r;
        while dx <= r
            invariant
                grid.wf(),
                0 <= r < i32::MAX,
                -r <= dy <= r,
                -r <= dx <= r + 1,
                i32::MIN as int <= c.0 - r,
                c.0 + r <= i32::MAX as int,
                i32::MIN as int <= c.1 - r,
                c.1 + r <= i32::MAX as int,
                c0.len() == NCELLS,
                d0.len() == NTILES,
                forall|i: int|
                    0 <= i < NCELLS ==> #[trigger] grid.cells@[i] == if seen_before(c, r, dy as int, dx as int, coords(i)) {
                        crate::grid::Cell { disc: true, ..c0[i] }
                    } else {
                        c0[i]
                    },
                forall|t: int|
                    0 <= t < NTILES ==> #[trigger] grid.dirty@[t] == (d0[t] || exists|i: int|
                        0 <= i < NCELLS && seen_before(c, r, dy as int, dx as int, coords(i)) && !c0[i].disc
                            && tile_of(coords(i)) == t),
                grid.flow@ == old(grid).flow@,
                grid.seed == old(grid).seed,
                grid.flow_dirty == old(grid).flow_dirty,
                grid.power_dirty == old(grid).power_dirty,
                grid.nests_gen@ == old(grid).nests_gen@,
            decreases r + 1 - dx,
        {
            let p = (c.0 + dx, c.1 + dy);
            let ghost cs = grid.cells@;
            let ghost ds = grid.dirty@;
            let dxl = dx as i128;
            let dyl = dy as i128;
            let rl = r as i128;
            assert(dxl * dxl <= 0x1_0000_0000_0000_0000 && dyl * dyl <= 0x1_0000_0000_0000_0000 && dxl * dxl >= 0
                && dyl * dyl >= 0 && rl * rl <= 0x1_0000_0000_0000_0000) by (nonlinear_arith)
                requires
                    -0x8000_0000 <= dxl <= 0x8000_0000,
                    -0x8000_0000 <= dyl <= 0x8000_0000,
                    0 <= rl <= 0x8000_0000,
            ;
            let sq: i128 = dxl * dxl + dyl * dyl;
            let rr: i128 = rl * rl;
            if Grid::inb(p) && sq <= rr && !grid.at(p).disc {
                let mut cc = *grid.at(p);
                cc.disc = true;
                grid.set(p, cc);
                grid.mark(p);
                proof {
                    let pi = cell_index(p);
                    lemma_cell_index_bounds(p);
                    lemma_tile_bounds(p);
                    assert(coords(pi) == p);
                    assert(cs[pi] == c0[pi]) by {
                        assert(!seen_before(c, r, dy as int, dx as int, coords(pi)));
                    }
                    assert forall|i: int| 0 <= i < NCELLS implies #[trigger] grid.cells@[i] == if seen_before(
                        c,
                        r,
                        dy as int,
                        dx + 1,
                        coords(i),
                    ) {
                        crate::grid::Cell { disc: true, ..c0[i] }
                    } else {
                        c0[i]
                    } by {
                        if i != pi {
                            lemma_coords_index(i);
                            assert(cs[i] == grid.cells@[i]);
                        }
                    }
                    assert forall|t: int| 0 <= t < NTILES implies #[trigger] grid.dirty@[t] == (d0[t] || exists|i: int|
                        0 <= i < NCELLS && seen_before(c, r, dy as int, dx + 1, coords(i)) && !c0[i].disc
                            && tile_of(coords(i)) == t) by {
                        if t == tile_of(p) {
                            assert(seen_before(c, r, dy as int, dx + 1, coords(pi)) && !c0[pi].disc);
                        } else {
                            assert(ds[t] == grid.dirty@[t]);
                            if exists|i: int|
                                0 <= i < NCELLS && seen_before(c, r, dy as int, dx + 1, coords(i)) && !c0[i].disc
                                    && tile_of(coords(i)) == t {
                                let i = choose|i: int|
                                    0 <= i < NCELLS && seen_before(c, r, dy as int, dx + 1, coords(i)) && !c0[i].disc
                                        && tile_of(coords(i)) == t;
                                if coords(i) != p {
                                    assert(seen_before(c, r, dy as int, dx as int, coords(i)));
                                }
                            }
                        }
                    }
                }
            } else {
                proof {
                    assert forall|i: int| 0 <= i < NCELLS implies #[trigger] grid.cells@[i] == if seen_before(
                        c,
                        r,
                        dy as int,
                        dx + 1,
                        coords(i),
                    ) {
                        crate::grid::Cell { disc: true, ..c0[i] }
                    } else {
                        c0[i]
                    } by {
                        lemma_coords_index(i);
                        if coords(i) == p {
                            assert(cell_index(p) == i);
                            if seen_before(c, r, dy as int, dx + 1, coords(i)) {
                                assert(sq == (p.0 - c.0) * (p.0 - c.0) + (p.1 - c.1) * (p.1 - c.1));
                                assert(c0[i].disc);
                            }
                        }
                    }
                    assert forall|t: int| 0 <= t < NTILES implies #[trigger] grid.dirty@[t] == (d0[t] || exists|i: int|
                        0 <= i < NCELLS && seen_before(c, r, dy as int, dx + 1, coords(i)) && !c0[i].disc
                            && tile_of(coords(i)) == t) by {
                        if exists|i: int|
                            0 <= i < NCELLS && seen_before(c, r, dy as int, dx + 1, coords(i)) && !c0[i].disc
                                && tile_of(coords(i)) == t {
                            let i = choose|i: int|
                                0 <= i < NCELLS && seen_before(c, r, dy as int, dx + 1, coords(i)) && !c0[i].disc
                                    && tile_of(coords(i)) == t;
                            lemma_coords_index(i);
                            if coords(i) == p {
                                assert(cell_index(p) == i);
                                assert(sq == (p.0 - c.0) * (p.0 - c.0) + (p.1 - c.1) * (p.1 - c.1));
                            } else {
                                assert(seen_before(c, r, dy as int, dx as int, coords(i)));
                            }
                        }
                    }
                }
            }
            dx = dx + 1;
        }
        proof {
            assert forall|i: int| 0 <= i < NCELLS implies #[trigger] seen_before(c, r, dy + 1, -r as int, coords(i))
                == seen_before(c, r, dy as int, r + 1, coords(i)) by {
                let q = coords(i);
                if within(c, r, q) {
                    assert((q.0 - c.0) * (q.0 - c.0) >= 0 && (q.1 - c.1) * (q.1 - c.1) >= 0) by (nonlinear_arith);
                    lemma_square_bound(q.0 - c.0, r as int);
                }
            }
        }
        dy = dy + 1;
    }
    proof {
        assert forall|i: int| 0 <= i < NCELLS implies #[trigger] seen_before(c, r, r + 1, -r as int, coords(i))
            == within(c, r, coords(i)) by {
            let q = coords(i);
            if within(c, r, q) {
                assert((q.0 - c.0) * (q.0 - c.0) >= 0 && (q.1 - c.1) * (q.1 - c.1) >= 0) by (nonlinear_arith);
                lemma_square_bound(q.1 - c.1, r as int);
            }
        }
    }
}

} // verus!
