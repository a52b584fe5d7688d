//! The commander's hands-on work: picking the deposit to mine.

use vstd::prelude::*;
use crate::grid::{Grid, NCELLS, cell_index, in_bounds, lemma_cell_index_bounds};

verus! {

/// The cell at offset (`dx`, `dy`) from `p` can be mined by hand: on the map,
/// holding resources, with no building on it.
pub open spec fn minable(g: &Grid, deposit: Seq<bool>, p: (i32, i32), dx: int, dy: int) -> bool {
    let c = ((p.0 + dx) as i32, (p.1 + dy) as i32);
    &&& -1 <= dx <= 1
    &&& -1 <= dy <= 1
    &&& in_bounds(c)
    &&& deposit[cell_index(c)]
    &&& g.cell(c).occ.is_none()
}

/// Hand mining reaches the cell the player stands on and its eight
/// neighbours, on the map, holding resources and free of buildings.
pub proof fn lemma_minable(g: &Grid, deposit: Seq<bool>, p: (i32, i32), dx: int, dy: int)
    ensures
        minable(g, deposit, p, dx, dy) <==> ({
            let c = ((p.0 + dx) as i32, (p.1 + dy) as i32);
            &&& -1 <= dx <= 1 && -1 <= dy <= 1
            &&& in_bounds(c)
            &&& deposit[cell_index(c)]
            &&& g.cell(c).occ is None
        }),
{
}

/// The first minable cell around `p` (rows from top, columns from left,
/// `p` itself included); `deposit` tells which cells still hold resources.
pub fn mine_target(grid: &Grid, deposit: &Vec<bool>, p: (i32, i32)) -> (r: Option<(i32, i32)>)
    requires
        grid.wf(),
        deposit@.len() == NCELLS,
        -1_000_000 <= p.0 <= 1_000_000,
        -1_000_000 <= p.1 <= 1_000_000,
    ensures
        r is None <==> forall|dx: int, dy: int| !#[trigger] minable(grid, deposit@, p, dx, dy),
        r matches Some(c) ==> exists|dx: int, dy: int|
            #[trigger] minable(grid, deposit@, p, dx, dy) && c.0 == p.0 + dx && c.1 == p.1 + dy && forall|ex: int, ey: int|
                #[trigger] minable(grid, deposit@, p, ex, ey) ==> ey > dy || (ey == dy && ex >= dx),
{
    let mut dy: i32 = -1;
    while dy <= 1
        invariant
            grid.wf(),
            deposit@.len() == NCELLS,
            -1_000_000 <= p.0 <= 1_000_000,
            -1_000_000 <= p.1 <= 1_000_000,
            -1 <= dy <= 2,
            forall|ex: int, ey: int| #[trigger] minable(grid, deposit@, p, ex, ey) ==> ey >= dy,
        decreases 2 - dy,
    {
        let mut dx: i32 = -1;
        while dx <= 1
            invariant
                grid.wf(),
                deposit@.len() == NCELLS,
                -1_000_000 <= p.0 <= 1_000_000,
                -1_000_000 <= p.1 <= 1_000_000,
                -1 <= dy <= 1,
                -1 <= dx <= 2,
                forall|ex: int, ey: int|
                    #[trigger] minable(grid, deposit@, p, ex, ey) ==> ey > dy || (ey == dy && ex >= dx),
            decreases 2 - dx,
        {
            let c = (p.0 + dx, p.1 + dy);
            if Grid::inb(c) {
                proof {
                    lemma_cell_index_bounds(c);
                }
                if deposit[Grid::idx(c)] && grid.at(c).occ.is_none() {
                    assert(minable(grid, deposit@, p, dx as int, dy as int));
                    return Some(c);
                }
            }
            dx = dx + 1;
        }
        dy = dy + 1;
    }
    None
}

} // verus!
