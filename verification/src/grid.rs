//! The surface grid as the simulation reads it: per-cell terrain, deposit
//! kind, discovery, walkability, occupancy and conveyor flags, plus the
//! dirty-tile bookkeeping that drives re-meshing.

use vstd::prelude::*;
use crate::kinds::{Terrain, R_SCRAP};

verus! {

/// Width and height of the square surface grid, in cells.
pub const MAP: i32 = 96;
/// Width and height of a render tile, in cells.
pub const TILE: i32 = 16;
/// Number of render tiles along each side of the map.
pub const TILES: i32 = 6;
/// Number of cells in the grid.
pub const NCELLS: usize = 9216;
/// Number of render tiles.
pub const NTILES: usize = 36;

/// One cell of the surface.
#[derive(Clone, Copy, PartialEq, Eq, Structural, Debug)]
pub struct Cell {
    pub terrain: Terrain,
    /// Which resource a deposit here yields.
    pub res_kind: usize,
    /// Discovered (outside the fog of war).
    pub disc: bool,
    /// Units may stand here.
    pub walk: bool,
    /// The building standing here, by entity id.
    pub occ: Option<u64>,
    /// The cell carries a conveyor or sorter (units may still walk over it).
    pub conv: bool,
}

/// A fresh cell: undiscovered walkable hull plate.
pub open spec fn default_cell() -> Cell {
    Cell { terrain: Terrain::Hull, res_kind: R_SCRAP, disc: false, walk: true, occ: None, conv: false }
}

impl Cell {
    pub fn new() -> (c: Cell)
        ensures
            c == default_cell(),
    {
        Cell { terrain: Terrain::Hull, res_kind: R_SCRAP, disc: false, walk: true, occ: None, conv: false }
    }
}

/// Cell coordinates inside the map.
pub open spec fn in_bounds(c: (i32, i32)) -> bool {
    0 <= c.0 < MAP && 0 <= c.1 < MAP
}

/// Row-major index of a cell.
pub open spec fn cell_index(c: (i32, i32)) -> int {
    c.1 * MAP + c.0
}

/// Column and row of a cell index.
pub open spec fn col_of(i: int) -> int {
    i % (MAP as int)
}

pub open spec fn row_of(i: int) -> int {
    i / (MAP as int)
}

/// The cell coordinates of a cell index.
pub open spec fn coords(i: int) -> (i32, i32) {
    (col_of(i) as i32, row_of(i) as i32)
}

/// The render tile a cell belongs to.
pub open spec fn tile_of(c: (i32, i32)) -> int {
    (c.1 / TILE) * TILES + c.0 / TILE
}

/// Units can stand on a cell: walkable ground that is free or carries a
/// conveyor.
pub open spec fn cell_walkable(cell: Cell) -> bool {
    cell.walk && (cell.occ.is_none() || cell.conv)
}

pub struct Grid {
    pub seed: u64,
    pub cells: Vec<Cell>,
    pub dirty: Vec<bool>,
    /// Distance of each cell to the core (`u32::MAX`: unreachable).
    pub flow: Vec<u32>,
    pub flow_dirty: bool,
    pub power_dirty: bool,
    pub nests_gen: Vec<(i32, i32)>,
}

impl Grid {
    /// Layers have the sizes of the map.
    pub open spec fn wf(&self) -> bool {
        &&& self.cells.len() == NCELLS
        &&& self.dirty.len() == NTILES
        &&& self.flow.len() == NCELLS
    }

    /// The cell at in-bounds coordinates.
    pub open spec fn cell(&self, c: (i32, i32)) -> Cell {
        self.cells@[cell_index(c)]
    }

    /// A blank world for `seed`: every cell default, every tile dirty, no
    /// distances known, every recomputation pending.
    pub fn new(seed: u64) -> (g: Grid)
        ensures
            g.wf(),
            g.seed == seed,
            forall|i: int| 0 <= i < NCELLS ==> #[trigger] g.cells@[i] == default_cell(),
            forall|t: int| 0 <= t < NTILES ==> #[trigger] g.dirty@[t],
            forall|i: int| 0 <= i < NCELLS ==> #[trigger] g.flow@[i] == u32::MAX,
            g.flow_dirty,
            g.power_dirty,
            g.nests_gen@.len() == 0,
    {
        let mut cells: Vec<Cell> = Vec::new();
        let mut flow: Vec<u32> = Vec::new();
        let mut i: usize = 0;
        while i < NCELLS
            invariant
                i <= NCELLS,
                cells@.len() == i,
                flow@.len() == i,
                forall|k: int| 0 <= k < i ==> #[trigger] cells@[k] == default_cell(),
                forall|k: int| 0 <= k < i ==> #[trigger] flow@[k] == u32::MAX,
            decreases NCELLS - i,
        {
            cells.push(Cell::new());
            flow.push(u32::MAX);
            i = i + 1;
        }
        let mut dirty: Vec<bool> = Vec::new();
        let mut t: usize = 0;
        while t < NTILES
            invariant
                t <= NTILES,
                dirty@.len() == t,
                forall|k: int| 0 <= k < t ==> #[trigger] dirty@[k],
            decreases NTILES - t,
        {
            dirty.push(true);
            t = t + 1;
        }
        Grid { seed, cells, dirty, flow, flow_dirty: true, power_dirty: true, nests_gen: Vec::new() }
    }

    pub fn inb(c: (i32, i32)) -> (b: bool)
        ensures
            b == in_bounds(c),
    {
        c.0 >= 0 && c.1 >= 0 && c.0 < MAP && c.1 < MAP
    }

    pub fn idx(c: (i32, i32)) -> (i: usize)
        requires
            in_bounds(c),
        ensures
            i == cell_index(c),
            i < NCELLS,
    {
        proof {
            lemma_cell_index_bounds(c);
        }
        (c.1 * MAP + c.0) as usize
    }

    pub fn at(&self, c: (i32, i32)) -> (cell: &Cell)
        requires
            self.wf(),
            in_bounds(c),
        ensures
            *cell == self.cell(c),
    {
        &self.cells[Self::idx(c)]
    }

    /// Overwrites the cell at `c`.
    pub fn set(&mut self, c: (i32, i32), cell: Cell)
        requires
            old(self).wf(),
            in_bounds(c),
        ensures
            final(self).wf(),
            final(self).cells@ == old(self).cells@.update(cell_index(c), cell),
            final(self).dirty@ == old(self).dirty@,
            final(self).flow@ == old(self).flow@,
            final(self).seed == old(self).seed,
            final(self).flow_dirty == old(self).flow_dirty,
            final(self).power_dirty == old(self).power_dirty,
            final(self).nests_gen@ == old(self).nests_gen@,
    {
        let i = Self::idx(c);
        self.cells.set(i, cell);
    }

    /// Flags the render tile of `c` for re-meshing (nothing happens off the map).
    pub fn mark(&mut self, c: (i32, i32))
        requires
            old(self).wf(),
        ensures
            final(self).wf(),
            final(self).dirty@ == if in_bounds(c) {
                old(self).dirty@.update(tile_of(c), true)
            } else {
                old(self).dirty@
            },
            final(self).cells@ == old(self).cells@,
            final(self).flow@ == old(self).flow@,
            final(self).seed == old(self).seed,
            final(self).flow_dirty == old(self).flow_dirty,
            final(self).power_dirty == old(self).power_dirty,
            final(self).nests_gen@ == old(self).nests_gen@,
    {
        if Self::inb(c) {
            proof {
                lemma_tile_bounds(c);
            }
            let t = ((c.1 / TILE) * TILES + c.0 / TILE) as usize;
            self.dirty.set(t, true);
        }
    }

    /// Flags every render tile for re-meshing.
    pub fn mark_all(&mut self)
        requires
            old(self).wf(),
        ensures
            final(self).wf(),
            forall|t: int| 0 <= t < NTILES ==> #[trigger] final(self).dirty@[t],
            final(self).cells@ == old(self).cells@,
            final(self).flow@ == old(self).flow@,
            final(self).seed == old(self).seed,
            final(self).flow_dirty == old(self).flow_dirty,
            final(self).power_dirty == old(self).power_dirty,
            final(self).nests_gen@ == old(self).nests_gen@,
    {
        let mut t: usize = 0;
        while t < NTILES
            invariant
                self.wf(),
                t <= NTILES,
                forall|k: int| 0 <= k < t ==> #[trigger] self.dirty@[k],
                self.cells@ == old(self).cells@,
                self.flow@ == old(self).flow@,
                self.seed == old(self).seed,
                self.flow_dirty == old(self).flow_dirty,
                self.power_dirty == old(self).power_dirty,
                self.nests_gen@ == old(self).nests_gen@,
            decreases NTILES - t,
        {
            self.dirty.set(t, true);
            t = t + 1;
        }
    }

    /// Units can stand on `c`: on the map, walkable, and free or a conveyor.
    pub fn walkable(&self, c: (i32, i32)) -> (b: bool)
        requires
            self.wf(),
        ensures
            b == (in_bounds(c) && cell_walkable(self.cell(c))),
    {
        if !Self::inb(c) {
            return false;
        }
        let cell = self.at(c);
        cell.walk && (cell.occ.is_none() || cell.conv)
    }
}

impl Grid {
    /// Takes up to `budget` dirty tiles, lowest index first, clearing their
    /// flags; returns their indices in increasing order.
    pub fn take_dirty(&mut self, budget: usize) -> (taken: Vec<usize>)
        requires
            old(self).wf(),
        ensures
            final(self).wf(),
            taken@.len() <= budget,
            forall|a: int, b: int| 0 <= a < b < taken@.len() ==> taken@[a] < taken@[b],
            forall|k: int| 0 <= k < taken@.len() ==> #[trigger] taken@[k] < NTILES && old(self).dirty@[taken@[k] as int],
            forall|t: int|
                0 <= t < NTILES ==> #[trigger] final(self).dirty@[t] == (old(self).dirty@[t] && !taken@.contains(t as usize)),
            forall|t: int|
                0 <= t < NTILES && old(self).dirty@[t] && !taken@.contains(t as usize) ==> taken@.len() == budget
                    && (budget == 0 || t > taken@.last()),
            final(self).cells@ == old(self).cells@,
            final(self).flow@ == old(self).flow@,
            final(self).seed == old(self).seed,
            final(self).flow_dirty == old(self).flow_dirty,
            final(self).power_dirty == old(self).power_dirty,
            final(self).nests_gen@ == old(self).nests_gen@,
    {
        let ghost d0 = self.dirty@;
        let mut taken: Vec<usize> = Vec::new();
        let mut t: usize = 0;
        while t < NTILES
            invariant
                self.wf(),
                d0.len() == NTILES,
                t <= NTILES,
                taken@.len() <= budget,
                forall|a: int, b: int| 0 <= a < b < taken@.len() ==> taken@[a] < taken@[b],
                forall|k: int| 0 <= k < taken@.len() ==> #[trigger] taken@[k] < t && d0[taken@[k] as int],
                forall|u: int|
                    0 <= u < NTILES ==> #[trigger] self.dirty@[u] == (d0[u] && !taken@.contains(u as usize)),
                forall|u: int|
                    0 <= u < t && d0[u] && !taken@.contains(u as usize) ==> taken@.len() == budget && (budget == 0 || u
                        > taken@.last()),
                self.cells@ == old(self).cells@,
                self.flow@ == old(self).flow@,
                self.seed == old(self).seed,
                self.flow_dirty == old(self).flow_dirty,
                self.power_dirty == old(self).power_dirty,
                self.nests_gen@ == old(self).nests_gen@,
            decreases NTILES - t,
        {
            if self.dirty[t] && taken.len() < budget {
                let ghost before = taken@;
                self.dirty.set(t, false);
                taken.push(t);
                proof {
                    assert forall|u: int| 0 <= u < NTILES implies #[trigger] self.dirty@[u] == (d0[u]
                        && !taken@.contains(u as usize)) by {
                        if u != t {
                            assert(taken@.contains(u as usize) == before.contains(u as usize)) by {
                                if taken@.contains(u as usize) {
                                    let k = choose|k: int| 0 <= k < taken@.len() && taken@[k] == u as usize;
                                    assert(k < before.len());
                                }
                                if before.contains(u as usize) {
                                    let k = choose|k: int| 0 <= k < before.len() && before[k] == u as usize;
                                    assert(taken@[k] == u as usize);
                                }
                            }
                        } else {
                            assert(taken@[taken@.len() - 1] == t);
                        }
                    }
                    assert forall|u: int|
                        0 <= u < t + 1 && d0[u] && !taken@.contains(u as usize) implies taken@.len() == budget && (
                        budget == 0 || u > taken@.last()) by {
                        if u == t {
                            assert(taken@[taken@.len() - 1] == t);
                        } else {
                            if !before.contains(u as usize) {
                            } else {
                                let k = choose|k: int| 0 <= k < before.len() && before[k] == u as usize;
                                assert(taken@[k] == u as usize);
                            }
                        }
                    }
                }
            } else {
                proof {
                    if d0[t as int] && !taken@.contains(t) {
                        assert(self.dirty@[t as int]);
                        assert(taken@.len() == budget);
                        if taken@.len() > 0 {
                            assert(taken@.last() < t);
                        }
                    }
                }
            }
            t = t + 1;
        }
        taken
    }
}

/// A blank cell is undiscovered, walkable, free hull plate; units stand on
/// walkable ground that is free or carries a conveyor, and nowhere else.
pub proof fn lemma_blank_and_walkable(c: Cell)
    ensures
        default_cell().terrain == Terrain::Hull && default_cell().walk && !default_cell().disc
            && default_cell().occ is None && !default_cell().conv,
        cell_walkable(c) <==> (c.walk && (c.occ is None || c.conv)),
        cell_walkable(default_cell()),
{
}

/// The index of an on-map cell lies on the map and gives its column and row
/// back.
pub proof fn lemma_cell_index_bounds(c: (i32, i32))
    requires
        in_bounds(c),
    ensures
        0 <= cell_index(c) < NCELLS,
        col_of(cell_index(c)) == c.0,
        row_of(cell_index(c)) == c.1,
{
    assert(0 <= c.1 * MAP <= 95 * 96) by (nonlinear_arith)
        requires
            0 <= c.1 < 96,
    ;
    assert((c.1 * 96 + c.0) % 96 == c.0 && (c.1 * 96 + c.0) / 96 == c.1) by (nonlinear_arith)
        requires
            0 <= c.0 < 96,
            0 <= c.1 < 96,
    ;
}

/// Every cell index is the index of the on-map cell at its coordinates.
pub proof fn lemma_coords_index(i: int)
    requires
        0 <= i < NCELLS,
    ensures
        in_bounds(coords(i)),
        cell_index(coords(i)) == i,
{
    assert(0 <= i % 96 < 96 && 0 <= i / 96 < 96 && (i / 96) * 96 + i % 96 == i) by (nonlinear_arith)
        requires
            0 <= i < 9216,
    ;
}

/// An on-map cell lies in one of the map's tiles.
pub proof fn lemma_tile_bounds(c: (i32, i32))
    requires
        in_bounds(c),
    ensures
        0 <= tile_of(c) < NTILES,
{
    assert(0 <= c.1 / 16 <= 5 && 0 <= c.0 / 16 <= 5);
}

} // verus!
