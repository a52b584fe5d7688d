//! The discrete layers of a saved world: terrain codes, deposit kinds,
//! discovery and walkability, one entry per cell in row-major order.

use vstd::prelude::*;
use crate::grid::{Cell, Grid, NCELLS, NTILES};
use crate::kinds::{Terrain, terrain_code, terrain_of_code, lemma_terrain_code_roundtrip};

verus! {

pub struct GridLayers {
    pub terrain: Vec<u8>,
    pub res_kind: Vec<u8>,
    pub disc: Vec<bool>,
    pub walk: Vec<bool>,
}

/// The cell a saved entry describes: nothing stands on it yet.
pub open spec fn loaded_cell(t: u8, k: u8, disc: bool, walk: bool) -> Cell {
    Cell { terrain: terrain_of_code(t), res_kind: k as usize, disc, walk, occ: None, conv: false }
}

impl Grid {
    /// The per-cell layers written to a save file.
    pub fn save_layers(&self) -> (l: GridLayers)
        requires
            self.wf(),
        ensures
            l.terrain@.len() == NCELLS,
            l.res_kind@.len() == NCELLS,
            l.disc@.len() == NCELLS,
            l.walk@.len() == NCELLS,
            forall|i: int|
                0 <= i < NCELLS ==> {
                    &&& #[trigger] l.terrain@[i] == terrain_code(self.cells@[i].terrain)
                    &&& l.res_kind@[i] == (#[verifier::truncate] (self.cells@[i].res_kind as u8))
                    &&& l.disc@[i] == self.cells@[i].disc
                    &&& l.walk@[i] == self.cells@[i].walk
                },
    {
        let mut l = GridLayers { terrain: Vec::new(), res_kind: Vec::new(), disc: Vec::new(), walk: Vec::new() };
        let mut i: usize = 0;
        while i < NCELLS
            invariant
                self.wf(),
                i <= NCELLS,
                l.terrain@.len() == i,
                l.res_kind@.len() == i,
                l.disc@.len() == i,
                l.walk@.len() == i,
                forall|k: int| 0 <= k < i ==> #[trigger] l.terrain@[k] == terrain_code(self.cells@[k].terrain),
                forall|k: int| 0 <= k < i ==> #[trigger] l.res_kind@[k] == (#[verifier::truncate] (self.cells@[k].res_kind as u8)),
                forall|k: int| 0 <= k < i ==> #[trigger] l.disc@[k] == self.cells@[k].disc,
                forall|k: int| 0 <= k < i ==> #[trigger] l.walk@[k] == self.cells@[k].walk,
            decreases NCELLS - i,
        {
            let c = &self.cells[i];
            let kind = #[verifier::truncate] (c.res_kind as u8);
            l.terrain.push(c.terrain.to_u8());
            l.res_kind.push(kind);
            l.disc.push(c.disc);
            l.walk.push(c.walk);
            i = i + 1;
        }
        l
    }

    /// A world rebuilt from saved layers: every cell as saved and free,
    /// everything scheduled for recomputation.
    pub fn from_layers(seed: u64, l: &GridLayers) -> (g: Grid)
        requires
            l.terrain@.len() >= NCELLS,
            l.res_kind@.len() >= NCELLS,
            l.disc@.len() >= NCELLS,
            l.walk@.len() >= NCELLS,
        ensures
            g.wf(),
            g.seed == seed,
            forall|i: int|
                0 <= i < NCELLS ==> #[trigger] g.cells@[i] == loaded_cell(
                    l.terrain@[i],
                    l.res_kind@[i],
                    l.disc@[i],
                    l.walk@[i],
                ),
            forall|t: int| 0 <= t < NTILES ==> #[trigger] g.dirty@[t],
            forall|i: int| 0 <= i < NCELLS ==> #[trigger] g.flow@[i] == u32::MAX,
            g.flow_dirty,
            g.power_dirty,
            g.nests_gen@.len() == 0,
    {
        let mut g = Grid::new(seed);
        let mut i: usize = 0;
        while i < NCELLS
            invariant
                g.wf(),
                g.seed == seed,
                i <= NCELLS,
                l.terrain@.len() >= NCELLS,
                l.res_kind@.len() >= NCELLS,
                l.disc@.len() >= NCELLS,
                l.walk@.len() >= NCELLS,
                forall|k: int|
                    0 <= k < i ==> #[trigger] g.cells@[k] == loaded_cell(
                        l.terrain@[k],
                        l.res_kind@[k],
                        l.disc@[k],
                        l.walk@[k],
                    ),
                forall|k: int| i <= k < NCELLS ==> #[trigger] g.cells@[k] == crate::grid::default_cell(),
                forall|t: int| 0 <= t < NTILES ==> #[trigger] g.dirty@[t],
                forall|k: int| 0 <= k < NCELLS ==> #[trigger] g.flow@[k] == u32::MAX,
                g.flow_dirty,
                g.power_dirty,
                g.nests_gen@.len() == 0,
            decreases NCELLS - i,
        {
            let mut c = g.cells[i];
            c.terrain = Terrain::from_u8(l.terrain[i]);
            c.res_kind = l.res_kind[i] as usize;
            c.disc = l.disc[i];
            c.walk = l.walk[i];
            g.cells.set(i, c);
            i = i + 1;
        }
        g.mark_all();
        g
    }
}

/// A cell with nothing standing on it.
pub open spec fn freed(c: Cell) -> Cell {
    Cell { occ: None, conv: false, ..c }
}

/// Saving a world and loading it back restores every cell's terrain, deposit
/// kind, discovery and walkability (deposit kinds are below 256); buildings
/// are placed again separately, so the cells come back free.
pub proof fn lemma_save_load_roundtrip(g: Grid, l: GridLayers, h: Grid)
    requires
        g.wf(),
        forall|i: int| 0 <= i < NCELLS ==> #[trigger] g.cells@[i].res_kind < 256,
        l.terrain@.len() == NCELLS,
        l.res_kind@.len() == NCELLS,
        l.disc@.len() == NCELLS,
        l.walk@.len() == NCELLS,
        forall|i: int|
            0 <= i < NCELLS ==> {
                &&& #[trigger] l.terrain@[i] == terrain_code(g.cells@[i].terrain)
                &&& l.res_kind@[i] == (#[verifier::truncate] (g.cells@[i].res_kind as u8))
                &&& l.disc@[i] == g.cells@[i].disc
                &&& l.walk@[i] == g.cells@[i].walk
            },
        forall|i: int|
            0 <= i < NCELLS ==> #[trigger] h.cells@[i] == loaded_cell(
                l.terrain@[i],
                l.res_kind@[i],
                l.disc@[i],
                l.walk@[i],
            ),
    ensures
        forall|i: int|
            0 <= i < NCELLS ==> #[trigger] h.cells@[i] == freed(g.cells@[i]),
{
    assert forall|i: int| 0 <= i < NCELLS implies #[trigger] h.cells@[i] == freed(g.cells@[i]) by {
        lemma_terrain_code_roundtrip(g.cells@[i].terrain);
        assert(l.terrain@[i] == terrain_code(g.cells@[i].terrain));
    }
}

} // verus!
