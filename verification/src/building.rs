//! Building placement on the grid: where a building may go, and how placing
//! or losing one changes the cells it covers.

use vstd::prelude::*;
use crate::defs::{BKind, bdef, building_foot};
use crate::grid::{
    Cell, Grid, NCELLS, NTILES, cell_index, coords, in_bounds, tile_of, lemma_cell_index_bounds,
    lemma_coords_index, lemma_tile_bounds,
};
use crate::kinds::{Terrain, R_SCRAP};

verus! {

/// Extractors, bores and pumps must sit on their deposit; anything else may
/// go on any terrain. `has_deposit` tells whether the cell still holds
/// resources.
pub open spec fn terrain_allows(kind: BKind, cell: Cell, has_deposit: bool) -> bool {
    match kind {
        BKind::Extractor => cell.res_kind == R_SCRAP && has_deposit && cell.terrain != Terrain::Marsh,
        BKind::Bore => cell.terrain == Terrain::Crystal && has_deposit,
        BKind::Pump => cell.terrain == Terrain::Marsh,
        _ => true,
    }
}

pub fn terrain_ok(grid: &Grid, kind: BKind, cell: (i32, i32), has_deposit: bool) -> (b: bool)
    requires
        grid.wf(),
        in_bounds(cell),
    ensures
        b == terrain_allows(kind, grid.cell(cell), has_deposit),
{
    let c = grid.at(cell);
    match kind {
        BKind::Extractor => c.res_kind == R_SCRAP && has_deposit && c.terrain != Terrain::Marsh,
        BKind::Bore => c.terrain == Terrain::Crystal && has_deposit,
        BKind::Pump => c.terrain == Terrain::Marsh,
        _ => true,
    }
}

/// Site rules for the resource buildings: a scrap extractor needs a scrap
/// deposit with resources left, off the marsh; a crystal bore needs a crystal
/// scar with resources left; a coolant pump needs marsh. Every other kind
/// stands on any terrain.
pub proof fn lemma_site_rules(kind: BKind, cell: Cell, has_deposit: bool)
    ensures
        kind == BKind::Extractor ==> (terrain_allows(kind, cell, has_deposit) <==> (cell.res_kind == R_SCRAP
            && has_deposit && cell.terrain != Terrain::Marsh)),
        kind == BKind::Bore ==> (terrain_allows(kind, cell, has_deposit) <==> (cell.terrain == Terrain::Crystal
            && has_deposit)),
        kind == BKind::Pump ==> (terrain_allows(kind, cell, has_deposit) <==> cell.terrain == Terrain::Marsh),
        kind != BKind::Extractor && kind != BKind::Bore && kind != BKind::Pump ==> terrain_allows(
            kind,
            cell,
            has_deposit,
        ),
{
}

/// `c` is one of the cells a building of `kind` placed at `cell` covers.
pub open spec fn in_footprint(kind: BKind, cell: (i32, i32), c: (i32, i32)) -> bool {
    let f = building_foot(kind);
    cell.0 <= c.0 < cell.0 + f && cell.1 <= c.1 < cell.1 + f
}

/// A cell a new building may cover: on the map, walkable, free and discovered.
pub open spec fn cell_buildable(g: &Grid, c: (i32, i32)) -> bool {
    in_bounds(c) && g.cell(c).walk && g.cell(c).occ.is_none() && g.cell(c).disc
}

/// A building of `kind` may be placed at `cell`: its whole footprint is
/// buildable, the terrain suits it, and the colony can pay for it.
pub open spec fn placement_allowed(g: &Grid, kind: BKind, cell: (i32, i32), has_deposit: bool, affordable: bool) -> bool {
    &&& forall|c: (i32, i32)| #[trigger] in_footprint(kind, cell, c) ==> cell_buildable(g, c)
    &&& terrain_allows(kind, g.cell(cell), has_deposit)
    &&& affordable
}

/// Whether a building may be placed depends on the site only through these
/// rules: a bore is accepted only on a crystal scar with resources left, a
/// pump only on marsh, an extractor only on a scrap deposit off the marsh;
/// and with the footprint buildable and the price affordable, any kind on a
/// site that suits it is accepted.
pub proof fn lemma_placement_site(g: &Grid, kind: BKind, cell: (i32, i32), has_deposit: bool, affordable: bool)
    ensures
        placement_allowed(g, kind, cell, has_deposit, affordable) && kind == BKind::Bore ==> g.cell(cell).terrain
            == Terrain::Crystal && has_deposit,
        placement_allowed(g, kind, cell, has_deposit, affordable) && kind == BKind::Pump ==> g.cell(cell).terrain
            == Terrain::Marsh,
        placement_allowed(g, kind, cell, has_deposit, affordable) && kind == BKind::Extractor ==> g.cell(cell).res_kind
            == R_SCRAP && has_deposit && g.cell(cell).terrain != Terrain::Marsh,
        placement_allowed(g, kind, cell, has_deposit, affordable) ==> affordable,
        placement_allowed(g, kind, cell, has_deposit, affordable) ==> in_bounds(cell) && g.cell(cell).walk
            && g.cell(cell).occ.is_none() && g.cell(cell).disc,
        (forall|c: (i32, i32)| #[trigger] in_footprint(kind, cell, c) ==> cell_buildable(g, c)) && affordable && (
        kind == BKind::Bore ==> g.cell(cell).terrain == Terrain::Crystal && has_deposit) && (kind == BKind::Pump
            ==> g.cell(cell).terrain == Terrain::Marsh) && (kind == BKind::Extractor ==> g.cell(cell).res_kind
            == R_SCRAP && has_deposit && g.cell(cell).terrain != Terrain::Marsh) ==> placement_allowed(
            g,
            kind,
            cell,
            has_deposit,
            affordable,
        ),
{
    lemma_site_rules(kind, g.cell(cell), has_deposit);
    if placement_allowed(g, kind, cell, has_deposit, affordable) {
        assert(in_footprint(kind, cell, cell));
    }
}

pub fn check_place(grid: &Grid, kind: BKind, cell: (i32, i32), has_deposit: bool, affordable: bool) -> (b: bool)
    requires
        grid.wf(),
        cell.0 <= i32::MAX - 2,
        cell.1 <= i32::MAX - 2,
    ensures
        b == placement_allowed(grid, kind, cell, has_deposit, affordable),
{
    let f = bdef(kind).foot;
    let mut ok = true;
    let mut dy: i32 = 0;
    while dy < f
        invariant
            grid.wf(),
            f == building_foot(kind),
            1 <= f <= 2,
            0 <= dy <= f,
            cell.0 <= i32::MAX - 2,
            cell.1 <= i32::MAX - 2,
            ok <==> forall|c: (i32, i32)|
                #[trigger] in_footprint(kind, cell, c) && c.1 < cell.1 + dy ==> cell_buildable(grid, c),
        decreases f - dy,
    {
        let mut dx: i32 = 0;
        while dx < f
            invariant
                grid.wf(),
                f == building_foot(kind),
                1 <= f <= 2,
                0 <= dy < f,
                0 <= dx <= f,
                cell.0 <= i32::MAX - 2,
                cell.1 <= i32::MAX - 2,
                ok <==> forall|c: (i32, i32)|
                    #[trigger] in_footprint(kind, cell, c) && (c.1 < cell.1 + dy || (c.1 == cell.1 + dy && c.0
                        < cell.0 + dx)) ==> cell_buildable(grid, c),
            decreases f - dx,
        {
            let c = (cell.0 + dx, cell.1 + dy);
            let good = Grid::inb(c) && {
                let cc = grid.at(c);
                cc.walk && cc.occ.is_none() && cc.disc
            };
            proof {
                assert(in_footprint(kind, cell, c));
            }
            ok = ok && good;
            dx = dx + 1;
        }
        dy = dy + 1;
    }
    if !ok {
        return false;
    }
    proof {
        assert(in_footprint(kind, cell, cell));
    }
    terrain_ok(grid, kind, cell, has_deposit) && affordable
}

/// Conveyors and sorters let units walk over them.
pub open spec fn is_conveyor(kind: BKind) -> bool {
    kind == BKind::Conveyor || kind == BKind::Sorter
}

/// The cells after a building of `kind` (entity `e`) is placed at `cell`.
pub open spec fn occupied_cells(cells: Seq<Cell>, kind: BKind, cell: (i32, i32), e: u64) -> Seq<Cell> {
    Seq::new(
        cells.len(),
        |i: int|
            if in_footprint(kind, cell, coords(i)) {
                Cell { occ: Some(e), conv: is_conveyor(kind), ..cells[i] }
            } else {
                cells[i]
            },
    )
}

/// Placing a building: the launch engine covers the 2×2 square from its
/// cell, every other kind its one cell; each covered cell is taken by the
/// building and carries a conveyor exactly when the building is a conveyor
/// or a sorter; terrain, deposit, walkability and discovery stay, and cells
/// outside the footprint do not change.
pub proof fn lemma_occupy(cells: Seq<Cell>, kind: BKind, cell: (i32, i32), e: u64, c: (i32, i32), i: int)
    ensures
        in_footprint(kind, cell, c) <==> if kind == BKind::Launch {
            cell.0 <= c.0 <= cell.0 + 1 && cell.1 <= c.1 <= cell.1 + 1
        } else {
            c == cell
        },
        occupied_cells(cells, kind, cell, e).len() == cells.len(),
        0 <= i < cells.len() ==> ({
            let n = occupied_cells(cells, kind, cell, e)[i];
            &&& n.occ == if in_footprint(kind, cell, coords(i)) { Some(e) } else { cells[i].occ }
            &&& n.conv == if in_footprint(kind, cell, coords(i)) {
                kind == BKind::Conveyor || kind == BKind::Sorter
            } else {
                cells[i].conv
            }
            &&& n.terrain == cells[i].terrain && n.res_kind == cells[i].res_kind && n.walk == cells[i].walk
                && n.disc == cells[i].disc
        }),
{
}

/// The cells after building `e` of `kind` at `cell` is destroyed: the
/// footprint cells it still holds become free.
pub open spec fn vacated_cells(cells: Seq<Cell>, kind: BKind, cell: (i32, i32), e: u64) -> Seq<Cell> {
    Seq::new(
        cells.len(),
        |i: int|
            if in_footprint(kind, cell, coords(i)) && cells[i].occ == Some(e) {
                Cell { occ: None, conv: false, ..cells[i] }
            } else {
                cells[i]
            },
    )
}

/// Losing a building frees exactly the cells of its footprint that it still
/// holds, removing their conveyors; everything else stays.
pub proof fn lemma_vacate(cells: Seq<Cell>, kind: BKind, cell: (i32, i32), e: u64, i: int)
    ensures
        vacated_cells(cells, kind, cell, e).len() == cells.len(),
        0 <= i < cells.len() ==> ({
            let n = vacated_cells(cells, kind, cell, e)[i];
            let freed = in_footprint(kind, cell, coords(i)) && cells[i].occ == Some(e);
            &&& n.occ == if freed { None } else { cells[i].occ }
            &&& n.conv == if freed { false } else { cells[i].conv }
            &&& n.terrain == cells[i].terrain && n.res_kind == cells[i].res_kind && n.walk == cells[i].walk
                && n.disc == cells[i].disc
        }),
{
}

/// The tiles of the cells selected by `touched` are dirty, and no others
/// were flagged.
pub open spec fn tiles_flagged(old_dirty: Seq<bool>, new_dirty: Seq<bool>, touched: spec_fn(int) -> bool) -> bool {
    &&& new_dirty.len() == NTILES
    &&& forall|t: int|
        0 <= t < NTILES ==> #[trigger] new_dirty[t] == (old_dirty[t] || exists|i: int|
            0 <= i < NCELLS && touched(i) && tile_of(coords(i)) == t)
}

proof fn lemma_coords_of_index(c: (i32, i32))
    requires
        in_bounds(c),
    ensures
        coords(cell_index(c)) == c,
        0 <= cell_index(c) < NCELLS,
{
    lemma_cell_index_bounds(c);
}

proof fn lemma_coords_injective(i: int, j: int)
    requires
        0 <= i < NCELLS,
        0 <= j < NCELLS,
        coords(i) == coords(j),
    ensures
        i == j,
{
    lemma_coords_index(i);
    lemma_coords_index(j);
}

/// Cells of the footprint already visited after rows `dy` and columns `dx`.
pub open spec fn visited_cell(kind: BKind, cell: (i32, i32), dy: int, dx: int, c: (i32, i32)) -> bool {
    in_footprint(kind, cell, c) && (c.1 < cell.1 + dy || (c.1 == cell.1 + dy && c.0 < cell.0 + dx))
}

/// Placing building `e` and then losing it leaves its footprint free and
/// without conveyors, and every other cell and every other attribute as it
/// was.
pub proof fn lemma_place_then_destroy(cells: Seq<Cell>, kind: BKind, cell: (i32, i32), e: u64)
    ensures
        vacated_cells(occupied_cells(cells, kind, cell, e), kind, cell, e) == Seq::new(
            cells.len(),
            |i: int|
                if in_footprint(kind, cell, coords(i)) {
                    Cell { occ: None, conv: false, ..cells[i] }
                } else {
                    cells[i]
                },
        ),
{
    assert(vacated_cells(occupied_cells(cells, kind, cell, e), kind, cell, e) =~= Seq::new(
        cells.len(),
        |i: int|
            if in_footprint(kind, cell, coords(i)) {
                Cell { occ: None, conv: false, ..cells[i] }
            } else {
                cells[i]
            },
    ));
}

impl Grid {
    /// Records building `e` of `kind` on every on-map cell of its footprint
    /// and schedules re-meshing, re-pathing and a power recount.
    pub fn occupy(&mut self, kind: BKind, cell: (i32, i32), e: u64)
        requires
            old(self).wf(),
            cell.0 <= i32::MAX - 2,
            cell.1 <= i32::MAX - 2,
        ensures
            final(self).wf(),
            final(self).cells@ == occupied_cells(old(self).cells@, kind, cell, e),
            tiles_flagged(
                old(self).dirty@,
                final(self).dirty@,
                |i: int| in_footprint(kind, cell, coords(i)),
            ),
            final(self).flow_dirty,
            final(self).power_dirty,
            final(self).flow@ == old(self).flow@,
            final(self).seed == old(self).seed,
            final(self).nests_gen@ == old(self).nests_gen@,
    {
        let ghost c0 = self.cells@;
        let ghost d0 = self.dirty@;
        let f = bdef(kind).foot;
        let conv = match kind {
            BKind::Conveyor | BKind::Sorter => true,
            _ => false,
        };
        let mut dy: i32 = 0;
        while dy < f
            invariant
                self.wf(),
                f == building_foot(kind),
                1 <= f <= 2,
                0 <= dy <= f,
                cell.0 <= i32::MAX - 2,
                cell.1 <= i32::MAX - 2,
                conv == is_conveyor(kind),
                d0.len() == NTILES,
                c0.len() == NCELLS,
                forall|i: int|
                    0 <= i < NCELLS ==> #[trigger] self.cells@[i] == if visited_cell(kind, cell, dy as int, 0, coords(i)) {
                        Cell { occ: Some(e), conv: conv, ..c0[i] }
                    } else {
                        c0[i]
                    },
                forall|t: int|
                    0 <= t < NTILES ==> #[trigger] self.dirty@[t] == (d0[t] || exists|i: int|
                        0 <= i < NCELLS && visited_cell(kind, cell, dy as int, 0, coords(i)) && tile_of(coords(i)) == t),
                self.flow@ == old(self).flow@,
                self.seed == old(self).seed,
                self.nests_gen@ == old(self).nests_gen@,
            decreases f - dy,
        {
            let mut dx: i32 = 0;
            while dx < f
                invariant
                    self.wf(),
                    f == building_foot(kind),
                    1 <= f <= 2,
                    0 <= dy < f,
                    0 <= dx <= f,
                    cell.0 <= i32::MAX - 2,
                    cell.1 <= i32::MAX - 2,
                    conv == is_conveyor(kind),
                    d0.len() == NTILES,
                    c0.len() == NCELLS,
                    forall|i: int|
                        0 <= i < NCELLS ==> #[trigger] self.cells@[i] == if visited_cell(kind, cell, dy as int, dx as int, coords(i)) {
                            Cell { occ: Some(e), conv: conv, ..c0[i] }
                        } else {
                            c0[i]
                        },
                    forall|t: int|
                        0 <= t < NTILES ==> #[trigger] self.dirty@[t] == (d0[t] || exists|i: int|
                            0 <= i < NCELLS && visited_cell(kind, cell, dy as int, dx as int, coords(i)) && tile_of(
                                coords(i),
                            ) == t),
                    self.flow@ == old(self).flow@,
                    self.seed == old(self).seed,
                    self.nests_gen@ == old(self).nests_gen@,
                decreases f - dx,
            {
                let c = (cell.0 + dx, cell.1 + dy);
                let ghost cs = self.cells@;
                let ghost ds = self.dirty@;
                if Grid::inb(c) {
                    let mut cc = *self.at(c);
                    cc.occ = Some(e);
                    cc.conv = conv;
                    self.set(c, cc);
                    self.mark(c);
                    proof {
                        let ci = cell_index(c);
                        lemma_coords_of_index(c);
                        lemma_tile_bounds(c);
                        assert forall|i: int| 0 <= i < NCELLS implies #[trigger] self.cells@[i] == if visited_cell(
                            kind,
                            cell,
                            dy as int,
                            dx + 1,
                            coords(i),
                        ) {
                            Cell { occ: Some(e), conv: conv, ..c0[i] }
                        } else {
                            c0[i]
                        } by {
                            if i != ci {
                                if coords(i) == c {
                                    lemma_coords_injective(i, ci);
                                }
                                assert(cs[i] == self.cells@[i]);
                            }
                        }
                        assert forall|t: int| 0 <= t < NTILES implies #[trigger] self.dirty@[t] == (d0[t] || exists|i: int|
                            0 <= i < NCELLS && visited_cell(kind, cell, dy as int, dx + 1, coords(i)) && tile_of(
                                coords(i),
                            ) == t) by {
                            if t == tile_of(c) {
                                assert(visited_cell(kind, cell, dy as int, dx + 1, coords(ci)));
                            } else {
                                assert(ds[t] == self.dirty@[t]);
                                if exists|i: int|
                                    0 <= i < NCELLS && visited_cell(kind, cell, dy as int, dx + 1, coords(i))
                                        && tile_of(coords(i)) == t {
                                    let i = choose|i: int|
                                        0 <= i < NCELLS && visited_cell(kind, cell, dy as int, dx + 1, coords(i))
                                            && tile_of(coords(i)) == t;
                                    if coords(i) == c {
                                    } else {
                                        assert(visited_cell(kind, cell, dy as int, dx as int, coords(i)));
                                    }
                                }
                            }
                        }
                    }
                } else {
                    proof {
                        assert forall|i: int| 0 <= i < NCELLS implies #[trigger] visited_cell(kind, cell, dy as int, dx
                            + 1, coords(i)) == visited_cell(kind, cell, dy as int, dx as int, coords(i)) by {
                            lemma_coords_index(i);
                        }
                    }
                }
                dx = dx + 1;
            }
            proof {
                assert forall|i: int| 0 <= i < NCELLS implies #[trigger] visited_cell(kind, cell, dy + 1, 0, coords(i))
                    == visited_cell(kind, cell, dy as int, f as int, coords(i)) by {}
            }
            dy = dy + 1;
        }
        self.flow_dirty = true;
        self.power_dirty = true;
        proof {
            assert forall|i: int| 0 <= i < NCELLS implies #[trigger] visited_cell(kind, cell, f as int, 0, coords(i))
                == in_footprint(kind, cell, coords(i)) by {}
            assert(self.cells@ =~= occupied_cells(c0, kind, cell, e));
        }
    }

    /// Removes building `e` of `kind` from the footprint cells it still
    /// holds (they become free and lose their conveyor) and schedules
    /// re-meshing, re-pathing and a power recount.
    pub fn vacate(&mut self, kind: BKind, cell: (i32, i32), e: u64)
        requires
            old(self).wf(),
            cell.0 <= i32::MAX - 2,
            cell.1 <= i32::MAX - 2,
        ensures
            final(self).wf(),
            final(self).cells@ == vacated_cells(old(self).cells@, kind, cell, e),
            tiles_flagged(
                old(self).dirty@,
                final(self).dirty@,
                |i: int| in_footprint(kind, cell, coords(i)) && old(self).cells@[i].occ == Some(e),
            ),
            final(self).flow_dirty,
            final(self).power_dirty,
            final(self).flow@ == old(self).flow@,
            final(self).seed == old(self).seed,
            final(self).nests_gen@ == old(self).nests_gen@,
    {
        let ghost c0 = self.cells@;
        let ghost d0 = self.dirty@;
        let f = bdef(kind).foot;
        let mut dy: i32 = 0;
        while dy < f
            invariant
                self.wf(),
                f == building_foot(kind),
                1 <= f <= 2,
                0 <= dy <= f,
                cell.0 <= i32::MAX - 2,
                cell.1 <= i32::MAX - 2,
                d0.len() == NTILES,
                c0.len() == NCELLS,
                forall|i: int|
                    0 <= i < NCELLS ==> #[trigger] self.cells@[i] == if visited_cell(kind, cell, dy as int, 0, coords(i)) && c0[i].occ == Some(e) {
                        Cell { occ: None, conv: false, ..c0[i] }
                    } else {
                        c0[i]
                    },
                forall|t: int|
                    0 <= t < NTILES ==> #[trigger] self.dirty@[t] == (d0[t] || exists|i: int|
                        0 <= i < NCELLS && visited_cell(kind, cell, dy as int, 0, coords(i)) && c0[i].occ == Some(e) && tile_of(coords(i)) == t),
                self.flow@ == old(self).flow@,
                self.seed == old(self).seed,
                self.nests_gen@ == old(self).nests_gen@,
            decreases f - dy,
        {
            let mut dx: i32 = 0;
            while dx < f
                invariant
                    self.wf(),
                    f == building_foot(kind),
                    1 <= f <= 2,
                    0 <= dy < f,
                    0 <= dx <= f,
                    cell.0 <= i32::MAX - 2,
                    cell.1 <= i32::MAX - 2,
                        d0.len() == NTILES,
                    c0.len() == NCELLS,
                    forall|i: int|
                        0 <= i < NCELLS ==> #[trigger] self.cells@[i] == if visited_cell(kind, cell, dy as int, dx as int, coords(i)) && c0[i].occ == Some(e) {
                            Cell { occ: None, conv: false, ..c0[i] }
                        } else {
                            c0[i]
                        },
                    forall|t: int|
                        0 <= t < NTILES ==> #[trigger] self.dirty@[t] == (d0[t] || exists|i: int|
                            0 <= i < NCELLS && visited_cell(kind, cell, dy as int, dx as int, coords(i)) && c0[i].occ == Some(e) && tile_of(
                                coords(i),
                            ) == t),
                    self.flow@ == old(self).flow@,
                    self.seed == old(self).seed,
                    self.nests_gen@ == old(self).nests_gen@,
                decreases f - dx,
            {
                let c = (cell.0 + dx, cell.1 + dy);
                let ghost cs = self.cells@;
                let ghost ds = self.dirty@;
                if Grid::inb(c) && self.at(c).occ == Some(e) {
                    let mut cc = *self.at(c);
                    cc.occ = None;
                    cc.conv = false;
                    self.set(c, cc);
                    self.mark(c);
                    proof {
                        let ci = cell_index(c);
                        lemma_coords_of_index(c);
                        lemma_tile_bounds(c);
                        assert forall|i: int| 0 <= i < NCELLS implies #[trigger] self.cells@[i] == if visited_cell(
                            kind,
                            cell,
                            dy as int,
                            dx + 1,
                            coords(i),
                        ) && c0[i].occ == Some(e) {
                            Cell { occ: None, conv: false, ..c0[i] }
                        } else {
                            c0[i]
                        } by {
                            if i != ci {
                                if coords(i) == c {
                                    lemma_coords_injective(i, ci);
                                }
                                assert(cs[i] == self.cells@[i]);
                            }
                        }
                        assert forall|t: int| 0 <= t < NTILES implies #[trigger] self.dirty@[t] == (d0[t] || exists|i: int|
                            0 <= i < NCELLS && visited_cell(kind, cell, dy as int, dx + 1, coords(i)) && c0[i].occ == Some(e) && tile_of(
                                coords(i),
                            ) == t) by {
                            if t == tile_of(c) {
                                assert(visited_cell(kind, cell, dy as int, dx + 1, coords(ci)) && c0[ci].occ == Some(e));
                            } else {
                                assert(ds[t] == self.dirty@[t]);
                                if exists|i: int|
                                    0 <= i < NCELLS && visited_cell(kind, cell, dy as int, dx + 1, coords(i))
                                        && c0[i].occ == Some(e) && tile_of(coords(i)) == t {
                                    let i = choose|i: int|
                                        0 <= i < NCELLS && visited_cell(kind, cell, dy as int, dx + 1, coords(i))
                                            && c0[i].occ == Some(e) && tile_of(coords(i)) == t;
                                    if coords(i) == c {
                                    } else {
                                        assert(visited_cell(kind, cell, dy as int, dx as int, coords(i)));
                                    }
                                }
                            }
                        }
                    }
                } else {
                    proof {
                        assert forall|i: int| 0 <= i < NCELLS implies (#[trigger] visited_cell(kind, cell, dy as int, dx
                            + 1, coords(i)) && c0[i].occ == Some(e)) == (visited_cell(kind, cell, dy as int, dx as int, coords(i)) && c0[i].occ == Some(e)) by {
                            lemma_coords_index(i);
                            if coords(i) == c {
                                assert(cell_index(c) == i);
                                assert(self.cells@[i] == c0[i]);
                            }
                        }
                    }
                }
                dx = dx + 1;
            }
            proof {
                assert forall|i: int| 0 <= i < NCELLS implies #[trigger] visited_cell(kind, cell, dy + 1, 0, coords(i))
                    == visited_cell(kind, cell, dy as int, f as int, coords(i)) by {}
            }
            dy = dy + 1;
        }
        self.flow_dirty = true;
        self.power_dirty = true;
        proof {
            assert forall|i: int| 0 <= i < NCELLS implies #[trigger] visited_cell(kind, cell, f as int, 0, coords(i))
                == in_footprint(kind, cell, coords(i)) by {}
            assert(self.cells@ =~= vacated_cells(c0, kind, cell, e));
        }
    }
}

} // verus!
