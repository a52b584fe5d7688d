use necropolis::building::check_place;
use necropolis::defs::BKind;
use necropolis::flow::{flow_field, UNREACHED};
use necropolis::fog::reveal_area;
use necropolis::grid::{Cell, Grid, MAP, NCELLS, NTILES};
use necropolis::kinds::{Terrain, R_COOLANT, R_SCRAP};
use necropolis::save::GridLayers;
use std::collections::VecDeque;

fn idx(c: (i32, i32)) -> usize {
    (c.1 * MAP + c.0) as usize
}

fn blank() -> Grid {
    let mut g = Grid::new(7);
    for d in g.dirty.iter_mut() {
        *d = false;
    }
    g
}

/// Cheapest walk cost from `start` to every cell, by brute force.
fn reference_field(cells: &[Cell], start: (i32, i32)) -> Vec<u32> {
    let mut dist = vec![u32::MAX; NCELLS];
    dist[idx(start)] = 0;
    let mut queue = VecDeque::new();
    queue.push_back(start);
    while let Some((x, y)) = queue.pop_front() {
        let d = dist[idx((x, y))];
        for (dx, dy) in [(1, 0), (-1, 0), (0, 1), (0, -1)] {
            let c = (x + dx, y + dy);
            if c.0 < 0 || c.1 < 0 || c.0 >= MAP || c.1 >= MAP {
                continue;
            }
            let cell = &cells[idx(c)];
            if !cell.walk {
                continue;
            }
            let cost = if cell.occ.is_some() && !cell.conv { 14 } else { 1 };
            if d + cost < dist[idx(c)] {
                dist[idx(c)] = d + cost;
                queue.push_back(c);
            }
        }
    }
    dist
}

#[test]
fn new_grid_is_blank() {
    let g = Grid::new(42);
    assert_eq!(g.seed, 42);
    assert_eq!(g.cells.len(), NCELLS);
    assert_eq!(g.dirty.len(), NTILES);
    assert!(g.dirty.iter().all(|d| *d));
    assert!(g.flow.iter().all(|d| *d == u32::MAX));
    assert!(g.flow_dirty && g.power_dirty);
    assert_eq!(g.cells[0], Cell::new());
    assert_eq!(g.cells[0].terrain, Terrain::Hull);
    assert!(g.cells[0].walk && !g.cells[0].disc);
}

#[test]
fn bounds_and_indices() {
    assert!(Grid::inb((0, 0)));
    assert!(Grid::inb((95, 95)));
    assert!(!Grid::inb((96, 3)));
    assert!(!Grid::inb((3, -1)));
    assert_eq!(Grid::idx((3, 2)), 2 * 96 + 3);
}

#[test]
fn marking_flags_the_right_tile() {
    let mut g = blank();
    g.mark((17, 33));
    let flagged: Vec<usize> = (0..NTILES).filter(|t| g.dirty[*t]).collect();
    assert_eq!(flagged, vec![2 * 6 + 1]);
    g.mark((-1, 5));
    assert_eq!((0..NTILES).filter(|t| g.dirty[*t]).count(), 1);
    g.mark_all();
    assert!(g.dirty.iter().all(|d| *d));
}

#[test]
fn walkability() {
    let mut g = blank();
    let mut c = *g.at((4, 4));
    c.occ = Some(9);
    g.set((4, 4), c);
    assert!(!g.walkable((4, 4)));
    c.conv = true;
    g.set((4, 4), c);
    assert!(g.walkable((4, 4)));
    assert!(!g.walkable((-3, 4)));
}

#[test]
fn flow_field_matches_cheapest_walks() {
    let mut g = blank();
    // a wall ridge with a gap, a building line and a conveyor
    for y in 10..60 {
        let mut c = *g.at((40, y));
        c.walk = false;
        g.set((40, y), c);
    }
    for x in 45..50 {
        let mut c = *g.at((x, 30));
        c.occ = Some(x as u64);
        g.set((x, 30), c);
    }
    let mut c = *g.at((45, 31));
    c.occ = Some(1);
    c.conv = true;
    g.set((45, 31), c);
    let start = (48, 48);
    let dist = flow_field(&g.cells, start);
    assert_eq!(dist, reference_field(&g.cells, start));
    assert_eq!(dist[idx(start)], 0);
    assert_eq!(dist[idx((49, 48))], 1);
    assert_eq!(dist[idx((40, 20))], UNREACHED);
}

#[test]
fn flow_field_prices_buildings() {
    let mut g = blank();
    let mut c = *g.at((11, 10));
    c.occ = Some(5);
    g.set((11, 10), c);
    let dist = flow_field(&g.cells, (10, 10));
    assert_eq!(dist[idx((11, 10))], 14);
    assert_eq!(dist[idx((12, 10))], 4);
}

#[test]
fn flow_recompute_and_downhill_step() {
    let mut g = blank();
    g.recompute_flow(Some((50, 50)));
    assert!(!g.flow_dirty);
    assert_eq!(g.flow[idx((52, 50))], 2);
    assert_eq!(g.flow_step((50, 50)), None);
    assert_eq!(g.flow_step((52, 50)), Some((-1, 0)));
    assert_eq!(g.flow_step((50, 53)), Some((0, -1)));
    assert_eq!(g.flow_step((53, 53)), Some((-1, -1)));
    assert_eq!(g.flow_step((-5, 3)), None);
    let mut h = blank();
    h.recompute_flow(None);
    assert!(!h.flow_dirty);
    assert_eq!(h.flow_step((5, 5)), None);
}

#[test]
fn placement_rules() {
    let mut g = blank();
    for y in 0..10 {
        for x in 0..10 {
            let mut c = *g.at((x, y));
            c.disc = true;
            g.set((x, y), c);
        }
    }
    assert!(check_place(&g, BKind::Wall, (2, 2), false, true));
    assert!(!check_place(&g, BKind::Wall, (2, 2), false, false));
    assert!(!check_place(&g, BKind::Wall, (20, 20), false, true));
    assert!(!check_place(&g, BKind::Launch, (9, 9), false, true));
    assert!(check_place(&g, BKind::Launch, (8, 8), false, true));
    assert!(!check_place(&g, BKind::Pump, (2, 2), true, true));
    assert!(!check_place(&g, BKind::Extractor, (2, 2), false, true));
    assert!(check_place(&g, BKind::Extractor, (2, 2), true, true));
    let mut c = *g.at((3, 3));
    c.terrain = Terrain::Marsh;
    c.res_kind = R_COOLANT;
    g.set((3, 3), c);
    assert!(check_place(&g, BKind::Pump, (3, 3), false, true));
    assert!(!check_place(&g, BKind::Extractor, (3, 3), true, true));
    let mut c = *g.at((5, 5));
    c.occ = Some(3);
    g.set((5, 5), c);
    assert!(!check_place(&g, BKind::Wall, (5, 5), false, true));
    assert!(!check_place(&g, BKind::Launch, (4, 4), false, true));
}

#[test]
fn place_then_destroy_frees_the_footprint() {
    let mut g = blank();
    let before = g.cells.clone();
    g.flow_dirty = false;
    g.power_dirty = false;
    g.occupy(BKind::Launch, (95, 10), 77);
    assert_eq!(g.at((95, 10)).occ, Some(77));
    assert_eq!(g.at((95, 11)).occ, Some(77));
    assert!(!g.at((95, 10)).conv);
    assert!(g.flow_dirty && g.power_dirty);
    assert!(g.dirty[5]);
    g.vacate(BKind::Launch, (95, 10), 77);
    assert_eq!(g.cells, before);
    g.occupy(BKind::Conveyor, (3, 3), 8);
    assert!(g.at((3, 3)).conv);
    assert!(g.walkable((3, 3)));
    // another building on the cell is left alone
    g.vacate(BKind::Conveyor, (3, 3), 9);
    assert_eq!(g.at((3, 3)).occ, Some(8));
}

#[test]
fn reveal_uncovers_a_disc() {
    let mut g = blank();
    reveal_area(&mut g, (10, 10), 2);
    let shown: usize = g.cells.iter().filter(|c| c.disc).count();
    assert_eq!(shown, 13);
    assert!(g.at((12, 10)).disc);
    assert!(!g.at((12, 11)).disc);
    assert!(g.dirty[0]);
    assert_eq!(g.dirty.iter().filter(|d| **d).count(), 1);
    let mut h = blank();
    reveal_area(&mut h, (0, 0), 1);
    assert_eq!(h.cells.iter().filter(|c| c.disc).count(), 3);
    let mut k = blank();
    reveal_area(&mut k, (5, 5), -1);
    assert_eq!(k.cells.iter().filter(|c| c.disc).count(), 0);
}

#[test]
fn reveal_only_flags_newly_seen_tiles() {
    let mut g = blank();
    reveal_area(&mut g, (20, 20), 3);
    for d in g.dirty.iter_mut() {
        *d = false;
    }
    reveal_area(&mut g, (20, 20), 3);
    assert!(g.dirty.iter().all(|d| !*d));
}

#[test]
fn save_and_load_round_trip() {
    let mut g = blank();
    let mut c = *g.at((7, 8));
    c.terrain = Terrain::Crystal;
    c.res_kind = 2;
    c.disc = true;
    c.walk = false;
    c.occ = Some(4);
    g.set((7, 8), c);
    let layers = g.save_layers();
    assert_eq!(layers.terrain[idx((7, 8))], 2);
    assert_eq!(layers.res_kind[idx((7, 8))], 2);
    let h = Grid::from_layers(g.seed, &layers);
    let cell = h.at((7, 8));
    assert_eq!(cell.terrain, Terrain::Crystal);
    assert_eq!(cell.res_kind, 2);
    assert!(cell.disc && !cell.walk);
    assert_eq!(cell.occ, None);
    assert_eq!(h.at((0, 0)).res_kind, R_SCRAP);
    assert!(h.dirty.iter().all(|d| *d));
    let bad = GridLayers {
        terrain: vec![9; NCELLS],
        res_kind: vec![0; NCELLS],
        disc: vec![false; NCELLS],
        walk: vec![true; NCELLS],
    };
    assert_eq!(Grid::from_layers(1, &bad).at((1, 1)).terrain, Terrain::Hull);
}
