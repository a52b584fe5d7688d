use necropolis::defs::BKind;
use necropolis::enemies::{corruption_target, nest_level, EKind, EKINDS};
use necropolis::events::{flood, meteor_target, relic_storm};
use necropolis::grid::{Grid, MAP, NCELLS, NTILES};
use necropolis::kinds::{Terrain, R_COOLANT, R_RELIC};
use necropolis::procgen::tile_indices;
use necropolis::rng::Rng;
use necropolis::workers::{drone_cap, jitter_cell};

fn xorshift(mut x: u64) -> u64 {
    x ^= x << 13;
    x ^= x >> 7;
    x ^= x << 17;
    x
}

#[test]
fn dirty_tiles_are_taken_in_order_within_budget() {
    let mut g = Grid::new(1);
    let taken = g.take_dirty(9);
    assert_eq!(taken, (0..9).collect::<Vec<usize>>());
    assert_eq!(g.dirty.iter().filter(|d| **d).count(), NTILES - 9);
    for d in g.dirty.iter_mut() {
        *d = false;
    }
    g.dirty[30] = true;
    g.dirty[4] = true;
    assert_eq!(g.take_dirty(9), vec![4, 30]);
    assert!(g.dirty.iter().all(|d| !*d));
    g.dirty[7] = true;
    assert_eq!(g.take_dirty(0), Vec::<usize>::new());
    assert!(g.dirty[7]);
}

#[test]
fn tile_index_buffer() {
    let idx = tile_indices();
    assert_eq!(idx.len(), 16 * 16 * 6);
    assert_eq!(&idx[0..6], &[0, 17, 1, 1, 17, 18]);
    assert_eq!(&idx[6..12], &[1, 18, 2, 2, 18, 19]);
    assert_eq!(&idx[96..102], &[17, 34, 18, 18, 34, 35]);
    assert!(idx.iter().all(|i| *i < 17 * 17));
    assert_eq!(*idx.iter().max().unwrap(), 288);
}

#[test]
fn flood_spreads_marsh_to_free_neighbours() {
    let mut g = Grid::new(1);
    let mut c = *g.at((10, 10));
    c.terrain = Terrain::Marsh;
    c.res_kind = R_COOLANT;
    g.set((10, 10), c);
    g.occupy(BKind::Wall, (11, 10), 5);
    let mut blocked = *g.at((9, 10));
    blocked.walk = false;
    g.set((9, 10), blocked);
    let before = g.cells.clone();
    let mut rng = Rng::new(3);
    let conv = flood(&mut g, &mut rng);
    assert!(conv.len() <= 73);
    for (i, cell) in g.cells.iter().enumerate() {
        let xy = ((i % 96) as i32, (i / 96) as i32);
        if conv.contains(&xy) {
            assert_eq!(cell.terrain, Terrain::Marsh);
            assert_eq!(cell.res_kind, R_COOLANT);
            assert_ne!(before[i].terrain, Terrain::Marsh);
            assert!(before[i].walk && before[i].occ.is_none());
        } else {
            assert_eq!(*cell, before[i]);
        }
    }
    assert!(!conv.contains(&(11, 10)));
    assert!(!conv.contains(&(9, 10)));
}

#[test]
fn flood_without_marsh_changes_nothing() {
    let mut g = Grid::new(1);
    let mut rng = Rng::new(3);
    let state = rng.0;
    assert!(flood(&mut g, &mut rng).is_empty());
    assert_eq!(rng.0, state);
}

#[test]
fn flood_stops_near_seventy() {
    let mut g = Grid::new(1);
    for y in 1..MAP - 1 {
        for x in (1..MAP - 1).step_by(2) {
            let mut c = *g.at((x, y));
            c.terrain = Terrain::Marsh;
            g.set((x, y), c);
        }
    }
    let mut rng = Rng::new(11);
    let conv = flood(&mut g, &mut rng);
    assert!(conv.len() >= 70 && conv.len() <= 73);
}

#[test]
fn meteors_hit_discovered_cells() {
    let mut g = Grid::new(1);
    let mut rng = Rng::new(5);
    assert_eq!(meteor_target(&g, &mut rng), None);
    for c in g.cells.iter_mut() {
        c.disc = true;
    }
    let mut rng = Rng::new(5);
    let t = meteor_target(&g, &mut rng).unwrap();
    let mut r = Rng::new(5);
    let x = 1 + r.below(MAP - 2);
    let y = 1 + r.below(MAP - 2);
    assert_eq!(t, (x, y));
}

#[test]
fn relic_storm_seeds_free_cells() {
    let mut g = Grid::new(1);
    let mut rng = Rng::new(8);
    let start = rng.0;
    let hits = relic_storm(&mut g, &mut rng);
    assert_eq!(hits.len(), 12);
    // each hit's draw follows its two coordinate draws
    let mut s = start;
    for (c, draw) in hits.iter() {
        let sx = xorshift(s);
        let sy = xorshift(sx);
        let sd = xorshift(sy);
        assert_eq!(*c, (1 + (sx % 94) as i32, 1 + (sy % 94) as i32));
        assert_eq!(*draw, sd);
        s = sd;
        assert_eq!(g.at(*c).res_kind, R_RELIC);
    }
    let relic_cells = g.cells.iter().filter(|c| c.res_kind == R_RELIC).count();
    assert!(relic_cells >= 1 && relic_cells <= 12);
    let mut walls = Grid::new(1);
    for c in walls.cells.iter_mut() {
        c.walk = false;
    }
    assert!(relic_storm(&mut walls, &mut Rng::new(8)).is_empty());
    assert!(walls.cells.iter().all(|c| c.res_kind != R_RELIC));
    assert_eq!(walls.cells.len(), NCELLS);
}

#[test]
fn nests_grow_every_three_days() {
    assert_eq!(nest_level(0), 1);
    assert_eq!(nest_level(1), 1);
    assert_eq!(nest_level(3), 1);
    assert_eq!(nest_level(4), 2);
    assert_eq!(nest_level(10), 4);
    assert_eq!(EKINDS.len(), 8);
    assert_eq!(EKINDS[6], EKind::Titan);
}

#[test]
fn corruption_lands_near_its_nest() {
    let mut rng = Rng::new(21);
    for _ in 0..50 {
        let c = corruption_target((40, 40), 2, &mut rng);
        assert!((c.0 - 40).abs() <= 6 && (c.1 - 40).abs() <= 6);
    }
    let mut a = Rng(77);
    let c = corruption_target((10, 10), 1, &mut a);
    let s1 = xorshift(77);
    let s2 = xorshift(s1);
    assert_eq!(c, (10 + (s1 % 11) as i32 - 5, 10 + (s2 % 11) as i32 - 5));
    assert_eq!(a.0, s2);
}

#[test]
fn wandering_drones_stay_inside() {
    let mut rng = Rng::new(2);
    for _ in 0..50 {
        let t = jitter_cell((1, 94), 5, &mut rng);
        assert!(1 <= t.0 && t.0 <= 94 && 1 <= t.1 && t.1 <= 94);
        assert!(t.0 <= 6 && t.1 >= 89);
    }
    let mut r = Rng(9);
    let t = jitter_cell((50, 50), 3, &mut r);
    let s1 = xorshift(9);
    let s2 = xorshift(s1);
    assert_eq!(t, (50 + (s1 % 7) as i32 - 3, 50 + (s2 % 7) as i32 - 3));
}

#[test]
fn drone_command_cap() {
    assert_eq!(drone_cap(6, 1), 3);
    assert_eq!(drone_cap(6, 3), 6);
    assert_eq!(drone_cap(10, 0), 0);
}
