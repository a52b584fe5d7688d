use necropolis::grid::{Grid, MAP};
use necropolis::kinds::{Terrain, R_COOLANT, R_CRYSTAL, R_RELIC, R_SCRAP};
use necropolis::rng::Rng;
use necropolis::worldgen::{scatter, Feature};

/// A base layout: marsh in one corner band, the rest hull plate.
fn base() -> Grid {
    let mut g = Grid::new(7);
    for y in 0..MAP {
        for x in 0..MAP {
            if x + y < 40 {
                let mut c = *g.at((x, y));
                c.terrain = Terrain::Marsh;
                c.res_kind = R_COOLANT;
                g.set((x, y), c);
            }
        }
    }
    g
}

/// The placement written out directly, loop by loop.
fn reference(g: &mut Grid, rng: &mut Rng) -> Vec<(u8, (i32, i32), u64)> {
    let mut out = Vec::new();
    let ctr = (MAP / 2, MAP / 2);
    let blob = |g: &mut Grid, rng: &mut Rng, kind: u8, cx: i32, cy: i32, r: i32, out: &mut Vec<(u8, (i32, i32), u64)>| {
        for dy in -r..=r {
            for dx in -r..=r {
                let c = (cx + dx, cy + dy);
                if Grid::inb(c) && dx * dx + dy * dy <= r * r {
                    let mut cell = *g.at(c);
                    match kind {
                        0 => {
                            if cell.terrain != Terrain::Marsh {
                                cell.terrain = Terrain::Regolith;
                                cell.res_kind = R_SCRAP;
                                out.push((0, c, rng.next()));
                            }
                        }
                        1 => {
                            cell.terrain = Terrain::Crystal;
                            cell.res_kind = R_CRYSTAL;
                            out.push((1, c, rng.next()));
                        }
                        2 => {
                            cell.terrain = Terrain::Ruin;
                            cell.res_kind = R_RELIC;
                            out.push((2, c, rng.next()));
                        }
                        _ => {
                            cell.terrain = Terrain::Hull;
                            cell.walk = true;
                            out.push((4, c, 0));
                        }
                    }
                    g.set(c, cell);
                }
            }
        }
    };
    for _ in 0..26 {
        let cx = 3 + rng.below(MAP - 6);
        let cy = 3 + rng.below(MAP - 6);
        if (cx - ctr.0).abs() < 6 && (cy - ctr.1).abs() < 6 {
            continue;
        }
        let r = 1 + rng.below(2);
        blob(g, rng, 0, cx, cy, r, &mut out);
    }
    for _ in 0..15 {
        let cx = 3 + rng.below(MAP - 6);
        let cy = 3 + rng.below(MAP - 6);
        if (cx - ctr.0).abs() < 10 && (cy - ctr.1).abs() < 10 {
            continue;
        }
        let r = 1 + rng.below(2);
        blob(g, rng, 1, cx, cy, r, &mut out);
    }
    for _ in 0..16 {
        let cx = 4 + rng.below(MAP - 8);
        let cy = 4 + rng.below(MAP - 8);
        if (cx - ctr.0).abs() < 9 && (cy - ctr.1).abs() < 9 {
            continue;
        }
        let r = rng.below(2);
        blob(g, rng, 2, cx, cy, r, &mut out);
    }
    for _ in 0..12 {
        let mut x = 4 + rng.below(MAP - 8);
        let mut y = 4 + rng.below(MAP - 8);
        let horiz = rng.below(2) == 0;
        let len = 8 + rng.below(11);
        for i in 0..len {
            if i % 5 == 4 {
            } else if Grid::inb((x, y)) && ((x - ctr.0).abs() > 8 || (y - ctr.1).abs() > 8) {
                let mut cell = *g.at((x, y));
                cell.walk = false;
                cell.terrain = Terrain::Glass;
                g.set((x, y), cell);
                out.push((3, (x, y), 0));
            }
            if horiz {
                x += 1;
            } else {
                y += 1;
            }
        }
    }
    blob(g, rng, 4, ctr.0, ctr.1, 7, &mut out);
    out
}

fn code(f: Feature) -> u8 {
    match f {
        Feature::Scrap => 0,
        Feature::Crystal => 1,
        Feature::Ruin => 2,
        Feature::Ridge => 3,
        Feature::Plateau => 4,
    }
}

#[test]
fn scatter_follows_the_placement_rules() {
    for seed in [1u64, 2, 99, 0xA17C_E55A] {
        let mut g = base();
        let mut rng = Rng::new(seed);
        let marks = scatter(&mut g, &mut rng);
        let mut h = base();
        let mut r = Rng::new(seed);
        let expect = reference(&mut h, &mut r);
        let got: Vec<(u8, (i32, i32), u64)> = marks.iter().map(|m| (code(m.feature), m.cell, m.draw)).collect();
        assert_eq!(got, expect);
        assert_eq!(g.cells, h.cells);
        assert_eq!(rng.0, r.0);
        assert!(!marks.is_empty());
    }
}

#[test]
fn home_plateau_is_clear_hull() {
    let mut g = base();
    let mut rng = Rng::new(5);
    scatter(&mut g, &mut rng);
    for dy in -7i32..=7 {
        for dx in -7i32..=7 {
            if dx * dx + dy * dy <= 49 {
                let c = g.at((48 + dx, 48 + dy));
                assert_eq!(c.terrain, Terrain::Hull);
                assert!(c.walk);
            }
        }
    }
    // the dirty flags and distances are untouched
    let fresh = base();
    assert_eq!(g.dirty, fresh.dirty);
    assert_eq!(g.flow, fresh.flow);
}

#[test]
fn scrap_spares_the_marsh() {
    let mut g = base();
    let mut rng = Rng::new(3);
    let marks = scatter(&mut g, &mut rng);
    for m in marks.iter() {
        if m.feature == Feature::Ridge || m.feature == Feature::Plateau {
            assert_eq!(m.draw, 0);
        } else {
            assert_ne!(m.draw, 0);
        }
    }
    // no scrap cluster ever turns marsh into regolith
    let mut h = base();
    let mut r = Rng::new(3);
    let expect = reference(&mut h, &mut r);
    assert_eq!(expect.len(), marks.len());
    let marsh_left = g.cells.iter().filter(|c| c.terrain == Terrain::Marsh).count();
    assert!(marsh_left > 0);
}
