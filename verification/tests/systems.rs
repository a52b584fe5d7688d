use necropolis::clock::{end_phase, launch_step, phase_len, LaunchAction};
use necropolis::defs::BKind;
use necropolis::grid::Grid;
use necropolis::kinds::{Phase, NRES, R_ALLOY, R_RELIC, R_SCRAP, Terrain};
use necropolis::logistics::{conveyor_next_to, cycle_filter, route, toggle_recipe, MachInfo};
use necropolis::player::mine_target;
use necropolis::power::power_nets;
use necropolis::research::{finish_research, try_start};
use necropolis::rng::{hash2_bits, Rng};
use necropolis::tutorial::{TutGoal, Tutorial};
use necropolis::workers::nearest_ruin;
use std::collections::HashMap;

fn xorshift(mut x: u64) -> u64 {
    x ^= x << 13;
    x ^= x >> 7;
    x ^= x << 17;
    x
}

fn lay_conveyor(g: &mut Grid, c: (i32, i32), id: u64) {
    g.occupy(BKind::Conveyor, c, id);
}

fn machine(kind: BKind) -> MachInfo {
    MachInfo { kind, recipe: 0, built: true, room: [true; 8] }
}

#[test]
fn phases_cycle_through_the_day() {
    let s = end_phase(Phase::Dawn, 3);
    assert_eq!((s.phase, s.day, s.report), (Phase::Day, 3, false));
    assert_eq!(s.notice, Some("Day phase: explore and expand."));
    let s = end_phase(Phase::Day, 3);
    assert_eq!(s.notice, Some("DUSK: ancient machinery is waking up."));
    let s = end_phase(Phase::Dusk, 3);
    assert_eq!((s.phase, s.notice), (Phase::Night, None));
    let s = end_phase(Phase::Night, 3);
    assert_eq!((s.phase, s.day, s.report), (Phase::Dawn, 4, true));
}

#[test]
fn full_cycle_returns_one_day_later() {
    let mut p = Phase::Dusk;
    let mut day = 2;
    let mut reports = 0;
    for _ in 0..4 {
        let s = end_phase(p, day);
        p = s.phase;
        day = s.day;
        reports += s.report as u32;
    }
    assert_eq!((p, day, reports), (Phase::Dusk, 3, 1));
}

#[test]
fn phase_lengths() {
    assert_eq!(phase_len(Phase::Dawn, 1), 22);
    assert_eq!(phase_len(Phase::Day, 9), 115);
    assert_eq!(phase_len(Phase::Dusk, 9), 18);
    assert_eq!(phase_len(Phase::Night, 1), 81);
    assert_eq!(phase_len(Phase::Night, 10), 135);
    assert_eq!(phase_len(Phase::Night, 11), 140);
    assert_eq!(phase_len(Phase::Night, 4_000_000_000), 140);
}

#[test]
fn launch_sequencing() {
    assert_eq!(launch_step(false, 5), LaunchAction::Wait);
    assert_eq!(launch_step(false, 6), LaunchAction::Arm);
    assert_eq!(launch_step(true, 6), LaunchAction::Count);
    assert_eq!(launch_step(true, 5), LaunchAction::Abort);
}

#[test]
fn generator_follows_xorshift() {
    let mut r = Rng::new(1);
    assert_eq!(r.0, 0x9E3779B97F4A7C15);
    let mut x = r.0;
    for _ in 0..5 {
        x = xorshift(x);
        assert_eq!(r.next(), x);
    }
    assert_eq!(Rng::new(0).0, 1);
    let mut a = Rng::new(99);
    let mut b = Rng::new(99);
    assert_eq!(a.next(), b.next());
}

#[test]
fn below_stays_in_range() {
    let mut r = Rng::new(12345);
    for n in 1..50 {
        let v = r.below(n);
        assert!(0 <= v && v < n);
    }
    let s = r.0;
    assert_eq!(r.below(0), 0);
    assert_eq!(r.below(-4), 0);
    assert_eq!(r.0, s);
    let mut q = Rng(7);
    assert_eq!(q.below(10), (xorshift(7) % 10) as i32);
}

#[test]
fn lattice_hash() {
    let reference = |x: i32, y: i32, seed: u64| -> u64 {
        let mut h = seed
            ^ (x as i64 as u64).wrapping_mul(0x8DA6_B343_9D31_07A1)
            ^ (y as i64 as u64).wrapping_mul(0xD816_3841_F0E5_2BB7);
        h = h.wrapping_mul(0x2545_F491_4F6C_DD1D);
        h ^= h >> 29;
        h = h.wrapping_mul(0x9E37_79B9_7F4A_7C15);
        h ^= h >> 32;
        h >> 40
    };
    for (x, y) in [(0, 0), (-3, 17), (95, -95), (i32::MIN, i32::MAX)] {
        assert_eq!(hash2_bits(x, y, 1234), reference(x, y, 1234));
        assert!(hash2_bits(x, y, 1234) < (1 << 24));
    }
    assert_ne!(hash2_bits(1, 2, 3), hash2_bits(2, 1, 3));
}

#[test]
fn power_networks_follow_links() {
    let nets = power_nets(6, &vec![(0, 2), (3, 4), (2, 5)]);
    assert_eq!(nets.of_pylon, vec![0, 1, 0, 2, 2, 0]);
    assert_eq!(nets.count, 3);
    let none = power_nets(0, &vec![]);
    assert_eq!(none.count, 0);
    let apart = power_nets(3, &vec![]);
    assert_eq!(apart.of_pylon, vec![0, 1, 2]);
    let chain = power_nets(4, &vec![(3, 2), (1, 0), (2, 1), (0, 0)]);
    assert_eq!(chain.of_pylon, vec![0, 0, 0, 0]);
    assert_eq!(chain.count, 1);
}

#[test]
fn route_reaches_a_silo() {
    let mut g = Grid::new(1);
    for x in 10..15 {
        lay_conveyor(&mut g, (x, 20), 100 + x as u64);
    }
    g.occupy(BKind::Silo, (15, 20), 7);
    g.occupy(BKind::Smelter, (12, 21), 8);
    let mut machines = HashMap::new();
    machines.insert(7u64, machine(BKind::Silo));
    machines.insert(8u64, machine(BKind::Smelter));
    let filters: HashMap<usize, usize> = HashMap::new();
    let p = route(&g, &machines, &filters, (10, 20), R_ALLOY, 0).unwrap();
    assert_eq!(p, vec![(10, 20), (11, 20), (12, 20), (13, 20), (14, 20)]);
    let p = route(&g, &machines, &filters, (10, 20), R_SCRAP, 0).unwrap();
    assert_eq!(p, vec![(10, 20), (11, 20), (12, 20)]);
    // the smelter is the excluded source: scrap goes on to the silo
    let p = route(&g, &machines, &filters, (10, 20), R_SCRAP, 8).unwrap();
    assert_eq!(p.last(), Some(&(14, 20)));
    // a sorter set to alloy blocks relics
    let mut filters2 = HashMap::new();
    filters2.insert(Grid::idx((13, 20)), R_ALLOY);
    assert_eq!(route(&g, &machines, &filters2, (10, 20), R_RELIC, 0), None);
    filters2.insert(Grid::idx((13, 20)), NRES);
    assert!(route(&g, &machines, &filters2, (10, 20), R_RELIC, 0).is_some());
    // a full silo takes nothing
    let mut full = machine(BKind::Silo);
    full.room[R_RELIC] = false;
    machines.insert(7u64, full);
    assert_eq!(route(&g, &machines, &filters, (10, 20), R_RELIC, 0), None);
}

#[test]
fn route_takes_the_shorter_branch() {
    let mut g = Grid::new(1);
    lay_conveyor(&mut g, (30, 30), 200);
    for y in 26..30 {
        lay_conveyor(&mut g, (30, y), 200 + y as u64);
    }
    g.occupy(BKind::Silo, (30, 25), 9);
    for y in 31..33 {
        lay_conveyor(&mut g, (30, y), 300 + y as u64);
    }
    g.occupy(BKind::Silo, (30, 33), 10);
    let mut machines = HashMap::new();
    machines.insert(9u64, machine(BKind::Silo));
    machines.insert(10u64, machine(BKind::Silo));
    let filters: HashMap<usize, usize> = HashMap::new();
    let p = route(&g, &machines, &filters, (30, 30), R_SCRAP, 0).unwrap();
    assert_eq!(p, vec![(30, 30), (30, 31), (30, 32)]);
    // with the near silo full, the long branch is the only way
    let mut full = machine(BKind::Silo);
    full.room[R_SCRAP] = false;
    machines.insert(10u64, full);
    let p = route(&g, &machines, &filters, (30, 30), R_SCRAP, 0).unwrap();
    assert_eq!(p, vec![(30, 30), (30, 29), (30, 28), (30, 27), (30, 26)]);
}

#[test]
fn route_prefers_the_right_hand_branch() {
    let mut g = Grid::new(1);
    lay_conveyor(&mut g, (40, 40), 400);
    lay_conveyor(&mut g, (39, 40), 401);
    lay_conveyor(&mut g, (41, 40), 402);
    g.occupy(BKind::Silo, (38, 40), 11);
    g.occupy(BKind::Silo, (42, 40), 12);
    let mut machines = HashMap::new();
    machines.insert(11u64, machine(BKind::Silo));
    machines.insert(12u64, machine(BKind::Silo));
    let filters: HashMap<usize, usize> = HashMap::new();
    let p = route(&g, &machines, &filters, (40, 40), R_SCRAP, 0).unwrap();
    assert_eq!(p, vec![(40, 40), (41, 40)]);
}

#[test]
fn route_examines_at_most_500_nodes() {
    // a winding conveyor line; `line[k]` is the (k+1)-th node examined
    let mut line = Vec::new();
    let mut y = 2;
    let mut rightward = true;
    while line.len() < 700 {
        for i in 0..92 {
            line.push((if rightward { 2 + i } else { 93 - i }, y));
        }
        let xe = if rightward { 93 } else { 2 };
        line.push((xe, y + 1));
        line.push((xe, y + 2));
        y += 3;
        rightward = !rightward;
    }
    let filters: HashMap<usize, usize> = HashMap::new();
    let mut machines = HashMap::new();
    machines.insert(13u64, machine(BKind::Silo));
    for (last, expect) in [(499usize, Some(500usize)), (500usize, None)] {
        let mut g = Grid::new(1);
        for (k, c) in line.iter().enumerate() {
            lay_conveyor(&mut g, *c, 1000 + k as u64);
        }
        let end = line[last];
        g.occupy(BKind::Silo, (end.0, end.1 + 1), 13);
        let r = route(&g, &machines, &filters, line[0], R_SCRAP, 0);
        assert_eq!(r.map(|p| p.len()), expect);
    }
}

#[test]
fn output_finds_adjacent_conveyor() {
    let mut g = Grid::new(1);
    g.occupy(BKind::Extractor, (30, 30), 1);
    assert_eq!(conveyor_next_to(&g, BKind::Extractor, (30, 30)), None);
    lay_conveyor(&mut g, (30, 29), 2);
    lay_conveyor(&mut g, (29, 30), 3);
    assert_eq!(conveyor_next_to(&g, BKind::Extractor, (30, 30)), Some((29, 30)));
    lay_conveyor(&mut g, (33, 31), 4);
    assert_eq!(conveyor_next_to(&g, BKind::Launch, (31, 30)), Some((33, 31)));
}

#[test]
fn sorter_and_loom_toggles() {
    assert_eq!(cycle_filter(NRES), 0);
    assert_eq!(cycle_filter(3), 4);
    assert_eq!(cycle_filter(NRES - 1), NRES);
    let mut f = 5;
    for _ in 0..9 {
        f = cycle_filter(f);
    }
    assert_eq!(f, 5);
    assert_eq!(toggle_recipe(0), 1);
    assert_eq!(toggle_recipe(1), 0);
}

#[test]
fn research_start_rules() {
    let mut unlocked = vec![false; 24];
    assert_eq!(try_start(&unlocked, false, 3, true), Ok(()));
    assert_eq!(try_start(&unlocked, false, 3, false), Err("Insufficient resources"));
    assert_eq!(try_start(&unlocked, true, 3, true), Err("Research already in progress"));
    assert_eq!(finish_research(&mut unlocked, 3), 0);
    assert!(unlocked[3]);
    assert_eq!(try_start(&unlocked, true, 3, false), Err("Already researched"));
    assert_eq!(finish_research(&mut unlocked, 14), 4);
}

#[test]
fn tutorial_progress() {
    let mut t = Tutorial::new();
    assert_eq!(t.goal(), TutGoal::Move);
    assert_eq!(t.tick(false), Some(0));
    assert_eq!(t.tick(true), Some(1));
    assert_eq!(t.goal(), TutGoal::Orbit);
    t.skip();
    assert_eq!(t.goal(), TutGoal::Mine);
    for _ in 0..7 {
        t.tick(true);
    }
    assert_eq!(t.goal(), TutGoal::Research);
    assert_eq!(t.tick(true), Some(10));
    assert_eq!(t.goal(), TutGoal::Launch);
    assert_eq!(t.tick(true), None);
    assert!(t.done);
    t.skip();
    assert_eq!(t.step, 11);
    assert_eq!(t.tick(true), None);
}

#[test]
fn drones_pick_the_nearest_ruin() {
    let mut g = Grid::new(1);
    let mut deposit = vec![false; 96 * 96];
    for c in [(20, 20), (12, 10), (10, 8), (8, 10)] {
        let mut cell = *g.at(c);
        cell.terrain = Terrain::Ruin;
        cell.disc = true;
        g.set(c, cell);
        deposit[Grid::idx(c)] = true;
    }
    // (10,8) and (8,10) and (12,10) are all 2 away; (10,8) is scanned first
    assert_eq!(nearest_ruin(&g, &deposit, (10, 10)), Some((10, 8)));
    deposit[Grid::idx((10, 8))] = false;
    assert_eq!(nearest_ruin(&g, &deposit, (10, 10)), Some((8, 10)));
    assert_eq!(nearest_ruin(&g, &deposit, (60, 60)), None);
    assert_eq!(nearest_ruin(&g, &deposit, (40, 40)), Some((20, 20)));
}

#[test]
fn hand_mining_target() {
    let mut g = Grid::new(1);
    let mut deposit = vec![false; 96 * 96];
    assert_eq!(mine_target(&g, &deposit, (5, 5)), None);
    deposit[Grid::idx((6, 6))] = true;
    deposit[Grid::idx((4, 5))] = true;
    assert_eq!(mine_target(&g, &deposit, (5, 5)), Some((4, 5)));
    g.occupy(BKind::Wall, (4, 5), 3);
    assert_eq!(mine_target(&g, &deposit, (5, 5)), Some((6, 6)));
    deposit[Grid::idx((0, 0))] = true;
    assert_eq!(mine_target(&g, &deposit, (0, 0)), Some((0, 0)));
}
