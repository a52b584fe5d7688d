use necropolis::defs::{recipe_of, BKind};
use necropolis::kinds::{R_ALLOY, R_CIRCUIT, R_CRYSTAL, R_LPART, R_RELIC, R_SCRAP};
use necropolis::menus::{menu_keys, MenuAction, MenuKeys, Panels, Screen};
use necropolis::enemies::{aim_order, calm, stance, strike_of, Aim, EKind, Prey, Stance, Strike};
use necropolis::events::{event_flags, event_options, meteor_target};
use necropolis::grid::{Grid, MAP};
use necropolis::kinds::GEvent;
use necropolis::research::tech_effects;
use necropolis::rng::Rng;
use necropolis::workers::{busy_count, decide_job, DState, DroneMind, DroneView};
use necropolis::kinds::Phase;

fn xorshift(mut x: u64) -> u64 {
    x ^= x << 13;
    x ^= x >> 7;
    x ^= x << 17;
    x
}

fn quiet_view() -> DroneView {
    DroneView {
        threatened: false,
        recharge_at: None,
        scrambled: false,
        depot: None,
        unbuilt: None,
        damaged: None,
        jammed: None,
        ruin: None,
        rally: None,
        cell: (40, 40),
    }
}

fn working() -> DroneMind {
    DroneMind { state: DState::Build, target: Some(3), tcell: Some((7, 7)) }
}

#[test]
fn threatened_drones_flee_first() {
    let mut v = quiet_view();
    v.threatened = true;
    v.recharge_at = Some(1);
    v.unbuilt = Some(2);
    let mut m = working();
    let mut rng = Rng(5);
    decide_job(&mut m, &v, &mut rng);
    assert_eq!(m.state, DState::Flee);
    assert_eq!(m.target, Some(3));
    assert_eq!(m.tcell, Some((7, 7)));
    assert_eq!(rng.0, 5);
}

#[test]
fn drone_job_priorities() {
    let mut v = quiet_view();
    v.recharge_at = Some(11);
    v.depot = Some(12);
    let mut m = working();
    decide_job(&mut m, &v, &mut Rng(5));
    assert_eq!((m.state, m.target, m.tcell), (DState::Recharge, Some(11), Some((7, 7))));

    v.recharge_at = None;
    let mut m = working();
    decide_job(&mut m, &v, &mut Rng(5));
    assert_eq!((m.state, m.target, m.tcell), (DState::Haul, Some(12), None));

    let mut v = quiet_view();
    v.unbuilt = Some(13);
    v.damaged = Some(14);
    let mut m = working();
    decide_job(&mut m, &v, &mut Rng(5));
    assert_eq!((m.state, m.target), (DState::Build, Some(13)));

    v.unbuilt = None;
    v.jammed = Some(15);
    let mut m = working();
    decide_job(&mut m, &v, &mut Rng(5));
    assert_eq!((m.state, m.target), (DState::Repair, Some(14)));

    v.damaged = None;
    v.ruin = Some((30, 31));
    let mut m = working();
    decide_job(&mut m, &v, &mut Rng(5));
    assert_eq!((m.state, m.target), (DState::Haul, Some(15)));

    v.jammed = None;
    let mut m = working();
    decide_job(&mut m, &v, &mut Rng(5));
    assert_eq!((m.state, m.target, m.tcell), (DState::Salvage, None, Some((30, 31))));
}

#[test]
fn idle_drones_gather_at_the_rally_point() {
    let mut v = quiet_view();
    let mut m = working();
    let mut rng = Rng(9);
    decide_job(&mut m, &v, &mut rng);
    assert_eq!((m.state, m.target, m.tcell), (DState::Idle, Some(3), None));
    assert_eq!(rng.0, 9);

    v.rally = Some((50, 50));
    let mut m = working();
    let mut rng = Rng(9);
    decide_job(&mut m, &v, &mut rng);
    let s1 = xorshift(9);
    let s2 = xorshift(s1);
    assert_eq!(m.state, DState::Idle);
    assert_eq!(m.tcell, Some((50 + (s1 % 7) as i32 - 3, 50 + (s2 % 7) as i32 - 3)));
    assert_eq!(rng.0, s2);
}

#[test]
fn scrambled_drones_wander() {
    let mut v = quiet_view();
    v.scrambled = true;
    v.depot = Some(4);
    let mut m = working();
    let mut rng = Rng(9);
    decide_job(&mut m, &v, &mut rng);
    let s1 = xorshift(9);
    let s2 = xorshift(s1);
    assert_eq!(m.state, DState::Idle);
    assert_eq!(m.target, Some(3));
    assert_eq!(m.tcell, Some((40 + (s1 % 11) as i32 - 5, 40 + (s2 % 11) as i32 - 5)));
    assert_eq!(rng.0, s2);
}

#[test]
fn enemy_target_preferences() {
    assert_eq!(aim_order(EKind::Mite), vec![Aim::Player(10), Aim::Drone(8), Aim::Building(Prey::Standing, 6)]);
    assert_eq!(aim_order(EKind::Titan), vec![Aim::Player(10), Aim::Building(Prey::Standing, 6)]);
    assert_eq!(
        aim_order(EKind::Spitter),
        vec![Aim::Building(Prey::Guns, 15), Aim::Player(15), Aim::Building(Prey::Standing, 14)]
    );
    assert!(aim_order(EKind::Priest).is_empty());
    assert_eq!(aim_order(EKind::Leech), vec![Aim::Building(Prey::Powered, 22), Aim::Drone(12)]);
    assert_eq!(aim_order(EKind::Bomber), vec![Aim::Building(Prey::Logistics, 34)]);
    assert_eq!(aim_order(EKind::Parasite), vec![Aim::Building(Prey::Pylons, 60)]);
}

#[test]
fn spitters_keep_their_distance() {
    assert_eq!(stance(EKind::Spitter, true, true, false), Stance::Retreat);
    assert_eq!(stance(EKind::Spitter, false, true, false), Stance::Advance);
    assert_eq!(stance(EKind::Spitter, false, false, true), Stance::Retreat);
    assert_eq!(stance(EKind::Spitter, false, false, false), Stance::Hold);
    assert_eq!(stance(EKind::Knight, true, false, true), Stance::Advance);
}

#[test]
fn enemy_strikes() {
    assert_eq!(strike_of(EKind::Spitter), Strike::Shoot);
    assert_eq!(strike_of(EKind::Bomber), Strike::Detonate);
    assert_eq!(strike_of(EKind::Parasite), Strike::Sabotage);
    assert_eq!(strike_of(EKind::Titan), Strike::Sweep);
    assert_eq!(strike_of(EKind::Leech), Strike::Melee { slows: true });
    assert_eq!(strike_of(EKind::Mite), Strike::Melee { slows: false });
}

#[test]
fn event_menu_by_colony_state() {
    assert_eq!(event_options(0, 0, 0, 0, 1), vec![(GEvent::Meteor, 9), (GEvent::Flood, 7)]);
    assert_eq!(
        event_options(2, 4, 3, 2, 3),
        vec![
            (GEvent::Eclipse, 10),
            (GEvent::Meteor, 9),
            (GEvent::Flood, 7),
            (GEvent::Bloom, 10),
            (GEvent::GhostSignal, 8),
            (GEvent::Merchant, 10),
            (GEvent::Quake, 8),
            (GEvent::RelicStorm, 7),
        ]
    );
    assert_eq!(
        event_options(1, 9, 0, 1, 2),
        vec![(GEvent::Meteor, 9), (GEvent::Flood, 7), (GEvent::Merchant, 10)]
    );
    assert_eq!(
        event_options(0, 3, 0, 0, 5),
        vec![(GEvent::Meteor, 9), (GEvent::Flood, 7), (GEvent::Merchant, 10), (GEvent::RelicStorm, 7)]
    );
}

#[test]
fn meteor_takes_the_first_discovered_draw() {
    let mut g = Grid::new(1);
    // only the cell of the third draw is discovered
    let mut s = 4242u64;
    let mut cells = Vec::new();
    for _ in 0..10 {
        let sx = xorshift(s);
        let sy = xorshift(sx);
        cells.push((1 + (sx % 94) as i32, 1 + (sy % 94) as i32));
        s = sy;
    }
    let third = cells[2];
    if !cells[..2].contains(&third) {
        let mut c = *g.at(third);
        c.disc = true;
        g.set(third, c);
        let mut rng = Rng(4242);
        assert_eq!(meteor_target(&g, &mut rng), Some(third));
        let mut r = Rng(4242);
        for _ in 0..6 {
            r.next();
        }
        assert_eq!(rng.0, r.0);
    }
    let mut rng = Rng(4242);
    let blank = Grid::new(1);
    assert_eq!(meteor_target(&blank, &mut rng), None);
    assert_eq!(rng.0, s);
    assert!(cells.iter().all(|c| 1 <= c.0 && c.0 <= MAP - 2));
}

#[test]
fn research_effects() {
    let none = tech_effects(&vec![false; 24]);
    assert_eq!(none.packet_pct, 100);
    assert_eq!(none.arc_chain, 1);
    assert_eq!(none.solar_night_pct, 0);
    assert!(!none.sorter && !none.nest_loc);
    let mut u = vec![false; 24];
    u[0] = true;
    u[9] = true;
    u[17] = true;
    u[21] = true;
    let fx = tech_effects(&u);
    assert_eq!(fx.packet_pct, 160);
    assert_eq!(fx.arc_chain, 3);
    assert_eq!(fx.oxy_pct, 50);
    assert!(fx.ruin_scan);
    assert_eq!(fx.ruin_yield_pct, 150);
    assert_eq!(fx.storage_pct, 100);
    let all = tech_effects(&vec![true; 24]);
    assert_eq!(all.drone_armor, 3);
    assert_eq!(all.corrupt_res, 1);
    assert!(all.nest_loc && all.emerg && all.brownout && all.mortar_cluster);
    // a short list counts the missing technologies as not researched
    assert_eq!(tech_effects(&vec![true; 3]).overclock_pct, 100);
}

#[test]
fn crafting_recipes() {
    let s = recipe_of(BKind::Smelter, 0).unwrap();
    assert_eq!((s.inputs, s.output, s.out_cap, s.secs), (vec![(R_SCRAP, 2)], R_ALLOY, 16, 3));
    let c = recipe_of(BKind::Loom, 0).unwrap();
    assert_eq!((c.inputs, c.output, c.out_cap, c.secs), (vec![(R_ALLOY, 1), (R_CRYSTAL, 1)], R_CIRCUIT, 16, 4));
    let l = recipe_of(BKind::Loom, 1).unwrap();
    assert_eq!(
        (l.inputs, l.output, l.out_cap, l.secs),
        (vec![(R_ALLOY, 1), (R_CIRCUIT, 2), (R_RELIC, 1)], R_LPART, 8, 6)
    );
    assert!(recipe_of(BKind::Silo, 0).is_none());
    assert!(recipe_of(BKind::Extractor, 1).is_none());
}

#[test]
fn menu_shortcuts() {
    let none = MenuKeys { build: false, overlay: false, map: false, research: false, escape: false, enter: false };
    let closed = Panels {
        build_open: false,
        research_open: false,
        tactical: false,
        map_big: false,
        selection: false,
        placing: false,
    };
    let mut p = closed;
    assert_eq!(menu_keys(&mut p, MenuKeys { build: true, ..none }, Screen::Playing), MenuAction::Stay);
    assert!(p.build_open && !p.research_open);
    assert_eq!(menu_keys(&mut p, MenuKeys { research: true, ..none }, Screen::Playing), MenuAction::Stay);
    assert!(!p.build_open && p.research_open);
    // B is ignored while paused, Tab is not
    let mut q = closed;
    menu_keys(&mut q, MenuKeys { build: true, overlay: true, ..none }, Screen::Paused);
    assert!(!q.build_open && q.tactical);
    // Escape first closes what is open, then pauses
    p.selection = true;
    assert_eq!(menu_keys(&mut p, MenuKeys { escape: true, ..none }, Screen::Playing), MenuAction::Stay);
    assert!(!p.research_open && !p.selection && !p.placing && !p.build_open);
    assert_eq!(menu_keys(&mut p, MenuKeys { escape: true, ..none }, Screen::Playing), MenuAction::Pause);
    assert_eq!(menu_keys(&mut p, MenuKeys { escape: true, ..none }, Screen::Paused), MenuAction::Resume);
    assert_eq!(menu_keys(&mut p, MenuKeys { enter: true, ..none }, Screen::Victory), MenuAction::NewGame);
    assert_eq!(menu_keys(&mut p, MenuKeys { enter: true, ..none }, Screen::Playing), MenuAction::Stay);
    let mut m = closed;
    menu_keys(&mut m, MenuKeys { map: true, ..none }, Screen::Report);
    assert!(m.map_big);
}

#[test]
fn enemies_go_home_by_day() {
    assert!(calm(Phase::Dawn, false, false));
    assert!(calm(Phase::Day, false, false));
    assert!(!calm(Phase::Dusk, false, false));
    assert!(!calm(Phase::Night, false, false));
    assert!(!calm(Phase::Day, true, false));
    assert!(!calm(Phase::Day, false, true));
}

#[test]
fn only_active_events_have_effects() {
    let warn = event_flags(Some((GEvent::Eclipse, 0)));
    assert!(!warn.dimmed);
    let on = event_flags(Some((GEvent::Eclipse, 1)));
    assert!(on.dimmed && !on.bloom && !on.scramble && !on.trade && !on.aggress && !on.flood_slow);
    assert!(event_flags(Some((GEvent::RelicStorm, 1))).aggress);
    assert!(event_flags(Some((GEvent::Flood, 1))).flood_slow);
    assert!(event_flags(Some((GEvent::Merchant, 1))).trade);
    assert!(event_flags(Some((GEvent::GhostSignal, 1))).scramble);
    assert!(event_flags(Some((GEvent::Bloom, 1))).bloom);
    let quake = event_flags(Some((GEvent::Quake, 1)));
    assert!(!quake.dimmed && !quake.bloom && !quake.scramble && !quake.trade && !quake.aggress && !quake.flood_slow);
    assert!(!event_flags(None).trade);
}

#[test]
fn busy_drones_are_counted() {
    assert_eq!(busy_count(&vec![]), 0);
    assert_eq!(busy_count(&vec![DState::Idle, DState::Haul, DState::Idle, DState::Flee, DState::Salvage]), 3);
}
