use necropolis::defs::{accepts, bdef, foot_cells, tdef, BKind, ALL_KINDS, NTECH, TRADES};
use necropolis::kinds::{
    res_name, DmgSrc, GEvent, Phase, Terrain, NRES, R_ALLOY, R_CIRCUIT, R_CORE, R_CRYSTAL, R_LPART, R_RELIC,
    R_SCRAP,
};

const TERRAINS: [Terrain; 7] = [
    Terrain::Hull,
    Terrain::Regolith,
    Terrain::Crystal,
    Terrain::Marsh,
    Terrain::Ruin,
    Terrain::Glass,
    Terrain::Growth,
];

#[test]
fn terrain_codes_round_trip() {
    for (i, t) in TERRAINS.iter().enumerate() {
        assert_eq!(t.to_u8(), i as u8);
        assert_eq!(Terrain::from_u8(t.to_u8()), *t);
    }
}

#[test]
fn unknown_terrain_code_reads_as_hull() {
    assert_eq!(Terrain::from_u8(7), Terrain::Hull);
    assert_eq!(Terrain::from_u8(255), Terrain::Hull);
}

#[test]
fn terrain_names() {
    assert_eq!(Terrain::Hull.name(), "Hull Plate");
    assert_eq!(Terrain::Ruin.name(), "Black-Metal Ruin");
    assert_eq!(Terrain::Growth.name(), "Corrupted Growth");
}

#[test]
fn phase_codes_round_trip() {
    for (i, p) in [Phase::Dawn, Phase::Day, Phase::Dusk, Phase::Night].iter().enumerate() {
        assert_eq!(p.to_u8(), i as u8);
        assert_eq!(Phase::from_u8(p.to_u8()), *p);
    }
    assert_eq!(Phase::from_u8(4), Phase::Dawn);
    assert_eq!(Phase::Night.name(), "NIGHT ASSAULT");
}

#[test]
fn damage_source_slots() {
    assert_eq!(DmgSrc::PKin.idx(), 0);
    assert_eq!(DmgSrc::Wall.idx(), 5);
    assert_eq!(DmgSrc::Enemy.idx(), 7);
    assert_eq!(DmgSrc::Hazard.idx(), 7);
}

#[test]
fn event_names_and_durations() {
    assert_eq!(GEvent::Meteor.name(), "METEOR RAIN");
    assert_eq!(GEvent::GhostSignal.name(), "GHOST SIGNAL");
    assert_eq!(GEvent::Quake.duration_secs(), 3);
    assert_eq!(GEvent::Bloom.duration_secs(), 50);
}

#[test]
fn resource_names() {
    assert_eq!(NRES, 8);
    assert_eq!(res_name(R_SCRAP), "Scrap");
    assert_eq!(res_name(R_CORE), "DrnCore");
    assert_eq!(res_name(R_LPART), "L.Part");
}

#[test]
fn building_definitions() {
    assert_eq!(ALL_KINDS.len(), 23);
    let launch = bdef(BKind::Launch);
    assert_eq!(launch.name, "Launch Engine Segment");
    assert_eq!(launch.cost, vec![(R_ALLOY, 25), (R_CIRCUIT, 10), (R_LPART, 4)]);
    assert_eq!(launch.foot, 2);
    assert_eq!(launch.hp, 320);
    assert_eq!(launch.power, -8);
    assert_eq!(launch.btime_tenths, 200);
    let conv = bdef(BKind::Conveyor);
    assert_eq!(conv.btime_tenths, 12);
    assert_eq!(conv.cost, vec![(R_SCRAP, 2)]);
    assert!(bdef(BKind::Core).cost.is_empty());
    assert_eq!(bdef(BKind::Fusion).power, 26);
    for k in ALL_KINDS.iter() {
        let f = bdef(*k).foot;
        assert!(f == 1 || (f == 2 && *k == BKind::Launch));
    }
}

#[test]
fn footprint_cells() {
    assert_eq!(foot_cells(BKind::Wall, (3, 4)), vec![(3, 4)]);
    assert_eq!(foot_cells(BKind::Launch, (5, 5)), vec![(5, 5), (6, 5), (5, 6), (6, 6)]);
}

#[test]
fn machine_inputs() {
    assert!(accepts(BKind::Silo, 0, R_RELIC));
    assert!(accepts(BKind::Smelter, 0, R_SCRAP));
    assert!(!accepts(BKind::Smelter, 0, R_ALLOY));
    assert!(accepts(BKind::Loom, 0, R_CRYSTAL));
    assert!(!accepts(BKind::Loom, 0, R_RELIC));
    assert!(accepts(BKind::Loom, 1, R_RELIC));
    assert!(!accepts(BKind::Loom, 1, R_CRYSTAL));
    assert!(!accepts(BKind::Rail, 0, R_SCRAP));
}

#[test]
fn technology_definitions() {
    assert_eq!(NTECH, 24);
    let t = tdef(14);
    assert_eq!(t.name, "Bandwidth Expansion");
    assert_eq!(t.cat, "Workers");
    assert_eq!(t.cost, vec![(R_CIRCUIT, 8), (R_RELIC, 4)]);
    assert_eq!(t.time_secs, 30);
    assert_eq!(tdef(0).cost, vec![(R_SCRAP, 30), (R_CIRCUIT, 4)]);
    assert_eq!(tdef(23).name, "Nest Triangulation");
    assert_eq!(tdef(99).name, "Nest Triangulation");
    assert_eq!(tdef(18).cost, vec![(R_CRYSTAL, 10)]);
}

#[test]
fn merchant_trades() {
    assert_eq!(TRADES[0], (R_SCRAP, 25, R_CIRCUIT, 1));
    assert_eq!(TRADES[3], (R_SCRAP, 30, R_CORE, 1));
}
