//! Static game data: what each building and technology is, costs and
//! takes, the merchant's trades, and which machines take which inputs.

use vstd::prelude::*;
use crate::kinds::{NRES, R_SCRAP, R_ALLOY, R_CRYSTAL, R_COOLANT, R_CIRCUIT, R_RELIC, R_CORE, R_LPART};

verus! {

#[derive(Clone, Copy, PartialEq, Eq, Structural, Debug)]
pub enum BKind {
    Core,
    Wall,
    Gate,
    Pylon,
    Solar,
    Fusion,
    Extractor,
    Bore,
    Pump,
    Silo,
    Conveyor,
    Sorter,
    Smelter,
    Loom,
    Cradle,
    Spire,
    Shield,
    Rail,
    Arc,
    Mortar,
    Radar,
    Reliquary,
    Launch,
}

/// Every building kind, in build-menu order.
pub const ALL_KINDS: [BKind; 23] = [
    BKind::Core,
    BKind::Wall,
    BKind::Gate,
    BKind::Pylon,
    BKind::Solar,
    BKind::Fusion,
    BKind::Extractor,
    BKind::Bore,
    BKind::Pump,
    BKind::Silo,
    BKind::Conveyor,
    BKind::Sorter,
    BKind::Smelter,
    BKind::Loom,
    BKind::Cradle,
    BKind::Spire,
    BKind::Shield,
    BKind::Rail,
    BKind::Arc,
    BKind::Mortar,
    BKind::Radar,
    BKind::Reliquary,
    BKind::Launch,
];

/// A building kind's definition. Amounts are whole units; build time is in
/// tenths of a second.
pub struct BDef {
    pub name: &'static str,
    pub cost: Vec<(usize, u32)>,
    pub hp: u32,
    /// positive = generation, negative = consumption
    pub power: i32,
    pub btime_tenths: u32,
    pub foot: i32,
    pub desc: &'static str,
}

/// Display name of a building kind.
pub open spec fn building_name(k: BKind) -> Seq<char> {
    match k {
        BKind::Core => "Core Obelisk"@,
        BKind::Wall => "Hull Wall"@,
        BKind::Gate => "Blast Gate"@,
        BKind::Pylon => "Power Pylon"@,
        BKind::Solar => "Solar Sail"@,
        BKind::Fusion => "Fusion Kettle"@,
        BKind::Extractor => "Scrap Extractor"@,
        BKind::Bore => "Crystal Bore"@,
        BKind::Pump => "Coolant Pump"@,
        BKind::Silo => "Storage Silo"@,
        BKind::Conveyor => "Conveyor Node"@,
        BKind::Sorter => "Sorter Node"@,
        BKind::Smelter => "Smelter"@,
        BKind::Loom => "Circuit Loom"@,
        BKind::Cradle => "Drone Cradle"@,
        BKind::Spire => "Repair Spire"@,
        BKind::Shield => "Shield Projector"@,
        BKind::Rail => "Rail Turret"@,
        BKind::Arc => "Arc Turret"@,
        BKind::Mortar => "Flak Mortar"@,
        BKind::Radar => "Radar Mast"@,
        BKind::Reliquary => "Research Reliquary"@,
        BKind::Launch => "Launch Engine Segment"@,
    }
}

/// What a building kind costs to place.
pub open spec fn building_cost(k: BKind) -> Seq<(usize, u32)> {
    match k {
        BKind::Core => Seq::empty(),
        BKind::Wall => seq![(R_SCRAP, 4u32)],
        BKind::Gate => seq![(R_SCRAP, 6u32), (R_ALLOY, 2u32)],
        BKind::Pylon => seq![(R_SCRAP, 8u32)],
        BKind::Solar => seq![(R_SCRAP, 12u32), (R_ALLOY, 2u32)],
        BKind::Fusion => seq![(R_ALLOY, 18u32), (R_COOLANT, 6u32)],
        BKind::Extractor => seq![(R_SCRAP, 10u32)],
        BKind::Bore => seq![(R_SCRAP, 14u32), (R_ALLOY, 4u32)],
        BKind::Pump => seq![(R_SCRAP, 12u32), (R_ALLOY, 2u32)],
        BKind::Silo => seq![(R_SCRAP, 16u32)],
        BKind::Conveyor => seq![(R_SCRAP, 2u32)],
        BKind::Sorter => seq![(R_SCRAP, 4u32), (R_ALLOY, 1u32)],
        BKind::Smelter => seq![(R_SCRAP, 20u32)],
        BKind::Loom => seq![(R_ALLOY, 12u32), (R_CRYSTAL, 6u32)],
        BKind::Cradle => seq![(R_ALLOY, 10u32), (R_CIRCUIT, 2u32)],
        BKind::Spire => seq![(R_ALLOY, 8u32), (R_CIRCUIT, 2u32)],
        BKind::Shield => seq![(R_ALLOY, 12u32), (R_CIRCUIT, 4u32)],
        BKind::Rail => seq![(R_SCRAP, 14u32), (R_ALLOY, 6u32)],
        BKind::Arc => seq![(R_ALLOY, 10u32), (R_CRYSTAL, 4u32)],
        BKind::Mortar => seq![(R_ALLOY, 14u32), (R_CIRCUIT, 3u32)],
        BKind::Radar => seq![(R_SCRAP, 10u32), (R_CIRCUIT, 1u32)],
        BKind::Reliquary => seq![(R_ALLOY, 10u32), (R_CRYSTAL, 8u32), (R_RELIC, 4u32)],
        BKind::Launch => seq![(R_ALLOY, 25u32), (R_CIRCUIT, 10u32), (R_LPART, 4u32)],
    }
}

/// Hit points of a finished building.
pub open spec fn building_hp(k: BKind) -> u32 {
    match k {
        BKind::Core => 420,
        BKind::Wall => 170,
        BKind::Gate => 240,
        BKind::Pylon => 60,
        BKind::Solar => 70,
        BKind::Fusion => 150,
        BKind::Extractor => 90,
        BKind::Bore => 90,
        BKind::Pump => 80,
        BKind::Silo => 120,
        BKind::Conveyor => 35,
        BKind::Sorter => 40,
        BKind::Smelter => 110,
        BKind::Loom => 100,
        BKind::Cradle => 100,
        BKind::Spire => 90,
        BKind::Shield => 110,
        BKind::Rail => 130,
        BKind::Arc => 110,
        BKind::Mortar => 120,
        BKind::Radar => 70,
        BKind::Reliquary => 120,
        BKind::Launch => 320,
    }
}

/// Power generated (positive) or drawn (negative).
pub open spec fn building_power(k: BKind) -> i32 {
    match k {
        BKind::Core => 6i32,
        BKind::Wall => 0i32,
        BKind::Gate => 0i32,
        BKind::Pylon => 0i32,
        BKind::Solar => 8i32,
        BKind::Fusion => 26i32,
        BKind::Extractor => -3i32,
        BKind::Bore => -4i32,
        BKind::Pump => -3i32,
        BKind::Silo => 0i32,
        BKind::Conveyor => 0i32,
        BKind::Sorter => -1i32,
        BKind::Smelter => -5i32,
        BKind::Loom => -5i32,
        BKind::Cradle => -3i32,
        BKind::Spire => -4i32,
        BKind::Shield => -6i32,
        BKind::Rail => -4i32,
        BKind::Arc => -5i32,
        BKind::Mortar => -5i32,
        BKind::Radar => -2i32,
        BKind::Reliquary => -4i32,
        BKind::Launch => -8i32,
    }
}

/// Who powers whom: only the core (6), solar sails (8) and fusion kettles
/// (26) generate; walls, gates, pylons, silos and conveyors neither generate
/// nor draw; every other building draws between 1 (sorters) and 8 (the
/// launch engine).
pub proof fn lemma_power_roles(k: BKind)
    ensures
        building_power(k) > 0 <==> (k == BKind::Core || k == BKind::Solar || k == BKind::Fusion),
        building_power(BKind::Core) == 6 && building_power(BKind::Solar) == 8 && building_power(BKind::Fusion) == 26,
        building_power(k) == 0 <==> (k == BKind::Wall || k == BKind::Gate || k == BKind::Pylon || k == BKind::Silo
            || k == BKind::Conveyor),
        building_power(k) < 0 ==> -8 <= building_power(k) <= -1,
        building_power(BKind::Sorter) == -1 && building_power(BKind::Launch) == -8,
{
}

/// Build time in tenths of a second.
pub open spec fn building_time_tenths(k: BKind) -> u32 {
    match k {
        BKind::Core => 10,
        BKind::Wall => 30,
        BKind::Gate => 40,
        BKind::Pylon => 30,
        BKind::Solar => 50,
        BKind::Fusion => 100,
        BKind::Extractor => 50,
        BKind::Bore => 60,
        BKind::Pump => 50,
        BKind::Silo => 50,
        BKind::Conveyor => 12,
        BKind::Sorter => 20,
        BKind::Smelter => 70,
        BKind::Loom => 80,
        BKind::Cradle => 80,
        BKind::Spire => 60,
        BKind::Shield => 80,
        BKind::Rail => 60,
        BKind::Arc => 60,
        BKind::Mortar => 80,
        BKind::Radar => 50,
        BKind::Reliquary => 90,
        BKind::Launch => 200,
    }
}

/// Side length of the square footprint, in cells.
pub open spec fn building_foot(k: BKind) -> i32 {
    match k {
        BKind::Core => 1,
        BKind::Wall => 1,
        BKind::Gate => 1,
        BKind::Pylon => 1,
        BKind::Solar => 1,
        BKind::Fusion => 1,
        BKind::Extractor => 1,
        BKind::Bore => 1,
        BKind::Pump => 1,
        BKind::Silo => 1,
        BKind::Conveyor => 1,
        BKind::Sorter => 1,
        BKind::Smelter => 1,
        BKind::Loom => 1,
        BKind::Cradle => 1,
        BKind::Spire => 1,
        BKind::Shield => 1,
        BKind::Rail => 1,
        BKind::Arc => 1,
        BKind::Mortar => 1,
        BKind::Radar => 1,
        BKind::Reliquary => 1,
        BKind::Launch => 2,
    }
}

/// One-line description shown in the build menu.
pub open spec fn building_desc(k: BKind) -> Seq<char> {
    match k {
        BKind::Core => "Heart of the colony. Lose it = game over. Provides power + oxygen."@,
        BKind::Wall => "Cheap barrier. Thorned plating wounds melee attackers."@,
        BKind::Gate => "Tough wall segment for chokepoints."@,
        BKind::Pylon => "Links buildings into a power network."@,
        BKind::Solar => "Generates power during daylight."@,
        BKind::Fusion => "Strong generator. Sips coolant from storage."@,
        BKind::Extractor => "Mines scrap. Place on a scrap deposit."@,
        BKind::Bore => "Mines crystal. Place on a crystal scar."@,
        BKind::Pump => "Pumps coolant. Place on coolant marsh."@,
        BKind::Silo => "Raises storage caps; accepts conveyor packets."@,
        BKind::Conveyor => "Moves item packets between adjacent nodes."@,
        BKind::Sorter => "Conveyor that only passes its filter type (E to cycle)."@,
        BKind::Smelter => "2 scrap -> 1 alloy."@,
        BKind::Loom => "Alloy+crystal -> circuits. E toggles launch-part recipe."@,
        BKind::Cradle => "Builds worker drones (1 drone core + 4 alloy each)."@,
        BKind::Spire => "Auto-repairs nearby buildings using scrap."@,
        BKind::Shield => "Projects shields over nearby buildings."@,
        BKind::Rail => "Long range kinetic turret."@,
        BKind::Arc => "Short range chaining shock turret."@,
        BKind::Mortar => "Area bombardment. Friendly fire!"@,
        BKind::Radar => "Reveals fog of war around it."@,
        BKind::Reliquary => "Unlocks the research tree (E or T to open)."@,
        BKind::Launch => "Build 6 segments to escape the necropolis."@,
    }
}

pub fn bdef(k: BKind) -> (d: BDef)
    ensures
        d.name@ == building_name(k),
        d.cost@ == building_cost(k),
        d.hp == building_hp(k),
        d.power == building_power(k),
        d.btime_tenths == building_time_tenths(k),
        d.foot == building_foot(k),
        d.desc@ == building_desc(k),
{
    match k {
        BKind::Core => BDef {
            name: "Core Obelisk",
            cost: Vec::new(),
            hp: 420,
            power: 6,
            btime_tenths: 10,
            foot: 1,
            desc: "Heart of the colony. Lose it = game over. Provides power + oxygen.",
        },
        BKind::Wall => BDef {
            name: "Hull Wall",
            cost: vec![(R_SCRAP, 4u32)],
            hp: 170,
            power: 0,
            btime_tenths: 30,
            foot: 1,
            desc: "Cheap barrier. Thorned plating wounds melee attackers.",
        },
        BKind::Gate => BDef {
            name: "Blast Gate",
            cost: vec![(R_SCRAP, 6u32), (R_ALLOY, 2u32)],
            hp: 240,
            power: 0,
            btime_tenths: 40,
            foot: 1,
            desc: "Tough wall segment for chokepoints.",
        },
        BKind::Pylon => BDef {
            name: "Power Pylon",
            cost: vec![(R_SCRAP, 8u32)],
            hp: 60,
            power: 0,
            btime_tenths: 30,
            foot: 1,
            desc: "Links buildings into a power network.",
        },
        BKind::Solar => BDef {
            name: "Solar Sail",
            cost: vec![(R_SCRAP, 12u32), (R_ALLOY, 2u32)],
            hp: 70,
            power: 8,
            btime_tenths: 50,
            foot: 1,
            desc: "Generates power during daylight.",
        },
        BKind::Fusion => BDef {
            name: "Fusion Kettle",
            cost: vec![(R_ALLOY, 18u32), (R_COOLANT, 6u32)],
            hp: 150,
            power: 26,
            btime_tenths: 100,
            foot: 1,
            desc: "Strong generator. Sips coolant from storage.",
        },
        BKind::Extractor => BDef {
            name: "Scrap Extractor",
            cost: vec![(R_SCRAP, 10u32)],
            hp: 90,
            power: -3,
            btime_tenths: 50,
            foot: 1,
            desc: "Mines scrap. Place on a scrap deposit.",
        },
        BKind::Bore => BDef {
            name: "Crystal Bore",
            cost: vec![(R_SCRAP, 14u32), (R_ALLOY, 4u32)],
            hp: 90,
            power: -4,
            btime_tenths: 60,
            foot: 1,
            desc: "Mines crystal. Place on a crystal scar.",
        },
        BKind::Pump => BDef {
            name: "Coolant Pump",
            cost: vec![(R_SCRAP, 12u32), (R_ALLOY, 2u32)],
            hp: 80,
            power: -3,
            btime_tenths: 50,
            foot: 1,
            desc: "Pumps coolant. Place on coolant marsh.",
        },
        BKind::Silo => BDef {
            name: "Storage Silo",
            cost: vec![(R_SCRAP, 16u32)],
            hp: 120,
            power: 0,
            btime_tenths: 50,
            foot: 1,
            desc: "Raises storage caps; accepts conveyor packets.",
        },
        BKind::Conveyor => BDef {
            name: "Conveyor Node",
            cost: vec![(R_SCRAP, 2u32)],
            hp: 35,
            power: 0,
            btime_tenths: 12,
            foot: 1,
            desc: "Moves item packets between adjacent nodes.",
        },
        BKind::Sorter => BDef {
            name: "Sorter Node",
            cost: vec![(R_SCRAP, 4u32), (R_ALLOY, 1u32)],
            hp: 40,
            power: -1,
            btime_tenths: 20,
            foot: 1,
            desc: "Conveyor that only passes its filter type (E to cycle).",
        },
        BKind::Smelter => BDef {
            name: "Smelter",
            cost: vec![(R_SCRAP, 20u32)],
            hp: 110,
            power: -5,
            btime_tenths: 70,
            foot: 1,
            desc: "2 scrap -> 1 alloy.",
        },
        BKind::Loom => BDef {
            name: "Circuit Loom",
            cost: vec![(R_ALLOY, 12u32), (R_CRYSTAL, 6u32)],
            hp: 100,
            power: -5,
            btime_tenths: 80,
            foot: 1,
            desc: "Alloy+crystal -> circuits. E toggles launch-part recipe.",
        },
        BKind::Cradle => BDef {
            name: "Drone Cradle",
            cost: vec![(R_ALLOY, 10u32), (R_CIRCUIT, 2u32)],
            hp: 100,
            power: -3,
            btime_tenths: 80,
            foot: 1,
            desc: "Builds worker drones (1 drone core + 4 alloy each).",
        },
        BKind::Spire => BDef {
            name: "Repair Spire",
            cost: vec![(R_ALLOY, 8u32), (R_CIRCUIT, 2u32)],
            hp: 90,
            power: -4,
            btime_tenths: 60,
            foot: 1,
            desc: "Auto-repairs nearby buildings using scrap.",
        },
        BKind::Shield => BDef {
            name: "Shield Projector",
            cost: vec![(R_ALLOY, 12u32), (R_CIRCUIT, 4u32)],
            hp: 110,
            power: -6,
            btime_tenths: 80,
            foot: 1,
            desc: "Projects shields over nearby buildings.",
        },
        BKind::Rail => BDef {
            name: "Rail Turret",
            cost: vec![(R_SCRAP, 14u32), (R_ALLOY, 6u32)],
            hp: 130,
            power: -4,
            btime_tenths: 60,
            foot: 1,
            desc: "Long range kinetic turret.",
        },
        BKind::Arc => BDef {
            name: "Arc Turret",
            cost: vec![(R_ALLOY, 10u32), (R_CRYSTAL, 4u32)],
            hp: 110,
            power: -5,
            btime_tenths: 60,
            foot: 1,
            desc: "Short range chaining shock turret.",
        },
        BKind::Mortar => BDef {
            name: "Flak Mortar",
            cost: vec![(R_ALLOY, 14u32), (R_CIRCUIT, 3u32)],
            hp: 120,
            power: -5,
            btime_tenths: 80,
            foot: 1,
            desc: "Area bombardment. Friendly fire!",
        },
        BKind::Radar => BDef {
            name: "Radar Mast",
            cost: vec![(R_SCRAP, 10u32), (R_CIRCUIT, 1u32)],
            hp: 70,
            power: -2,
            btime_tenths: 50,
            foot: 1,
            desc: "Reveals fog of war around it.",
        },
        BKind::Reliquary => BDef {
            name: "Research Reliquary",
            cost: vec![(R_ALLOY, 10u32), (R_CRYSTAL, 8u32), (R_RELIC, 4u32)],
            hp: 120,
            power: -4,
            btime_tenths: 90,
            foot: 1,
            desc: "Unlocks the research tree (E or T to open).",
        },
        BKind::Launch => BDef {
            name: "Launch Engine Segment",
            cost: vec![(R_ALLOY, 25u32), (R_CIRCUIT, 10u32), (R_LPART, 4u32)],
            hp: 320,
            power: -8,
            btime_tenths: 200,
            foot: 2,
            desc: "Build 6 segments to escape the necropolis.",
        },
    }
}

/// The cells a building of `kind` covers when placed with its corner at
/// `cell`, row by row.
pub open spec fn footprint(kind: BKind, cell: (i32, i32)) -> Seq<(i32, i32)> {
    let f = building_foot(kind) as int;
    Seq::new((f * f) as nat, |k: int| ((cell.0 + k % f) as i32, (cell.1 + k / f) as i32))
}

pub fn foot_cells(kind: BKind, cell: (i32, i32)) -> (v: Vec<(i32, i32)>)
    requires
        cell.0 <= i32::MAX - 2,
        cell.1 <= i32::MAX - 2,
    ensures
        v@ == footprint(kind, cell),
{
    let f = bdef(kind).foot;
    let mut v: Vec<(i32, i32)> = Vec::new();
    let mut dy: i32 = 0;
    while dy < f
        invariant
            f == building_foot(kind),
            1 <= f <= 2,
            0 <= dy <= f,
            cell.0 <= i32::MAX - 2,
            cell.1 <= i32::MAX - 2,
            v@.len() == dy * f,
            forall|k: int| 0 <= k < v@.len() ==> #[trigger] v@[k] == ((cell.0 + k % (f as int)) as i32, (cell.1 + k / (f as int)) as i32),
        decreases f - dy,
    {
        let mut dx: i32 = 0;
        while dx < f
            invariant
                f == building_foot(kind),
                1 <= f <= 2,
                0 <= dy < f,
                0 <= dx <= f,
                cell.0 <= i32::MAX - 2,
                cell.1 <= i32::MAX - 2,
                v@.len() == dy * f + dx,
                forall|k: int| 0 <= k < v@.len() ==> #[trigger] v@[k] == ((cell.0 + k % (f as int)) as i32, (cell.1 + k / (f as int)) as i32),
            decreases f - dx,
        {
            proof {
                let k = dy * f + dx;
                assert(k % (f as int) == dx && k / (f as int) == dy) by (nonlinear_arith)
                    requires
                        k == dy * f + dx,
                        0 <= dx < f,
                        0 <= dy,
                        1 <= f <= 2,
                ;
            }
            v.push((cell.0 + dx, cell.1 + dy));
            dx = dx + 1;
        }
        dy = dy + 1;
    }
    proof {
        assert(v@.len() == f * f);
    }
    v
}

/// Which resources a machine takes from the conveyor network.
pub open spec fn machine_accepts(kind: BKind, recipe: u8, res: usize) -> bool {
    match kind {
        BKind::Silo => true,
        BKind::Smelter => res == R_SCRAP,
        BKind::Loom => if recipe == 0 {
            res == R_ALLOY || res == R_CRYSTAL
        } else {
            res == R_ALLOY || res == R_CIRCUIT || res == R_RELIC
        },
        _ => false,
    }
}

pub fn accepts(kind: BKind, recipe: u8, res: usize) -> (b: bool)
    ensures
        b == machine_accepts(kind, recipe, res),
{
    match kind {
        BKind::Silo => true,
        BKind::Smelter => res == R_SCRAP,
        BKind::Loom => {
            if recipe == 0 {
                res == R_ALLOY || res == R_CRYSTAL
            } else {
                res == R_ALLOY || res == R_CIRCUIT || res == R_RELIC
            }
        },
        _ => false,
    }
}

/// What a crafting machine makes: it consumes `inputs` (kind, amount) and
/// produces one unit of `output` per cycle of `secs` seconds at full power,
/// while it holds fewer than `out_cap` units of output.
pub struct Recipe {
    pub inputs: Vec<(usize, u32)>,
    pub output: usize,
    pub out_cap: u32,
    pub secs: u32,
}

/// Smelters turn 2 scrap into 1 alloy every 3 s; looms turn 1 alloy and 1
/// crystal into 1 circuit every 4 s, or (any other recipe) 1 alloy, 2
/// circuits and 1 relic into 1 launch part every 6 s, holding at most 8.
pub open spec fn crafts(kind: BKind, recipe: u8) -> Option<(Seq<(usize, u32)>, usize, u32, u32)> {
    match kind {
        BKind::Smelter => Some((seq![(R_SCRAP, 2u32)], R_ALLOY, 16u32, 3u32)),
        BKind::Loom => if recipe == 0 {
            Some((seq![(R_ALLOY, 1u32), (R_CRYSTAL, 1u32)], R_CIRCUIT, 16u32, 4u32))
        } else {
            Some((seq![(R_ALLOY, 1u32), (R_CIRCUIT, 2u32), (R_RELIC, 1u32)], R_LPART, 8u32, 6u32))
        },
        _ => None,
    }
}

/// The recipe a machine of `kind` runs with loom setting `recipe`; None
/// for buildings that craft nothing.
pub fn recipe_of(kind: BKind, recipe: u8) -> (r: Option<Recipe>)
    ensures
        match (r, crafts(kind, recipe)) {
            (None, None) => true,
            (Some(x), Some((ins, out, cap, secs))) => x.inputs@ == ins && x.output == out && x.out_cap == cap
                && x.secs == secs,
            _ => false,
        },
{
    match kind {
        BKind::Smelter => Some(Recipe { inputs: vec![(R_SCRAP, 2u32)], output: R_ALLOY, out_cap: 16, secs: 3 }),
        BKind::Loom => {
            if recipe == 0 {
                Some(Recipe { inputs: vec![(R_ALLOY, 1u32), (R_CRYSTAL, 1u32)], output: R_CIRCUIT, out_cap: 16, secs: 4 })
            } else {
                Some(
                    Recipe {
                        inputs: vec![(R_ALLOY, 1u32), (R_CIRCUIT, 2u32), (R_RELIC, 1u32)],
                        output: R_LPART,
                        out_cap: 8,
                        secs: 6,
                    },
                )
            }
        },
        _ => None,
    }
}

/// The resources a machine's recipe consumes (none for non-crafters).
pub open spec fn inputs_of(kind: BKind, recipe: u8) -> Seq<(usize, u32)> {
    match crafts(kind, recipe) {
        Some((ins, _, _, _)) => ins,
        None => seq![],
    }
}

/// The production chain: a smelter turns 2 scrap into an alloy every 3 s
/// (holding up to 16); a loom on its first setting turns an alloy and a
/// crystal into a circuit every 4 s (up to 16), and on its second an alloy,
/// two circuits and a relic into a launch part every 6 s (up to 8). Nothing
/// else crafts. Silos take every kind of packet; only silos, smelters and
/// looms take packets at all.
pub proof fn lemma_production_chain(kind: BKind, recipe: u8, res: usize)
    ensures
        crafts(BKind::Smelter, recipe) == Some((seq![(R_SCRAP, 2u32)], R_ALLOY, 16u32, 3u32)),
        crafts(BKind::Loom, 0) == Some((seq![(R_ALLOY, 1u32), (R_CRYSTAL, 1u32)], R_CIRCUIT, 16u32, 4u32)),
        recipe != 0 ==> crafts(BKind::Loom, recipe) == Some((seq![(R_ALLOY, 1u32), (R_CIRCUIT, 2u32), (R_RELIC, 1u32)], R_LPART, 8u32, 6u32)),
        kind != BKind::Smelter && kind != BKind::Loom ==> crafts(kind, recipe) is None,
        machine_accepts(BKind::Silo, recipe, res),
        machine_accepts(kind, recipe, res) ==> kind == BKind::Silo || kind == BKind::Smelter || kind == BKind::Loom,
{
}

/// A crafting machine takes from the conveyor network exactly the
/// resources its recipe consumes.
pub proof fn lemma_crafters_take_their_inputs(kind: BKind, recipe: u8, res: usize)
    requires
        crafts(kind, recipe) is Some,
    ensures
        machine_accepts(kind, recipe, res) <==> exists|i: int|
            0 <= i < inputs_of(kind, recipe).len() && #[trigger] inputs_of(kind, recipe)[i].0 == res,
{
    let ins = inputs_of(kind, recipe);
    if machine_accepts(kind, recipe, res) {
        if kind == BKind::Smelter {
            assert(ins[0].0 == res);
        } else if recipe == 0 {
            if res == R_ALLOY {
                assert(ins[0].0 == res);
            } else {
                assert(ins[1].0 == res);
            }
        } else {
            if res == R_ALLOY {
                assert(ins[0].0 == res);
            } else if res == R_CIRCUIT {
                assert(ins[1].0 == res);
            } else {
                assert(ins[2].0 == res);
            }
        }
    }
}

// ---------------- research ----------------
/// Number of technologies.
pub const NTECH: usize = 24;

/// A technology's definition; research time is in whole seconds.
pub struct TechDef {
    pub name: &'static str,
    pub cat: &'static str,
    pub cost: Vec<(usize, u32)>,
    pub time_secs: u32,
    pub desc: &'static str,
}

/// Name of technology `i`.
pub open spec fn tech_name(i: usize) -> Seq<char> {
    if i == 0 {
        "Mag-Rail Packets"@
    } else if i == 1 {
        "Compression Silos"@
    } else if i == 2 {
        "Heuristic Sorters"@
    } else if i == 3 {
        "Overclock Protocols"@
    } else if i == 4 {
        "Long-Span Pylons"@
    } else if i == 5 {
        "Fusion Catalysis"@
    } else if i == 6 {
        "Photonic Banks"@
    } else if i == 7 {
        "Brownout Dampers"@
    } else if i == 8 {
        "Rail Autoloaders"@
    } else if i == 9 {
        "Arc Cascade"@
    } else if i == 10 {
        "Cluster Shells"@
    } else if i == 11 {
        "Aegis Capacitors"@
    } else if i == 12 {
        "Drone Servos"@
    } else if i == 13 {
        "Drone Plating"@
    } else if i == 14 {
        "Bandwidth Expansion"@
    } else if i == 15 {
        "Emergency Protocols"@
    } else if i == 16 {
        "Myofiber Weave"@
    } else if i == 17 {
        "Closed-Loop O2"@
    } else if i == 18 {
        "Superconductor Coils"@
    } else if i == 19 {
        "Resonant Hammer"@
    } else if i == 20 {
        "Radar Sweep"@
    } else if i == 21 {
        "Ruin Scanner"@
    } else if i == 22 {
        "Corruption Sheathing"@
    } else {
        "Nest Triangulation"@
    }
}

/// Research branch of technology `i`.
pub open spec fn tech_branch(i: usize) -> Seq<char> {
    if i == 0 {
        "Automation"@
    } else if i == 1 {
        "Automation"@
    } else if i == 2 {
        "Automation"@
    } else if i == 3 {
        "Automation"@
    } else if i == 4 {
        "Power"@
    } else if i == 5 {
        "Power"@
    } else if i == 6 {
        "Power"@
    } else if i == 7 {
        "Power"@
    } else if i == 8 {
        "Defense"@
    } else if i == 9 {
        "Defense"@
    } else if i == 10 {
        "Defense"@
    } else if i == 11 {
        "Defense"@
    } else if i == 12 {
        "Workers"@
    } else if i == 13 {
        "Workers"@
    } else if i == 14 {
        "Workers"@
    } else if i == 15 {
        "Workers"@
    } else if i == 16 {
        "Player"@
    } else if i == 17 {
        "Player"@
    } else if i == 18 {
        "Player"@
    } else if i == 19 {
        "Player"@
    } else if i == 20 {
        "Exploration"@
    } else if i == 21 {
        "Exploration"@
    } else if i == 22 {
        "Exploration"@
    } else {
        "Exploration"@
    }
}

/// What researching technology `i` costs.
pub open spec fn tech_cost(i: usize) -> Seq<(usize, u32)> {
    if i == 0 {
        seq![(R_SCRAP, 30u32), (R_CIRCUIT, 4u32)]
    } else if i == 1 {
        seq![(R_SCRAP, 40u32), (R_CIRCUIT, 4u32)]
    } else if i == 2 {
        seq![(R_CIRCUIT, 8u32), (R_CRYSTAL, 6u32)]
    } else if i == 3 {
        seq![(R_CIRCUIT, 10u32), (R_ALLOY, 20u32)]
    } else if i == 4 {
        seq![(R_SCRAP, 30u32), (R_CRYSTAL, 4u32)]
    } else if i == 5 {
        seq![(R_ALLOY, 25u32), (R_COOLANT, 10u32)]
    } else if i == 6 {
        seq![(R_CIRCUIT, 6u32), (R_CRYSTAL, 8u32)]
    } else if i == 7 {
        seq![(R_CIRCUIT, 8u32), (R_ALLOY, 10u32)]
    } else if i == 8 {
        seq![(R_ALLOY, 20u32), (R_CIRCUIT, 6u32)]
    } else if i == 9 {
        seq![(R_CRYSTAL, 12u32), (R_CIRCUIT, 6u32)]
    } else if i == 10 {
        seq![(R_ALLOY, 18u32), (R_CIRCUIT, 8u32)]
    } else if i == 11 {
        seq![(R_CRYSTAL, 10u32), (R_CIRCUIT, 10u32)]
    } else if i == 12 {
        seq![(R_ALLOY, 12u32), (R_CIRCUIT, 4u32)]
    } else if i == 13 {
        seq![(R_ALLOY, 16u32)]
    } else if i == 14 {
        seq![(R_CIRCUIT, 8u32), (R_RELIC, 4u32)]
    } else if i == 15 {
        seq![(R_CIRCUIT, 6u32), (R_ALLOY, 10u32)]
    } else if i == 16 {
        seq![(R_ALLOY, 10u32), (R_CRYSTAL, 4u32)]
    } else if i == 17 {
        seq![(R_CIRCUIT, 6u32), (R_COOLANT, 12u32)]
    } else if i == 18 {
        seq![(R_CRYSTAL, 10u32)]
    } else if i == 19 {
        seq![(R_ALLOY, 14u32), (R_RELIC, 4u32)]
    } else if i == 20 {
        seq![(R_SCRAP, 25u32), (R_CIRCUIT, 4u32)]
    } else if i == 21 {
        seq![(R_RELIC, 6u32), (R_CIRCUIT, 4u32)]
    } else if i == 22 {
        seq![(R_RELIC, 8u32), (R_COOLANT, 10u32)]
    } else {
        seq![(R_RELIC, 10u32), (R_CIRCUIT, 8u32)]
    }
}

/// Research time of technology `i`, in seconds at full reliquary power.
pub open spec fn tech_secs(i: usize) -> u32 {
    if i == 0 {
        25
    } else if i == 1 {
        25
    } else if i == 2 {
        30
    } else if i == 3 {
        35
    } else if i == 4 {
        22
    } else if i == 5 {
        35
    } else if i == 6 {
        30
    } else if i == 7 {
        28
    } else if i == 8 {
        30
    } else if i == 9 {
        30
    } else if i == 10 {
        35
    } else if i == 11 {
        35
    } else if i == 12 {
        22
    } else if i == 13 {
        22
    } else if i == 14 {
        30
    } else if i == 15 {
        25
    } else if i == 16 {
        22
    } else if i == 17 {
        28
    } else if i == 18 {
        25
    } else if i == 19 {
        30
    } else if i == 20 {
        22
    } else if i == 21 {
        25
    } else if i == 22 {
        28
    } else {
        30
    }
}

/// What technology `i` does.
pub open spec fn tech_desc(i: usize) -> Seq<char> {
    if i == 0 {
        "Conveyor packets move 60% faster."@
    } else if i == 1 {
        "Storage caps +80%."@
    } else if i == 2 {
        "Sorters draw no power; packet limit raised."@
    } else if i == 3 {
        "Machines 30% faster, +25% power draw."@
    } else if i == 4 {
        "Pylon link radius +40%."@
    } else if i == 5 {
        "Fusion kettles +25% output, half coolant."@
    } else if i == 6 {
        "Solar sails store light: 35% output at night."@
    } else if i == 7 {
        "Connected machines never drop below 55% speed."@
    } else if i == 8 {
        "Rail turrets fire 50% faster."@
    } else if i == 9 {
        "Arc weapons chain to 2 extra targets."@
    } else if i == 10 {
        "Mortars fire 3-shell clusters."@
    } else if i == 11 {
        "Shield domes hold double capacity."@
    } else if i == 12 {
        "Drones move 40% faster."@
    } else if i == 13 {
        "Drones gain 3 armor."@
    } else if i == 14 {
        "Command bandwidth +4 drones."@
    } else if i == 15 {
        "Drones repair critical buildings twice as fast."@
    } else if i == 16 {
        "Stamina +50%."@
    } else if i == 17 {
        "Oxygen drain halved."@
    } else if i == 18 {
        "Arc lance heat -40%."@
    } else if i == 19 {
        "Grav hammer radius & knockback +60%."@
    } else if i == 20 {
        "Radar masts reveal 60% further."@
    } else if i == 21 {
        "Ruins shown on minimap; salvage +50%."@
    } else if i == 22 {
        "Corrupted ground barely slows you."@
    } else {
        "All enemy nests revealed on the minimap."@
    }
}

/// The definition of technology `i`; indices from 23 up name the last one.
pub fn tdef(i: usize) -> (t: TechDef)
    ensures
        t.name@ == tech_name(i),
        t.cat@ == tech_branch(i),
        t.cost@ == tech_cost(i),
        t.time_secs == tech_secs(i),
        t.desc@ == tech_desc(i),
{
    if i == 0 {
        TechDef {
            name: "Mag-Rail Packets",
            cat: "Automation",
            cost: vec![(R_SCRAP, 30u32), (R_CIRCUIT, 4u32)],
            time_secs: 25,
            desc: "Conveyor packets move 60% faster.",
        }
    } else if i == 1 {
        TechDef {
            name: "Compression Silos",
            cat: "Automation",
            cost: vec![(R_SCRAP, 40u32), (R_CIRCUIT, 4u32)],
            time_secs: 25,
            desc: "Storage caps +80%.",
        }
    } else if i == 2 {
        TechDef {
            name: "Heuristic Sorters",
            cat: "Automation",
            cost: vec![(R_CIRCUIT, 8u32), (R_CRYSTAL, 6u32)],
            time_secs: 30,
            desc: "Sorters draw no power; packet limit raised.",
        }
    } else if i == 3 {
        TechDef {
            name: "Overclock Protocols",
            cat: "Automation",
            cost: vec![(R_CIRCUIT, 10u32), (R_ALLOY, 20u32)],
            time_secs: 35,
            desc: "Machines 30% faster, +25% power draw.",
        }
    } else if i == 4 {
        TechDef {
            name: "Long-Span Pylons",
            cat: "Power",
            cost: vec![(R_SCRAP, 30u32), (R_CRYSTAL, 4u32)],
            time_secs: 22,
            desc: "Pylon link radius +40%.",
        }
    } else if i == 5 {
        TechDef {
            name: "Fusion Catalysis",
            cat: "Power",
            cost: vec![(R_ALLOY, 25u32), (R_COOLANT, 10u32)],
            time_secs: 35,
            desc: "Fusion kettles +25% output, half coolant.",
        }
    } else if i == 6 {
        TechDef {
            name: "Photonic Banks",
            cat: "Power",
            cost: vec![(R_CIRCUIT, 6u32), (R_CRYSTAL, 8u32)],
            time_secs: 30,
            desc: "Solar sails store light: 35% output at night.",
        }
    } else if i == 7 {
        TechDef {
            name: "Brownout Dampers",
            cat: "Power",
            cost: vec![(R_CIRCUIT, 8u32), (R_ALLOY, 10u32)],
            time_secs: 28,
            desc: "Connected machines never drop below 55% speed.",
        }
    } else if i == 8 {
        TechDef {
            name: "Rail Autoloaders",
            cat: "Defense",
            cost: vec![(R_ALLOY, 20u32), (R_CIRCUIT, 6u32)],
            time_secs: 30,
            desc: "Rail turrets fire 50% faster.",
        }
    } else if i == 9 {
        TechDef {
            name: "Arc Cascade",
            cat: "Defense",
            cost: vec![(R_CRYSTAL, 12u32), (R_CIRCUIT, 6u32)],
            time_secs: 30,
            desc: "Arc weapons chain to 2 extra targets.",
        }
    } else if i == 10 {
        TechDef {
            name: "Cluster Shells",
            cat: "Defense",
            cost: vec![(R_ALLOY, 18u32), (R_CIRCUIT, 8u32)],
            time_secs: 35,
            desc: "Mortars fire 3-shell clusters.",
        }
    } else if i == 11 {
        TechDef {
            name: "Aegis Capacitors",
            cat: "Defense",
            cost: vec![(R_CRYSTAL, 10u32), (R_CIRCUIT, 10u32)],
            time_secs: 35,
            desc: "Shield domes hold double capacity.",
        }
    } else if i == 12 {
        TechDef {
            name: "Drone Servos",
            cat: "Workers",
            cost: vec![(R_ALLOY, 12u32), (R_CIRCUIT, 4u32)],
            time_secs: 22,
            desc: "Drones move 40% faster.",
        }
    } else if i == 13 {
        TechDef {
            name: "Drone Plating",
            cat: "Workers",
            cost: vec![(R_ALLOY, 16u32)],
            time_secs: 22,
            desc: "Drones gain 3 armor.",
        }
    } else if i == 14 {
        TechDef {
            name: "Bandwidth Expansion",
            cat: "Workers",
            cost: vec![(R_CIRCUIT, 8u32), (R_RELIC, 4u32)],
            time_secs: 30,
            desc: "Command bandwidth +4 drones.",
        }
    } else if i == 15 {
        TechDef {
            name: "Emergency Protocols",
            cat: "Workers",
            cost: vec![(R_CIRCUIT, 6u32), (R_ALLOY, 10u32)],
            time_secs: 25,
            desc: "Drones repair critical buildings twice as fast.",
        }
    } else if i == 16 {
        TechDef {
            name: "Myofiber Weave",
            cat: "Player",
            cost: vec![(R_ALLOY, 10u32), (R_CRYSTAL, 4u32)],
            time_secs: 22,
            desc: "Stamina +50%.",
        }
    } else if i == 17 {
        TechDef {
            name: "Closed-Loop O2",
            cat: "Player",
            cost: vec![(R_CIRCUIT, 6u32), (R_COOLANT, 12u32)],
            time_secs: 28,
            desc: "Oxygen drain halved.",
        }
    } else if i == 18 {
        TechDef {
            name: "Superconductor Coils",
            cat: "Player",
            cost: vec![(R_CRYSTAL, 10u32)],
            time_secs: 25,
            desc: "Arc lance heat -40%.",
        }
    } else if i == 19 {
        TechDef {
            name: "Resonant Hammer",
            cat: "Player",
            cost: vec![(R_ALLOY, 14u32), (R_RELIC, 4u32)],
            time_secs: 30,
            desc: "Grav hammer radius & knockback +60%.",
        }
    } else if i == 20 {
        TechDef {
            name: "Radar Sweep",
            cat: "Exploration",
            cost: vec![(R_SCRAP, 25u32), (R_CIRCUIT, 4u32)],
            time_secs: 22,
            desc: "Radar masts reveal 60% further.",
        }
    } else if i == 21 {
        TechDef {
            name: "Ruin Scanner",
            cat: "Exploration",
            cost: vec![(R_RELIC, 6u32), (R_CIRCUIT, 4u32)],
            time_secs: 25,
            desc: "Ruins shown on minimap; salvage +50%.",
        }
    } else if i == 22 {
        TechDef {
            name: "Corruption Sheathing",
            cat: "Exploration",
            cost: vec![(R_RELIC, 8u32), (R_COOLANT, 10u32)],
            time_secs: 28,
            desc: "Corrupted ground barely slows you.",
        }
    } else {
        TechDef {
            name: "Nest Triangulation",
            cat: "Exploration",
            cost: vec![(R_RELIC, 10u32), (R_CIRCUIT, 8u32)],
            time_secs: 30,
            desc: "All enemy nests revealed on the minimap.",
        }
    }
}

// ---------------- merchant ----------------
/// The merchant's offers: give (kind, amount), receive (kind, amount).
pub const TRADES: [(usize, u32, usize, u32); 4] = [
    (R_SCRAP, 25, R_CIRCUIT, 1),
    (R_CRYSTAL, 6, R_COOLANT, 12),
    (R_RELIC, 4, R_LPART, 1),
    (R_SCRAP, 30, R_CORE, 1),
];

} // verus!
