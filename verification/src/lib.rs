pub mod building;
pub mod clock;
pub mod defs;
pub mod enemies;
pub mod events;
pub mod flow;
pub mod fog;
pub mod grid;
pub mod kinds;
pub mod logistics;
pub mod menus;
pub mod player;
pub mod power;
pub mod procgen;
pub mod research;
pub mod rng;
pub mod save;
pub mod tutorial;
pub mod workers;
pub mod worldgen;
