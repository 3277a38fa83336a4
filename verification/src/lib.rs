//! Core rules of a 2D mining game: the tile grid, digging, tools, the
//! inventory and shop economy, conveyor belts, smelting, terrain
//! generation, chunk meshing tables and command-line mode selection.

pub mod coords;
pub mod items;
pub mod grid;
pub mod tools;
pub mod inventory;
pub mod economy;
pub mod dig;
pub mod belt;
pub mod belt_tick;
pub mod terrain_gen;
pub mod processing;
pub mod net;
pub mod chunks;
pub mod marching_squares;
pub mod net_events;
pub mod save;
