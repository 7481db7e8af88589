//! Simulation core of a chunked two-dimensional tile world: a store of
//! tiles in chunks, and the passes that make loose tiles fall and liquids
//! flow.

pub mod flow;
pub mod gravity;
pub mod grid;
pub mod line;
pub mod order;
pub mod players;
pub mod sorting;
pub mod table;
pub mod tileoutline;
pub mod tilephysics;
pub mod tiles;
pub mod tiletypes;
pub mod world;
