//! A rectangular grid editor for a pathfinding playground: cells with a
//! position and a kind, lookup and neighbour queries, and the phase machine
//! that places a start, a destination and walls, then marks visited cells.

pub mod grid;
pub mod playground;
