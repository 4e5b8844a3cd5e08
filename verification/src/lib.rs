//! Minefield generation for chat clients with spoiler markup: a grid with
//! randomly placed mines, the neighbour counts of its cells, and its rendering.

pub mod sampling;
pub mod neighbourhood;
pub mod minefield;
pub mod generator;
