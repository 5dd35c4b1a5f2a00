//! Cellular automata on a grid: Conway's Game of Life and the elementary
//! one-dimensional automata, together with the controllers that expose them
//! to a viewer.

pub mod elementary;
pub mod elementary_controller;
pub mod game_of_life;
pub mod game_of_life_controller;
pub mod grid_view;
pub mod raster;
pub mod rng;
pub mod round_trip;
pub mod snapshot;
