//! The settings of the engine.

use vstd::prelude::*;

verus! {

/// The settings of the engine.
#[derive(Clone, Copy, Debug, PartialEq, Eq, Structural)]
pub struct Config {
    /// The number of cells in a row of the grid.
    pub intermediate_width: u32,
    /// The number of rows of the grid.
    pub intermediate_height: u32,
    /// Whether a matched tile leaves the pool.
    pub prioritize_unique: bool,
    /// The distance a tile must stay below to be matched.
    pub unique_threshold: usize,
    /// The side length of every thumbnail and of every block of the canvas.
    pub subpixel_size: u32,
}

impl Config {
    /// The settings a session starts with: a grid of 32 by 32 cells, blocks
    /// of 16 by 16 pixels, uniqueness on and a threshold of 100.
    pub open spec fn initial() -> Config {
        Config {
            intermediate_width: 32,
            intermediate_height: 32,
            prioritize_unique: true,
            unique_threshold: 100,
            subpixel_size: 16,
        }
    }
}

impl Default for Config {
    /// The settings a session starts with.
    fn default() -> (config: Config)
        ensures
            config == Config::initial(),
    {
        Config {
            intermediate_width: 32,
            intermediate_height: 32,
            prioritize_unique: true,
            unique_threshold: 100,
            subpixel_size: 16,
        }
    }
}

} // verus!
