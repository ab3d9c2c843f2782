//! Algorithm constants shared by the engine.

use vstd::prelude::*;

verus! {

/// Number of top adjacency candidates to consider (the one value used by
/// position selection).
pub const ADJACENCY_CANDIDATES_CONSIDERED: usize = 30;

/// Number of top candidates kept for the final weighted draw.
pub const CANDIDATES_CONSIDERED: usize = 15;

/// Side length of an extracted tile.
pub const TILE_SIZE: usize = 3;

/// Maximum distance of pattern influence effects.
pub const PATTERN_INFLUENCE_DISTANCE: usize = 6;

/// Radius for grid extension operations.
pub const GRID_EXTENSION_RADIUS: usize = 6;

/// Maximum allowed grid dimension.
pub const MAX_GRID_DIMENSION: usize = 10_000;

/// Initial radius for deadlock resolution.
pub const BASE_REMOVAL_RADIUS: i32 = 0;

/// Maximum radius for deadlock resolution.
pub const MAX_REMOVAL_RADIUS: i32 = 6;

/// Number of adjacency levels around a placed tile.
pub const ADJACENCY_LEVELS: usize = 2;

/// Threshold for switching to batch progress mode.
pub const MAX_INDIVIDUAL_PROGRESS_BARS: usize = 5;

/// Width of progress bars in characters.
pub const PROGRESS_BAR_WIDTH: u16 = 50;

/// Fixed seed for reproducible generation.
pub const DEFAULT_SEED: u64 = 42;

/// Default maximum iterations before stopping.
pub const DEFAULT_MAX_ITERATIONS: usize = 1000;

/// Suffix added to output file names.
pub const OUTPUT_SUFFIX: &'static str = "_result";

/// Delay between animation frames, in milliseconds.
pub const GIF_FRAME_DELAY_MS: u32 = 5;

/// Minimum frame delay that viewers reliably support, in milliseconds.
pub const VIEWER_MIN_FRAME_DELAY_MS: u32 = 50;

} // verus!
