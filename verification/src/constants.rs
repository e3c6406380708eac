use vstd::prelude::*;

verus! {

/// Longest principal variation kept.
pub const MAX_VARIATION_LENGTH: usize = 100;

/// Nodes searched between two looks at the clock.
pub const CHECK_TIMEOUT_NODES: u64 = 256;

/// A ply number: half-moves since the start of the game.
pub type Ply = u8;

/// The ply after both setup moves.
pub const PLY_AFTER_SETUP: Ply = 2;

/// The ply at which the game is drawn.
pub const PLY_DRAW: Ply = 102;

/// Search depth, in hundredths of a ply.
pub type Depth = u16;

/// One ply of search depth.
pub const ONE_PLY: Depth = 100;

/// Deepest search.
pub const MAX_SEARCH_DEPTH: Depth = 10000;

/// Depth added per iteration of iterative deepening.
pub const DEPTH_INCREMENT: Depth = 100;

/// A static evaluation.
pub type Eval = i32;

/// Killer moves kept per ply.
pub const NUM_KILLER_MOVES: usize = 2;

/// Setup index tried first for red.
pub const RED_SETUP_INDEX: usize = 10;

} // verus!
