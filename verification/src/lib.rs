use vstd::prelude::*;

pub mod aggregator;
pub mod camera;
pub mod driver;
pub mod flood;
pub mod generate;
pub mod grid;
pub mod sprites;

verus! {

/// The failures the game core can report.
#[derive(Clone, Copy, Debug, PartialEq, Eq, Structural)]
pub enum GameError {
    /// `mine_count` does not fit the board, or a board dimension is out of range.
    ConfigurationError,
    /// A sprite name was looked up that the atlas table does not hold.
    MissingSprite,
    /// `remove_by_value` was called on a group that does not exist.
    StateInconsistency,
    /// The first-click board regeneration retry bound was exhausted.
    RegenerationExhausted,
}

} // verus!
