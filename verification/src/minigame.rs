//! The lifecycle that every mini-game offers to its host.

use vstd::prelude::*;

verus! {

/// What a host needs to know of a mini-game to run it.
pub trait MiniGame {
    /// Human-readable name of the mini-game.
    fn name(&self) -> &'static str;

    /// Score from which the mini-game counts as completed.
    fn completion_threshold(&self) -> u64;

    /// Number of lives at the start. Three, unless the mini-game says otherwise.
    fn starting_lives(&self) -> (lives: i32)
        default_ensures
            lives == 3,
    {
        3
    }
}

} // verus!
