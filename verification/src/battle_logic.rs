//! What a battle needs to know of the level.

use vstd::prelude::*;

verus! {

/// At whom an attack or a spell is aimed.
#[derive(Debug, Clone, Copy, PartialEq, Eq, Structural, Hash)]
pub enum Target {
    /// At the one who acts.
    TheSelf,
    /// At the enemy with the given number.
    Enemy(usize),
}

/// Whether a battle that was over is over still after a turn: it is not
/// once no enemy is left.
pub fn stays_over(over: bool, enemies_left: usize) -> (r: bool)
    ensures
        r == (over && enemies_left != 0),
{
    over && enemies_left != 0
}

} // verus!
