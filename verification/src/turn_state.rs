//! Whose turn it is, and how the game ends.
use vstd::prelude::*;

verus! {

#[derive(Clone, Copy, Debug, PartialEq, Eq, Structural)]
pub enum TurnState {
    AwaitingInput,
    PlayerTurn,
    EnemyTurn,
    GameOver,
    Victory,
    NextLevel,
}

} // verus!
