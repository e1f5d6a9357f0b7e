//! Why a move was refused.

use vstd::prelude::*;

verus! {

/// The reasons for which the engine refuses a move. A refused move changes
/// nothing.
#[derive(Clone, Copy, Debug, PartialEq, Eq, Structural)]
pub enum MoveError {
    /// A coordinate of the move is no cell of the board.
    OutOfBounds,
    /// A cell of the move belongs to the other player.
    Occupied,
    /// The two cells of a block do not have the same height.
    DifferentHeights,
    /// The two cells of a block do not touch along a side.
    NotAdjacent,
    /// The move was made by the player who is not to move.
    NotYourTurn,
}

impl MoveError {
    /// The text of the message for this error.
    pub open spec fn text(self) -> Seq<char> {
        match self {
            MoveError::OutOfBounds => "Coordinate is out of bounds"@,
            MoveError::Occupied => "Cell belongs to the other player"@,
            MoveError::DifferentHeights => "Cells have different heights"@,
            MoveError::NotAdjacent => "Cells are not adjacent"@,
            MoveError::NotYourTurn => "Not your turn"@,
        }
    }

    /// A short message for the player.
    pub fn message(&self) -> (msg: &'static str)
        ensures
            msg@ == self.text(),
    {
        match self {
            MoveError::OutOfBounds => "Coordinate is out of bounds",
            MoveError::Occupied => "Cell belongs to the other player",
            MoveError::DifferentHeights => "Cells have different heights",
            MoveError::NotAdjacent => "Cells are not adjacent",
            MoveError::NotYourTurn => "Not your turn",
        }
    }
}

} // verus!
