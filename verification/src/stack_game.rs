//! The stacking game: two players take turns to lay blocks, and the first to
//! join their two edges of the board wins.

use crate::error::MoveError;
use crate::stacking::{Coord, Player, StackBoard, Stacks};
use vstd::prelude::*;

verus! {

/// Where a stacking game stands.
#[derive(Debug, PartialEq, Eq, Structural, Clone, Copy)]
pub enum StackState {
    /// The current player is to lay a block.
    InProgress,
    /// The game is over; nothing changes any more.
    Finished { winner: Player },
}

/// A stacking game as a mathematical value.
pub struct StackPosition {
    pub board: Stacks,
    pub current_player: Player,
    pub state: StackState,
    pub turn_count: nat,
}

impl StackPosition {
    /// What holds of every game that the engine has produced: the board is
    /// the square grid, no cell is higher than the number of turns, and a
    /// winner has joined their edges.
    pub open spec fn wf(self) -> bool {
        &&& self.board.wf()
        &&& forall|c: Coord| #[trigger]
            self.board.cells.contains_key(c) ==> self.board.cells[c].height <= self.turn_count
        &&& self.state matches StackState::Finished { winner } ==> self.board.connected(winner)
    }

    /// Why the move of `player` over `a` and `b` is refused, if it is. A
    /// finished game refuses nothing: it ignores the move. Otherwise a move
    /// out of turn is refused before the board is looked at, and then the
    /// rules of the board apply.
    pub open spec fn refusal(self, player: Player, a: Coord, b: Coord) -> Option<MoveError> {
        if self.state is Finished {
            None
        } else if player != self.current_player {
            Some(MoveError::NotYourTurn)
        } else {
            self.board.refusal(player, a, b)
        }
    }

    /// The game after the move of `player` over `a` and `b`. A finished game
    /// and a refused move change nothing. An accepted move lays the block
    /// and counts a turn; the game is then finished if the mover has joined
    /// their edges, and else the other player is to move.
    pub open spec fn submit(self, player: Player, a: Coord, b: Coord) -> StackPosition {
        if self.state is Finished || self.refusal(player, a, b) is Some {
            self
        } else {
            let board = self.board.stacked(player, a, b);
            let turn_count = self.turn_count + 1;
            if board.connected(player) {
                StackPosition {
                    board,
                    state: StackState::Finished { winner: player },
                    turn_count,
                    ..self
                }
            } else {
                StackPosition { board, current_player: player.rival(), turn_count, ..self }
            }
        }
    }

    /// The player whose chain joins their edges, if there is one; White is
    /// looked at first.
    pub open spec fn victor(self) -> Option<Player> {
        if self.board.connected(Player::White) {
            Some(Player::White)
        } else if self.board.connected(Player::Black) {
            Some(Player::Black)
        } else {
            None
        }
    }
}

/// A move turns a well-formed game into a well-formed game.
pub proof fn lemma_submit_keeps_wf(pos: StackPosition, player: Player, a: Coord, b: Coord)
    requires
        pos.wf(),
    ensures
        pos.submit(player, a, b).wf(),
{
    let next = pos.submit(player, a, b);
    if !(pos.state is Finished) && pos.refusal(player, a, b) is None {
        assert forall|c: Coord| #[trigger] next.board.cells.contains_key(c) implies next.board
            .cells[c].height <= next.turn_count by {
            assert(pos.board.cells.contains_key(a));
            assert(pos.board.cells.contains_key(b));
            if c != a && c != b {
                assert(pos.board.cells.contains_key(c));
            }
        }
    }
}

/// The turn counter goes up by exactly one with each accepted move; a
/// refused move, and any move after the end, changes nothing at all.
pub proof fn lemma_turns_count_accepted_moves(pos: StackPosition, player: Player, a: Coord, b: Coord)
    ensures
        !(pos.state is Finished) && pos.refusal(player, a, b) is None ==> pos.submit(
            player,
            a,
            b,
        ).turn_count == pos.turn_count + 1,
        pos.state is Finished || pos.refusal(player, a, b) is Some ==> pos.submit(player, a, b)
            == pos,
{
}

/// While the game is in progress, a move by the player who is not to move
/// is refused with `NotYourTurn`, whatever the cells are, and changes
/// nothing.
pub proof fn lemma_out_of_turn(pos: StackPosition, player: Player, a: Coord, b: Coord)
    requires
        pos.state == StackState::InProgress,
        player != pos.current_player,
    ensures
        pos.refusal(player, a, b) == Some(MoveError::NotYourTurn),
        pos.submit(player, a, b) == pos,
{
}

/// The stacking game: the board, the player to move, the state, and the
/// number of turns played. The fields are there to be read; all changes go
/// through `submit_move`.
pub struct StackGame {
    pub board: StackBoard,
    pub current_player: Player,
    pub state: StackState,
    pub turn_count: u32,
}

impl View for StackGame {
    type V = StackPosition;

    open spec fn view(&self) -> StackPosition {
        StackPosition {
            board: self.board@,
            current_player: self.current_player,
            state: self.state,
            turn_count: self.turn_count as nat,
        }
    }
}

impl StackGame {
    /// The game is one that the engine has produced.
    pub open spec fn wf(&self) -> bool {
        self.board.wf() && self@.wf()
    }

    /// A new game on a blank board. White moves first.
    pub fn new() -> (game: StackGame)
        ensures
            game.wf(),
            game@.board.blank(),
            game.current_player == Player::White,
            game.state == StackState::InProgress,
            game.turn_count == 0,
    {
        StackGame {
            board: StackBoard::new(),
            current_player: Player::White,
            state: StackState::InProgress,
            turn_count: 0,
        }
    }

    /// Plays the move of `player`: a block over `a` and `b`. A finished game
    /// ignores the call and answers `Ok`. A move out of turn is refused with
    /// `NotYourTurn` before anything else is looked at; a move against the
    /// rules of the board is refused with the board's error. A refused move
    /// leaves the game exactly as it was. The turn counter must have room
    /// for one more turn.
    pub fn submit_move(&mut self, player: Player, a: Coord, b: Coord) -> (res: Result<
        (),
        MoveError,
    >)
        requires
            old(self).wf(),
            old(self).turn_count < u32::MAX,
        ensures
            final(self).wf(),
            res == match old(self)@.refusal(player, a, b) {
                Some(e) => Err::<(), MoveError>(e),
                None => Ok::<(), MoveError>(()),
            },
            final(self)@ == old(self)@.submit(player, a, b),
            res is Err || old(self).state is Finished ==> *final(self) == *old(self),
    {
        if let StackState::Finished { .. } = self.state {
            return Ok(());
        }
        if player != self.current_player {
            return Err(MoveError::NotYourTurn);
        }
        proof {
            lemma_submit_keeps_wf(self@, player, a, b);
        }
        match self.board.place_block(player, a, b) {
            Err(e) => {
                return Err(e);
            },
            Ok(_) => {},
        }
        self.turn_count += 1;
        if self.board.connects(player) {
            self.state = StackState::Finished { winner: player };
        } else {
            self.current_player = player.opponent();
        }
        Ok(())
    }

    /// The player who has joined their two edges of the board, if one has;
    /// White is looked at first.
    pub fn check_win_condition(&self) -> (winner: Option<Player>)
        requires
            self.board.wf(),
        ensures
            winner == self@.victor(),
    {
        if self.board.connects(Player::White) {
            Some(Player::White)
        } else if self.board.connects(Player::Black) {
            Some(Player::Black)
        } else {
            None
        }
    }
}

} // verus!
