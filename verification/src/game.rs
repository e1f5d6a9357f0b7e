//! The game on the hexagonal board: whose turn it is, what a click does, the
//! swap offered to the second player after the opening move, and the end.

use crate::board::{Board, CellState, Hex, Layout};
use crate::region::Shape;
use vstd::prelude::*;
use vstd::set_lib::lemma_len_subset;

verus! {

/// The side length of the board of a new game.
pub const DEFAULT_BOARD_SIZE: i32 = 11;

/// Where a game stands.
#[derive(Debug, PartialEq, Eq, Structural, Clone, Copy)]
pub enum GameState {
    /// The current player is to place a piece.
    InProgress,
    /// The game is over; nothing changes any more.
    Finished { winner: CellState },
    /// The opening move has been played and the current player decides
    /// whether to take it over.
    WaitingForPieRuleChoice,
}

/// The player who is not `player`.
pub open spec fn other(player: CellState) -> CellState {
    match player {
        CellState::Red => CellState::Blue,
        CellState::Blue => CellState::Red,
        CellState::Empty => CellState::Empty,
    }
}

/// A game as a mathematical value.
pub struct Position {
    pub board: Layout,
    pub current_player: CellState,
    pub state: GameState,
    pub turn_count: nat,
    pub first_player_move: Option<Hex>,
}

impl Position {
    /// What holds of every game that the engine has produced: the board is
    /// whole and small enough for its turns to be counted; a player is to
    /// move; no more turns were played than cells are claimed; the wait for
    /// the swap decision follows the first turn and remembers its cell; and
    /// a winner has joined their edges.
    pub open spec fn wf(self) -> bool {
        &&& self.board.wf()
        &&& self.board.cells.dom().finite()
        &&& self.board.cells.len() <= u32::MAX
        &&& self.current_player != CellState::Empty
        &&& self.turn_count <= self.board.claimed().len()
        &&& self.state == GameState::WaitingForPieRuleChoice ==> {
            &&& self.turn_count == 1
            &&& self.first_player_move matches Some(first)
            &&& self.board.cells.contains_key(first)
            &&& self.board.cells[first] != CellState::Empty
        }
        &&& self.state matches GameState::Finished { winner } ==> {
            &&& winner != CellState::Empty
            &&& self.board.connected(winner)
        }
    }

    /// A click on `hex` is accepted: the game is in progress and `hex` is an
    /// empty cell of the board.
    pub open spec fn accepts(self, hex: Hex) -> bool {
        self.state == GameState::InProgress && self.board.owns(CellState::Empty, hex)
    }

    /// The game after a click on `hex`. A click that is not accepted changes
    /// nothing. An accepted click claims the cell for the current player and
    /// counts a turn. After the very first turn the other player is asked
    /// whether to swap. After any later turn the game is finished if the
    /// mover has joined their edges, and else the other player is to move.
    pub open spec fn click(self, hex: Hex) -> Position {
        if !self.accepts(hex) {
            self
        } else {
            let board = self.board.with(hex, self.current_player);
            let turn_count = self.turn_count + 1;
            if turn_count == 1 {
                Position {
                    board,
                    current_player: other(self.current_player),
                    state: GameState::WaitingForPieRuleChoice,
                    turn_count,
                    first_player_move: Some(hex),
                }
            } else if board.connected(self.current_player) {
                Position {
                    board,
                    state: GameState::Finished { winner: self.current_player },
                    turn_count,
                    ..self
                }
            } else {
                Position { board, current_player: other(self.current_player), turn_count, ..self }
            }
        }
    }

    /// The game after the swap decision. Outside the wait for that decision
    /// nothing changes. To swap hands the opening piece to the current
    /// player; to decline leaves the board alone. Either way the current
    /// player stays and the game is in progress again.
    pub open spec fn decide(self, swap: bool) -> Position {
        if self.state != GameState::WaitingForPieRuleChoice {
            self
        } else {
            let board = match self.first_player_move {
                Some(first) if swap && self.board.cells.contains_key(first) => self.board.with(
                    first,
                    self.current_player,
                ),
                _ => self.board,
            };
            Position { board, state: GameState::InProgress, ..self }
        }
    }
}

/// The claimed cells of a board stay within its cells; an empty cell is
/// none of them, and claiming it adds exactly one.
pub proof fn lemma_claim_one(board: Layout, hex: Hex, player: CellState)
    requires
        board.cells.dom().finite(),
        board.owns(CellState::Empty, hex),
        player != CellState::Empty,
    ensures
        board.claimed().finite(),
        board.with(hex, player).claimed() == board.claimed().insert(hex),
        board.with(hex, player).claimed().len() == board.claimed().len() + 1,
        board.with(hex, player).claimed().len() <= board.cells.len(),
{
    let after = board.with(hex, player);
    assert(board.claimed().subset_of(board.cells.dom()));
    lemma_len_subset(board.claimed(), board.cells.dom());
    assert(after.claimed() =~= board.claimed().insert(hex));
    assert(after.claimed().subset_of(board.cells.dom()));
    lemma_len_subset(after.claimed(), board.cells.dom());
}

/// Handing a claimed cell to a player leaves the set of claimed cells as it
/// was.
pub proof fn lemma_claim_kept(board: Layout, hex: Hex, player: CellState)
    requires
        board.cells.contains_key(hex),
        board.cells[hex] != CellState::Empty,
        player != CellState::Empty,
    ensures
        board.with(hex, player).claimed() == board.claimed(),
{
    assert(board.with(hex, player).claimed() =~= board.claimed());
}

/// A click and a swap decision turn a well-formed game into a well-formed
/// game, on the same cells.
pub proof fn lemma_moves_keep_wf(pos: Position, hex: Hex, swap: bool)
    requires
        pos.wf(),
    ensures
        pos.click(hex).wf(),
        pos.decide(swap).wf(),
        pos.click(hex).board.cells.dom() == pos.board.cells.dom(),
        pos.decide(swap).board.cells.dom() == pos.board.cells.dom(),
{
    if pos.accepts(hex) {
        lemma_claim_one(pos.board, hex, pos.current_player);
        assert(pos.click(hex).board.cells.dom() =~= pos.board.cells.dom());
    }
    if pos.state == GameState::WaitingForPieRuleChoice && swap {
        let first = pos.first_player_move->0;
        lemma_claim_kept(pos.board, first, pos.current_player);
        assert(pos.decide(swap).board.cells.dom() =~= pos.board.cells.dom());
    }
}

/// The turn counter goes up by exactly one with each accepted click, and
/// stays with every other call: a refused click and a swap decision leave it
/// alone.
pub proof fn lemma_turns_count_accepted_clicks(pos: Position, hex: Hex, swap: bool)
    ensures
        pos.accepts(hex) ==> pos.click(hex).turn_count == pos.turn_count + 1,
        !pos.accepts(hex) ==> pos.click(hex) == pos,
        pos.decide(swap).turn_count == pos.turn_count,
{
}

/// A finished game is final: no click and no decision changes anything.
pub proof fn lemma_finished_is_final(pos: Position, hex: Hex, swap: bool)
    requires
        pos.state is Finished,
    ensures
        pos.click(hex) == pos,
        pos.decide(swap) == pos,
{
}

/// The wait for a swap decision begins with the first turn and with no
/// other, it holds the mover's piece on the remembered cell, and the
/// decision ends it: the game is then in progress, with the same player to
/// move and the same number of turns.
pub proof fn lemma_swap_follows_opening(pos: Position, hex: Hex, swap: bool)
    requires
        pos.wf(),
    ensures
        pos.accepts(hex) ==> (pos.click(hex).state == GameState::WaitingForPieRuleChoice
            <==> pos.turn_count == 0),
        pos.accepts(hex) && pos.turn_count == 0 ==> {
            &&& pos.click(hex).first_player_move == Some(hex)
            &&& pos.click(hex).current_player == other(pos.current_player)
            &&& pos.click(hex).board.cells[hex] == pos.current_player
        },
        pos.state == GameState::WaitingForPieRuleChoice ==> {
            &&& pos.turn_count == 1
            &&& pos.decide(swap).state == GameState::InProgress
            &&& pos.decide(swap).current_player == pos.current_player
            &&& pos.decide(swap).board == if swap {
                pos.board.with(pos.first_player_move->0, pos.current_player)
            } else {
                pos.board
            }
        },
{
}

/// After an accepted click that does not open the game, the game is
/// finished with the mover as winner exactly if the mover has joined their
/// edges; if not, the turn passes to the other player.
pub proof fn lemma_click_decides(pos: Position, hex: Hex)
    requires
        pos.accepts(hex),
        pos.turn_count > 0,
    ensures
        pos.click(hex).board == pos.board.with(hex, pos.current_player),
        pos.click(hex).board.connected(pos.current_player) ==> {
            &&& pos.click(hex).state == (GameState::Finished { winner: pos.current_player })
            &&& pos.click(hex).current_player == pos.current_player
        },
        !pos.click(hex).board.connected(pos.current_player) ==> {
            &&& pos.click(hex).state == GameState::InProgress
            &&& pos.click(hex).current_player == other(pos.current_player)
        },
{
}

/// The game: the board, the player to move, the state, the number of turns
/// played, and the cell of the opening move. The fields are there to be
/// read; all changes go through `handle_click` and
/// `handle_pie_rule_decision`.
pub struct Game {
    pub board: Board,
    pub current_player: CellState,
    pub state: GameState,
    pub turn_count: u32,
    pub first_player_move: Option<Hex>,
}

impl View for Game {
    type V = Position;

    open spec fn view(&self) -> Position {
        Position {
            board: self.board@,
            current_player: self.current_player,
            state: self.state,
            turn_count: self.turn_count as nat,
            first_player_move: self.first_player_move,
        }
    }
}

fn flip(player: CellState) -> (next: CellState)
    ensures
        next == other(player),
{
    match player {
        CellState::Red => CellState::Blue,
        CellState::Blue => CellState::Red,
        _ => player,
    }
}

impl Game {
    /// The game is one that the engine has produced.
    pub open spec fn wf(&self) -> bool {
        self@.wf()
    }

    /// A new game on a blank rhombus board of the default size. Red moves
    /// first.
    pub fn new() -> (game: Game)
        ensures
            game.wf(),
            game@.board.blank(),
            game.board.size == DEFAULT_BOARD_SIZE,
            game.board.shape == Shape::Rhombus,
            game.current_player == CellState::Red,
            game.state == GameState::InProgress,
            game.turn_count == 0,
            game.first_player_move == None::<Hex>,
    {
        Game::with_board(Board::new(DEFAULT_BOARD_SIZE))
    }

    /// A new game on the given board, which has at most `u32::MAX` cells, so
    /// that the turns can be counted. Red moves first.
    pub fn with_board(board: Board) -> (game: Game)
        requires
            board.wf(),
            board@.cells.len() <= u32::MAX,
        ensures
            game.wf(),
            game.board == board,
            game.current_player == CellState::Red,
            game.state == GameState::InProgress,
            game.turn_count == 0,
            game.first_player_move == None::<Hex>,
    {
        proof {
            board.cells.lemma_finite();
        }
        Game {
            board,
            current_player: CellState::Red,
            state: GameState::InProgress,
            turn_count: 0,
            first_player_move: None,
        }
    }

    /// Plays a click of the current player on `hex`. A click while the game
    /// is not in progress, outside the board, or on a claimed cell is
    /// ignored and leaves the game exactly as it was.
    pub fn handle_click(&mut self, hex: Hex)
        requires
            old(self).wf(),
        ensures
            final(self).wf(),
            final(self)@ == old(self)@.click(hex),
            !old(self)@.accepts(hex) ==> *final(self) == *old(self),
    {
        if self.state != GameState::InProgress {
            return;
        }
        if self.board.is_valid_move(&hex) {
            let mover = self.current_player;
            proof {
                lemma_claim_one(self.board@, hex, mover);
            }
            self.board.set_cell(hex, mover);
            self.turn_count += 1;

            if self.turn_count == 1 {
                self.first_player_move = Some(hex);
                self.current_player = flip(mover);
                self.state = GameState::WaitingForPieRuleChoice;
                return;
            }
            if self.check_win_condition() {
                self.state = GameState::Finished { winner: mover };
            } else {
                self.current_player = flip(mover);
            }
        }
    }

    /// Takes the current player's answer to the offer of a swap. Outside the
    /// wait for that answer the call is ignored. With `apply_pie_rule` the
    /// opening piece becomes the current player's; without it the board
    /// stays. The current player stays, and the game goes on.
    pub fn handle_pie_rule_decision(&mut self, apply_pie_rule: bool)
        requires
            old(self).wf(),
        ensures
            final(self).wf(),
            final(self)@ == old(self)@.decide(apply_pie_rule),
            old(self).state != GameState::WaitingForPieRuleChoice ==> *final(self) == *old(self),
    {
        if self.state != GameState::WaitingForPieRuleChoice {
            return;
        }
        if apply_pie_rule {
            if let Some(first) = self.first_player_move {
                proof {
                    lemma_claim_kept(self.board@, first, self.current_player);
                }
                self.board.set_cell(first, self.current_player);
            }
        }
        self.state = GameState::InProgress;
    }

    /// Whether the current player has joined their two edges of the board.
    pub fn check_win_condition(&self) -> (won: bool)
        requires
            self.board.wf(),
        ensures
            won == self@.board.connected(self.current_player),
    {
        self.board.connects(self.current_player)
    }
}

} // verus!
