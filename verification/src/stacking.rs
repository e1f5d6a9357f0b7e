//! The stacking game's board: a square grid on which a move lays a block
//! over two cells that touch, raising both by one.

use crate::error::MoveError;
use vstd::prelude::*;

verus! {

/// The number of cells along each side of the stacking board.
pub const STACK_BOARD_SIZE: usize = 10;

/// The two players of the stacking game. White joins the row `y == 0` to
/// the last row, Black joins the column `x == 0` to the last column.
#[derive(Clone, Copy, Debug, PartialEq, Eq, Structural)]
pub enum Player {
    White,
    Black,
}

impl Player {
    /// The other player.
    pub open spec fn rival(self) -> Player {
        match self {
            Player::White => Player::Black,
            Player::Black => Player::White,
        }
    }

    /// The other player.
    pub fn opponent(self) -> (next: Player)
        ensures
            next == self.rival(),
    {
        match self {
            Player::White => Player::Black,
            Player::Black => Player::White,
        }
    }
}

/// Who holds a cell. That nobody does is a value of its own, not a third
/// player.
#[derive(Clone, Copy, Debug, PartialEq, Eq, Structural)]
pub enum Owner {
    Unclaimed,
    OwnedBy(Player),
}

/// A cell of the stacking board: its owner and the number of blocks on it.
#[derive(Clone, Copy, Debug, PartialEq, Eq, Structural)]
pub struct StackCell {
    pub owner: Owner,
    pub height: u32,
}

/// A coordinate `(x, y)` of the square grid.
#[derive(Clone, Copy, Debug, PartialEq, Eq, Structural, Hash)]
pub struct Coord {
    pub x: usize,
    pub y: usize,
}

/// Whether `c` is a cell of the board.
pub open spec fn in_bounds(c: Coord) -> bool {
    c.x < STACK_BOARD_SIZE && c.y < STACK_BOARD_SIZE
}

/// The distance between two values.
pub open spec fn span(a: int, b: int) -> int {
    if a >= b {
        a - b
    } else {
        b - a
    }
}

/// Two cells touch along a side: `|dx| + |dy| == 1`.
pub open spec fn touching(a: Coord, b: Coord) -> bool {
    span(a.x as int, b.x as int) + span(a.y as int, b.y as int) == 1
}

/// Where the board keeps the cell `c`: rows one after another.
pub open spec fn index_of(c: Coord) -> int {
    c.y * STACK_BOARD_SIZE + c.x
}

/// The place one step from `c` in direction `d`: 0 is north `(x, y - 1)`,
/// 1 east `(x + 1, y)`, 2 south `(x, y + 1)`, 3 west `(x - 1, y)`.
pub open spec fn step(c: Coord, d: int) -> (int, int) {
    if d == 0 {
        (c.x as int, c.y - 1)
    } else if d == 1 {
        (c.x + 1, c.y as int)
    } else if d == 2 {
        (c.x as int, c.y + 1)
    } else {
        (c.x - 1, c.y as int)
    }
}

/// Whether the place `p` is a cell of the board.
pub open spec fn inside(p: (int, int)) -> bool {
    0 <= p.0 < STACK_BOARD_SIZE && 0 <= p.1 < STACK_BOARD_SIZE
}

/// The neighbour of `c` in direction `d`, if the board has one there.
pub open spec fn neighbor_toward(c: Coord, d: int) -> Seq<Coord> {
    if inside(step(c, d)) {
        seq![Coord { x: step(c, d).0 as usize, y: step(c, d).1 as usize }]
    } else {
        Seq::empty()
    }
}

/// The cells of the board that touch `c`, in the order north, east, south,
/// west. A cell on an edge has fewer than four.
pub open spec fn orth_neighbors(c: Coord) -> Seq<Coord> {
    neighbor_toward(c, 0) + neighbor_toward(c, 1) + neighbor_toward(c, 2) + neighbor_toward(c, 3)
}

/// The number of edges of the board on which `c` lies.
pub open spec fn edges_at(c: Coord) -> int {
    (if c.x == 0 { 1int } else { 0 }) + (if c.x == STACK_BOARD_SIZE - 1 { 1int } else { 0 })
        + (if c.y == 0 { 1int } else { 0 }) + (if c.y == STACK_BOARD_SIZE - 1 { 1int } else { 0 })
}

/// The neighbours of `c` are the cells of the board that touch `c`. There
/// are at most four of them: a cell of the board has four less one for each
/// edge on which it lies.
pub proof fn lemma_orth_neighbors(c: Coord)
    ensures
        orth_neighbors(c).len() <= 4,
        in_bounds(c) ==> orth_neighbors(c).len() == 4 - edges_at(c),
        forall|n: Coord| #[trigger]
            orth_neighbors(c).contains(n) <==> in_bounds(n) && touching(c, n),
{
    let all = orth_neighbors(c);
    assert forall|n: Coord| #[trigger] all.contains(n) implies in_bounds(n) && touching(c, n) by {
        let i = choose|i: int| 0 <= i < all.len() && all[i] == n;
    }
    assert forall|n: Coord| in_bounds(n) && touching(c, n) implies #[trigger] all.contains(n) by {
        let d: int = if n.y + 1 == c.y {
            0
        } else if n.x == c.x + 1 {
            1
        } else if n.y == c.y + 1 {
            2
        } else {
            3
        };
        assert(inside(step(c, d)));
        let before: int = if d == 0 {
            0
        } else if d == 1 {
            neighbor_toward(c, 0).len() as int
        } else if d == 2 {
            (neighbor_toward(c, 0) + neighbor_toward(c, 1)).len() as int
        } else {
            (neighbor_toward(c, 0) + neighbor_toward(c, 1) + neighbor_toward(c, 2)).len() as int
        };
        assert(all[before] == n);
    }
}

/// Adjacency on the square grid is symmetric: every neighbour of a cell of
/// the board is a cell of the board, and its own neighbours include that
/// cell.
pub proof fn lemma_orth_neighbors_symmetric(c: Coord, n: Coord)
    requires
        in_bounds(c),
        orth_neighbors(c).contains(n),
    ensures
        in_bounds(n),
        orth_neighbors(n).contains(c),
{
    lemma_orth_neighbors(c);
    lemma_orth_neighbors(n);
}

/// The stacking board as a mathematical value: what each cell holds.
pub struct Stacks {
    pub cells: Map<Coord, StackCell>,
}

impl Stacks {
    /// The cells are exactly those of the square grid.
    pub open spec fn wf(self) -> bool {
        forall|c: Coord|
            #![trigger self.cells.contains_key(c)]
            #![trigger in_bounds(c)]
            self.cells.contains_key(c) <==> in_bounds(c)
    }

    /// No cell has an owner or a block.
    pub open spec fn blank(self) -> bool {
        forall|c: Coord|
            #![trigger self.cells.contains_key(c)]
            #![trigger self.cells[c]]
            self.cells.contains_key(c) ==> self.cells[c] == (StackCell {
                owner: Owner::Unclaimed,
                height: 0,
            })
    }

    /// The board has the cell `c` and `player` holds it.
    pub open spec fn owns(self, player: Player, c: Coord) -> bool {
        self.cells.contains_key(c) && self.cells[c].owner == Owner::OwnedBy(player)
    }

    /// The cell `c` belongs to the rival of `player`.
    pub open spec fn barred(self, player: Player, c: Coord) -> bool {
        self.cells[c].owner == Owner::OwnedBy(player.rival())
    }

    /// Why `player` cannot lay a block over `a` and `b`, if they cannot. The
    /// rules are tried in this order, and the first that is broken is
    /// reported: the cells touch; both are on the board; both have the same
    /// height; neither belongs to the rival.
    pub open spec fn refusal(self, player: Player, a: Coord, b: Coord) -> Option<MoveError> {
        if !touching(a, b) {
            Some(MoveError::NotAdjacent)
        } else if !(self.cells.contains_key(a) && self.cells.contains_key(b)) {
            Some(MoveError::OutOfBounds)
        } else if self.cells[a].height != self.cells[b].height {
            Some(MoveError::DifferentHeights)
        } else if self.barred(player, a) || self.barred(player, b) {
            Some(MoveError::Occupied)
        } else {
            None
        }
    }

    /// The cell `c` after `player` has laid a block on it.
    pub open spec fn raised(self, player: Player, c: Coord) -> StackCell {
        StackCell { owner: Owner::OwnedBy(player), height: (self.cells[c].height + 1) as u32 }
    }

    /// The board after `player` has laid a block over `a` and `b`.
    pub open spec fn stacked(self, player: Player, a: Coord, b: Coord) -> Stacks {
        Stacks {
            cells: self.cells.insert(a, self.raised(player, a)).insert(b, self.raised(player, b)),
        }
    }

    /// `c` lies on the edge from which `player` sets out.
    pub open spec fn on_start(self, player: Player, c: Coord) -> bool {
        match player {
            Player::White => c.y == 0,
            Player::Black => c.x == 0,
        }
    }

    /// `c` lies on the edge that `player` tries to reach.
    pub open spec fn on_goal(self, player: Player, c: Coord) -> bool {
        match player {
            Player::White => c.y == STACK_BOARD_SIZE - 1,
            Player::Black => c.x == STACK_BOARD_SIZE - 1,
        }
    }

    /// `p` is a chain of `player`: a non-empty sequence of cells that all
    /// belong to `player`, begins on the player's starting edge, steps from
    /// each cell to one that touches it, and holds no cell twice.
    pub open spec fn is_chain(self, player: Player, p: Seq<Coord>) -> bool {
        &&& p.len() > 0
        &&& self.on_start(player, p[0])
        &&& forall|i: int| 0 <= i < p.len() ==> self.owns(player, #[trigger] p[i])
        &&& forall|i: int| 0 <= i < p.len() - 1 ==> touching(#[trigger] p[i], p[i + 1])
        &&& p.no_duplicates()
    }

    /// `player` has joined their two edges: one of their chains ends on
    /// their goal edge.
    pub open spec fn connected(self, player: Player) -> bool {
        exists|p: Seq<Coord>| #[trigger] self.is_chain(player, p) && self.on_goal(player, p.last())
    }
}

/// The rules of the board are tried in a fixed order: cells that do not
/// touch are refused as `NotAdjacent` even where one of them is outside the
/// board, and cells outside the board as `OutOfBounds` whatever they would
/// hold; heights are compared before owners; and a block is accepted
/// exactly if no rule is broken.
pub proof fn lemma_rules_in_order(board: Stacks, player: Player, a: Coord, b: Coord)
    ensures
        !touching(a, b) ==> board.refusal(player, a, b) == Some(MoveError::NotAdjacent),
        touching(a, b) && !(board.cells.contains_key(a) && board.cells.contains_key(b))
            ==> board.refusal(player, a, b) == Some(MoveError::OutOfBounds),
        board.refusal(player, a, b) == Some(MoveError::DifferentHeights) ==> {
            &&& touching(a, b)
            &&& board.cells.contains_key(a)
            &&& board.cells.contains_key(b)
        },
        board.refusal(player, a, b) == Some(MoveError::Occupied) ==> {
            &&& touching(a, b)
            &&& board.cells.contains_key(a)
            &&& board.cells.contains_key(b)
            &&& board.cells[a].height == board.cells[b].height
        },
        board.refusal(player, a, b) is None ==> {
            &&& touching(a, b)
            &&& board.cells.contains_key(a)
            &&& board.cells.contains_key(b)
            &&& board.cells[a].height == board.cells[b].height
            &&& !board.barred(player, a)
            &&& !board.barred(player, b)
        },
{
}

/// The stacking board. The cells lie row by row in one vector.
pub struct StackBoard {
    pub cells: Vec<StackCell>,
}

impl View for StackBoard {
    type V = Stacks;

    open spec fn view(&self) -> Stacks {
        Stacks { cells: Map::new(|c: Coord| in_bounds(c), |c: Coord| self.cells@[index_of(c)]) }
    }
}

fn within(c: &Coord) -> (ok: bool)
    ensures
        ok == in_bounds(*c),
{
    c.x < STACK_BOARD_SIZE && c.y < STACK_BOARD_SIZE
}

fn touches(a: &Coord, b: &Coord) -> (ok: bool)
    ensures
        ok == touching(*a, *b),
{
    let dx: usize = if a.x >= b.x {
        a.x - b.x
    } else {
        b.x - a.x
    };
    let dy: usize = if a.y >= b.y {
        a.y - b.y
    } else {
        b.y - a.y
    };
    (dx == 1 && dy == 0) || (dx == 0 && dy == 1)
}

impl StackBoard {
    /// The board has a slot for every cell of the grid.
    pub open spec fn wf(&self) -> bool {
        self.cells@.len() == STACK_BOARD_SIZE * STACK_BOARD_SIZE
    }

    /// A blank board: no cell has an owner or a block.
    pub fn new() -> (board: StackBoard)
        ensures
            board.wf(),
            board@.wf(),
            board@.blank(),
    {
        let mut cells: Vec<StackCell> = Vec::new();
        let mut i: usize = 0;
        while i < STACK_BOARD_SIZE * STACK_BOARD_SIZE
            invariant
                i <= STACK_BOARD_SIZE * STACK_BOARD_SIZE,
                cells@.len() == i,
                forall|j: int|
                    0 <= j < i ==> #[trigger] cells@[j] == (StackCell {
                        owner: Owner::Unclaimed,
                        height: 0,
                    }),
            decreases STACK_BOARD_SIZE * STACK_BOARD_SIZE - i,
        {
            cells.push(StackCell { owner: Owner::Unclaimed, height: 0 });
            i += 1;
        }
        StackBoard { cells }
    }

    /// The cell at `c`, or `None` if `c` is outside the board.
    pub fn get_cell(&self, c: &Coord) -> (cell: Option<&StackCell>)
        requires
            self.wf(),
        ensures
            match cell {
                Some(held) => self@.cells.contains_key(*c) && *held == self@.cells[*c],
                None => !self@.cells.contains_key(*c),
            },
    {
        if within(c) {
            Some(&self.cells[c.y * STACK_BOARD_SIZE + c.x])
        } else {
            None
        }
    }

    /// Overwrites the cell at `c`, whatever it held. A coordinate outside
    /// the board is no cell: the board then stays as it is.
    pub fn set_cell(&mut self, c: Coord, cell: StackCell)
        requires
            old(self).wf(),
        ensures
            final(self).wf(),
            final(self)@.cells == if in_bounds(c) {
                old(self)@.cells.insert(c, cell)
            } else {
                old(self)@.cells
            },
    {
        if within(&c) {
            self.cells.set(c.y * STACK_BOARD_SIZE + c.x, cell);
            assert(self@.cells =~= old(self)@.cells.insert(c, cell));
        }
    }

    /// The cells of the board that touch `c`, in the order north
    /// `(x, y - 1)`, east `(x + 1, y)`, south `(x, y + 1)`, west
    /// `(x - 1, y)`.
    pub fn neighbors(&self, c: &Coord) -> (out: Vec<Coord>)
        ensures
            out@ == orth_neighbors(*c),
    {
        let mut out: Vec<Coord> = Vec::new();
        if c.x < STACK_BOARD_SIZE && 0 < c.y && c.y <= STACK_BOARD_SIZE {
            out.push(Coord { x: c.x, y: c.y - 1 });
        }
        assert(out@ =~= neighbor_toward(*c, 0));
        if c.x < STACK_BOARD_SIZE - 1 && c.y < STACK_BOARD_SIZE {
            out.push(Coord { x: c.x + 1, y: c.y });
        }
        assert(out@ =~= neighbor_toward(*c, 0) + neighbor_toward(*c, 1));
        if c.x < STACK_BOARD_SIZE && c.y < STACK_BOARD_SIZE - 1 {
            out.push(Coord { x: c.x, y: c.y + 1 });
        }
        assert(out@ =~= neighbor_toward(*c, 0) + neighbor_toward(*c, 1) + neighbor_toward(*c, 2));
        if 0 < c.x && c.x <= STACK_BOARD_SIZE && c.y < STACK_BOARD_SIZE {
            out.push(Coord { x: c.x - 1, y: c.y });
        }
        assert(out@ =~= orth_neighbors(*c));
        out
    }

    /// Lays a block of `player` over the cells `a` and `b`: both become the
    /// player's and grow by one. The move is refused, and the board left as
    /// it was, with the first of these that applies: `NotAdjacent` if the
    /// cells do not touch, `OutOfBounds` if one is outside the board,
    /// `DifferentHeights` if their heights differ, `Occupied` if one belongs
    /// to the rival. The heights must have room to grow.
    pub fn place_block(&mut self, player: Player, a: Coord, b: Coord) -> (res: Result<
        (),
        MoveError,
    >)
        requires
            old(self).wf(),
            old(self)@.refusal(player, a, b) is None ==> old(self)@.cells[a].height < u32::MAX,
        ensures
            res == match old(self)@.refusal(player, a, b) {
                Some(e) => Err::<(), MoveError>(e),
                None => Ok::<(), MoveError>(()),
            },
            res is Err ==> *final(self) == *old(self),
            res is Ok ==> final(self)@ == old(self)@.stacked(player, a, b),
            final(self).wf(),
    {
        if !touches(&a, &b) {
            return Err(MoveError::NotAdjacent);
        }
        if !(within(&a) && within(&b)) {
            return Err(MoveError::OutOfBounds);
        }
        let at_a: usize = a.y * STACK_BOARD_SIZE + a.x;
        let at_b: usize = b.y * STACK_BOARD_SIZE + b.x;
        let cell_a: StackCell = self.cells[at_a];
        let cell_b: StackCell = self.cells[at_b];
        if cell_a.height != cell_b.height {
            return Err(MoveError::DifferentHeights);
        }
        let rival = player.opponent();
        if cell_a.owner == Owner::OwnedBy(rival) || cell_b.owner == Owner::OwnedBy(rival) {
            return Err(MoveError::Occupied);
        }
        self.cells.set(at_a, StackCell { owner: Owner::OwnedBy(player), height: cell_a.height + 1 });
        self.cells.set(at_b, StackCell { owner: Owner::OwnedBy(player), height: cell_b.height + 1 });
        assert(self@.cells =~= old(self)@.stacked(player, a, b).cells);
        Ok(())
    }
}

} // verus!
