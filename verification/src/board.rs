//! The hexagonal board: axial coordinates, cell contents, adjacency, and the
//! board itself.

use crate::cell_map::CellMap;
use crate::region::{in_region, precedes, region_cells, region_count, Shape};
use vstd::prelude::*;

verus! {

/// What a cell of the hexagonal board holds. `Red` and `Blue` also name the
/// two players.
#[derive(Clone, Copy, Debug, PartialEq, Eq, Structural)]
pub enum CellState {
    Empty,
    Red,
    Blue,
}

/// An axial coordinate `(q, r)` on the hexagonal grid.
#[derive(Clone, Copy, Debug, PartialEq, Eq, Structural, Hash)]
pub struct Hex {
    pub q: i32,
    pub r: i32,
}

/// The neighbour of `(q, r)` in direction `i`. The six directions are, in
/// order, `(+1,0), (0,+1), (-1,+1), (-1,0), (0,-1), (+1,-1)`.
pub open spec fn neighbor_of(c: (int, int), i: int) -> (int, int) {
    if i == 0 {
        (c.0 + 1, c.1)
    } else if i == 1 {
        (c.0, c.1 + 1)
    } else if i == 2 {
        (c.0 - 1, c.1 + 1)
    } else if i == 3 {
        (c.0 - 1, c.1)
    } else if i == 4 {
        (c.0, c.1 - 1)
    } else {
        (c.0 + 1, c.1 - 1)
    }
}

/// The six neighbours of `(q, r)`, in the order of the directions.
pub open spec fn neighbors_of(c: (int, int)) -> Seq<(int, int)> {
    Seq::new(6, |i: int| neighbor_of(c, i))
}

/// Two cells touch: one is a neighbour of the other.
pub open spec fn adjacent(a: Hex, b: Hex) -> bool {
    exists|i: int| 0 <= i < 6 && b@ == #[trigger] neighbor_of(a@, i)
}

impl Hex {
    /// The coordinate as a pair of mathematical integers.
    pub open spec fn view(&self) -> (int, int) {
        (self.q as int, self.r as int)
    }

    /// Both fields lie strictly inside the range of `i32`, so that every
    /// neighbour of the cell is a `Hex` too.
    pub open spec fn interior(&self) -> bool {
        i32::MIN < self.q < i32::MAX && i32::MIN < self.r < i32::MAX
    }

    /// The six neighbours of this cell, in the fixed order
    /// `(+1,0), (0,+1), (-1,+1), (-1,0), (0,-1), (+1,-1)`.
    pub fn get_neighbors(&self) -> (out: Vec<Hex>)
        requires
            self.interior(),
        ensures
            out@.len() == 6,
            forall|i: int| 0 <= i < 6 ==> (#[trigger] out@[i])@ == neighbors_of(self@)[i],
    {
        vec![
            Hex { q: self.q + 1, r: self.r },
            Hex { q: self.q, r: self.r + 1 },
            Hex { q: self.q - 1, r: self.r + 1 },
            Hex { q: self.q - 1, r: self.r },
            Hex { q: self.q, r: self.r - 1 },
            Hex { q: self.q + 1, r: self.r - 1 },
        ]
    }
}

/// Adjacency is symmetric: the neighbour in direction `i` has the cell it
/// was taken from as its neighbour in the opposite direction, so each
/// neighbour's own list of neighbours holds the cell.
pub proof fn lemma_neighbors_symmetric(c: (int, int), i: int)
    requires
        0 <= i < 6,
    ensures
        neighbors_of(c).len() == 6,
        neighbor_of(neighbor_of(c, i), (i + 3) % 6) == c,
        neighbors_of(neighbors_of(c)[i]).contains(c),
{
    let n = neighbors_of(c)[i];
    let back = (i + 3) % 6;
    assert(neighbors_of(n)[back] == c);
}

/// To touch is mutual.
pub proof fn lemma_adjacent_symmetric(a: Hex, b: Hex)
    ensures
        adjacent(a, b) == adjacent(b, a),
{
    if adjacent(a, b) {
        let i = choose|i: int| 0 <= i < 6 && b@ == #[trigger] neighbor_of(a@, i);
        assert(a@ == neighbor_of(b@, (i + 3) % 6));
    }
    if adjacent(b, a) {
        let i = choose|i: int| 0 <= i < 6 && a@ == #[trigger] neighbor_of(b@, i);
        assert(b@ == neighbor_of(a@, (i + 3) % 6));
    }
}

/// A board as a mathematical value: what each cell holds, and the region.
pub struct Layout {
    pub cells: Map<Hex, CellState>,
    pub shape: Shape,
    pub size: int,
}

impl Layout {
    /// The cells are exactly those of the region: none is missing and none
    /// lies outside. A hexagon is small enough for the neighbours of its
    /// cells to be coordinates.
    pub open spec fn wf(self) -> bool {
        &&& forall|h: Hex|
            #![trigger self.cells.contains_key(h)]
            #![trigger in_region(self.shape, self.size, h)]
            self.cells.contains_key(h) <==> in_region(self.shape, self.size, h)
        &&& self.shape == Shape::Hexagon ==> self.size < i32::MAX
    }

    /// Every cell is empty.
    pub open spec fn blank(self) -> bool {
        forall|h: Hex|
            #![trigger self.cells.contains_key(h)]
            #![trigger self.cells[h]]
            self.cells.contains_key(h) ==> self.cells[h] == CellState::Empty
    }

    /// The layout after `state` is stored at `hex`.
    pub open spec fn with(self, hex: Hex, state: CellState) -> Layout {
        Layout { cells: self.cells.insert(hex, state), ..self }
    }

    /// The board has the cell `h` and it holds `player`.
    pub open spec fn owns(self, player: CellState, h: Hex) -> bool {
        self.cells.contains_key(h) && self.cells[h] == player
    }

    /// The message with which a piece at `hex` is refused, if it is: the
    /// board has no such cell, or the cell is not empty.
    pub open spec fn refusal(self, hex: Hex) -> Option<Seq<char>> {
        if !self.cells.contains_key(hex) {
            Some("Hex is out of bounds"@)
        } else if self.cells[hex] != CellState::Empty {
            Some("Cell is not empty"@)
        } else {
            None
        }
    }

    /// The cells that a player holds.
    pub open spec fn claimed(self) -> Set<Hex> {
        Set::new(|h: Hex| self.cells.contains_key(h) && self.cells[h] != CellState::Empty)
    }

    /// The coordinate value of the edge from which both players set out.
    pub open spec fn start_line(self) -> int {
        match self.shape {
            Shape::Rhombus => 0,
            Shape::Hexagon => -self.size,
        }
    }

    /// The coordinate value of the edge that both players try to reach.
    pub open spec fn goal_line(self) -> int {
        match self.shape {
            Shape::Rhombus => self.size - 1,
            Shape::Hexagon => self.size,
        }
    }

    /// `h` lies on the edge from which `player` sets out: Red's edges are
    /// lines of constant `q`, Blue's of constant `r`.
    pub open spec fn on_start(self, player: CellState, h: Hex) -> bool {
        match player {
            CellState::Red => h.q == self.start_line(),
            CellState::Blue => h.r == self.start_line(),
            CellState::Empty => false,
        }
    }

    /// `h` lies on the edge that `player` tries to reach.
    pub open spec fn on_goal(self, player: CellState, h: Hex) -> bool {
        match player {
            CellState::Red => h.q == self.goal_line(),
            CellState::Blue => h.r == self.goal_line(),
            CellState::Empty => false,
        }
    }

    /// `p` is a chain of `player`: a non-empty sequence of cells that all
    /// hold `player`, begins on the player's starting edge, steps from each
    /// cell to a neighbour of it, and holds no cell twice.
    pub open spec fn is_chain(self, player: CellState, p: Seq<Hex>) -> bool {
        &&& p.len() > 0
        &&& self.on_start(player, p[0])
        &&& forall|i: int| 0 <= i < p.len() ==> self.owns(player, #[trigger] p[i])
        &&& forall|i: int| 0 <= i < p.len() - 1 ==> adjacent(#[trigger] p[i], p[i + 1])
        &&& p.no_duplicates()
    }

    /// `player` has joined their two edges: one of their chains ends on
    /// their goal edge.
    pub open spec fn connected(self, player: CellState) -> bool {
        exists|p: Seq<Hex>| #[trigger] self.is_chain(player, p) && self.on_goal(player, p.last())
    }
}

/// The board: its cells, keyed by coordinate, and the region they fill. The
/// fields are there to be read; a board that is changed through its methods
/// alone stays whole (`wf`).
pub struct Board {
    pub cells: CellMap,
    pub size: i32,
    pub shape: Shape,
}

impl View for Board {
    type V = Layout;

    open spec fn view(&self) -> Layout {
        Layout { cells: self.cells@, shape: self.shape, size: self.size as int }
    }
}

/// A map with an empty cell at each of the listed coordinates.
fn blank_cells(region: &Vec<Hex>) -> (cells: CellMap)
    requires
        forall|i: int, j: int|
            0 <= i < j < region@.len() ==> precedes(#[trigger] region@[i], #[trigger] region@[j]),
    ensures
        forall|h: Hex| #[trigger] cells@.contains_key(h) <==> region@.contains(h),
        forall|h: Hex| #[trigger] cells@.contains_key(h) ==> cells@[h] == CellState::Empty,
        cells@.len() == region@.len(),
{
    let mut cells = CellMap::new();
    let mut i: usize = 0;
    while i < region.len()
        invariant
            i <= region@.len(),
            forall|a: int, b: int|
                0 <= a < b < region@.len() ==> precedes(
                    #[trigger] region@[a],
                    #[trigger] region@[b],
                ),
            cells@.dom().finite(),
            cells@.len() == i,
            forall|h: Hex| #[trigger]
                cells@.contains_key(h) <==> exists|j: int| 0 <= j < i && #[trigger] region@[j] == h,
            forall|h: Hex| #[trigger] cells@.contains_key(h) ==> cells@[h] == CellState::Empty,
        decreases region@.len() - i,
    {
        let hex = region[i];
        proof {
            if cells@.contains_key(hex) {
                let j = choose|j: int| 0 <= j < i && #[trigger] region@[j] == hex;
                assert(precedes(region@[j], region@[i as int]));
            }
        }
        cells.insert(hex, CellState::Empty);
        i += 1;
    }
    cells
}

impl Board {
    /// The board holds exactly the cells of its region.
    pub open spec fn wf(&self) -> bool {
        self@.wf()
    }

    /// A blank rhombus board with `size` cells along each side; it has no
    /// cells if `size` is not positive.
    pub fn new(size: i32) -> (board: Board)
        ensures
            board.wf(),
            board@.blank(),
            board.size == size,
            board.shape == Shape::Rhombus,
            board@.cells.len() == region_count(Shape::Rhombus, size as int),
    {
        let region = region_cells(Shape::Rhombus, size);
        Board { cells: blank_cells(&region), size, shape: Shape::Rhombus }
    }

    /// A blank hexagon board: for each `q` from `-size` to `size`, the cells
    /// with `r` from `max(-size, -q - size)` to `min(size, -q + size)`. It has
    /// `3 * size * size + 3 * size + 1` cells, and none if `size` is
    /// negative. The size stays below `i32::MAX`, so that the neighbours of
    /// every cell are coordinates too.
    pub fn hexagon(size: i32) -> (board: Board)
        requires
            size < i32::MAX,
        ensures
            board.wf(),
            board@.blank(),
            board.size == size,
            board.shape == Shape::Hexagon,
            board@.cells.len() == region_count(Shape::Hexagon, size as int),
    {
        let region = region_cells(Shape::Hexagon, size);
        Board { cells: blank_cells(&region), size, shape: Shape::Hexagon }
    }

    /// Lists the cells of the board: each once, by rising `q`, and within
    /// one `q` by rising `r`.
    pub fn coordinates(&self) -> (out: Vec<Hex>)
        requires
            self.wf(),
        ensures
            forall|h: Hex| #[trigger] out@.contains(h) <==> self@.cells.contains_key(h),
            forall|i: int, j: int|
                0 <= i < j < out@.len() ==> precedes(#[trigger] out@[i], #[trigger] out@[j]),
    {
        region_cells(self.shape, self.size)
    }

    /// The contents of the cell at `hex`, or `None` if the board has no such
    /// cell.
    pub fn get_cell(&self, hex: &Hex) -> (cell: Option<&CellState>)
        ensures
            match cell {
                Some(state) => self@.cells.contains_key(*hex) && *state == self@.cells[*hex],
                None => !self@.cells.contains_key(*hex),
            },
    {
        self.cells.get(hex)
    }

    /// Overwrites the cell at `hex` with `state`, whatever it held. A
    /// coordinate outside the board is no cell: the board then stays as it
    /// is.
    pub fn set_cell(&mut self, hex: Hex, state: CellState)
        ensures
            final(self)@ == if old(self)@.cells.contains_key(hex) {
                old(self)@.with(hex, state)
            } else {
                old(self)@
            },
            final(self)@.cells.dom() == old(self)@.cells.dom(),
            old(self).wf() ==> final(self).wf(),
    {
        if self.cells.contains_key(&hex) {
            self.cells.insert(hex, state);
            assert(self@.cells.dom() =~= old(self)@.cells.dom());
        }
    }

    /// Puts `state` on the empty cell at `hex`. Refuses a coordinate outside
    /// the board and a cell that is not empty, each with its message; a
    /// refused call leaves the board as it was.
    pub fn place_piece(&mut self, hex: Hex, state: CellState) -> (res: Result<(), &str>)
        ensures
            match res {
                Ok(_) => {
                    &&& old(self)@.refusal(hex) is None
                    &&& final(self)@ == old(self)@.with(hex, state)
                },
                Err(msg) => {
                    &&& old(self)@.refusal(hex) == Some(msg@)
                    &&& *final(self) == *old(self)
                },
            },
            final(self)@.cells.dom() == old(self)@.cells.dom(),
            old(self).wf() ==> final(self).wf(),
    {
        let held = match self.cells.get(&hex) {
            Some(cell) => *cell,
            None => {
                return Err("Hex is out of bounds");
            },
        };
        if held == CellState::Empty {
            self.set_cell(hex, state);
            Ok(())
        } else {
            Err("Cell is not empty")
        }
    }

    /// Whether a piece may be put at `hex`: the board has the cell and it is
    /// empty.
    pub fn is_valid_move(&self, hex: &Hex) -> (valid: bool)
        ensures
            valid == self@.owns(CellState::Empty, *hex),
            valid == (self@.refusal(*hex) is None),
    {
        match self.cells.get(hex) {
            Some(cell) => *cell == CellState::Empty,
            None => false,
        }
    }
}

} // verus!
