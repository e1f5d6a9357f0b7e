//! A player's cells on the stacking board, as a graph to search.

use crate::search::{is_route, joined, search, Graph};
use crate::seqs::lemma_push_contains;
use crate::stacking::{
    in_bounds, index_of, lemma_orth_neighbors, orth_neighbors, touching, Coord, Owner, Player,
    StackBoard, STACK_BOARD_SIZE,
};
use vstd::prelude::*;
use vstd::set_lib::{lemma_int_range, lemma_len_subset, set_int_range};

verus! {

/// The cells of `board` that belong to `player`. Its nodes are those cells,
/// its links join cells that touch, and its two edges are the player's two
/// edges of the board.
pub struct Holding<'a> {
    pub board: &'a StackBoard,
    pub player: Player,
}

/// The cell that the board keeps at index `i`.
spec fn coord_at(i: int) -> Coord {
    Coord { x: (i % STACK_BOARD_SIZE as int) as usize, y: (i / STACK_BOARD_SIZE as int) as usize }
}

/// The board has finitely many cells.
proof fn lemma_grid_finite()
    ensures
        Set::new(|c: Coord| in_bounds(c)).finite(),
{
    let grid = Set::new(|c: Coord| in_bounds(c));
    let range = set_int_range(0, STACK_BOARD_SIZE * STACK_BOARD_SIZE);
    lemma_int_range(0, STACK_BOARD_SIZE * STACK_BOARD_SIZE);
    let image = range.map(|i: int| coord_at(i));
    range.lemma_map_finite(|i: int| coord_at(i));
    assert forall|c: Coord| grid.contains(c) implies image.contains(c) by {
        let i = index_of(c);
        assert(range.contains(i));
        assert(coord_at(i) == c);
    }
    lemma_len_subset(grid, image);
}

impl<'a> Holding<'a> {
    /// The coordinate of `c` that runs along the player's edges.
    spec fn along(self, c: Coord) -> int {
        match self.player {
            Player::White => c.x as int,
            Player::Black => c.y as int,
        }
    }

    fn holds(&self, c: &Coord) -> (held: bool)
        requires
            self.board.wf(),
        ensures
            held == self.board@.owns(self.player, *c),
    {
        match self.board.get_cell(c) {
            Some(cell) => cell.owner == Owner::OwnedBy(self.player),
            None => false,
        }
    }
}

impl<'a> Graph for Holding<'a> {
    type Node = Coord;

    open spec fn wf(&self) -> bool {
        self.board.wf()
    }

    open spec fn nodes(&self) -> Set<Coord> {
        Set::new(|c: Coord| self.board@.owns(self.player, c))
    }

    open spec fn linked(&self, a: Coord, b: Coord) -> bool {
        touching(a, b)
    }

    open spec fn is_start(&self, a: Coord) -> bool {
        self.board@.on_start(self.player, a)
    }

    open spec fn is_goal(&self, a: Coord) -> bool {
        self.board@.on_goal(self.player, a)
    }

    open spec fn slot(&self, a: Coord) -> u64 {
        index_of(a) as u64
    }

    proof fn lemma_finite_nodes(&self) {
        lemma_grid_finite();
        let grid = Set::new(|c: Coord| in_bounds(c));
        assert(self.nodes().subset_of(grid));
        lemma_len_subset(self.nodes(), grid);
    }

    fn slot_of(&self, a: &Coord) -> (k: u64) {
        (a.y * STACK_BOARD_SIZE + a.x) as u64
    }

    fn starts(&self) -> (out: Vec<Coord>) {
        let mut out: Vec<Coord> = Vec::new();
        let mut t: usize = 0;
        while t < STACK_BOARD_SIZE
            invariant
                self.board.wf(),
                t <= STACK_BOARD_SIZE,
                forall|a: Coord| #[trigger]
                    out@.contains(a) <==> self.nodes().contains(a) && self.is_start(a)
                        && self.along(a) < t,
            decreases STACK_BOARD_SIZE - t,
        {
            let c = match self.player {
                Player::White => Coord { x: t, y: 0 },
                Player::Black => Coord { x: 0, y: t },
            };
            let held = self.holds(&c);
            if held {
                proof {
                    assert forall|a: Coord| #[trigger]
                        out@.push(c).contains(a) <==> self.nodes().contains(a) && self.is_start(a)
                            && self.along(a) < t + 1 by {
                        lemma_push_contains(out@, c, a);
                    }
                }
                out.push(c);
            }
            t += 1;
        }
        out
    }

    fn at_goal(&self, a: &Coord) -> (hit: bool) {
        match self.player {
            Player::White => a.y == STACK_BOARD_SIZE - 1,
            Player::Black => a.x == STACK_BOARD_SIZE - 1,
        }
    }

    fn links(&self, a: &Coord) -> (out: Vec<Coord>) {
        let mut out: Vec<Coord> = Vec::new();
        let around = self.board.neighbors(a);
        proof {
            lemma_orth_neighbors(*a);
        }
        let mut i: usize = 0;
        while i < around.len()
            invariant
                self.board.wf(),
                i <= around.len(),
                around@ == orth_neighbors(*a),
                forall|b: Coord| #[trigger]
                    out@.contains(b) <==> self.nodes().contains(b) && exists|j: int|
                        0 <= j < i && b == #[trigger] around@[j],
            decreases around.len() - i,
        {
            let b = around[i];
            let held = self.holds(&b);
            proof {
                if held {
                    assert forall|c: Coord| #[trigger]
                        out@.push(b).contains(c) <==> self.nodes().contains(c) && exists|j: int|
                            0 <= j < i + 1 && c == #[trigger] around@[j] by {
                        lemma_push_contains(out@, b, c);
                    }
                } else {
                    assert forall|c: Coord| #[trigger]
                        out@.contains(c) <==> self.nodes().contains(c) && exists|j: int|
                            0 <= j < i + 1 && c == #[trigger] around@[j] by {
                        if self.nodes().contains(c) && c == around@[i as int] {
                            assert(c == b);
                        }
                    }
                }
            }
            if held {
                out.push(b);
            }
            i += 1;
        }
        proof {
            assert forall|b: Coord| #[trigger]
                out@.contains(b) <==> self.nodes().contains(b) && self.linked(*a, b) by {
                if self.nodes().contains(b) && self.linked(*a, b) {
                    assert(around@.contains(b));
                    let j = choose|j: int| 0 <= j < around@.len() && around@[j] == b;
                    assert(b == around@[j]);
                }
                if out@.contains(b) {
                    let j = choose|j: int| 0 <= j < i && b == #[trigger] around@[j];
                    assert(around@.contains(b));
                }
            }
        }
        out
    }
}

/// A route through a player's holding is a chain of that player on the
/// board, and the holding's edges are joined exactly if the player is
/// connected.
pub proof fn lemma_holding_joined(holding: &Holding)
    ensures
        forall|p: Seq<Coord>| #[trigger]
            is_route(holding, p) <==> holding.board@.is_chain(holding.player, p),
        joined(holding) <==> holding.board@.connected(holding.player),
{
    assert forall|p: Seq<Coord>| #[trigger]
        is_route(holding, p) <==> holding.board@.is_chain(holding.player, p) by {
        if is_route(holding, p) {
            assert forall|i: int| 0 <= i < p.len() implies holding.board@.owns(
                holding.player,
                #[trigger] p[i],
            ) by {
                assert(holding.nodes().contains(p[i]));
            }
        }
        if holding.board@.is_chain(holding.player, p) {
            assert forall|i: int| 0 <= i < p.len() implies holding.nodes().contains(
                #[trigger] p[i],
            ) by {
                assert(holding.board@.owns(holding.player, p[i]));
            }
        }
    }
    if joined(holding) {
        let p = choose|p: Seq<Coord>| #[trigger] is_route(holding, p) && holding.is_goal(p.last());
        assert(holding.board@.is_chain(holding.player, p));
    }
    if holding.board@.connected(holding.player) {
        let p = choose|p: Seq<Coord>| #[trigger]
            holding.board@.is_chain(holding.player, p) && holding.board@.on_goal(
                holding.player,
                p.last(),
            );
        assert(is_route(holding, p));
    }
}

impl StackBoard {
    /// Whether `player` has joined their two edges of the board by a chain
    /// of their own cells.
    pub fn connects(&self, player: Player) -> (won: bool)
        requires
            self.wf(),
        ensures
            won == self@.connected(player),
    {
        let holding = Holding { board: self, player };
        proof {
            lemma_holding_joined(&holding);
        }
        search(&holding)
    }
}

} // verus!
