//! A player's cells on a hexagonal board, as a graph to search.

use crate::board::{adjacent, neighbor_of, neighbors_of, Board, CellState, Hex};
use crate::cell_map::{lemma_slots_differ, slot, slot_of};
use crate::region::Shape;
use crate::search::{is_route, joined, search, Graph};
use crate::seqs::lemma_push_contains;
use vstd::prelude::*;
use vstd::set_lib::lemma_len_subset;

verus! {

/// The cells of `board` that hold `player`. Its nodes are those cells, its
/// links join neighbours, and its two edges are the player's two edges of
/// the board.
pub struct Claim<'a> {
    pub board: &'a Board,
    pub player: CellState,
}

impl<'a> Claim<'a> {
    /// The coordinate of `h` that runs along the player's edges.
    spec fn along(self, h: Hex) -> int {
        match self.player {
            CellState::Red => h.r as int,
            _ => h.q as int,
        }
    }
}

impl<'a> Graph for Claim<'a> {
    type Node = Hex;

    open spec fn wf(&self) -> bool {
        self.board.wf()
    }

    open spec fn nodes(&self) -> Set<Hex> {
        Set::new(|h: Hex| self.board@.owns(self.player, h))
    }

    open spec fn linked(&self, a: Hex, b: Hex) -> bool {
        adjacent(a, b)
    }

    open spec fn is_start(&self, a: Hex) -> bool {
        self.board@.on_start(self.player, a)
    }

    open spec fn is_goal(&self, a: Hex) -> bool {
        self.board@.on_goal(self.player, a)
    }

    open spec fn slot(&self, a: Hex) -> u64 {
        slot_of(a)
    }

    proof fn lemma_finite_nodes(&self) {
        self.board.cells.lemma_finite();
        assert(self.nodes().subset_of(self.board@.cells.dom()));
        lemma_len_subset(self.nodes(), self.board@.cells.dom());
        assert forall|a: Hex, b: Hex|
            self.nodes().contains(a) && self.nodes().contains(b) && #[trigger] self.slot(a)
                == #[trigger] self.slot(b) implies a == b by {
            lemma_slots_differ(a, b);
        }
    }

    fn slot_of(&self, a: &Hex) -> (k: u64) {
        slot(a)
    }

    fn starts(&self) -> (out: Vec<Hex>) {
        let mut out: Vec<Hex> = Vec::new();
        let size: i32 = self.board.size;
        if size < 0 {
            return out;
        }
        let (line, low, high): (i32, i32, i32) = match self.board.shape {
            Shape::Rhombus => (0, 0, size - 1),
            Shape::Hexagon => (-size, -size, size),
        };
        let red: bool = match self.player {
            CellState::Red => true,
            CellState::Blue => false,
            CellState::Empty => {
                return out;
            },
        };
        let mut t: i32 = low;
        while t <= high
            invariant
                self.board.wf(),
                self.player != CellState::Empty,
                red == (self.player == CellState::Red),
                line == self.board@.start_line(),
                high < i32::MAX,
                low <= t <= high + 1,
                forall|a: Hex| #[trigger]
                    out@.contains(a) <==> self.nodes().contains(a) && self.is_start(a)
                        && self.along(a) < t,
                forall|a: Hex|
                    self.nodes().contains(a) && #[trigger] self.is_start(a) ==> low <= self.along(a)
                        <= high,
            decreases high + 1 - t,
        {
            let h = if red {
                Hex { q: line, r: t }
            } else {
                Hex { q: t, r: line }
            };
            let held: bool = match self.board.get_cell(&h) {
                Some(cell) => *cell == self.player,
                None => false,
            };
            if held {
                proof {
                    assert forall|a: Hex| #[trigger]
                        out@.push(h).contains(a) <==> self.nodes().contains(a) && self.is_start(a)
                            && self.along(a) < t + 1 by {
                        lemma_push_contains(out@, h, a);
                    }
                }
                out.push(h);
            }
            t += 1;
        }
        out
    }

    fn at_goal(&self, a: &Hex) -> (hit: bool) {
        let line: i32 = match self.board.shape {
            Shape::Rhombus => self.board.size - 1,
            Shape::Hexagon => self.board.size,
        };
        match self.player {
            CellState::Red => a.q == line,
            CellState::Blue => a.r == line,
            CellState::Empty => false,
        }
    }

    fn links(&self, a: &Hex) -> (out: Vec<Hex>) {
        let mut out: Vec<Hex> = Vec::new();
        let around = a.get_neighbors();
        let mut i: usize = 0;
        while i < 6
            invariant
                i <= 6,
                around@.len() == 6,
                forall|j: int| 0 <= j < 6 ==> (#[trigger] around@[j])@ == neighbors_of(a@)[j],
                forall|b: Hex| #[trigger]
                    out@.contains(b) <==> self.nodes().contains(b) && exists|j: int|
                        0 <= j < i && b@ == #[trigger] neighbor_of(a@, j),
            decreases 6 - i,
        {
            let b = around[i];
            let held: bool = match self.board.get_cell(&b) {
                Some(cell) => *cell == self.player,
                None => false,
            };
            proof {
                assert(b@ == neighbor_of(a@, i as int));
                if held {
                    assert forall|c: Hex| #[trigger]
                        out@.push(b).contains(c) <==> self.nodes().contains(c) && exists|j: int|
                            0 <= j < i + 1 && c@ == #[trigger] neighbor_of(a@, j) by {
                        lemma_push_contains(out@, b, c);
                    }
                } else {
                    assert forall|c: Hex| #[trigger]
                        out@.contains(c) <==> self.nodes().contains(c) && exists|j: int|
                            0 <= j < i + 1 && c@ == #[trigger] neighbor_of(a@, j) by {
                        if self.nodes().contains(c) && c@ == neighbor_of(a@, i as int) {
                            assert(c == b);
                        }
                    }
                }
            }
            if held {
                out.push(b);
            }
            i += 1;
        }
        out
    }
}

/// A route through a player's claim is a chain of that player on the board,
/// and the claim's edges are joined exactly if the player is connected.
pub proof fn lemma_claim_joined(claim: &Claim)
    ensures
        forall|p: Seq<Hex>| #[trigger]
            is_route(claim, p) <==> claim.board@.is_chain(claim.player, p),
        joined(claim) <==> claim.board@.connected(claim.player),
{
    assert forall|p: Seq<Hex>| #[trigger]
        is_route(claim, p) <==> claim.board@.is_chain(claim.player, p) by {
        if is_route(claim, p) {
            assert forall|i: int| 0 <= i < p.len() implies claim.board@.owns(
                claim.player,
                #[trigger] p[i],
            ) by {
                assert(claim.nodes().contains(p[i]));
            }
        }
        if claim.board@.is_chain(claim.player, p) {
            assert forall|i: int| 0 <= i < p.len() implies claim.nodes().contains(
                #[trigger] p[i],
            ) by {
                assert(claim.board@.owns(claim.player, p[i]));
            }
        }
    }
    if joined(claim) {
        let p = choose|p: Seq<Hex>| #[trigger] is_route(claim, p) && claim.is_goal(p.last());
        assert(claim.board@.is_chain(claim.player, p));
    }
    if claim.board@.connected(claim.player) {
        let p = choose|p: Seq<Hex>| #[trigger]
            claim.board@.is_chain(claim.player, p) && claim.board@.on_goal(claim.player, p.last());
        assert(is_route(claim, p));
    }
}

impl Board {
    /// Whether `player` has joined their two edges of the board by a chain
    /// of their own cells.
    pub fn connects(&self, player: CellState) -> (won: bool)
        requires
            self.wf(),
        ensures
            won == self@.connected(player),
    {
        let claim = Claim { board: self, player };
        proof {
            lemma_claim_joined(&claim);
        }
        search(&claim)
    }
}

} // verus!
