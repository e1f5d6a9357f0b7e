//! Cell storage keyed by axial coordinate.
//!
//! A `CellMap` behaves as a finite map from `Hex` to `CellState`. Underneath it
//! is a hash map over `u64` slots; each coordinate owns exactly one slot and
//! each slot belongs to exactly one coordinate.

use crate::board::{CellState, Hex};
use std::collections::HashMap;
use vstd::prelude::*;
use vstd::relations::injective_on;
use vstd::set_lib::lemma_map_size;

verus! {

/// The slot of a coordinate: both fields shifted into the unsigned range and
/// laid side by side, `q` in the upper half.
pub open spec fn slot_of(h: Hex) -> u64 {
    ((h.q + 0x8000_0000) * 0x1_0000_0000 + (h.r + 0x8000_0000)) as u64
}

/// The coordinate that owns a slot.
spec fn hex_of(k: u64) -> Hex {
    Hex { q: (k / 0x1_0000_0000 - 0x8000_0000) as i32, r: (k % 0x1_0000_0000 - 0x8000_0000) as i32 }
}

/// No two coordinates share a slot.
pub proof fn lemma_slots_differ(a: Hex, b: Hex)
    ensures
        slot_of(a) == slot_of(b) ==> a == b,
{
    lemma_slots_pair_up();
    assert(hex_of(slot_of(a)) == a);
    assert(hex_of(slot_of(b)) == b);
}

/// Coordinates and slots pair up one to one.
proof fn lemma_slots_pair_up()
    ensures
        forall|h: Hex| hex_of(#[trigger] slot_of(h)) == h,
        forall|k: u64| slot_of(#[trigger] hex_of(k)) == k,
{
    assert forall|h: Hex| hex_of(#[trigger] slot_of(h)) == h by {
        let k = slot_of(h);
        assert(k == (h.q + 0x8000_0000) * 0x1_0000_0000 + (h.r + 0x8000_0000));
        assert(k / 0x1_0000_0000 == h.q + 0x8000_0000);
        assert(k % 0x1_0000_0000 == h.r + 0x8000_0000);
    }
    assert forall|k: u64| slot_of(#[trigger] hex_of(k)) == k by {
        let h = hex_of(k);
        assert(h.q == k / 0x1_0000_0000 - 0x8000_0000);
        assert(h.r == k % 0x1_0000_0000 - 0x8000_0000);
    }
}

/// Computes the slot of a coordinate.
pub fn slot(h: &Hex) -> (k: u64)
    ensures
        k == slot_of(*h),
{
    let hi: u64 = (h.q as i64 + 0x8000_0000) as u64;
    let lo: u64 = (h.r as i64 + 0x8000_0000) as u64;
    hi * 0x1_0000_0000 + lo
}

/// A finite map from coordinates to cell contents.
pub struct CellMap {
    slots: HashMap<u64, CellState>,
}

impl View for CellMap {
    type V = Map<Hex, CellState>;

    closed spec fn view(&self) -> Map<Hex, CellState> {
        Map::new(
            |h: Hex| self.slots@.contains_key(slot_of(h)),
            |h: Hex| self.slots@[slot_of(h)],
        )
    }
}

impl CellMap {
    /// The map holds finitely many cells, as many as it has slots in use.
    proof fn lemma_counts(&self)
        ensures
            self@.dom().finite(),
            self@.dom().len() == self.slots@.dom().len(),
    {
        lemma_slots_pair_up();
        let back = |k: u64| hex_of(k);
        assert(injective_on(back, self.slots@.dom())) by {
            assert forall|a: u64, b: u64| #[trigger] back(a) == #[trigger] back(b) implies a == b by {
                assert(slot_of(hex_of(a)) == a);
                assert(slot_of(hex_of(b)) == b);
            }
        }
        assert(self.slots@.dom().map(back) =~= self@.dom()) by {
            assert forall|h: Hex| self@.dom().contains(h) implies #[trigger] self.slots@.dom().map(
                back,
            ).contains(h) by {
                assert(self.slots@.dom().contains(slot_of(h)));
                assert(back(slot_of(h)) == h);
            }
        }
        lemma_map_size(self.slots@.dom(), self@.dom(), back);
    }

    /// Every cell map is finite.
    pub proof fn lemma_finite(&self)
        ensures
            self@.dom().finite(),
    {
        self.lemma_counts();
    }

    /// A map without cells.
    pub fn new() -> (m: CellMap)
        ensures
            m@ == Map::<Hex, CellState>::empty(),
    {
        let m = CellMap { slots: HashMap::new() };
        assert(m@ =~= Map::<Hex, CellState>::empty());
        m
    }

    /// The number of cells.
    pub fn len(&self) -> (n: usize)
        ensures
            n == self@.len(),
    {
        proof {
            self.lemma_counts();
        }
        self.slots.len()
    }

    /// Whether the map has a cell at `hex`.
    pub fn contains_key(&self, hex: &Hex) -> (found: bool)
        ensures
            found == self@.contains_key(*hex),
    {
        let k: u64 = slot(hex);
        self.slots.contains_key(&k)
    }

    /// The contents of the cell at `hex`, if the map has one.
    pub fn get(&self, hex: &Hex) -> (cell: Option<&CellState>)
        ensures
            match cell {
                Some(state) => self@.contains_key(*hex) && *state == self@[*hex],
                None => !self@.contains_key(*hex),
            },
    {
        let k: u64 = slot(hex);
        self.slots.get(&k)
    }

    /// Stores `state` at `hex`, adding the cell if the map had none there, and
    /// returns what the cell held before.
    pub fn insert(&mut self, hex: Hex, state: CellState) -> (before: Option<CellState>)
        ensures
            final(self)@ == old(self)@.insert(hex, state),
            match before {
                Some(prev) => old(self)@.contains_key(hex) && prev == old(self)@[hex],
                None => !old(self)@.contains_key(hex),
            },
    {
        let k: u64 = slot(&hex);
        let before = self.slots.insert(k, state);
        proof {
            lemma_slots_pair_up();
            assert(self@ =~= old(self)@.insert(hex, state)) by {
                assert forall|h: Hex| h != hex implies slot_of(h) != slot_of(hex) by {
                    assert(hex_of(slot_of(h)) == h);
                    assert(hex_of(slot_of(hex)) == hex);
                }
            }
        }
        before
    }
}

} // verus!
