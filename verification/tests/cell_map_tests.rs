use hex_game::board::{CellState, Hex};
use hex_game::cell_map::{slot, CellMap};

#[test]
fn test_slot_values() {
    assert_eq!(slot(&Hex { q: 0, r: 0 }), 0x8000_0000_8000_0000);
    assert_eq!(slot(&Hex { q: i32::MIN, r: i32::MIN }), 0);
    assert_eq!(slot(&Hex { q: i32::MAX, r: i32::MAX }), u64::MAX);
    assert_eq!(slot(&Hex { q: i32::MIN, r: i32::MAX }), 0xffff_ffff);
    assert_eq!(slot(&Hex { q: -1, r: 0 }), 0x7fff_ffff_8000_0000);
    assert_eq!(slot(&Hex { q: 0, r: -1 }), 0x8000_0000_7fff_ffff);
    assert_eq!(slot(&Hex { q: 1, r: 2 }), 0x8000_0001_8000_0002);
}

#[test]
fn test_slots_differ() {
    let cells = [
        Hex { q: 0, r: 0 },
        Hex { q: 0, r: 1 },
        Hex { q: 1, r: 0 },
        Hex { q: -1, r: 0 },
        Hex { q: 0, r: -1 },
        Hex { q: -1, r: -1 },
        Hex { q: i32::MAX, r: i32::MIN },
        Hex { q: i32::MIN, r: i32::MAX },
    ];
    for (i, a) in cells.iter().enumerate() {
        for (j, b) in cells.iter().enumerate() {
            assert_eq!(slot(a) == slot(b), i == j);
        }
    }
}

#[test]
fn test_cell_map_starts_empty() {
    let map = CellMap::new();
    assert_eq!(map.len(), 0);
    assert!(!map.contains_key(&Hex { q: 0, r: 0 }));
    assert_eq!(map.get(&Hex { q: 0, r: 0 }), None);
}

#[test]
fn test_cell_map_insert_and_get() {
    let mut map = CellMap::new();
    let near = Hex { q: -1, r: 0 };
    let far = Hex { q: i32::MAX, r: i32::MIN };

    assert_eq!(map.insert(near, CellState::Red), None);
    assert_eq!(map.insert(far, CellState::Blue), None);
    assert_eq!(map.len(), 2);
    assert_eq!(map.get(&near), Some(&CellState::Red));
    assert_eq!(map.get(&far), Some(&CellState::Blue));
    assert!(map.contains_key(&near));
    assert!(!map.contains_key(&Hex { q: 0, r: -1 }));
    assert_eq!(map.get(&Hex { q: i32::MIN, r: i32::MAX }), None);

    // Storing again replaces the contents and hands back the old ones.
    assert_eq!(map.insert(near, CellState::Empty), Some(CellState::Red));
    assert_eq!(map.get(&near), Some(&CellState::Empty));
    assert_eq!(map.len(), 2);
}
