use hex_game::board::{Board, CellState, Hex};
use hex_game::error::MoveError;
use hex_game::region::{region_cells, Shape};

#[test]
fn test_get_set_cell() {
    let mut board = Board::new(11);
    let hex = Hex { q: 1, r: 2 };

    // Check initial state
    assert_eq!(board.get_cell(&hex), Some(&CellState::Empty));

    // Set and check new state
    board.set_cell(hex, CellState::Red);
    assert_eq!(board.get_cell(&hex), Some(&CellState::Red));

    // Check out of bounds
    let out_of_bounds_hex = Hex { q: 20, r: 20 };
    assert_eq!(board.get_cell(&out_of_bounds_hex), None);
}

#[test]
fn test_get_neighbors() {
    let hex = Hex { q: 1, r: 2 };
    let neighbors = hex.get_neighbors();
    let expected_neighbors = vec![
        Hex { q: 2, r: 2 },
        Hex { q: 1, r: 3 },
        Hex { q: 0, r: 3 },
        Hex { q: 0, r: 2 },
        Hex { q: 1, r: 1 },
        Hex { q: 2, r: 1 },
    ];
    assert_eq!(neighbors, expected_neighbors);
}

#[test]
fn test_place_piece() {
    let mut board = Board::new(2);
    let hex = Hex { q: 0, r: 0 };

    // Place a piece on an empty cell
    assert!(board.place_piece(hex, CellState::Red).is_ok());
    assert_eq!(board.get_cell(&hex), Some(&CellState::Red));

    // Try to place a piece on a non-empty cell
    assert!(board.place_piece(hex, CellState::Blue).is_err());
    assert_eq!(board.get_cell(&hex), Some(&CellState::Red)); // Should still be Red

    // Try to place a piece out of bounds
    let out_of_bounds_hex = Hex { q: 10, r: 10 };
    assert!(board.place_piece(out_of_bounds_hex, CellState::Blue).is_err());
}

#[test]
fn test_is_valid_move() {
    let mut board = Board::new(2);
    let hex_empty = Hex { q: 0, r: 0 };
    let hex_occupied = Hex { q: 0, r: 1 };
    let hex_out_of_bounds = Hex { q: 10, r: 10 };

    // Empty cell
    assert!(board.is_valid_move(&hex_empty));

    // Occupied cell
    board.place_piece(hex_occupied, CellState::Red).unwrap();
    assert!(!board.is_valid_move(&hex_occupied));

    // Out of bounds cell
    assert!(!board.is_valid_move(&hex_out_of_bounds));
}

#[test]
fn test_new_rhombus_board() {
    let size = 5;
    let board = Board::new(size);

    assert_eq!(board.size, size);
    assert_eq!(board.cells.len(), (size * size) as usize);

    for q in 0..size {
        for r in 0..size {
            assert!(board.cells.contains_key(&Hex { q, r }));
        }
    }

    // Check for a key that should NOT be in the map
    assert!(!board.cells.contains_key(&Hex { q: -1, r: 0 }));
    assert!(!board.cells.contains_key(&Hex { q: 0, r: -1 }));
    assert!(!board.cells.contains_key(&Hex { q: size, r: size - 1 }));
    assert!(!board.cells.contains_key(&Hex { q: size - 1, r: size }));
}

#[test]
fn test_place_piece_reports_each_error() {
    let mut board = Board::new(3);
    let hex = Hex { q: 1, r: 1 };
    assert_eq!(board.place_piece(hex, CellState::Blue), Ok(()));
    assert_eq!(board.place_piece(hex, CellState::Red), Err("Cell is not empty"));
    assert_eq!(board.place_piece(hex, CellState::Blue), Err("Cell is not empty"));
    assert_eq!(board.place_piece(Hex { q: 3, r: 0 }, CellState::Red), Err("Hex is out of bounds"));
    assert_eq!(board.place_piece(Hex { q: 0, r: -1 }, CellState::Red), Err("Hex is out of bounds"));
}

#[test]
fn test_rejected_piece_changes_no_cell() {
    let mut board = Board::new(3);
    board.place_piece(Hex { q: 0, r: 0 }, CellState::Red).unwrap();
    board.place_piece(Hex { q: 2, r: 1 }, CellState::Blue).unwrap();
    let before: Vec<Option<CellState>> = all_cells(&board, -1, 4);

    assert!(board.place_piece(Hex { q: 0, r: 0 }, CellState::Blue).is_err());
    assert!(board.place_piece(Hex { q: 7, r: 7 }, CellState::Blue).is_err());

    assert_eq!(all_cells(&board, -1, 4), before);
    assert_eq!(board.cells.len(), 9);
}

fn all_cells(board: &Board, low: i32, high: i32) -> Vec<Option<CellState>> {
    let mut out = Vec::new();
    for q in low..high {
        for r in low..high {
            out.push(board.get_cell(&Hex { q, r }).copied());
        }
    }
    out
}

#[test]
fn test_set_cell_outside_the_board_adds_no_cell() {
    let mut board = Board::new(2);
    board.set_cell(Hex { q: 5, r: 5 }, CellState::Red);
    assert_eq!(board.get_cell(&Hex { q: 5, r: 5 }), None);
    assert_eq!(board.cells.len(), 4);
}

#[test]
fn test_set_cell_overwrites_a_claimed_cell() {
    let mut board = Board::new(2);
    let hex = Hex { q: 1, r: 0 };
    board.set_cell(hex, CellState::Red);
    board.set_cell(hex, CellState::Blue);
    assert_eq!(board.get_cell(&hex), Some(&CellState::Blue));
    board.set_cell(hex, CellState::Empty);
    assert_eq!(board.get_cell(&hex), Some(&CellState::Empty));
    assert_eq!(board.cells.len(), 4);
}

#[test]
fn test_board_without_cells() {
    let board = Board::new(0);
    assert_eq!(board.cells.len(), 0);
    assert_eq!(board.get_cell(&Hex { q: 0, r: 0 }), None);
    let negative = Board::new(-3);
    assert_eq!(negative.cells.len(), 0);
    assert_eq!(negative.size, -3);
    assert!(!negative.connects(CellState::Red));
}

#[test]
fn test_neighbors_are_symmetric() {
    let centers = [Hex { q: 0, r: 0 }, Hex { q: -4, r: 9 }, Hex { q: 1000, r: -1000 }];
    for center in centers {
        let neighbors = center.get_neighbors();
        assert_eq!(neighbors.len(), 6);
        for (i, neighbor) in neighbors.iter().enumerate() {
            let back = neighbor.get_neighbors();
            assert!(back.contains(&center));
            assert_eq!(back[(i + 3) % 6], center);
        }
    }
}

#[test]
fn test_neighbors_near_the_end_of_the_range() {
    let hex = Hex { q: i32::MAX - 1, r: i32::MIN + 1 };
    let neighbors = hex.get_neighbors();
    assert_eq!(neighbors[0], Hex { q: i32::MAX, r: i32::MIN + 1 });
    assert_eq!(neighbors[4], Hex { q: i32::MAX - 1, r: i32::MIN });
}

#[test]
fn test_hexagon_cell_counts() {
    let counts = [(0, 1usize), (1, 7), (2, 19), (3, 37), (5, 91), (10, 331)];
    for (size, count) in counts {
        let board = Board::hexagon(size);
        assert_eq!(board.size, size);
        assert_eq!(board.shape, Shape::Hexagon);
        assert_eq!(board.cells.len(), count);
        assert_eq!(count as i32, 3 * size * size + 3 * size + 1);
    }
    assert_eq!(Board::hexagon(-1).cells.len(), 0);
}

#[test]
fn test_hexagon_cells_are_the_region_and_empty() {
    let size = 3;
    let board = Board::hexagon(size);
    let mut seen = 0;
    for q in -5..=5 {
        for r in -5..=5 {
            let inside = q >= -size
                && q <= size
                && r >= (-size).max(-q - size)
                && r <= size.min(-q + size);
            let cell = board.get_cell(&Hex { q, r });
            if inside {
                assert_eq!(cell, Some(&CellState::Empty));
                seen += 1;
            } else {
                assert_eq!(cell, None);
            }
        }
    }
    assert_eq!(seen, 37);
    assert_eq!(board.get_cell(&Hex { q: 3, r: -3 }), Some(&CellState::Empty));
    assert_eq!(board.get_cell(&Hex { q: 3, r: 1 }), None);
    assert_eq!(board.get_cell(&Hex { q: -3, r: -1 }), None);
}

#[test]
fn test_hexagon_path_joins_the_q_edges() {
    let mut board = Board::hexagon(1);
    assert_eq!(board.cells.len(), 7);
    board.set_cell(Hex { q: -1, r: 0 }, CellState::Red);
    board.set_cell(Hex { q: 0, r: 0 }, CellState::Red);
    board.set_cell(Hex { q: 1, r: -1 }, CellState::Red);
    assert!(board.connects(CellState::Red));
    assert!(!board.connects(CellState::Blue));

    board.set_cell(Hex { q: 0, r: 0 }, CellState::Empty);
    assert!(!board.connects(CellState::Red));
}

#[test]
fn test_hexagon_path_joins_the_r_edges() {
    let mut board = Board::hexagon(2);
    for hex in [
        Hex { q: 0, r: -2 },
        Hex { q: 0, r: -1 },
        Hex { q: -1, r: 0 },
        Hex { q: -1, r: 1 },
        Hex { q: -2, r: 2 },
    ] {
        board.set_cell(hex, CellState::Blue);
    }
    assert!(board.connects(CellState::Blue));
    assert!(!board.connects(CellState::Red));
    board.set_cell(Hex { q: -1, r: 0 }, CellState::Red);
    assert!(!board.connects(CellState::Blue));
}

#[test]
fn test_rhombus_connection_needs_an_unbroken_chain() {
    let mut board = Board::new(4);
    assert!(!board.connects(CellState::Red));
    // (0,1) (1,1) (2,0) (3,0): each touches the next.
    board.set_cell(Hex { q: 0, r: 1 }, CellState::Red);
    board.set_cell(Hex { q: 1, r: 1 }, CellState::Red);
    board.set_cell(Hex { q: 3, r: 0 }, CellState::Red);
    assert!(!board.connects(CellState::Red));
    board.set_cell(Hex { q: 2, r: 0 }, CellState::Red);
    assert!(board.connects(CellState::Red));
    assert!(!board.connects(CellState::Blue));
    assert!(!board.connects(CellState::Empty));
}

#[test]
fn test_rhombus_cells_that_do_not_touch_do_not_connect() {
    let mut board = Board::new(3);
    // (0,0) and (1,1) are no neighbours on the hexagonal grid; (0,1) and (1,0) are.
    board.set_cell(Hex { q: 0, r: 0 }, CellState::Red);
    board.set_cell(Hex { q: 1, r: 1 }, CellState::Red);
    board.set_cell(Hex { q: 2, r: 1 }, CellState::Red);
    assert!(!board.connects(CellState::Red));
    board.set_cell(Hex { q: 0, r: 2 }, CellState::Red);
    assert!(board.connects(CellState::Red));
}

#[test]
fn test_rhombus_blue_joins_the_r_edges() {
    let mut board = Board::new(3);
    board.set_cell(Hex { q: 1, r: 0 }, CellState::Blue);
    board.set_cell(Hex { q: 1, r: 1 }, CellState::Blue);
    assert!(!board.connects(CellState::Blue));
    board.set_cell(Hex { q: 0, r: 2 }, CellState::Blue);
    assert!(board.connects(CellState::Blue));
    assert!(!board.connects(CellState::Red));
}

#[test]
fn test_single_cell_board_is_joined_by_one_piece() {
    let mut board = Board::new(1);
    assert!(!board.connects(CellState::Red));
    board.set_cell(Hex { q: 0, r: 0 }, CellState::Red);
    assert!(board.connects(CellState::Red));
    assert!(!board.connects(CellState::Blue));
}

#[test]
fn test_region_cells_in_order() {
    assert_eq!(
        region_cells(Shape::Rhombus, 2),
        vec![Hex { q: 0, r: 0 }, Hex { q: 0, r: 1 }, Hex { q: 1, r: 0 }, Hex { q: 1, r: 1 }]
    );
    assert_eq!(
        region_cells(Shape::Hexagon, 1),
        vec![
            Hex { q: -1, r: 0 },
            Hex { q: -1, r: 1 },
            Hex { q: 0, r: -1 },
            Hex { q: 0, r: 0 },
            Hex { q: 0, r: 1 },
            Hex { q: 1, r: -1 },
            Hex { q: 1, r: 0 },
        ]
    );
    assert_eq!(region_cells(Shape::Hexagon, 0), vec![Hex { q: 0, r: 0 }]);
    assert_eq!(region_cells(Shape::Rhombus, 0), Vec::<Hex>::new());
    assert_eq!(region_cells(Shape::Rhombus, -4), Vec::<Hex>::new());
    assert_eq!(region_cells(Shape::Hexagon, -1), Vec::<Hex>::new());
    assert_eq!(region_cells(Shape::Rhombus, 1), vec![Hex { q: 0, r: 0 }]);
}

#[test]
fn test_region_cell_counts() {
    for size in 0..20 {
        assert_eq!(region_cells(Shape::Hexagon, size).len() as i32, 3 * size * size + 3 * size + 1);
        assert_eq!(region_cells(Shape::Rhombus, size).len() as i32, size * size);
    }
    let rows: Vec<usize> = (-3..=3)
        .map(|q| region_cells(Shape::Hexagon, 3).iter().filter(|h| h.q == q).count())
        .collect();
    assert_eq!(rows, vec![4, 5, 6, 7, 6, 5, 4]);
}

#[test]
fn test_board_coordinates() {
    let mut board = Board::hexagon(2);
    board.set_cell(Hex { q: 0, r: 0 }, CellState::Red);
    let listed = board.coordinates();
    assert_eq!(listed, region_cells(Shape::Hexagon, 2));
    assert_eq!(listed.len(), board.cells.len());
    for hex in &listed {
        assert!(board.get_cell(hex).is_some());
    }
    assert_eq!(Board::new(3).coordinates(), region_cells(Shape::Rhombus, 3));
    assert_eq!(Board::new(3).coordinates()[5], Hex { q: 1, r: 2 });
}

#[test]
fn test_error_messages() {
    assert_eq!(MoveError::OutOfBounds.message(), "Coordinate is out of bounds");
    assert_eq!(MoveError::Occupied.message(), "Cell belongs to the other player");
    assert_eq!(MoveError::DifferentHeights.message(), "Cells have different heights");
    assert_eq!(MoveError::NotAdjacent.message(), "Cells are not adjacent");
    assert_eq!(MoveError::NotYourTurn.message(), "Not your turn");
}
