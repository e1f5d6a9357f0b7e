use hex_game::board::{Board, CellState, Hex};
use hex_game::game::{Game, GameState, DEFAULT_BOARD_SIZE};
use hex_game::region::Shape;

#[test]
fn test_new_game_state() {
    let game = Game::new();
    assert_eq!(game.current_player, CellState::Red);
    assert_eq!(game.state, GameState::InProgress);
    assert_eq!(game.turn_count, 0);
    assert_eq!(game.first_player_move, None);
}

#[test]
fn test_first_move_triggers_pie_rule_choice() {
    let mut game = Game::new();
    let first_move_hex = Hex { q: 0, r: 0 };
    game.handle_click(first_move_hex);

    assert_eq!(game.turn_count, 1);
    assert_eq!(game.first_player_move, Some(first_move_hex));
    assert_eq!(game.state, GameState::WaitingForPieRuleChoice);
    assert_eq!(game.current_player, CellState::Blue); // Current player should be blue after first red move
    assert_eq!(game.board.get_cell(&first_move_hex), Some(&CellState::Red)); // Red placed the piece
}

#[test]
fn test_pie_rule_apply() {
    let mut game = Game::new();
    let first_move_hex = Hex { q: 0, r: 0 };
    game.handle_click(first_move_hex); // Red plays 1st move

    // Game state should be WaitingForPieRuleChoice, current_player is Blue
    assert_eq!(game.state, GameState::WaitingForPieRuleChoice);
    assert_eq!(game.current_player, CellState::Blue);
    assert_eq!(game.board.get_cell(&first_move_hex), Some(&CellState::Red));

    game.handle_pie_rule_decision(true); // Blue applies pie rule

    // Board should be updated: Red's piece becomes Blue's
    assert_eq!(game.board.get_cell(&first_move_hex), Some(&CellState::Blue));
    // Game state should be InProgress
    assert_eq!(game.state, GameState::InProgress);
    // Current player should still be Blue (who chose pie rule)
    assert_eq!(game.current_player, CellState::Blue);
}

#[test]
fn test_pie_rule_do_not_apply() {
    let mut game = Game::new();
    let first_move_hex = Hex { q: 0, r: 0 };
    game.handle_click(first_move_hex); // Red plays 1st move

    // Game state should be WaitingForPieRuleChoice, current_player is Blue
    assert_eq!(game.state, GameState::WaitingForPieRuleChoice);
    assert_eq!(game.current_player, CellState::Blue);
    assert_eq!(game.board.get_cell(&first_move_hex), Some(&CellState::Red));

    game.handle_pie_rule_decision(false); // Blue does not apply pie rule

    // Board should be unchanged
    assert_eq!(game.board.get_cell(&first_move_hex), Some(&CellState::Red));
    // Game state should be InProgress
    assert_eq!(game.state, GameState::InProgress);
    // Current player should remain Blue
    assert_eq!(game.current_player, CellState::Blue);
}

#[test]
fn test_subsequent_moves_after_pie_rule_decision() {
    let mut game = Game::new();
    let first_move_hex = Hex { q: 0, r: 0 };
    game.handle_click(first_move_hex); // Red plays 1st move
    game.handle_pie_rule_decision(true); // Blue applies pie rule, Red's piece is now Blue's, Blue plays as Red.

    // Blue's turn (as Red color)
    assert_eq!(game.current_player, CellState::Blue);
    let second_move_hex = Hex { q: 1, r: 0 };
    game.handle_click(second_move_hex);

    assert_eq!(game.board.get_cell(&second_move_hex), Some(&CellState::Blue));
    assert_eq!(game.current_player, CellState::Red); // Red's turn (as Blue color)
    assert_eq!(game.turn_count, 2);
}

#[test]
fn test_subsequent_moves_after_no_pie_rule_decision() {
    let mut game = Game::new();
    let first_move_hex = Hex { q: 0, r: 0 };
    game.handle_click(first_move_hex); // Red plays 1st move
    game.handle_pie_rule_decision(false); // Blue does not apply pie rule, Blue plays as Blue.

    // Blue's turn (as Blue color)
    assert_eq!(game.current_player, CellState::Blue);
    let second_move_hex = Hex { q: 1, r: 0 };
    game.handle_click(second_move_hex);

    assert_eq!(game.board.get_cell(&second_move_hex), Some(&CellState::Blue));
    assert_eq!(game.current_player, CellState::Red); // Red's turn (as Red color)
    assert_eq!(game.turn_count, 2);
}

fn snapshot(game: &Game) -> (Vec<Option<CellState>>, CellState, GameState, u32, Option<Hex>) {
    let mut cells = Vec::new();
    for q in -12..=12 {
        for r in -12..=12 {
            cells.push(game.board.get_cell(&Hex { q, r }).copied());
        }
    }
    (cells, game.current_player, game.state, game.turn_count, game.first_player_move)
}

#[test]
fn test_new_game_board() {
    let game = Game::new();
    assert_eq!(DEFAULT_BOARD_SIZE, 11);
    assert_eq!(game.board.size, 11);
    assert_eq!(game.board.shape, Shape::Rhombus);
    assert_eq!(game.board.cells.len(), 121);
    assert_eq!(game.board.get_cell(&Hex { q: 10, r: 10 }), Some(&CellState::Empty));
    assert_eq!(game.board.get_cell(&Hex { q: 11, r: 0 }), None);
    assert!(!game.check_win_condition());
}

#[test]
fn test_balancing_rule_end_to_end() {
    let mut game = Game::new();
    let opening = Hex { q: 0, r: 0 };
    game.handle_click(opening);
    assert_eq!(game.state, GameState::WaitingForPieRuleChoice);
    assert_eq!(game.current_player, CellState::Blue);

    game.handle_pie_rule_decision(true);
    assert_eq!(game.board.get_cell(&opening), Some(&CellState::Blue));
    assert_eq!(game.current_player, CellState::Blue);
    assert_eq!(game.state, GameState::InProgress);
    assert_eq!(game.turn_count, 1);

    game.handle_click(Hex { q: 5, r: 5 });
    assert_eq!(game.board.get_cell(&Hex { q: 5, r: 5 }), Some(&CellState::Blue));
    assert_eq!(game.turn_count, 2);
}

#[test]
fn test_rejected_clicks_change_nothing() {
    let mut game = Game::new();
    game.handle_click(Hex { q: 3, r: 3 });
    game.handle_pie_rule_decision(false);
    game.handle_click(Hex { q: 4, r: 4 });
    let before = snapshot(&game);

    // Claimed by Red, claimed by Blue, outside the board.
    game.handle_click(Hex { q: 3, r: 3 });
    assert_eq!(snapshot(&game), before);
    game.handle_click(Hex { q: 4, r: 4 });
    assert_eq!(snapshot(&game), before);
    game.handle_click(Hex { q: 11, r: 0 });
    assert_eq!(snapshot(&game), before);
    game.handle_click(Hex { q: -1, r: 5 });
    assert_eq!(snapshot(&game), before);
    assert_eq!(game.turn_count, 2);
    assert_eq!(game.current_player, CellState::Red);
}

#[test]
fn test_click_while_waiting_for_the_decision_is_ignored() {
    let mut game = Game::new();
    game.handle_click(Hex { q: 0, r: 0 });
    let before = snapshot(&game);
    game.handle_click(Hex { q: 1, r: 1 });
    assert_eq!(snapshot(&game), before);
    assert_eq!(game.state, GameState::WaitingForPieRuleChoice);
}

#[test]
fn test_decision_outside_the_wait_is_ignored() {
    let mut game = Game::new();
    let before = snapshot(&game);
    game.handle_pie_rule_decision(true);
    assert_eq!(snapshot(&game), before);

    game.handle_click(Hex { q: 0, r: 0 });
    game.handle_pie_rule_decision(false);
    let after = snapshot(&game);
    game.handle_pie_rule_decision(true);
    assert_eq!(snapshot(&game), after);
    assert_eq!(game.board.get_cell(&Hex { q: 0, r: 0 }), Some(&CellState::Red));
}

#[test]
fn test_red_wins_on_a_small_board() {
    let mut game = Game::with_board(Board::new(2));
    assert_eq!(game.turn_count, 0);
    game.handle_click(Hex { q: 0, r: 0 }); // Red opens
    game.handle_pie_rule_decision(false);
    game.handle_click(Hex { q: 0, r: 1 }); // Blue
    assert_eq!(game.state, GameState::InProgress);
    assert_eq!(game.current_player, CellState::Red);
    game.handle_click(Hex { q: 1, r: 0 }); // Red joins q == 0 to q == 1
    assert_eq!(game.state, GameState::Finished { winner: CellState::Red });
    assert_eq!(game.current_player, CellState::Red);
    assert_eq!(game.turn_count, 3);
    assert!(game.check_win_condition());
}

#[test]
fn test_finished_game_ignores_every_call() {
    let mut game = Game::with_board(Board::new(2));
    game.handle_click(Hex { q: 0, r: 0 });
    game.handle_pie_rule_decision(false);
    game.handle_click(Hex { q: 0, r: 1 });
    game.handle_click(Hex { q: 1, r: 0 });
    assert_eq!(game.state, GameState::Finished { winner: CellState::Red });
    let before = snapshot(&game);

    game.handle_click(Hex { q: 1, r: 1 });
    assert_eq!(snapshot(&game), before);
    game.handle_pie_rule_decision(true);
    assert_eq!(snapshot(&game), before);
    game.handle_pie_rule_decision(false);
    assert_eq!(snapshot(&game), before);
    assert_eq!(game.board.get_cell(&Hex { q: 1, r: 1 }), Some(&CellState::Empty));
}

#[test]
fn test_blue_wins_after_taking_the_opening() {
    let mut game = Game::with_board(Board::new(2));
    game.handle_click(Hex { q: 0, r: 0 }); // Red opens
    game.handle_pie_rule_decision(true); // Blue takes the piece
    assert_eq!(game.board.get_cell(&Hex { q: 0, r: 0 }), Some(&CellState::Blue));
    game.handle_click(Hex { q: 0, r: 1 }); // Blue joins r == 0 to r == 1
    assert_eq!(game.state, GameState::Finished { winner: CellState::Blue });
    assert_eq!(game.turn_count, 2);
}

#[test]
fn test_opening_move_never_ends_the_game() {
    let mut game = Game::with_board(Board::new(1));
    game.handle_click(Hex { q: 0, r: 0 });
    assert_eq!(game.state, GameState::WaitingForPieRuleChoice);
    assert_eq!(game.first_player_move, Some(Hex { q: 0, r: 0 }));
    game.handle_pie_rule_decision(false);
    assert_eq!(game.state, GameState::InProgress);
    assert_eq!(game.current_player, CellState::Blue);
}

#[test]
fn test_full_game_on_the_default_board() {
    let mut game = Game::new();
    // Red fills the row r == 0 from q == 0 to q == 10; Blue answers in the row r == 5.
    game.handle_click(Hex { q: 0, r: 0 });
    game.handle_pie_rule_decision(false);
    for q in 1..=10 {
        assert_eq!(game.current_player, CellState::Blue);
        game.handle_click(Hex { q: q - 1, r: 5 });
        assert_eq!(game.state, GameState::InProgress);
        assert_eq!(game.current_player, CellState::Red);
        game.handle_click(Hex { q, r: 0 });
        if q < 10 {
            assert_eq!(game.state, GameState::InProgress);
        }
    }
    assert_eq!(game.state, GameState::Finished { winner: CellState::Red });
    assert_eq!(game.turn_count, 21);
}

#[test]
fn test_game_on_a_hexagon_board() {
    let mut game = Game::with_board(Board::hexagon(1));
    game.handle_click(Hex { q: -1, r: 0 }); // Red opens on the edge q == -1
    game.handle_pie_rule_decision(false);
    game.handle_click(Hex { q: 0, r: 1 }); // Blue
    game.handle_click(Hex { q: 0, r: 0 }); // Red
    assert_eq!(game.state, GameState::InProgress);
    game.handle_click(Hex { q: -1, r: 1 }); // Blue
    game.handle_click(Hex { q: 1, r: -1 }); // Red reaches q == 1
    assert_eq!(game.state, GameState::Finished { winner: CellState::Red });
}
