use tictactoe::game::{fresh_board, Game, MoveError, Outcome, Turn, WIN_CONDITIONS};
use tictactoe::tiles::TileState;

fn new_game() -> Game {
    Game::new(fresh_board(), ("Ann".to_string(), "Bob".to_string()))
}

fn drawn(g: &Game) -> String {
    let mut s = String::new();
    g.draw_into(&mut s);
    s
}

const RULE: &str = "-------------------------------\n";

#[test]
fn fresh_board_keys_and_states() {
    let tiles = fresh_board();
    let keys = [["a1", "a2", "a3"], ["b1", "b2", "b3"], ["c1", "c2", "c3"]];
    for r in 0..3 {
        for c in 0..3 {
            assert_eq!(tiles[r][c].get_key(), keys[r][c]);
            assert_eq!(*tiles[r][c].get_state(), TileState::Empty);
        }
    }
}

#[test]
fn current_player_follows_turns() {
    let mut g = new_game();
    assert_eq!(g.get_current_player(), "Ann");
    g.next();
    assert_eq!(g.get_current_player(), "Ann");
    g.next();
    assert_eq!(g.get_current_player(), "Bob");
    g.next();
    assert_eq!(g.get_current_player(), "Ann");
}

#[test]
fn start_then_one_move_passes_the_turn() {
    let mut g = new_game();
    g.next();
    assert_eq!(g.get_current_player(), "Ann");
    assert_eq!(g.play("b2").unwrap(), Outcome::InProgress);
    g.next();
    assert_eq!(g.get_current_player(), "Bob");
}

#[test]
fn marks_alternate_with_move_count() {
    let mut g = new_game();
    g.next();
    let keys = ["a1", "a2", "a3", "b2", "b1", "b3"];
    for (k, key) in keys.iter().enumerate() {
        let expected = if k % 2 == 0 { "Ann" } else { "Bob" };
        assert_eq!(g.get_current_player(), expected);
        assert_eq!(g.take_turn(key).unwrap(), Outcome::InProgress);
    }
    let text = drawn(&g);
    assert!(text.contains("|    X    |    O    |    X    |\n"));
    assert!(text.contains("|    X    |    O    |    O    |\n"));
}

#[test]
fn play_on_occupied_cell_is_refused_twice_without_change() {
    let mut g = new_game();
    g.next();
    assert_eq!(g.play("a1").unwrap(), Outcome::InProgress);
    g.next();
    let before = drawn(&g);
    for _ in 0..2 {
        match g.play("a1") {
            Err(MoveError::AlreadyOccupied(k)) => assert_eq!(k, "a1"),
            other => panic!("expected AlreadyOccupied, got {:?}", other),
        }
        assert_eq!(drawn(&g), before);
        assert_eq!(g.get_current_player(), "Bob");
    }
}

#[test]
fn play_outside_the_board_is_out_of_bounds() {
    let mut g = new_game();
    g.next();
    let before = drawn(&g);
    for key in ["d1", "a4", "a0", "", "a", "a10", "A1", "1a", " a1"] {
        match g.play(key) {
            Err(MoveError::OutOfBounds(k)) => assert_eq!(k, key),
            other => panic!("expected OutOfBounds for {:?}, got {:?}", key, other),
        }
    }
    assert_eq!(drawn(&g), before);
}

#[test]
fn full_board_without_line_is_a_draw() {
    let mut g = new_game();
    g.next();
    let moves = ["a1", "a2", "a3", "b2", "b1", "b3", "c2", "c1"];
    for key in moves {
        assert_eq!(g.take_turn(key).unwrap(), Outcome::InProgress);
    }
    assert_eq!(g.take_turn("c3").unwrap(), Outcome::Draw);
    assert_eq!(g.validate(), Outcome::Draw);
}

#[test]
fn completing_row_a_wins_for_x() {
    let mut g = new_game();
    g.next();
    for key in ["a1", "b1", "a2", "b2"] {
        assert_eq!(g.take_turn(key).unwrap(), Outcome::InProgress);
    }
    assert_eq!(g.take_turn("a3").unwrap(), Outcome::Win(TileState::X));
    assert_eq!(g.get_current_player(), "Ann");
}

#[test]
fn column_and_diagonal_wins_for_o() {
    let mut g = new_game();
    g.next();
    for key in ["a1", "a3", "a2", "b2", "c3"] {
        assert_eq!(g.take_turn(key).unwrap(), Outcome::InProgress);
    }
    assert_eq!(g.take_turn("c1").unwrap(), Outcome::Win(TileState::O));

    let mut g = new_game();
    g.next();
    for key in ["a1", "a2", "b1", "b2", "c3"] {
        assert_eq!(g.take_turn(key).unwrap(), Outcome::InProgress);
    }
    assert_eq!(g.take_turn("c2").unwrap(), Outcome::Win(TileState::O));
}

#[test]
fn take_turn_keeps_turn_on_refusal() {
    let mut g = new_game();
    g.next();
    assert!(g.take_turn("z9").is_err());
    assert_eq!(g.get_current_player(), "Ann");
    assert!(g.take_turn("a1").is_ok());
    assert_eq!(g.get_current_player(), "Bob");
}

#[test]
fn validate_in_progress_on_partial_board() {
    let mut g = new_game();
    g.next();
    assert_eq!(g.validate(), Outcome::InProgress);
    g.play("b2").unwrap();
    assert_eq!(g.validate(), Outcome::InProgress);
}

#[test]
fn turn_enum_is_plain_data() {
    assert_ne!(Turn::Unset, Turn::PlayerA);
    assert_ne!(Turn::PlayerA, Turn::PlayerB);
}

#[test]
fn win_table_has_eight_lines() {
    assert_eq!(WIN_CONDITIONS.len(), 8);
    assert_eq!(WIN_CONDITIONS[0], [(0, 0), (0, 1), (0, 2)]);
    assert_eq!(WIN_CONDITIONS[7], [(0, 2), (1, 1), (2, 0)]);
}

#[test]
fn draw_into_fresh_board() {
    let g = new_game();
    let expected = format!(
        "\n{RULE}|   a1    |   a2    |   a3    |\n{RULE}|   b1    |   b2    |   b3    |\n{RULE}|   c1    |   c2    |   c3    |\n{RULE}"
    );
    assert_eq!(drawn(&g), expected);
}

#[test]
fn draw_into_shows_marks() {
    let mut g = new_game();
    g.next();
    g.take_turn("a1").unwrap();
    g.take_turn("c3").unwrap();
    let expected = format!(
        "\n{RULE}|    X    |   a2    |   a3    |\n{RULE}|   b1    |   b2    |   b3    |\n{RULE}|   c1    |   c2    |    O    |\n{RULE}"
    );
    assert_eq!(drawn(&g), expected);
}

#[test]
fn draw_into_appends_to_existing_text() {
    let g = new_game();
    let mut s = "board:".to_string();
    g.draw_into(&mut s);
    assert!(s.starts_with("board:\n---"));
    assert_eq!(s.len(), "board:".len() + 1 + 4 * 32 + 3 * 32);
}
