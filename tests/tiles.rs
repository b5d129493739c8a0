use tictactoe::tiles::{Tile, TileError, TileState};

#[test]
fn new_tile_is_empty_with_its_key() {
    let t = Tile::new("b2".to_string());
    assert_eq!(*t.get_state(), TileState::Empty);
    assert_eq!(t.get_key(), "b2");
}

#[test]
fn set_state_on_empty_tile_marks_it() {
    let mut t = Tile::new("a1".to_string());
    let r = t.set_state(TileState::X);
    match r {
        Ok(tile) => {
            assert_eq!(*tile.get_state(), TileState::X);
            assert_eq!(tile.get_key(), "a1");
        }
        Err(e) => panic!("unexpected error {:?}", e),
    }
    assert_eq!(*t.get_state(), TileState::X);
}

#[test]
fn set_state_on_occupied_tile_is_refused() {
    let mut t = Tile::new("c3".to_string());
    assert!(t.set_state(TileState::O).is_ok());
    match t.set_state(TileState::X) {
        Err(TileError::TileInUse(k)) => assert_eq!(k, "c3"),
        Ok(_) => panic!("occupied tile accepted a mark"),
    }
    assert_eq!(*t.get_state(), TileState::O);
    match t.set_state(TileState::O) {
        Err(TileError::TileInUse(k)) => assert_eq!(k, "c3"),
        Ok(_) => panic!("occupied tile accepted a mark"),
    }
    assert_eq!(*t.get_state(), TileState::O);
}

#[test]
fn tile_state_text() {
    assert_eq!(TileState::Empty.to_string(), "Empty");
    assert_eq!(TileState::X.to_string(), "X");
    assert_eq!(TileState::O.to_string(), "O");
}
