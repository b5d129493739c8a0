use vstd::prelude::*;

verus! {

/// The reason a tile refused a new state.
#[derive(Debug)]
pub enum TileError {
    /// The tile with this key already holds a mark.
    TileInUse(String),
}

/// What a tile holds.
#[derive(Debug, Clone, Copy, PartialEq, Eq, Structural)]
pub enum TileState {
    Empty,
    X,
    O,
}

impl TileState {
    /// The text shown for a state.
    pub open spec fn label(self) -> Seq<char> {
        match self {
            TileState::Empty => seq!['E', 'm', 'p', 't', 'y'],
            TileState::X => seq!['X'],
            TileState::O => seq!['O'],
        }
    }

    /// The text shown for this state.
    pub fn to_string(&self) -> (r: String)
        ensures
            r@ == self.label(),
    {
        match self {
            TileState::Empty => {
                let r = String::from_str("Empty");
                proof {
                    reveal_strlit("Empty");
                }
                r
            },
            TileState::X => {
                let r = String::from_str("X");
                proof {
                    reveal_strlit("X");
                }
                r
            },
            TileState::O => {
                let r = String::from_str("O");
                proof {
                    reveal_strlit("O");
                }
                r
            },
        }
    }
}

/// One cell of the board: its reference key and what it holds.
#[derive(Debug)]
pub struct Tile {
    state: TileState,
    key: String,
}

impl Tile {
    /// What the tile holds.
    pub closed spec fn state_of(&self) -> TileState {
        self.state
    }

    /// The tile's reference key.
    pub closed spec fn key_of(&self) -> Seq<char> {
        self.key@
    }

    /// An empty tile with the given key.
    pub fn new(key: String) -> (r: Self)
        ensures
            r.state_of() == TileState::Empty,
            r.key_of() == key@,
    {
        Tile { state: TileState::Empty, key }
    }

    /// Puts `state` on the tile if it is empty; an occupied tile is left as
    /// it was and reports its key.
    pub fn set_state(&mut self, state: TileState) -> (r: Result<&Tile, TileError>)
        ensures
            old(self).state_of() == TileState::Empty ==> {
                &&& final(self).state_of() == state
                &&& final(self).key_of() == old(self).key_of()
                &&& r matches Ok(t) && t.state_of() == state && t.key_of() == old(self).key_of()
            },
            old(self).state_of() != TileState::Empty ==> {
                &&& *final(self) == *old(self)
                &&& r matches Err(TileError::TileInUse(k)) && k@ == old(self).key_of()
            },
    {
        if self.state != TileState::Empty {
            return Err(TileError::TileInUse(self.key.clone()));
        }
        self.state = state;
        Ok(self)
    }

    /// What the tile holds.
    pub fn get_state(&self) -> (r: &TileState)
        ensures
            *r == self.state_of(),
    {
        &self.state
    }

    /// The tile's reference key.
    pub fn get_key(&self) -> (r: &str)
        ensures
            r@ == self.key_of(),
    {
        self.key.as_str()
    }
}

} // verus!
