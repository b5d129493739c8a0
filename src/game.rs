use vstd::prelude::*;
use crate::render::{centered, push_centered, push_repeat, repeat};
use crate::tiles::{Tile, TileError, TileState};

verus! {

/// Whose turn it is: unset until the game starts, then alternating.
#[derive(Debug, Clone, Copy, PartialEq, Eq, Structural)]
pub enum Turn {
    Unset,
    PlayerA,
    PlayerB,
}

/// How a game stands after a move.
#[derive(Debug, Clone, Copy, PartialEq, Eq, Structural)]
pub enum Outcome {
    InProgress,
    Win(TileState),
    Draw,
}

/// Why a move was refused; each carries the reference that was played.
#[derive(Debug)]
pub enum MoveError {
    AlreadyOccupied(String),
    OutOfBounds(String),
}

/// A board as a grid of states: three rows of three cells.
pub open spec fn is_grid(b: Seq<Seq<TileState>>) -> bool {
    &&& b.len() == 3
    &&& forall|r: int| 0 <= r < 3 ==> #[trigger] b[r].len() == 3
}

/// The turn that follows `t`.
pub open spec fn next_turn(t: Turn) -> Turn {
    match t {
        Turn::Unset => Turn::PlayerA,
        Turn::PlayerA => Turn::PlayerB,
        Turn::PlayerB => Turn::PlayerA,
    }
}

/// The turn after `n` advances from `t`.
pub open spec fn turn_after(t: Turn, n: nat) -> Turn
    decreases n,
{
    if n == 0 {
        t
    } else {
        next_turn(turn_after(t, (n - 1) as nat))
    }
}

/// The mark placed on the given turn: the first player's before the game starts.
pub open spec fn mark_of(t: Turn) -> TileState {
    if t == Turn::PlayerB {
        TileState::O
    } else {
        TileState::X
    }
}

/// The row that a reference's letter names.
pub open spec fn row_of(ch: char) -> Option<int> {
    if ch == 'a' {
        Some(0)
    } else if ch == 'b' {
        Some(1)
    } else if ch == 'c' {
        Some(2)
    } else {
        None
    }
}

/// The column that a reference's digit names.
pub open spec fn col_of(ch: char) -> Option<int> {
    if ch == '1' {
        Some(0)
    } else if ch == '2' {
        Some(1)
    } else if ch == '3' {
        Some(2)
    } else {
        None
    }
}

/// The (row, column) of a reference such as `a1` or `c3`; `None` for any other text.
pub open spec fn coord_of(key: Seq<char>) -> Option<(int, int)> {
    if key.len() == 2 && row_of(key[0]) is Some && col_of(key[1]) is Some {
        Some((row_of(key[0])->0, col_of(key[1])->0))
    } else {
        None
    }
}

/// The reference of the cell at (r, c).
pub open spec fn label(r: int, c: int) -> Seq<char> {
    let row = if r == 0 {
        'a'
    } else if r == 1 {
        'b'
    } else {
        'c'
    };
    let col = if c == 0 {
        '1'
    } else if c == 1 {
        '2'
    } else {
        '3'
    };
    seq![row, col]
}

/// `b` with the cell at (r, c) set to `m`.
pub open spec fn place(b: Seq<Seq<TileState>>, r: int, c: int, m: TileState) -> Seq<Seq<TileState>> {
    b.update(r, b[r].update(c, m))
}

/// The reference names a cell that already holds a mark.
pub open spec fn occupied_at(b: Seq<Seq<TileState>>, key: Seq<char>) -> bool {
    match coord_of(key) {
        Some((r, c)) => b[r][c] != TileState::Empty,
        None => false,
    }
}

/// The board after `m` is played at `key`: a move onto an empty cell marks it;
/// any other move changes nothing.
pub open spec fn step(b: Seq<Seq<TileState>>, key: Seq<char>, m: TileState) -> Seq<Seq<TileState>> {
    match coord_of(key) {
        Some((r, c)) => if b[r][c] == TileState::Empty {
            place(b, r, c, m)
        } else {
            b
        },
        None => b,
    }
}

/// The eight lines that win: the rows, then the columns, then the diagonals.
pub const WIN_CONDITIONS: [[(usize, usize); 3]; 8] = [
    [(0, 0), (0, 1), (0, 2)],
    [(1, 0), (1, 1), (1, 2)],
    [(2, 0), (2, 1), (2, 2)],
    [(0, 0), (1, 0), (2, 0)],
    [(0, 1), (1, 1), (2, 1)],
    [(0, 2), (1, 2), (2, 2)],
    [(0, 0), (1, 1), (2, 2)],
    [(0, 2), (1, 1), (2, 0)],
];

/// The three cells (r0, c0), (r1, c1), (r2, c2) all hold `m`.
pub open spec fn three(
    b: Seq<Seq<TileState>>,
    m: TileState,
    r0: int,
    c0: int,
    r1: int,
    c1: int,
    r2: int,
    c2: int,
) -> bool {
    b[r0][c0] == m && b[r1][c1] == m && b[r2][c2] == m
}

/// `m` holds a whole row, a whole column or a whole diagonal.
pub open spec fn has_line(b: Seq<Seq<TileState>>, m: TileState) -> bool {
    ||| (exists|r: int| 0 <= r < 3 && #[trigger] three(b, m, r, 0, r, 1, r, 2))
    ||| (exists|c: int| 0 <= c < 3 && #[trigger] three(b, m, 0, c, 1, c, 2, c))
    ||| three(b, m, 0, 0, 1, 1, 2, 2)
    ||| three(b, m, 0, 2, 1, 1, 2, 0)
}

/// No cell is empty.
pub open spec fn is_full(b: Seq<Seq<TileState>>) -> bool {
    forall|r: int, c: int| 0 <= r < 3 && 0 <= c < 3 ==> #[trigger] b[r][c] != TileState::Empty
}

/// The outcome once `m` has moved: a win if `m` holds a line, else a draw if
/// the board is full, else the game goes on.
pub open spec fn outcome(b: Seq<Seq<TileState>>, m: TileState) -> Outcome {
    if has_line(b, m) {
        Outcome::Win(m)
    } else if is_full(b) {
        Outcome::Draw
    } else {
        Outcome::InProgress
    }
}

/// The line of the table at `i` is held by `m`.
spec fn table_line_held(b: Seq<Seq<TileState>>, m: TileState, i: int) -> bool {
    let l = WIN_CONDITIONS[i];
    three(
        b,
        m,
        l[0].0 as int,
        l[0].1 as int,
        l[1].0 as int,
        l[1].1 as int,
        l[2].0 as int,
        l[2].1 as int,
    )
}

proof fn lemma_table_lines(b: Seq<Seq<TileState>>, m: TileState)
    ensures
        has_line(b, m) <==> exists|i: int| 0 <= i < 8 && #[trigger] table_line_held(b, m, i),
{
    assert(table_line_held(b, m, 0) == three(b, m, 0, 0, 0, 1, 0, 2));
    assert(table_line_held(b, m, 1) == three(b, m, 1, 0, 1, 1, 1, 2));
    assert(table_line_held(b, m, 2) == three(b, m, 2, 0, 2, 1, 2, 2));
    assert(table_line_held(b, m, 3) == three(b, m, 0, 0, 1, 0, 2, 0));
    assert(table_line_held(b, m, 4) == three(b, m, 0, 1, 1, 1, 2, 1));
    assert(table_line_held(b, m, 5) == three(b, m, 0, 2, 1, 2, 2, 2));
    assert(table_line_held(b, m, 6) == three(b, m, 0, 0, 1, 1, 2, 2));
    assert(table_line_held(b, m, 7) == three(b, m, 0, 2, 1, 1, 2, 0));
    if exists|r: int| 0 <= r < 3 && #[trigger] three(b, m, r, 0, r, 1, r, 2) {
        let r = choose|r: int| 0 <= r < 3 && #[trigger] three(b, m, r, 0, r, 1, r, 2);
        assert(table_line_held(b, m, r));
    }
    if exists|c: int| 0 <= c < 3 && #[trigger] three(b, m, 0, c, 1, c, 2, c) {
        let c = choose|c: int| 0 <= c < 3 && #[trigger] three(b, m, 0, c, 1, c, 2, c);
        assert(table_line_held(b, m, c + 3));
    }
    if exists|i: int| 0 <= i < 8 && #[trigger] table_line_held(b, m, i) {
        let i = choose|i: int| 0 <= i < 8 && #[trigger] table_line_held(b, m, i);
        if i < 3 {
            assert(three(b, m, i, 0, i, 1, i, 2));
        } else if i < 6 {
            assert(three(b, m, 0, i - 3, 1, i - 3, 2, i - 3));
        }
    }
}

/// The columns that each cell's text is centred in.
pub const COLUMN_WIDTH: usize = 7;

/// The number of dashes in a rule line.
pub const RULE_WIDTH: usize = 31;

/// What a cell shows: its reference while empty, else its mark.
pub open spec fn shown(s: TileState, key: Seq<char>) -> Seq<char> {
    if s == TileState::Empty {
        key
    } else {
        s.label()
    }
}

/// The line drawn above, between and below the rows.
pub open spec fn rule_line() -> Seq<char> {
    repeat('-', RULE_WIDTH as nat).push('\n')
}

/// One cell of a drawn row.
pub open spec fn cell_text(s: Seq<char>) -> Seq<char> {
    seq!['|', ' '] + centered(s, COLUMN_WIDTH as nat) + seq![' ']
}

/// Row `r` as drawn, with its rule line above it.
pub open spec fn row_text(b: Seq<Seq<TileState>>, r: int) -> Seq<char> {
    rule_line() + cell_text(shown(b[r][0], label(r, 0))) + cell_text(shown(b[r][1], label(r, 1)))
        + cell_text(shown(b[r][2], label(r, 2))) + seq!['|', '\n']
}

/// The first `n` rows as drawn.
pub open spec fn rows_text(b: Seq<Seq<TileState>>, n: nat) -> Seq<char>
    decreases n,
{
    if n == 0 {
        Seq::empty()
    } else {
        rows_text(b, (n - 1) as nat) + row_text(b, n - 1)
    }
}

/// The whole board as drawn: a blank line, the three rows, a closing rule.
pub open spec fn board_text(b: Seq<Seq<TileState>>) -> Seq<char> {
    seq!['\n'] + rows_text(b, 3) + rule_line()
}

/// An empty tile carrying the reference `key`.
fn blank(key: &str) -> (t: Tile)
    ensures
        t.state_of() == TileState::Empty,
        t.key_of() == key@,
{
    Tile::new(String::from_str(key))
}

/// The nine empty tiles of a new board, each carrying the reference of its
/// position (`a1` top left, `c3` bottom right).
pub fn fresh_board() -> (tiles: [[Tile; 3]; 3])
    ensures
        forall|r: int, c: int|
            0 <= r < 3 && 0 <= c < 3 ==> #[trigger] tiles[r][c].key_of() == label(r, c),
        forall|r: int, c: int|
            0 <= r < 3 && 0 <= c < 3 ==> #[trigger] tiles[r][c].state_of() == TileState::Empty,
{
    proof {
        reveal_strlit("a1");
        reveal_strlit("a2");
        reveal_strlit("a3");
        reveal_strlit("b1");
        reveal_strlit("b2");
        reveal_strlit("b3");
        reveal_strlit("c1");
        reveal_strlit("c2");
        reveal_strlit("c3");
    }
    let tiles = [
        [blank("a1"), blank("a2"), blank("a3")],
        [blank("b1"), blank("b2"), blank("b3")],
        [blank("c1"), blank("c2"), blank("c3")],
    ];
    tiles
}

/// A two-player game: the board, the players' names and whose turn it is.
#[derive(Debug)]
pub struct Game {
    board: [[Tile; 3]; 3],
    players: (String, String),
    turn: Turn,
}

impl Game {
    /// The states of the board's cells, row by row.
    pub closed spec fn cells(&self) -> Seq<Seq<TileState>> {
        Seq::new(3, |r: int| Seq::new(3, |c: int| self.board[r][c].state_of()))
    }

    /// The players' names, first and second.
    pub closed spec fn names(&self) -> (Seq<char>, Seq<char>) {
        (self.players.0@, self.players.1@)
    }

    /// Whose turn it is.
    pub closed spec fn turn(&self) -> Turn {
        self.turn
    }

    /// Each cell carries the reference of its position.
    pub closed spec fn wf(&self) -> bool {
        forall|r: int, c: int|
            0 <= r < 3 && 0 <= c < 3 ==> #[trigger] self.board[r][c].key_of() == label(r, c)
    }

    /// A game on the given tiles between the two named players; no turn is
    /// selected yet.
    pub fn new(tiles: [[Tile; 3]; 3], players: (String, String)) -> (r: Self)
        requires
            forall|r: int, c: int|
                0 <= r < 3 && 0 <= c < 3 ==> #[trigger] tiles[r][c].key_of() == label(r, c),
        ensures
            r.wf(),
            r.cells() == Seq::new(3, |i: int| Seq::new(3, |j: int| tiles[i][j].state_of())),
            r.names() == (players.0@, players.1@),
            r.turn() == Turn::Unset,
    {
        Game { board: tiles, players, turn: Turn::Unset }
    }

    /// Advances the turn: unset to the first player, then alternating.
    pub fn next(&mut self)
        ensures
            final(self).turn() == next_turn(old(self).turn()),
            final(self).cells() == old(self).cells(),
            final(self).names() == old(self).names(),
            final(self).wf() == old(self).wf(),
    {
        self.turn = match self.turn {
            Turn::Unset => Turn::PlayerA,
            Turn::PlayerA => Turn::PlayerB,
            Turn::PlayerB => Turn::PlayerA,
        };
    }

    /// The name of the player whose turn it is; the first player's before the
    /// game starts.
    pub fn get_current_player(&self) -> (r: &String)
        ensures
            r@ == if self.turn() == Turn::PlayerB {
                self.names().1
            } else {
                self.names().0
            },
    {
        match self.turn {
            Turn::PlayerB => &self.players.1,
            _ => &self.players.0,
        }
    }

    /// Plays the current player's mark at the cell that `key` names.
    pub fn select_tile(&mut self, key: &str) -> (r: Result<(), MoveError>)
        requires
            old(self).wf(),
        ensures
            final(self).wf(),
            final(self).turn() == old(self).turn(),
            final(self).names() == old(self).names(),
            final(self).cells() == step(old(self).cells(), key@, mark_of(old(self).turn())),
            coord_of(key@) is None <==> r matches Err(MoveError::OutOfBounds(k)),
            occupied_at(old(self).cells(), key@) <==> r matches Err(MoveError::AlreadyOccupied(k)),
            r matches Err(MoveError::OutOfBounds(k)) ==> k@ == key@,
            r matches Err(MoveError::AlreadyOccupied(k)) ==> k@ == key@,
    {
        let len = key.unicode_len();
        if len != 2 {
            return Err(MoveError::OutOfBounds(String::from_str(key)));
        }
        let rc = key.get_char(0);
        let cc = key.get_char(1);
        let row: usize = if rc == 'a' {
            0
        } else if rc == 'b' {
            1
        } else if rc == 'c' {
            2
        } else {
            return Err(MoveError::OutOfBounds(String::from_str(key)));
        };
        let col: usize = if cc == '1' {
            0
        } else if cc == '2' {
            1
        } else if cc == '3' {
            2
        } else {
            return Err(MoveError::OutOfBounds(String::from_str(key)));
        };
        let mark = match self.turn {
            Turn::PlayerB => TileState::O,
            _ => TileState::X,
        };
        let ghost before = self.cells();
        match self.board[row][col].set_state(mark) {
            Ok(_) => {
                assert(self.cells() =~~= place(before, row as int, col as int, mark));
                Ok(())
            },
            Err(TileError::TileInUse(k)) => {
                assert(self.cells() =~~= before);
                Err(MoveError::AlreadyOccupied(k))
            },
        }
    }

    /// The state of the cell at (r, c).
    fn cell(&self, r: usize, c: usize) -> (s: TileState)
        requires
            r < 3,
            c < 3,
        ensures
            s == self.cells()[r as int][c as int],
    {
        *self.board[r][c].get_state()
    }

    /// The outcome after the current player's move: a win if their mark
    /// holds a line, else a draw if no cell is empty, else in progress.
    pub fn validate(&self) -> (r: Outcome)
        ensures
            r == outcome(self.cells(), mark_of(self.turn())),
    {
        let sym = match self.turn {
            Turn::PlayerB => TileState::O,
            _ => TileState::X,
        };
        let ghost b = self.cells();
        proof {
            lemma_table_lines(b, sym);
        }
        let mut i: usize = 0;
        while i < 8
            invariant
                i <= 8,
                b == self.cells(),
                sym == mark_of(self.turn()),
                has_line(b, sym) <==> exists|j: int| 0 <= j < 8 && #[trigger] table_line_held(b, sym, j),
                forall|j: int| 0 <= j < i ==> !#[trigger] table_line_held(b, sym, j),
            decreases 8 - i,
        {
            let line = WIN_CONDITIONS[i];
            let (r0, c0) = line[0];
            let (r1, c1) = line[1];
            let (r2, c2) = line[2];
            if self.cell(r0, c0) == sym && self.cell(r1, c1) == sym && self.cell(r2, c2) == sym {
                assert(table_line_held(b, sym, i as int));
                assert(has_line(b, sym));
                return Outcome::Win(sym);
            }
            i += 1;
        }
        let mut r: usize = 0;
        while r < 3
            invariant
                r <= 3,
                b == self.cells(),
                sym == mark_of(self.turn()),
                !has_line(b, sym),
                forall|i: int, j: int| 0 <= i < r && 0 <= j < 3 ==> #[trigger] b[i][j] != TileState::Empty,
            decreases 3 - r,
        {
            let mut c: usize = 0;
            while c < 3
                invariant
                    r < 3,
                    c <= 3,
                    b == self.cells(),
                    sym == mark_of(self.turn()),
                    !has_line(b, sym),
                    forall|i: int, j: int| 0 <= i < r && 0 <= j < 3 ==> #[trigger] b[i][j] != TileState::Empty,
                    forall|j: int| 0 <= j < c ==> #[trigger] b[r as int][j] != TileState::Empty,
                decreases 3 - c,
            {
                if self.cell(r, c) == TileState::Empty {
                    assert(!is_full(b));
                    return Outcome::InProgress;
                }
                c += 1;
            }
            r += 1;
        }
        Outcome::Draw
    }

    /// Plays the current player's mark at `key` and reports the outcome of
    /// the move; a refused move leaves the game as it was.
    pub fn play(&mut self, key: &str) -> (r: Result<Outcome, MoveError>)
        requires
            old(self).wf(),
        ensures
            final(self).wf(),
            final(self).turn() == old(self).turn(),
            final(self).names() == old(self).names(),
            final(self).cells() == step(old(self).cells(), key@, mark_of(old(self).turn())),
            coord_of(key@) is None <==> r matches Err(MoveError::OutOfBounds(k)),
            occupied_at(old(self).cells(), key@) <==> r matches Err(MoveError::AlreadyOccupied(k)),
            r matches Err(MoveError::OutOfBounds(k)) ==> k@ == key@,
            r matches Err(MoveError::AlreadyOccupied(k)) ==> k@ == key@,
            r matches Ok(o) ==> o == outcome(final(self).cells(), mark_of(old(self).turn())),
    {
        match self.select_tile(key) {
            Ok(()) => Ok(self.validate()),
            Err(e) => Err(e),
        }
    }

    /// Appends a rule line to `buffer`.
    fn push_rule(buffer: &mut String)
        ensures
            final(buffer)@ == old(buffer)@ + rule_line(),
    {
        let dash = "-";
        let newline = "\n";
        proof {
            reveal_strlit("-");
            reveal_strlit("\n");
        }
        push_repeat(buffer, dash, RULE_WIDTH);
        buffer.append(newline);
        assert(buffer@ =~= old(buffer)@ + rule_line());
    }

    /// Appends row `r`, with the rule line above it, to `buffer`.
    fn push_row(&self, buffer: &mut String, r: usize)
        requires
            self.wf(),
            r < 3,
        ensures
            final(buffer)@ == old(buffer)@ + row_text(self.cells(), r as int),
    {
        let ghost b = self.cells();
        Self::push_rule(buffer);
        let mut c: usize = 0;
        while c < 3
            invariant
                self.wf(),
                b == self.cells(),
                r < 3,
                c <= 3,
                buffer@ == old(buffer)@ + rule_line() + (if c == 0 {
                    Seq::empty()
                } else if c == 1 {
                    cell_text(shown(b[r as int][0], label(r as int, 0)))
                } else if c == 2 {
                    cell_text(shown(b[r as int][0], label(r as int, 0))) + cell_text(
                        shown(b[r as int][1], label(r as int, 1)),
                    )
                } else {
                    cell_text(shown(b[r as int][0], label(r as int, 0))) + cell_text(
                        shown(b[r as int][1], label(r as int, 1)),
                    ) + cell_text(shown(b[r as int][2], label(r as int, 2)))
                }),
            decreases 3 - c,
        {
            let ghost before = buffer@;
            let tile = &self.board[r][c];
            let text: &str = match tile.get_state() {
                TileState::Empty => tile.get_key(),
                TileState::X => {
                    proof {
                        reveal_strlit("X");
                    }
                    "X"
                },
                TileState::O => {
                    proof {
                        reveal_strlit("O");
                    }
                    "O"
                },
            };
            assert(text@ == shown(b[r as int][c as int], label(r as int, c as int)));
            let open = "| ";
            let gap = " ";
            proof {
                reveal_strlit("| ");
                reveal_strlit(" ");
            }
            buffer.append(open);
            push_centered(buffer, text, COLUMN_WIDTH);
            buffer.append(gap);
            assert(buffer@ =~= before + cell_text(shown(b[r as int][c as int], label(r as int, c as int))));
            c += 1;
        }
        let close = "|\n";
        proof {
            reveal_strlit("|\n");
        }
        buffer.append(close);
        assert(buffer@ =~= old(buffer)@ + row_text(b, r as int));
    }

    /// Appends the board as text to `buffer`: a blank line, then each row
    /// between rule lines, empty cells showing their reference and occupied
    /// ones their mark, each centred in its column.
    pub fn draw_into(&self, buffer: &mut String)
        requires
            self.wf(),
        ensures
            final(buffer)@ == old(buffer)@ + board_text(self.cells()),
    {
        let ghost b = self.cells();
        let newline = "\n";
        proof {
            reveal_strlit("\n");
        }
        buffer.append(newline);
        let mut r: usize = 0;
        while r < 3
            invariant
                self.wf(),
                b == self.cells(),
                r <= 3,
                buffer@ == old(buffer)@ + seq!['\n'] + rows_text(b, r as nat),
            decreases 3 - r,
        {
            self.push_row(buffer, r);
            r += 1;
            assert(buffer@ =~= old(buffer)@ + seq!['\n'] + rows_text(b, r as nat));
        }
        Self::push_rule(buffer);
        assert(buffer@ =~= old(buffer)@ + board_text(b));
    }

    /// One turn of play: plays the current player's mark at `key`; if the
    /// game goes on, the turn passes to the other player. A refused move, or
    /// one that ends the game, leaves the turn with the mover.
    pub fn take_turn(&mut self, key: &str) -> (r: Result<Outcome, MoveError>)
        requires
            old(self).wf(),
        ensures
            final(self).wf(),
            final(self).names() == old(self).names(),
            final(self).cells() == step(old(self).cells(), key@, mark_of(old(self).turn())),
            final(self).turn() == if r == Ok::<Outcome, MoveError>(Outcome::InProgress) {
                next_turn(old(self).turn())
            } else {
                old(self).turn()
            },
            coord_of(key@) is None <==> r matches Err(MoveError::OutOfBounds(k)),
            occupied_at(old(self).cells(), key@) <==> r matches Err(MoveError::AlreadyOccupied(k)),
            r matches Err(MoveError::OutOfBounds(k)) ==> k@ == key@,
            r matches Err(MoveError::AlreadyOccupied(k)) ==> k@ == key@,
            r matches Ok(o) ==> o == outcome(final(self).cells(), mark_of(old(self).turn())),
    {
        let r = self.play(key);
        if let Ok(Outcome::InProgress) = r {
            self.next();
        }
        r
    }
}

/// The board after each move of `moves`, a reference and a mark, in turn.
pub open spec fn play_all(b: Seq<Seq<TileState>>, moves: Seq<(Seq<char>, TileState)>) -> Seq<
    Seq<TileState>,
>
    decreases moves.len(),
{
    if moves.len() == 0 {
        b
    } else {
        let last = moves.last();
        step(play_all(b, moves.drop_last()), last.0, last.1)
    }
}

/// The other player's mark.
pub open spec fn other(m: TileState) -> TileState {
    if m == TileState::X {
        TileState::O
    } else {
        TileState::X
    }
}

/// A move keeps the board a three-by-three grid.
pub proof fn lemma_step_grid(b: Seq<Seq<TileState>>, key: Seq<char>, m: TileState)
    requires
        is_grid(b),
    ensures
        is_grid(step(b, key, m)),
{
    let a = step(b, key, m);
    assert forall|r: int| 0 <= r < 3 implies #[trigger] a[r].len() == 3 by {
        if let Some((i, j)) = coord_of(key) {
            if i == r {
                assert(a[r] == b[r].update(j, m) || a[r] == b[r]);
            }
        }
    }
}

/// Once a cell holds a mark, no later move changes it; a cell changes only
/// from empty to a mark. Stated between any two points `i <= j` of a
/// sequence of moves that all place marks.
pub proof fn lemma_cell_set_once(
    b: Seq<Seq<TileState>>,
    moves: Seq<(Seq<char>, TileState)>,
    i: nat,
    j: nat,
    r: int,
    c: int,
)
    requires
        is_grid(b),
        i <= j <= moves.len(),
        0 <= r < 3,
        0 <= c < 3,
        forall|k: int| 0 <= k < moves.len() ==> (#[trigger] moves[k]).1 != TileState::Empty,
    ensures
        is_grid(play_all(b, moves.take(j as int))),
        play_all(b, moves.take(i as int))[r][c] != TileState::Empty ==> play_all(
            b,
            moves.take(j as int),
        )[r][c] == play_all(b, moves.take(i as int))[r][c],
        play_all(b, moves.take(j as int))[r][c] != play_all(b, moves.take(i as int))[r][c] ==> {
            &&& play_all(b, moves.take(i as int))[r][c] == TileState::Empty
            &&& play_all(b, moves.take(j as int))[r][c] != TileState::Empty
        },
    decreases j,
{
    if j == 0 {
        assert(moves.take(0) =~= Seq::<(Seq<char>, TileState)>::empty());
    } else {
        let prev = moves.take(j - 1);
        assert(moves.take(j as int).drop_last() =~= prev);
        lemma_cell_set_once(b, moves, if i == j { (j - 1) as nat } else { i }, (j - 1) as nat, r, c);
        let before = play_all(b, prev);
        let mv = moves[j - 1];
        assert(moves.take(j as int).last() == mv);
        lemma_step_grid(before, mv.0, mv.1);
        if let Some((x, y)) = coord_of(mv.0) {
            if before[x][y] == TileState::Empty && x == r {
                assert(play_all(b, moves.take(j as int))[r] == before[r].update(y, mv.1));
            }
        }
    }
}

/// Alternation follows the count of moves: once the first advance selects
/// the starting player, move `k` (counted from zero) belongs to the first
/// player when `k` is even and to the second when it is odd.
pub proof fn lemma_turn_alternates(k: nat)
    ensures
        turn_after(Turn::Unset, k + 1) == if k % 2 == 0 {
            Turn::PlayerA
        } else {
            Turn::PlayerB
        },
    decreases k,
{
    assert(turn_after(Turn::Unset, k + 1) == next_turn(turn_after(Turn::Unset, k)));
    if k > 0 {
        lemma_turn_alternates((k - 1) as nat);
        assert(((k - 1) as nat) + 1 == k);
    }
}

/// A move onto an occupied cell changes nothing, so repeating it meets the
/// same occupied cell and again changes nothing.
pub proof fn lemma_rejection_repeats(b: Seq<Seq<TileState>>, key: Seq<char>, m: TileState)
    requires
        occupied_at(b, key),
    ensures
        step(b, key, m) == b,
        occupied_at(step(b, key, m), key),
        step(step(b, key, m), key, m) == b,
{
}

/// A reference outside the three rows `a`, `b`, `c` and the three columns
/// `1`, `2`, `3` names no cell, and a move there changes nothing.
pub proof fn lemma_out_of_bounds(b: Seq<Seq<TileState>>, key: Seq<char>, m: TileState)
    requires
        coord_of(key) is None,
    ensures
        !occupied_at(b, key),
        step(b, key, m) == b,
{
}

/// While the other player holds no line, as in any game still going when
/// `m` moves, the outcome is a draw exactly when the board is full and no
/// line is held by either mark.
pub proof fn lemma_draw_iff_full_without_line(b: Seq<Seq<TileState>>, m: TileState)
    requires
        m != TileState::Empty,
        !has_line(b, other(m)),
    ensures
        outcome(b, m) == Outcome::Draw <==> (is_full(b) && !has_line(b, TileState::X) && !has_line(
            b,
            TileState::O,
        )),
{
}

} // verus!
