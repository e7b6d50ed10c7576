//! The three-by-three grid game: cells, winning lines and game state.
use vstd::prelude::*;

verus! {

/// A player's mark.
#[derive(Clone, Copy, Debug, PartialEq, Eq, Structural)]
pub enum Cell {
    X,
    O,
}

impl Cell {
    /// The character shown for this mark.
    pub fn as_char(self) -> (r: char)
        ensures
            r == (match self {
                Cell::X => 'X',
                Cell::O => 'O',
            }),
    {
        match self {
            Cell::X => 'X',
            Cell::O => 'O',
        }
    }
}

/// Nine cells in row-major order; `None` is an empty cell.
pub type Board = [Option<Cell>; 9];

/// Number of winning lines on the board.
pub const NUM_LINES: usize = 8;

/// The cells of winning line `k`: three rows, three columns, two diagonals.
pub open spec fn line_of(k: int) -> (int, int, int) {
    if k == 0 {
        (0, 1, 2)
    } else if k == 1 {
        (3, 4, 5)
    } else if k == 2 {
        (6, 7, 8)
    } else if k == 3 {
        (0, 3, 6)
    } else if k == 4 {
        (1, 4, 7)
    } else if k == 5 {
        (2, 5, 8)
    } else if k == 6 {
        (0, 4, 8)
    } else {
        (2, 4, 6)
    }
}

/// Whether cell `p` lies on line `k`.
pub open spec fn on_line(k: int, p: int) -> bool {
    line_of(k).0 == p || line_of(k).1 == p || line_of(k).2 == p
}

/// All three cells of line `k` hold mark `c`.
pub open spec fn line_won_by(b: Seq<Option<Cell>>, k: int, c: Cell) -> bool {
    &&& b[line_of(k).0] == Some(c)
    &&& b[line_of(k).1] == Some(c)
    &&& b[line_of(k).2] == Some(c)
}

/// Some line is completed with mark `c`.
pub open spec fn has_line(b: Seq<Option<Cell>>, c: Cell) -> bool {
    exists|k: int| 0 <= k < NUM_LINES && #[trigger] line_won_by(b, k, c)
}

/// The mark of the first completed line from line `k` on, in table order.
pub open spec fn first_winner(b: Seq<Option<Cell>>, k: int) -> Option<Cell>
    decreases NUM_LINES - k,
{
    if k < 0 || k >= NUM_LINES {
        None
    } else if line_won_by(b, k, Cell::X) {
        Some(Cell::X)
    } else if line_won_by(b, k, Cell::O) {
        Some(Cell::O)
    } else {
        first_winner(b, k + 1)
    }
}

/// The mark of the first completed line through cell `p`, from line `k` on.
pub open spec fn first_winner_through(b: Seq<Option<Cell>>, p: int, k: int) -> Option<Cell>
    decreases NUM_LINES - k,
{
    if k < 0 || k >= NUM_LINES {
        None
    } else if on_line(k, p) && line_won_by(b, k, Cell::X) {
        Some(Cell::X)
    } else if on_line(k, p) && line_won_by(b, k, Cell::O) {
        Some(Cell::O)
    } else {
        first_winner_through(b, p, k + 1)
    }
}

/// Every cell is occupied.
pub open spec fn board_full(b: Seq<Option<Cell>>) -> bool {
    forall|i: int| 0 <= i < b.len() ==> (#[trigger] b[i]).is_some()
}

/// The cells of line `k`.
pub(crate) fn line_cells(k: usize) -> (r: (usize, usize, usize))
    requires
        k < NUM_LINES,
    ensures
        r.0 as int == line_of(k as int).0,
        r.1 as int == line_of(k as int).1,
        r.2 as int == line_of(k as int).2,
        r.0 < 9 && r.1 < 9 && r.2 < 9,
{
    match k {
        0 => (0, 1, 2),
        1 => (3, 4, 5),
        2 => (6, 7, 8),
        3 => (0, 3, 6),
        4 => (1, 4, 7),
        5 => (2, 5, 8),
        6 => (0, 4, 8),
        _ => (2, 4, 6),
    }
}

/// The mark that fills line `k`, if one does.
fn line_owner(board: &Board, k: usize) -> (r: Option<Cell>)
    requires
        k < NUM_LINES,
    ensures
        r == Some(Cell::X) <==> line_won_by(board@, k as int, Cell::X),
        r == Some(Cell::O) <==> line_won_by(board@, k as int, Cell::O),
{
    let (a, b, c) = line_cells(k);
    match (board[a], board[b], board[c]) {
        (Some(x), Some(y), Some(z)) => {
            if x == y && y == z {
                Some(x)
            } else {
                None
            }
        },
        _ => None,
    }
}

/// The first completed line's mark, scanning rows, then columns, then
/// diagonals; `None` when no line is complete.
pub fn check_winner(board: &Board) -> (r: Option<Cell>)
    ensures
        r == first_winner(board@, 0),
        r is Some ==> has_line(board@, r.unwrap()),
        r is None ==> forall|c: Cell| !has_line(board@, c),
{
    proof {
        match first_winner(board@, 0) {
            Some(d) => {
                lemma_first_some(board@, 0, d);
            },
            None => {
                lemma_no_first_winner(board@, 0);
            },
        }
    }
    let mut k: usize = 0;
    while k < NUM_LINES
        invariant
            k <= NUM_LINES,
            first_winner(board@, 0) == first_winner(board@, k as int),
        decreases NUM_LINES - k,
    {
        match line_owner(board, k) {
            Some(Cell::X) => return Some(Cell::X),
            Some(Cell::O) => return Some(Cell::O),
            None => {},
        }
        k += 1;
    }
    None
}

/// The outcome of a game so far.
#[derive(Clone, Copy, Debug, PartialEq, Eq, Structural)]
pub enum GameResult {
    InProgress,
    Won(Cell),
    Draw,
}

/// Why a move was refused.
#[derive(Clone, Copy, Debug, PartialEq, Eq, Structural)]
pub enum GameError {
    /// The position is off the board or already occupied.
    InvalidMove,
    /// The game has already been won or drawn.
    GameOver,
}

/// The state of a board: a completed line wins, checked before fullness,
/// so a move that both completes a line and fills the board wins.
pub open spec fn game_status(b: Seq<Option<Cell>>) -> GameResult {
    match first_winner(b, 0) {
        Some(c) => GameResult::Won(c),
        None => if board_full(b) {
            GameResult::Draw
        } else {
            GameResult::InProgress
        },
    }
}

/// A position that a move may be played on: on the board and empty.
pub open spec fn open_cell(b: Seq<Option<Cell>>, pos: int) -> bool {
    0 <= pos < b.len() && b[pos].is_none()
}

/// A game on one board; the board keeps its nine cells for its whole life.
pub struct GridGame {
    pub board: Board,
}

impl View for GridGame {
    type V = Seq<Option<Cell>>;

    open spec fn view(&self) -> Seq<Option<Cell>> {
        self.board@
    }
}

impl GridGame {
    /// A game on an empty board.
    pub fn new() -> (r: GridGame)
        ensures
            r@ == Seq::new(9, |i: int| None::<Cell>),
    {
        let r = GridGame { board: [None; 9] };
        assert(r@ =~= Seq::new(9, |i: int| None::<Cell>));
        r
    }

    /// A game that continues from the given board.
    pub fn from_board(board: Board) -> (r: GridGame)
        ensures
            r@ == board@,
    {
        GridGame { board }
    }

    /// The current cells.
    pub fn board(&self) -> (r: Board)
        ensures
            r@ == self@,
    {
        self.board
    }

    /// Puts `mark` on the empty cell `position`. An off-board or occupied
    /// position is an `InvalidMove`; a move on a won or drawn board is
    /// `GameOver`. A refused move leaves the board as it was.
    pub fn place(&mut self, position: usize, mark: Cell) -> (r: Result<(), GameError>)
        ensures
            old(self)@.len() == 9 && final(self)@.len() == 9,
            !open_cell(old(self)@, position as int) ==> r == Err::<(), GameError>(
                GameError::InvalidMove,
            ),
            open_cell(old(self)@, position as int) && game_status(old(self)@)
                != GameResult::InProgress ==> r == Err::<(), GameError>(GameError::GameOver),
            open_cell(old(self)@, position as int) && game_status(old(self)@)
                == GameResult::InProgress ==> r is Ok,
            r is Err ==> final(self)@ == old(self)@,
            r is Ok ==> final(self)@ == old(self)@.update(position as int, Some(mark)),
            r is Ok ==> final(self)@[position as int] == Some(mark),
            r is Ok ==> forall|i: int|
                0 <= i < 9 && i != position ==> #[trigger] final(self)@[i] == old(self)@[i],
    {
        if position >= 9 || self.board[position].is_some() {
            return Err(GameError::InvalidMove);
        }
        match self.status() {
            GameResult::InProgress => {},
            _ => return Err(GameError::GameOver),
        }
        self.board[position] = Some(mark);
        Ok(())
    }

    /// The mark of a completed line through `last_position`, if any;
    /// lines are tried in table order.
    pub fn winner_at(&self, last_position: usize) -> (r: Option<Cell>)
        ensures
            r == first_winner_through(self@, last_position as int, 0),
    {
        let mut k: usize = 0;
        while k < NUM_LINES
            invariant
                k <= NUM_LINES,
                first_winner_through(self@, last_position as int, 0) == first_winner_through(
                    self@,
                    last_position as int,
                    k as int,
                ),
            decreases NUM_LINES - k,
        {
            let (a, b, c) = line_cells(k);
            if a == last_position || b == last_position || c == last_position {
                match line_owner(&self.board, k) {
                    Some(Cell::X) => return Some(Cell::X),
                    Some(Cell::O) => return Some(Cell::O),
                    None => {},
                }
            }
            k += 1;
        }
        None
    }

    /// Whether every cell is occupied.
    pub fn is_full(&self) -> (r: bool)
        ensures
            r == board_full(self@),
    {
        let mut i: usize = 0;
        while i < 9
            invariant
                i <= 9,
                forall|j: int| 0 <= j < i ==> (#[trigger] self@[j]).is_some(),
            decreases 9 - i,
        {
            if self.board[i].is_none() {
                return false;
            }
            i += 1;
        }
        true
    }

    /// Won, drawn or still in progress.
    pub fn status(&self) -> (r: GameResult)
        ensures
            r == game_status(self@),
    {
        match check_winner(&self.board) {
            Some(c) => GameResult::Won(c),
            None => if self.is_full() {
                GameResult::Draw
            } else {
                GameResult::InProgress
            },
        }
    }

    /// Places `mark` as `place` does, then judges the move: a line through
    /// `position` wins, else a full board is a draw.
    pub fn play(&mut self, position: usize, mark: Cell) -> (r: Result<GameResult, GameError>)
        ensures
            old(self)@.len() == 9 && final(self)@.len() == 9,
            !open_cell(old(self)@, position as int) ==> r == Err::<GameResult, GameError>(
                GameError::InvalidMove,
            ),
            open_cell(old(self)@, position as int) && game_status(old(self)@)
                != GameResult::InProgress ==> r == Err::<GameResult, GameError>(
                GameError::GameOver,
            ),
            r is Err ==> final(self)@ == old(self)@,
            open_cell(old(self)@, position as int) && game_status(old(self)@)
                == GameResult::InProgress ==> {
                &&& final(self)@ == old(self)@.update(position as int, Some(mark))
                &&& r == Ok::<GameResult, GameError>(game_status(final(self)@))
                &&& r == Ok::<GameResult, GameError>(
                    match first_winner_through(final(self)@, position as int, 0) {
                        Some(c) => GameResult::Won(c),
                        None => if board_full(final(self)@) {
                            GameResult::Draw
                        } else {
                            GameResult::InProgress
                        },
                    },
                )
            },
    {
        let ghost before = self@;
        let placed = self.place(position, mark);
        proof {
            if placed is Ok {
                lines_through_move_decide(before, position as int, mark);
            }
        }
        match placed {
            Err(e) => Err(e),
            Ok(()) => match self.winner_at(position) {
                Some(c) => Ok(GameResult::Won(c)),
                None => if self.is_full() {
                    Ok(GameResult::Draw)
                } else {
                    Ok(GameResult::InProgress)
                },
            },
        }
    }
}

/// The first empty cell at index `i` or later; the board's length if none.
pub open spec fn first_empty_from(b: Seq<Option<Cell>>, i: int) -> int
    decreases b.len() - i,
{
    if i < 0 || i >= b.len() {
        b.len() as int
    } else if b[i].is_none() {
        i
    } else {
        first_empty_from(b, i + 1)
    }
}

/// The simple opponent: puts `symbol` on the first empty cell, and leaves
/// a full board alone.
pub fn ai_move(board: &mut Board, symbol: Cell)
    ensures
        first_empty_from(old(board)@, 0) < 9 ==> final(board)@ == old(board)@.update(
            first_empty_from(old(board)@, 0),
            Some(symbol),
        ),
        first_empty_from(old(board)@, 0) >= 9 ==> final(board)@ == old(board)@,
{
    let mut i: usize = 0;
    while i < 9
        invariant
            i <= 9,
            *board == *old(board),
            first_empty_from(board@, 0) == first_empty_from(board@, i as int),
        decreases 9 - i,
    {
        if board[i].is_none() {
            board[i] = Some(symbol);
            return;
        }
        i += 1;
    }
}

proof fn lemma_through_from(b: Seq<Option<Cell>>, k: int, p: int, c: Cell, j: int)
    requires
        b.len() == 9,
        0 <= j <= k < NUM_LINES,
        on_line(k, p),
        line_won_by(b, k, c),
    ensures
        first_winner_through(b, p, j) == Some(c),
    decreases k - j,
{
    if j < k {
        lemma_through_from(b, k, p, c, j + 1);
    }
}

/// A line completed with mark `c` through cell `p` makes `winner_at(p)`
/// report `c`, whatever the other cells hold.
pub proof fn completed_line_through_wins(b: Seq<Option<Cell>>, k: int, p: int, c: Cell)
    requires
        b.len() == 9,
        0 <= k < NUM_LINES,
        on_line(k, p),
        line_won_by(b, k, c),
    ensures
        first_winner_through(b, p, 0) == Some(c),
{
    lemma_through_from(b, k, p, c, 0);
}

proof fn lemma_winner_from(b: Seq<Option<Cell>>, k: int, c: Cell, j: int)
    requires
        b.len() == 9,
        0 <= j <= k < NUM_LINES,
        line_won_by(b, k, c),
        forall|d: Cell| d != c ==> !has_line(b, d),
    ensures
        first_winner(b, j) == Some(c),
    decreases k - j,
{
    if j < k {
        if line_won_by(b, j, Cell::X) && c != Cell::X {
            assert(has_line(b, Cell::X));
        }
        if line_won_by(b, j, Cell::O) && c != Cell::O {
            assert(has_line(b, Cell::O));
        }
        lemma_winner_from(b, k, c, j + 1);
    }
}

/// A line completed with mark `c`, on a board where the other mark has no
/// line, makes the game won by `c`, whatever the other cells hold.
pub proof fn completed_line_wins_game(b: Seq<Option<Cell>>, k: int, c: Cell)
    requires
        b.len() == 9,
        0 <= k < NUM_LINES,
        line_won_by(b, k, c),
        forall|d: Cell| d != c ==> !has_line(b, d),
    ensures
        first_winner(b, 0) == Some(c),
        game_status(b) == GameResult::Won(c),
{
    lemma_winner_from(b, k, c, 0);
}

proof fn lemma_no_winner_from(b: Seq<Option<Cell>>, j: int)
    requires
        0 <= j <= NUM_LINES,
        !has_line(b, Cell::X),
        !has_line(b, Cell::O),
    ensures
        first_winner(b, j) == None::<Cell>,
    decreases NUM_LINES - j,
{
    if j < NUM_LINES {
        assert(!line_won_by(b, j, Cell::X));
        assert(!line_won_by(b, j, Cell::O));
        lemma_no_winner_from(b, j + 1);
    }
}

/// A full board on which no line is completed is a draw, never a win.
pub proof fn full_board_without_line_is_draw(b: Seq<Option<Cell>>)
    requires
        board_full(b),
        !has_line(b, Cell::X),
        !has_line(b, Cell::O),
    ensures
        game_status(b) == GameResult::Draw,
{
    lemma_no_winner_from(b, 0);
}

proof fn lemma_no_first_winner(b: Seq<Option<Cell>>, j: int)
    requires
        0 <= j <= NUM_LINES,
        first_winner(b, j) == None::<Cell>,
    ensures
        forall|k: int, c: Cell| j <= k < NUM_LINES ==> !#[trigger] line_won_by(b, k, c),
    decreases NUM_LINES - j,
{
    if j < NUM_LINES {
        lemma_no_first_winner(b, j + 1);
    }
}

proof fn lemma_first_some(b: Seq<Option<Cell>>, j: int, d: Cell)
    requires
        0 <= j <= NUM_LINES,
        first_winner(b, j) == Some(d),
    ensures
        has_line(b, d),
    decreases NUM_LINES - j,
{
    if !line_won_by(b, j, d) {
        lemma_first_some(b, j + 1, d);
    }
}

proof fn lemma_none_through(b: Seq<Option<Cell>>, p: int, j: int)
    requires
        0 <= j <= NUM_LINES,
        first_winner_through(b, p, j) == None::<Cell>,
    ensures
        forall|k: int, c: Cell|
            j <= k < NUM_LINES && on_line(k, p) ==> !#[trigger] line_won_by(b, k, c),
    decreases NUM_LINES - j,
{
    if j < NUM_LINES {
        lemma_none_through(b, p, j + 1);
    }
}

proof fn lemma_some_through(b: Seq<Option<Cell>>, p: int, j: int, d: Cell) -> (k: int)
    requires
        0 <= j <= NUM_LINES,
        first_winner_through(b, p, j) == Some(d),
    ensures
        j <= k < NUM_LINES,
        on_line(k, p),
        line_won_by(b, k, d),
    decreases NUM_LINES - j,
{
    if on_line(j, p) && line_won_by(b, j, d) {
        j
    } else {
        lemma_some_through(b, p, j + 1, d)
    }
}

/// On a board still in progress, a move's outcome is decided by the lines
/// through the cell just played: the status of the new board is a win for
/// the mark of a completed line through it, else a draw or still in
/// progress as the board is full or not.
pub proof fn lines_through_move_decide(b: Seq<Option<Cell>>, pos: int, c: Cell)
    requires
        b.len() == 9,
        open_cell(b, pos),
        game_status(b) == GameResult::InProgress,
    ensures
        game_status(b.update(pos, Some(c))) == match first_winner_through(
            b.update(pos, Some(c)),
            pos,
            0,
        ) {
            Some(d) => GameResult::Won(d),
            None => if board_full(b.update(pos, Some(c))) {
                GameResult::Draw
            } else {
                GameResult::InProgress
            },
        },
{
    let b2 = b.update(pos, Some(c));
    lemma_no_first_winner(b, 0);
    assert forall|k: int, d: Cell|
        0 <= k < NUM_LINES && !on_line(k, pos) implies !#[trigger] line_won_by(b2, k, d) by {
        assert(!line_won_by(b, k, d));
    }
    match first_winner_through(b2, pos, 0) {
        Some(d) => {
            let k = lemma_some_through(b2, pos, 0, d);
            assert(b2[pos] == Some(d));
            assert forall|e: Cell| e != c implies !has_line(b2, e) by {
                if has_line(b2, e) {
                    let m = choose|m: int| 0 <= m < NUM_LINES && #[trigger] line_won_by(b2, m, e);
                    assert(on_line(m, pos));
                }
            }
            completed_line_wins_game(b2, k, c);
        },
        None => {
            lemma_none_through(b2, pos, 0);
            assert forall|e: Cell| !has_line(b2, e) by {
                if has_line(b2, e) {
                    let m = choose|m: int| 0 <= m < NUM_LINES && #[trigger] line_won_by(b2, m, e);
                    assert(on_line(m, pos));
                }
            }
            lemma_no_winner_from(b2, 0);
        },
    }
}

} // verus!
