//! The rules of one game of noughts and crosses: the board, the two players,
//! whose turn it is, and how a game ends.

use vstd::prelude::*;

verus! {

/// Side length of the board.
pub const BOARD_SIZE: usize = 3;

/// Number of cells on the board.
pub const BOARD_CELLS: usize = 9;

/// Number of players in one game.
pub const NUM_PLAYERS: usize = 2;

/// Number of lines (rows, columns, diagonals) that win a game when one mark fills them.
pub const NUM_LINES: usize = 8;

/// What a cell of the board holds.
#[derive(Clone, Copy, PartialEq, Eq, Debug, Structural)]
pub enum Mark {
    Nought,
    Cross,
    Empty,
}

/// How a game ended.
#[derive(Clone, Copy, PartialEq, Eq, Debug, Structural)]
pub enum GameResult {
    CrossWon,
    NoughtWon,
    Draw,
    /// A player left before the game was decided on the board.
    Abandoned,
}

/// Whether a game is still being played.
#[derive(Clone, Copy, PartialEq, Eq, Debug, Structural)]
pub enum GameState {
    InProgress,
    Ended(GameResult),
}

/// A position on the board: column `x`, row `y`.
#[derive(Clone, Copy, PartialEq, Eq, Debug, Structural)]
pub struct Square {
    pub x: usize,
    pub y: usize,
}

impl Square {
    /// Whether the position lies on the board.
    pub open spec fn on_board(self) -> bool {
        self.x < BOARD_SIZE && self.y < BOARD_SIZE
    }

    /// The index of the cell in row-major order.
    pub open spec fn index(self) -> int {
        self.y * BOARD_SIZE + self.x
    }

    pub fn new(x: usize, y: usize) -> (square: Self)
        ensures
            square == (Square { x, y }),
    {
        Square { x, y }
    }
}

impl GameResult {
    /// The win that belongs to a mark: `CrossWon` to `Cross`, `NoughtWon` to `Nought`.
    /// `Empty` completes no line and wins nothing; the value given for it is never used.
    pub open spec fn win_of(mark: Mark) -> GameResult {
        match mark {
            Mark::Cross => GameResult::CrossWon,
            Mark::Nought => GameResult::NoughtWon,
            Mark::Empty => GameResult::Draw,
        }
    }

    /// Whether the result is a win of one of the two marks.
    pub open spec fn is_win(self) -> bool {
        self == GameResult::CrossWon || self == GameResult::NoughtWon
    }

    /// The result for the mark that completed a line.
    pub fn from_mark(mark: Mark) -> (result: GameResult)
        requires
            mark != Mark::Empty,
        ensures
            result == GameResult::win_of(mark),
            result.is_win(),
    {
        match mark {
            Mark::Cross => GameResult::CrossWon,
            _ => GameResult::NoughtWon,
        }
    }
}

/// The cells of winning line `k`, as indices in row-major order. Lines are numbered in
/// the order in which they are examined: the rows from the top, the columns from the
/// left, the diagonal from the top left, the diagonal from the top right.
pub open spec fn line(k: int) -> (int, int, int) {
    if 0 <= k < 3 {
        (3 * k, 3 * k + 1, 3 * k + 2)
    } else if 3 <= k < 6 {
        (k - 3, k, k + 3)
    } else if k == 6 {
        (0, 4, 8)
    } else {
        (2, 4, 6)
    }
}

/// The mark in the first cell of line `k`.
pub open spec fn line_mark(cells: Seq<Mark>, k: int) -> Mark {
    cells[line(k).0]
}

/// Line `k` holds three times the same mark, and not `Empty`.
pub open spec fn line_complete(cells: Seq<Mark>, k: int) -> bool {
    let (a, b, c) = line(k);
    cells[a] != Mark::Empty && cells[b] == cells[a] && cells[c] == cells[a]
}

/// The first complete line among lines `from..NUM_LINES`, if there is one.
pub open spec fn first_complete_line(cells: Seq<Mark>, from: int) -> Option<int>
    decreases NUM_LINES - from,
{
    if from >= NUM_LINES {
        None
    } else if line_complete(cells, from) {
        Some(from)
    } else {
        first_complete_line(cells, from + 1)
    }
}

/// No cell is empty.
pub open spec fn board_full(cells: Seq<Mark>) -> bool {
    forall|i: int| 0 <= i < BOARD_CELLS ==> cells[i] != Mark::Empty
}

/// The number of cells among the first `n` that hold a mark.
pub open spec fn marked_count(cells: Seq<Mark>, n: int) -> int
    decreases n,
{
    if n <= 0 {
        0
    } else {
        marked_count(cells, n - 1) + if cells[n - 1] != Mark::Empty { 1int } else { 0int }
    }
}

/// What the board decides: the win of the mark on the first complete line; else a draw
/// if the board is full; else nothing yet.
pub open spec fn outcome(cells: Seq<Mark>) -> Option<GameResult> {
    match first_complete_line(cells, 0) {
        Some(k) => Some(GameResult::win_of(line_mark(cells, k))),
        None => if board_full(cells) {
            Some(GameResult::Draw)
        } else {
            None
        },
    }
}

/// The 3x3 board, its cells in row-major order.
#[derive(Debug)]
pub struct Board {
    array: [Mark; 9],
}

impl View for Board {
    type V = Seq<Mark>;

    closed spec fn view(&self) -> Seq<Mark> {
        self.array@
    }
}

impl Board {
    /// Every board has nine cells.
    pub proof fn lemma_len(&self)
        ensures
            self@.len() == BOARD_CELLS,
    {
        broadcast use vstd::array::group_array_axioms;

    }

    /// An empty board.
    pub fn new() -> (board: Self)
        ensures
            board@ == Seq::new(BOARD_CELLS as nat, |i: int| Mark::Empty),
    {
        let board = Board { array: [Mark::Empty; 9] };
        proof {
            broadcast use vstd::array::group_array_axioms;

            assert(board@ =~= Seq::new(BOARD_CELLS as nat, |i: int| Mark::Empty));
        }
        board
    }

    /// The content of the cell in column `x` and row `y`, if that is on the board.
    pub fn get_pos_coords(&self, x: usize, y: usize) -> (content: Option<Mark>)
        ensures
            content == if x < BOARD_SIZE && y < BOARD_SIZE {
                Some(self@[y * BOARD_SIZE + x])
            } else {
                None
            },
    {
        if x >= BOARD_SIZE || y >= BOARD_SIZE {
            return None;
        }
        Some(self.array[y * BOARD_SIZE + x])
    }

    /// The content of cell number `spot` in row-major order, if that is on the board.
    pub fn get_pos(&self, spot: usize) -> (content: Option<Mark>)
        ensures
            content == if spot < BOARD_CELLS {
                Some(self@[spot as int])
            } else {
                None
            },
    {
        self.get_pos_coords(spot % BOARD_SIZE, spot / BOARD_SIZE)
    }

    /// Writes `new_pos` into the cell in column `x` and row `y`.
    pub fn set_pos(&mut self, x: usize, y: usize, new_pos: Mark)
        requires
            y * BOARD_SIZE + x < BOARD_CELLS,
        ensures
            final(self)@ == old(self)@.update(y * BOARD_SIZE + x, new_pos),
    {
        self.array[y * BOARD_SIZE + x] = new_pos;
        proof {
            broadcast use vstd::array::group_array_axioms;

            assert(self@ =~= old(self)@.update(y * BOARD_SIZE + x, new_pos));
        }
    }
}

/// A complete line from which on no earlier line is complete is the first one.
proof fn lemma_first_complete_line(cells: Seq<Mark>, from: int, k: int)
    requires
        0 <= from <= k < NUM_LINES,
        line_complete(cells, k),
        forall|j: int| from <= j < k ==> !line_complete(cells, j),
    ensures
        first_complete_line(cells, from) == Some(k),
    decreases k - from,
{
    if from < k {
        lemma_first_complete_line(cells, from + 1, k);
    }
}

/// Where no line is complete, there is no first one.
proof fn lemma_no_complete_line(cells: Seq<Mark>, from: int)
    requires
        0 <= from <= NUM_LINES,
        forall|j: int| from <= j < NUM_LINES ==> !line_complete(cells, j),
    ensures
        first_complete_line(cells, from) is None,
    decreases NUM_LINES - from,
{
    if from < NUM_LINES {
        lemma_no_complete_line(cells, from + 1);
    }
}

impl Board {
    /// Whether the cells `a`, `b` and `c` hold one mark that is not `Empty`.
    fn same_mark(&self, a: usize, b: usize, c: usize) -> (same: bool)
        requires
            a < BOARD_CELLS,
            b < BOARD_CELLS,
            c < BOARD_CELLS,
        ensures
            same == (self@[a as int] != Mark::Empty && self@[b as int] == self@[a as int]
                && self@[c as int] == self@[a as int]),
    {
        let first_mark = self.array[a];
        first_mark != Mark::Empty && self.array[b] == first_mark && self.array[c] == first_mark
    }

    /// Whether the game is decided on this board, and how: a line of three equal marks
    /// wins for that mark, the lines taken in the order of `line`; a full board without
    /// such a line is a draw.
    pub fn game_over(&self) -> (result: Option<GameResult>)
        ensures
            result == outcome(self@),
            result != Some(GameResult::Abandoned),
    {
        let mut y: usize = 0;
        while y < BOARD_SIZE
            invariant
                y <= BOARD_SIZE,
                forall|j: int| 0 <= j < y ==> !line_complete(self@, j),
            decreases BOARD_SIZE - y,
        {
            if self.same_mark(y * 3, y * 3 + 1, y * 3 + 2) {
                proof {
                    lemma_first_complete_line(self@, 0, y as int);
                }
                return Some(GameResult::from_mark(self.array[y * 3]));
            }
            y += 1;
        }
        let mut x: usize = 0;
        while x < BOARD_SIZE
            invariant
                x <= BOARD_SIZE,
                forall|j: int| 0 <= j < 3 + x ==> !line_complete(self@, j),
            decreases BOARD_SIZE - x,
        {
            if self.same_mark(x, x + 3, x + 6) {
                proof {
                    assert(line_complete(self@, 3 + x));
                    lemma_first_complete_line(self@, 0, 3 + x);
                }
                return Some(GameResult::from_mark(self.array[x]));
            }
            assert(!line_complete(self@, 3 + x));
            x += 1;
        }
        if self.same_mark(0, 4, 8) {
            proof {
                lemma_first_complete_line(self@, 0, 6);
            }
            return Some(GameResult::from_mark(self.array[0]));
        }
        if self.same_mark(2, 4, 6) {
            proof {
                lemma_first_complete_line(self@, 0, 7);
            }
            return Some(GameResult::from_mark(self.array[2]));
        }
        proof {
            lemma_no_complete_line(self@, 0);
        }
        let mut i: usize = 0;
        while i < BOARD_CELLS
            invariant
                i <= BOARD_CELLS,
                first_complete_line(self@, 0) is None,
                forall|j: int| 0 <= j < i ==> self@[j] != Mark::Empty,
            decreases BOARD_CELLS - i,
        {
            if self.array[i] == Mark::Empty {
                return None;
            }
            i += 1;
        }
        Some(GameResult::Draw)
    }
}

/// One of the two players of a game: the mark they play and who they are.
#[derive(Clone, Copy, PartialEq, Eq, Debug, Structural)]
pub struct Player {
    pub mark: Mark,
    pub id: u64,
}

impl Player {
    pub fn new(mark: Mark, id: u64) -> (player: Self)
        ensures
            player == (Player { mark, id }),
    {
        Player { mark, id }
    }

    pub fn id(&self) -> (id: u64)
        ensures
            id == self.id,
    {
        self.id
    }
}

/// Two players with different identities, one playing `Cross` and one `Nought`.
pub open spec fn valid_players(players: Seq<Player>) -> bool {
    &&& players.len() == NUM_PLAYERS
    &&& players[0].id != players[1].id
    &&& players[0].mark != Mark::Empty
    &&& players[1].mark != Mark::Empty
    &&& players[0].mark != players[1].mark
}

/// The identities of `players`, in their order.
pub open spec fn ids_of(players: Seq<Player>) -> Seq<u64> {
    Seq::new(players.len(), |i: int| players[i].id)
}

/// A game as a mathematical value.
pub struct GameView {
    pub players: Seq<Player>,
    pub cells: Seq<Mark>,
    /// Index in `players` of the player who moves next.
    pub turn: nat,
    pub state: GameState,
}

impl GameView {
    /// Two valid players, nine cells, and a state that agrees with the board: a game in
    /// progress is undecided on the board, and a game that ended with a win or a draw
    /// shows it.
    pub open spec fn wf(self) -> bool {
        &&& valid_players(self.players)
        &&& self.cells.len() == BOARD_CELLS
        &&& self.turn < NUM_PLAYERS
        &&& match self.state {
            GameState::InProgress => outcome(self.cells) is None,
            GameState::Ended(GameResult::Abandoned) => true,
            GameState::Ended(result) => outcome(self.cells) == Some(result),
        }
    }

    /// A fresh game: an empty board, `first` to move.
    pub open spec fn start(players: Seq<Player>, first: nat) -> GameView {
        GameView {
            players,
            cells: Seq::new(BOARD_CELLS as nat, |i: int| Mark::Empty),
            turn: first,
            state: GameState::InProgress,
        }
    }

    /// The player who moves next.
    pub open spec fn current(self) -> Player {
        self.players[self.turn as int]
    }

    /// The identities of the players, in their order.
    pub open spec fn ids(self) -> Seq<u64> {
        ids_of(self.players)
    }

    /// Whether `id` is a player of this game.
    pub open spec fn has_player(self, id: u64) -> bool {
        exists|i: int| 0 <= i < self.players.len() && self.players[i].id == id
    }

    /// The identity of the player who plays against `id`.
    pub open spec fn opponent_of(self, id: u64) -> u64 {
        if self.players[0].id == id {
            self.players[1].id
        } else {
            self.players[0].id
        }
    }

    /// The mark of the first player with identity `id`, searching from index `from`.
    pub open spec fn mark_from(self, id: u64, from: int) -> Option<Mark>
        decreases self.players.len() - from,
    {
        if from < 0 || from >= self.players.len() {
            None
        } else if self.players[from].id == id {
            Some(self.players[from].mark)
        } else {
            self.mark_from(id, from + 1)
        }
    }

    /// The mark that the player with identity `id` plays.
    pub open spec fn mark_of(self, id: u64) -> Option<Mark> {
        self.mark_from(id, 0)
    }

    /// A move to `square` by `id` is legal: the game is in progress, it is that player's
    /// turn, and the square is an empty cell of the board.
    pub open spec fn can_move(self, square: Square, id: u64) -> bool {
        &&& self.state == GameState::InProgress
        &&& self.current().id == id
        &&& square.on_board()
        &&& self.cells[square.index()] == Mark::Empty
    }

    /// The game after the current player has moved to `square`.
    pub open spec fn after_move(self, square: Square) -> GameView {
        let cells = self.cells.update(square.index(), self.current().mark);
        GameView {
            players: self.players,
            cells,
            turn: ((self.turn as int + 1) % (NUM_PLAYERS as int)) as nat,
            state: match outcome(cells) {
                Some(result) => GameState::Ended(result),
                None => self.state,
            },
        }
    }

    /// The game after a player has left it.
    pub open spec fn abandoned(self) -> GameView {
        GameView { state: GameState::Ended(GameResult::Abandoned), ..self }
    }

    /// Every move of `moves`, a square and the identity of who moves there, is legal at
    /// the time it is made.
    pub open spec fn accepts(self, moves: Seq<(Square, u64)>) -> bool
        decreases moves.len(),
    {
        if moves.len() == 0 {
            true
        } else {
            self.can_move(moves[0].0, moves[0].1) && self.after_move(moves[0].0).accepts(
                moves.drop_first(),
            )
        }
    }

    /// The game after the moves of `moves` have been made in turn.
    pub open spec fn play(self, moves: Seq<(Square, u64)>) -> GameView
        decreases moves.len(),
    {
        if moves.len() == 0 {
            self
        } else {
            self.after_move(moves[0].0).play(moves.drop_first())
        }
    }
}

/// A game between two players.
pub struct Game {
    players: Vec<Player>,
    board: Board,
    curr_player: usize,
    state: GameState,
}

impl View for Game {
    type V = GameView;

    closed spec fn view(&self) -> GameView {
        GameView {
            players: self.players@,
            cells: self.board@,
            turn: self.curr_player as nat,
            state: self.state,
        }
    }
}

impl Game {
    /// The invariant of a game, see `GameView::wf`.
    pub open spec fn wf(&self) -> bool {
        self@.wf()
    }

    /// A new game between `players`, in which `players[first]` moves first.
    pub fn new(players: Vec<Player>, first: usize) -> (game: Self)
        requires
            valid_players(players@),
            first < NUM_PLAYERS,
        ensures
            game.wf(),
            game@ == GameView::start(players@, first as nat),
    {
        let game = Game {
            players,
            board: Board::new(),
            curr_player: first,
            state: GameState::InProgress,
        };
        proof {
            lemma_empty_board_undecided();
        }
        game
    }

    /// The player whose turn it is.
    pub fn get_curr_player(&self) -> (player: &Player)
        requires
            self.wf(),
        ensures
            *player == self@.current(),
    {
        &self.players[self.curr_player]
    }

    /// The board as it stands.
    pub fn board(&self) -> (board: &Board)
        ensures
            board@ == self@.cells,
    {
        &self.board
    }

    /// Whether the game is in progress or has ended, and how.
    pub fn state(&self) -> (state: GameState)
        ensures
            state == self@.state,
    {
        self.state
    }

    /// Whether `player_id` may move to `square` now.
    pub fn can_move(&self, square: &Square, player_id: u64) -> (allowed: bool)
        requires
            self.wf(),
        ensures
            allowed == self@.can_move(*square, player_id),
    {
        if self.state == GameState::InProgress && self.get_curr_player().id() == player_id {
            let pos = self.board.get_pos_coords(square.x, square.y);
            if pos.is_some() {
                if pos.unwrap() == Mark::Empty {
                    return true;
                }
            }
        }
        false
    }

    /// Makes the current player's move to `square`, which must be legal, and passes the
    /// turn to the other player. Returns how the game ended, if this move ended it.
    pub fn make_move(&mut self, square: &Square) -> (result: Option<GameResult>)
        requires
            old(self).wf(),
            old(self)@.can_move(*square, old(self)@.current().id),
        ensures
            final(self).wf(),
            final(self)@ == old(self)@.after_move(*square),
            result == outcome(final(self)@.cells),
            result != Some(GameResult::Abandoned),
    {
        let mark = self.players[self.curr_player].mark;
        self.board.set_pos(square.x, square.y, mark);
        self.curr_player = (self.curr_player + 1) % NUM_PLAYERS;
        let result = self.board.game_over();
        if let Some(r) = result {
            self.state = GameState::Ended(r);
        }
        result
    }

    /// The identities of the players, in their order.
    pub fn get_player_ids(&self) -> (ids: Vec<u64>)
        ensures
            ids@ == self@.ids(),
    {
        let mut ids: Vec<u64> = Vec::new();
        let mut i: usize = 0;
        while i < self.players.len()
            invariant
                i <= self.players.len(),
                ids@.len() == i,
                forall|j: int| 0 <= j < i ==> ids@[j] == self.players@[j].id,
            decreases self.players.len() - i,
        {
            ids.push(self.players[i].id);
            i += 1;
        }
        assert(ids@ =~= self@.ids());
        ids
    }

    /// The mark that the player with identity `id` plays, if `id` is a player.
    pub fn get_player_mark(&self, id: u64) -> (mark: Option<Mark>)
        ensures
            mark == self@.mark_of(id),
    {
        let mut i: usize = 0;
        while i < self.players.len()
            invariant
                i <= self.players.len(),
                self@.mark_of(id) == self@.mark_from(id, i as int),
            decreases self.players.len() - i,
        {
            if self.players[i].id == id {
                return Some(self.players[i].mark);
            }
            i += 1;
        }
        None
    }

    /// Ends the game because a player has left.
    pub fn player_left(&mut self)
        requires
            old(self).wf(),
        ensures
            final(self).wf(),
            final(self)@ == old(self)@.abandoned(),
    {
        self.state = GameState::Ended(GameResult::Abandoned);
    }
}

/// The empty board decides nothing.
pub proof fn lemma_empty_board_undecided()
    ensures
        outcome(Seq::new(BOARD_CELLS as nat, |i: int| Mark::Empty)) is None,
{
    let cells = Seq::new(BOARD_CELLS as nat, |i: int| Mark::Empty);
    assert forall|j: int| 0 <= j < NUM_LINES implies !line_complete(cells, j) by {
        assert(0 <= line(j).0 < 9);
    }
    lemma_no_complete_line(cells, 0);
    assert(cells[0] == Mark::Empty);
}

} // verus!
