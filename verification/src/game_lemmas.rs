//! What follows from the rules of the game: facts about legal moves, turns and
//! how the board decides a game.

use crate::game::{
    board_full, first_complete_line, line, line_complete, line_mark, marked_count, outcome,
    GameResult, GameState, GameView, Mark, Square, BOARD_CELLS, NUM_LINES, NUM_PLAYERS,
};
use vstd::prelude::*;

verus! {

/// Whether cell `i` lies on line `k`.
pub open spec fn on_line(k: int, i: int) -> bool {
    i == line(k).0 || i == line(k).1 || i == line(k).2
}

/// The three cells of a line are different cells of the board.
pub proof fn lemma_line_cells(k: int)
    requires
        0 <= k < NUM_LINES,
    ensures
        0 <= line(k).0 < line(k).1 < line(k).2 < BOARD_CELLS,
{
}

/// `first_complete_line` finds a complete line exactly when there is one from `from`
/// on, and then the one with the smallest number.
pub proof fn lemma_first_complete_line_is_least(cells: Seq<Mark>, from: int)
    requires
        0 <= from <= NUM_LINES,
    ensures
        match first_complete_line(cells, from) {
            Some(k) => from <= k < NUM_LINES && line_complete(cells, k) && forall|j: int|
                from <= j < k ==> !line_complete(cells, j),
            None => forall|j: int| from <= j < NUM_LINES ==> !line_complete(cells, j),
        },
    decreases NUM_LINES - from,
{
    if from < NUM_LINES && !line_complete(cells, from) {
        lemma_first_complete_line_is_least(cells, from + 1);
    }
}

/// The board decides a win exactly when a line is complete, a draw exactly when no line
/// is complete and no cell is empty, and it never decides that a game was abandoned.
pub proof fn lemma_outcome_cases(cells: Seq<Mark>)
    ensures
        match outcome(cells) {
            Some(GameResult::CrossWon) => exists|k: int|
                0 <= k < NUM_LINES && line_complete(cells, k) && line_mark(cells, k)
                    == Mark::Cross,
            Some(GameResult::NoughtWon) => exists|k: int|
                0 <= k < NUM_LINES && line_complete(cells, k) && line_mark(cells, k)
                    == Mark::Nought,
            Some(GameResult::Draw) => board_full(cells) && forall|k: int|
                0 <= k < NUM_LINES ==> !line_complete(cells, k),
            Some(GameResult::Abandoned) => false,
            None => !board_full(cells) && forall|k: int|
                0 <= k < NUM_LINES ==> !line_complete(cells, k),
        },
{
    lemma_first_complete_line_is_least(cells, 0);
}

/// If a line is complete and every complete line holds `mark`, then that mark wins.
pub proof fn lemma_one_mark_wins(cells: Seq<Mark>, k: int, mark: Mark)
    requires
        0 <= k < NUM_LINES,
        line_complete(cells, k),
        forall|j: int| 0 <= j < NUM_LINES && line_complete(cells, j) ==> line_mark(cells, j) == mark,
    ensures
        outcome(cells) == Some(GameResult::win_of(mark)),
        mark != Mark::Empty,
{
    lemma_first_complete_line_is_least(cells, 0);
}

/// A board on which the cells of line `k` hold `mark` and all other cells are empty is
/// won by `mark`: `CrossWon` for `Cross`, `NoughtWon` for `Nought`.
pub proof fn lemma_single_line_wins(cells: Seq<Mark>, k: int, mark: Mark)
    requires
        cells.len() == BOARD_CELLS,
        0 <= k < NUM_LINES,
        mark != Mark::Empty,
        forall|i: int|
            0 <= i < BOARD_CELLS ==> cells[i] == if on_line(k, i) {
                mark
            } else {
                Mark::Empty
            },
    ensures
        outcome(cells) == Some(GameResult::win_of(mark)),
        mark == Mark::Cross ==> outcome(cells) == Some(GameResult::CrossWon),
        mark == Mark::Nought ==> outcome(cells) == Some(GameResult::NoughtWon),
{
    lemma_line_cells(k);
    assert(on_line(k, line(k).0) && on_line(k, line(k).1) && on_line(k, line(k).2));
    assert(line_complete(cells, k));
    assert forall|j: int| 0 <= j < NUM_LINES && line_complete(cells, j) implies line_mark(
        cells,
        j,
    ) == mark by {
        lemma_line_cells(j);
    }
    lemma_one_mark_wins(cells, k, mark);
}

/// A full board without a complete line is a draw.
pub proof fn lemma_full_board_draw(cells: Seq<Mark>)
    requires
        board_full(cells),
        forall|k: int| 0 <= k < NUM_LINES ==> !line_complete(cells, k),
    ensures
        outcome(cells) == Some(GameResult::Draw),
{
    lemma_first_complete_line_is_least(cells, 0);
}

/// A board with an empty cell and without a complete line decides nothing.
pub proof fn lemma_open_board_undecided(cells: Seq<Mark>, empty: int)
    requires
        0 <= empty < BOARD_CELLS,
        cells[empty] == Mark::Empty,
        forall|k: int| 0 <= k < NUM_LINES ==> !line_complete(cells, k),
    ensures
        outcome(cells) is None,
{
    lemma_first_complete_line_is_least(cells, 0);
}

/// A move is refused when the square is off the board, when the cell is taken, when it
/// is not the mover's turn, and when the game has ended.
pub proof fn lemma_can_move_refuses(game: GameView, square: Square, id: u64)
    ensures
        !square.on_board() ==> !game.can_move(square, id),
        game.cells[square.index()] != Mark::Empty ==> !game.can_move(square, id),
        id != game.current().id ==> !game.can_move(square, id),
        game.state is Ended ==> !game.can_move(square, id),
{
}

/// Each player of a game is found under their identity, with their own mark.
pub proof fn lemma_mark_of_player(game: GameView, j: int)
    requires
        game.wf(),
        0 <= j < NUM_PLAYERS,
    ensures
        game.mark_of(game.players[j].id) == Some(game.players[j].mark),
{
    reveal_with_fuel(GameView::mark_from, 3);
}

/// Who is no player of a game has no mark in it.
pub proof fn lemma_mark_of_stranger(game: GameView, id: u64)
    requires
        game.wf(),
        !game.has_player(id),
    ensures
        game.mark_of(id) is None,
{
    reveal_with_fuel(GameView::mark_from, 3);
    assert(game.players[0].id != id);
    assert(game.players[1].id != id);
}

/// A legal move keeps the game well formed.
pub proof fn lemma_after_move_wf(game: GameView, square: Square)
    requires
        game.wf(),
        game.can_move(square, game.current().id),
    ensures
        game.after_move(square).wf(),
        game.after_move(square).players == game.players,
{
    lemma_outcome_cases(game.cells.update(square.index(), game.current().mark));
}

/// After a legal move the turn is the other player's: whoever has just moved cannot move
/// again, whatever the square.
pub proof fn lemma_turn_passes(game: GameView, square: Square, id: u64, next: Square)
    requires
        game.wf(),
        game.can_move(square, id),
    ensures
        game.after_move(square).current().id != id,
        !game.after_move(square).can_move(next, id),
{
}

/// Writing a mark into an empty cell raises the number of marked cells by one.
pub proof fn lemma_marked_count_update(cells: Seq<Mark>, n: int, i: int, mark: Mark)
    requires
        0 <= n <= cells.len(),
        0 <= i < cells.len(),
        cells[i] == Mark::Empty,
        mark != Mark::Empty,
    ensures
        marked_count(cells.update(i, mark), n) == marked_count(cells, n) + if i < n {
            1int
        } else {
            0int
        },
    decreases n,
{
    if n > 0 {
        lemma_marked_count_update(cells, n - 1, i, mark);
    }
}

/// A legal move marks exactly one more cell.
pub proof fn lemma_move_marks_one_cell(game: GameView, square: Square)
    requires
        game.wf(),
        game.can_move(square, game.current().id),
    ensures
        marked_count(game.after_move(square).cells, BOARD_CELLS as int) == marked_count(
            game.cells,
            BOARD_CELLS as int,
        ) + 1,
{
    lemma_marked_count_update(
        game.cells,
        BOARD_CELLS as int,
        square.index(),
        game.current().mark,
    );
}

/// A fresh game has no marked cell.
pub proof fn lemma_start_unmarked(game: GameView, n: int)
    requires
        game.cells == Seq::new(BOARD_CELLS as nat, |i: int| Mark::Empty),
        0 <= n <= BOARD_CELLS,
    ensures
        marked_count(game.cells, n) == 0,
    decreases n,
{
    if n > 0 {
        lemma_start_unmarked(game, n - 1);
    }
}

/// In a sequence of moves of which each was legal when it was made, no player moves
/// twice in a row.
pub proof fn lemma_movers_alternate(game: GameView, moves: Seq<(Square, u64)>, i: int)
    requires
        game.wf(),
        game.accepts(moves),
        0 <= i,
        i + 1 < moves.len(),
    ensures
        moves[i].1 != moves[i + 1].1,
    decreases i,
{
    let rest = moves.drop_first();
    let after = game.after_move(moves[0].0);
    lemma_after_move_wf(game, moves[0].0);
    if i == 0 {
        assert(after.accepts(rest));
        assert(after.can_move(rest[0].0, rest[0].1));
        lemma_turn_passes(game, moves[0].0, moves[0].1, rest[0].0);
        assert(rest[0] == moves[1]);
    } else {
        lemma_movers_alternate(after, rest, i - 1);
        assert(rest[i - 1] == moves[i]);
        assert(rest[i] == moves[i + 1]);
    }
}

/// After a sequence of moves of which each was legal when it was made, the game is well
/// formed and the board holds as many more marks as there were moves.
pub proof fn lemma_one_mark_per_move(game: GameView, moves: Seq<(Square, u64)>)
    requires
        game.wf(),
        game.accepts(moves),
    ensures
        game.play(moves).wf(),
        marked_count(game.play(moves).cells, BOARD_CELLS as int) == marked_count(
            game.cells,
            BOARD_CELLS as int,
        ) + moves.len(),
    decreases moves.len(),
{
    if moves.len() > 0 {
        lemma_after_move_wf(game, moves[0].0);
        lemma_move_marks_one_cell(game, moves[0].0);
        lemma_one_mark_per_move(game.after_move(moves[0].0), moves.drop_first());
    }
}

/// From a fresh game, `k` legal moves leave exactly `k` marked cells.
pub proof fn lemma_marks_equal_moves(game: GameView, moves: Seq<(Square, u64)>)
    requires
        game.wf(),
        game.cells == Seq::new(BOARD_CELLS as nat, |i: int| Mark::Empty),
        game.accepts(moves),
    ensures
        marked_count(game.play(moves).cells, BOARD_CELLS as int) == moves.len(),
{
    lemma_start_unmarked(game, BOARD_CELLS as int);
    lemma_one_mark_per_move(game, moves);
}

} // verus!
