//! Laws of the game engine, stated over the same spec functions its
//! contracts use and proved once and for all.

use vstd::prelude::*;

use crate::counting::count2;
use crate::counting::lemma_count2_le;
use crate::game::flagged_fn;
use crate::game::is_initial;
use crate::game::mine_fn;
use crate::game::toggle_applies;
use crate::game::toggle_rel;
use crate::game::unrevealed_fn;
use crate::game::CellState;
use crate::game::Difficulty;
use crate::game::GameState;
use crate::game::MINE;

verus! {

/// A game that has not started holds no mines at all: none are listed and
/// every board value is still zero, whatever was flagged or toggled so far.
pub proof fn lemma_not_started_no_mines(s: GameState)
    requires
        s.inv(),
        s.status is NotStarted,
    ensures
        s.mines_positions@.len() == 0,
        forall|i: int, j: int| s.in_bounds(i, j) ==> !(#[trigger] s.is_mine(i, j)),
{
    assert forall|i: int, j: int| s.in_bounds(i, j) implies !(#[trigger] s.is_mine(i, j)) by {
        assert(s.board@[i]@[j] == 0);
    }
}

/// The win condition is reached exactly when every non-mine cell has been
/// revealed: the count of unrevealed (hidden or flagged) cells equals the
/// mine count if and only if the revealed cells are precisely the non-mine
/// cells, however the flags are placed.
pub proof fn lemma_win_iff_all_safe_revealed(s: GameState)
    requires
        s.inv(),
        s.status is Playing || s.status is Won,
    ensures
        (count2(unrevealed_fn(s.cell_states@), s.rows(), s.cols()) == s.mines()) <==> (forall|
            i: int,
            j: int,
        |
            s.in_bounds(i, j) && !s.is_mine(i, j) ==> (#[trigger] s.cell_states@[i]@[j])
                is Revealed),
{
    let m = mine_fn(s.board@);
    let u = unrevealed_fn(s.cell_states@);
    let rows = s.rows();
    let cols = s.cols();
    assert forall|i: int, j: int| 0 <= i < rows && 0 <= j < cols && #[trigger] m(i, j) implies u(
        i,
        j,
    ) by {
        assert(s.board@[i]@[j] == MINE);
        assert(!(s.cell_states@[i]@[j] is Revealed));
    }
    lemma_count2_le(m, u, rows, cols);
    if count2(u, rows, cols) == s.mines() {
        assert forall|i: int, j: int|
            s.in_bounds(i, j) && !s.is_mine(i, j) implies (#[trigger] s.cell_states@[i]@[j])
            is Revealed by {
            assert(m(i, j) == u(i, j));
        }
    }
    if forall|i: int, j: int|
        s.in_bounds(i, j) && !s.is_mine(i, j) ==> (#[trigger] s.cell_states@[i]@[j]) is Revealed {
        assert forall|i: int, j: int|
            0 <= i < rows && 0 <= j < cols && #[trigger] u(i, j) implies m(i, j) by {
            assert(s.cell_states@[i]@[j] is Revealed || s.board@[i]@[j] == MINE);
        }
        lemma_count2_le(u, m, rows, cols);
    }
}

/// Toggling the flag of the same untouched cell twice restores every cell
/// state and the flag counter to their original values, and touches nothing
/// else either way.
pub proof fn lemma_toggle_flag_involutive(
    s1: GameState,
    s2: GameState,
    s3: GameState,
    row: int,
    col: int,
)
    requires
        s1.inv(),
        0 <= row < s1.rows(),
        0 <= col < s1.cols(),
        toggle_rel(s1, s2, row, col),
        toggle_rel(s2, s3, row, col),
    ensures
        s3.flags_count == s1.flags_count,
        s3.status == s1.status,
        s3.difficulty == s1.difficulty,
        s3.board == s1.board,
        s3.mines_positions == s1.mines_positions,
        s3.elapsed_seconds == s1.elapsed_seconds,
        forall|i: int, j: int|
            s1.in_bounds(i, j) ==> (#[trigger] s3.cell_states@[i]@[j]) == s1.cell_states@[i]@[j],
{
    if toggle_applies(s1, row, col) {
        assert(toggle_applies(s2, row, col));
        assert forall|i: int, j: int| s1.in_bounds(i, j) implies (
        #[trigger] s3.cell_states@[i]@[j]) == s1.cell_states@[i]@[j] by {
            if i != row || j != col {
                assert(s2.cell_states@[i]@[j] == s1.cell_states@[i]@[j]);
                assert(s3.cell_states@[i]@[j] == s2.cell_states@[i]@[j]);
            }
        }
    }
}

/// A reset game is indistinguishable from a fresh game of the same
/// difficulty: every field and every cell of the two states agrees.
pub proof fn lemma_reset_equals_new(a: GameState, b: GameState, d: Difficulty)
    requires
        is_initial(a, d),
        is_initial(b, d),
    ensures
        a.difficulty == b.difficulty,
        a.status == b.status,
        a.flags_count == b.flags_count,
        a.elapsed_seconds == b.elapsed_seconds,
        a.mines_positions@ == b.mines_positions@,
        a.board@.len() == b.board@.len(),
        a.cell_states@.len() == b.cell_states@.len(),
        forall|i: int, j: int|
            0 <= i < d.spec_rows() && 0 <= j < d.spec_cols() ==> (#[trigger] a.board@[i]@[j])
                == b.board@[i]@[j] && a.cell_states@[i]@[j] == b.cell_states@[i]@[j],
{
    assert(a.mines_positions@ =~= b.mines_positions@);
    assert forall|i: int, j: int|
        0 <= i < d.spec_rows() && 0 <= j < d.spec_cols() implies (#[trigger] a.board@[i]@[j])
        == b.board@[i]@[j] && a.cell_states@[i]@[j] == b.cell_states@[i]@[j] by {
        assert(a.board@[i]@[j] == 0 && b.board@[i]@[j] == 0);
        assert(a.cell_states@[i]@[j] is Hidden && b.cell_states@[i]@[j] is Hidden);
        assert(a.cell_states@[i]@[j] == CellState::Hidden);
        assert(b.cell_states@[i]@[j] == CellState::Hidden);
    }
}

} // verus!
