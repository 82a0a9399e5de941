//! The minesweeper game-state engine.
//!
//! A `GameState` is a pure state machine over a rectangular grid. Mines are
//! placed lazily on the first reveal so that the first revealed cell and its
//! whole neighborhood are mine-free; revealing a zero-adjacency cell cascades
//! through its connected zero region and the numbered border around it;
//! flagging toggles freely on unrevealed cells; the game is won exactly when
//! every non-mine cell has been revealed, and lost when a mine is revealed.

use vstd::prelude::*;

use crate::counting::count1;
use crate::counting::count2;
use crate::counting::lemma_count1_bounds;
use crate::counting::lemma_count2_bounds;
use crate::counting::lemma_count2_complement;
use crate::counting::lemma_count2_congruent;
use crate::counting::lemma_count2_diff_one;
use crate::counting::lemma_count2_pos;
use crate::counting::lemma_count2_rect;
use crate::counting::lemma_count2_row_unfold;
use crate::counting::lemma_count2_zero;

verus! {

/// Board value of a cell that holds a mine; non-mine cells hold their
/// adjacent-mine count, which is at most 8.
pub const MINE: u8 = 9;

#[derive(Debug, Clone, Copy, PartialEq, Eq, Structural)]
pub enum Difficulty {
    Beginner,
    Intermediate,
    Expert,
    Custom(usize, usize, usize),
}

#[derive(Debug, Clone, Copy, PartialEq, Eq, Structural)]
pub enum GameStatus {
    NotStarted,
    Playing,
    Won,
    Lost,
}

#[derive(Debug, Clone, Copy, PartialEq, Eq, Structural)]
pub enum CellState {
    Hidden,
    Revealed,
    Flagged,
}

impl Difficulty {
    /// Rows, columns and mine count of this difficulty.
    pub open spec fn spec_dimensions(self) -> (int, int, int) {
        match self {
            Difficulty::Beginner => (9, 9, 10),
            Difficulty::Intermediate => (16, 16, 40),
            Difficulty::Expert => (16, 30, 99),
            Difficulty::Custom(rows, cols, mines) => (rows as int, cols as int, mines as int),
        }
    }

    pub open spec fn spec_rows(self) -> int {
        self.spec_dimensions().0
    }

    pub open spec fn spec_cols(self) -> int {
        self.spec_dimensions().1
    }

    pub open spec fn spec_mines(self) -> int {
        self.spec_dimensions().2
    }

    /// A difficulty the engine can play: a non-empty grid, fewer mines than
    /// cells, and a cell count small enough for the counters used here.
    pub open spec fn is_valid(self) -> bool {
        &&& self.spec_rows() >= 1
        &&& self.spec_cols() >= 1
        &&& self.spec_mines() < self.spec_rows() * self.spec_cols()
        &&& self.spec_rows() * self.spec_cols() <= isize::MAX as int
    }

    /// Rows, columns and mine count of this difficulty.
    pub fn dimensions(&self) -> (d: (usize, usize, usize))
        ensures
            d.0 as int == self.spec_rows(),
            d.1 as int == self.spec_cols(),
            d.2 as int == self.spec_mines(),
    {
        match self {
            Difficulty::Beginner => (9, 9, 10),
            Difficulty::Intermediate => (16, 16, 40),
            Difficulty::Expert => (16, 30, 99),
            Difficulty::Custom(rows, cols, mines) => (*rows, *cols, *mines),
        }
    }
}

/// The whole state of one game.
///
/// `board` holds the generated cell values (`0..=8` adjacent-mine counts, or
/// [`MINE`]); `cell_states` what the player has done to each cell. Both are
/// `rows` vectors of `cols` entries. `elapsed_seconds` is owned by the
/// presentation layer, which increments it; the engine only resets it.
#[derive(Debug, Clone)]
pub struct GameState {
    pub difficulty: Difficulty,
    pub status: GameStatus,
    pub board: Vec<Vec<u8>>,
    pub cell_states: Vec<Vec<CellState>>,
    pub mines_positions: Vec<(usize, usize)>,
    pub flags_count: usize,
    pub elapsed_seconds: u32,
}

/// The grid has exactly `rows` rows of exactly `cols` cells.
pub open spec fn grid_dims_ok<T>(g: Seq<Vec<T>>, rows: int, cols: int) -> bool {
    g.len() == rows && forall|i: int| 0 <= i < rows ==> (#[trigger] g[i])@.len() == cols
}

/// `pos` lists exactly the mine cells of board `b`, each once.
#[verifier::opaque]
pub open spec fn mines_listed(
    b: Seq<Vec<u8>>,
    pos: Seq<(usize, usize)>,
    rows: int,
    cols: int,
) -> bool {
    &&& forall|k: int|
        0 <= k < pos.len() ==> {
            let p = #[trigger] pos[k];
            p.0 < rows && p.1 < cols && b[p.0 as int]@[p.1 as int] == MINE
        }
    &&& forall|i: int, j: int|
        0 <= i < rows && 0 <= j < cols && (#[trigger] b[i]@[j]) == MINE ==> pos.contains(
            (i as usize, j as usize),
        )
    &&& forall|k1: int, k2: int| 0 <= k1 < k2 < pos.len() ==> pos[k1] != pos[k2]
}

/// An empty listing is right for a board with no mines.
proof fn lemma_mines_listed_empty(b: Seq<Vec<u8>>, pos: Seq<(usize, usize)>, rows: int, cols: int)
    requires
        pos.len() == 0,
        forall|i: int, j: int| 0 <= i < rows && 0 <= j < cols ==> (#[trigger] b[i]@[j]) != MINE,
    ensures
        mines_listed(b, pos, rows, cols),
{
    reveal(mines_listed);
}

/// Turning the non-mine cell `(mr, mc)` into a mine and appending it keeps
/// the listing exact.
proof fn lemma_mines_listed_push(
    b1: Seq<Vec<u8>>,
    b2: Seq<Vec<u8>>,
    pos: Seq<(usize, usize)>,
    rows: int,
    cols: int,
    mr: usize,
    mc: usize,
)
    requires
        mines_listed(b1, pos, rows, cols),
        mr < rows,
        mc < cols,
        b1[mr as int]@[mc as int] != MINE,
        b2[mr as int]@[mc as int] == MINE,
        forall|i: int, j: int|
            0 <= i < rows && 0 <= j < cols && (i != mr as int || j != mc as int) ==> (
            #[trigger] b2[i]@[j]) == b1[i]@[j],
    ensures
        mines_listed(b2, pos.push((mr, mc)), rows, cols),
{
    reveal(mines_listed);
    let pos2 = pos.push((mr, mc));
    assert(pos2[pos.len() as int] == (mr, mc));
    assert forall|k: int|
        0 <= k < pos2.len() implies {
            let p = #[trigger] pos2[k];
            p.0 < rows && p.1 < cols && b2[p.0 as int]@[p.1 as int] == MINE
        } by {
        if k < pos.len() {
            assert(pos2[k] == pos[k]);
            let p = pos[k];
            assert(b1[p.0 as int]@[p.1 as int] == MINE);
            assert(p.0 != mr || p.1 != mc);
        }
    }
    assert forall|k1: int, k2: int| 0 <= k1 < k2 < pos2.len() implies pos2[k1] != pos2[k2] by {
        if k2 == pos.len() {
            let p = pos[k1];
            assert(b1[p.0 as int]@[p.1 as int] == MINE);
            assert(p.0 != mr || p.1 != mc);
        }
    }
    assert forall|i: int, j: int|
        0 <= i < rows && 0 <= j < cols && (#[trigger] b2[i]@[j]) == MINE implies pos2.contains(
        (i as usize, j as usize),
    ) by {
        if i == mr as int && j == mc as int {
            assert(pos2.contains((i as usize, j as usize)));
        } else {
            assert(b1[i]@[j] == MINE);
            let k = choose|k: int| 0 <= k < pos.len() && pos[k] == (i as usize, j as usize);
            assert(pos2[k] == (i as usize, j as usize));
            assert(pos2.contains((i as usize, j as usize)));
        }
    }
}

/// The listing only watches where the mines are, so it survives any change
/// that moves no mine.
proof fn lemma_mines_listed_stable(
    b1: Seq<Vec<u8>>,
    b2: Seq<Vec<u8>>,
    pos: Seq<(usize, usize)>,
    rows: int,
    cols: int,
)
    requires
        mines_listed(b1, pos, rows, cols),
        forall|i: int, j: int|
            0 <= i < rows && 0 <= j < cols ==> ((#[trigger] b2[i]@[j]) == MINE) == (b1[i]@[j]
                == MINE),
    ensures
        mines_listed(b2, pos, rows, cols),
{
    reveal(mines_listed);
}

/// Positions whose board value is the mine sentinel.
pub open spec fn mine_fn(b: Seq<Vec<u8>>) -> spec_fn(int, int) -> bool {
    |i: int, j: int| b[i]@[j] == MINE
}

/// Positions the player has flagged.
pub open spec fn flagged_fn(cs: Seq<Vec<CellState>>) -> spec_fn(int, int) -> bool {
    |i: int, j: int| cs[i]@[j] is Flagged
}

/// Positions not yet revealed (hidden or flagged).
pub open spec fn unrevealed_fn(cs: Seq<Vec<CellState>>) -> spec_fn(int, int) -> bool {
    |i: int, j: int| !(cs[i]@[j] is Revealed)
}

/// Positions still hidden (not revealed, not flagged).
pub open spec fn hidden_fn(cs: Seq<Vec<CellState>>) -> spec_fn(int, int) -> bool {
    |i: int, j: int| cs[i]@[j] is Hidden
}

/// Chebyshev distance at most 1: the cell itself and its up-to-8 neighbors.
pub open spec fn in_safe_zone(fr: int, fc: int, i: int, j: int) -> bool {
    fr - 1 <= i <= fr + 1 && fc - 1 <= j <= fc + 1
}

/// First index of the neighborhood interval around `x`, clipped at 0.
pub open spec fn clip_lo(x: int) -> int {
    if x >= 1 {
        x - 1
    } else {
        0
    }
}

/// Last index of the neighborhood interval around `x` on an axis of `n` cells.
pub open spec fn clip_hi(x: int, n: int) -> int {
    if x + 1 <= n - 1 {
        x + 1
    } else {
        n - 1
    }
}

/// How many cells of a `rows x cols` grid lie in the safe zone of a first
/// reveal at `(fr, fc)`.
pub open spec fn safe_zone_size(rows: int, cols: int, fr: int, fc: int) -> int {
    (clip_hi(fr, rows) - clip_lo(fr) + 1) * (clip_hi(fc, cols) - clip_lo(fc) + 1)
}

/// Positions inside the safe zone of `(fr, fc)`.
pub open spec fn safe_fn(fr: int, fc: int) -> spec_fn(int, int) -> bool {
    |i: int, j: int| in_safe_zone(fr, fc, i, j)
}

/// Positions where a mine may still be placed: outside the safe zone and not
/// already a mine.
pub open spec fn eligible_fn(b: Seq<Vec<u8>>, fr: int, fc: int) -> spec_fn(int, int) -> bool {
    |i: int, j: int| !in_safe_zone(fr, fc, i, j) && b[i]@[j] != MINE
}

/// One row of `eligible_fn`.
pub open spec fn eligible_row_fn(b: Seq<Vec<u8>>, fr: int, fc: int, i: int) -> spec_fn(
    int,
) -> bool {
    |j: int| !in_safe_zone(fr, fc, i, j) && b[i]@[j] != MINE
}

/// Distinct cells that touch horizontally, vertically or diagonally.
pub open spec fn cells_adjacent(r1: int, c1: int, r2: int, c2: int) -> bool {
    (r1 != r2 || c1 != c2) && -1 <= r1 - r2 <= 1 && -1 <= c1 - c2 <= 1
}

/// One row of `unrevealed_fn`.
pub open spec fn unrevealed_row_fn(cs: Seq<Vec<CellState>>, i: int) -> spec_fn(int) -> bool {
    |j: int| !(cs[i]@[j] is Revealed)
}

/// Cells only ever change from hidden to revealed: a reveal never touches a
/// flagged or an already revealed cell.
pub open spec fn only_hidden_to_revealed(pre: GameState, post: GameState) -> bool {
    forall|i: int, j: int|
        pre.in_bounds(i, j) && (#[trigger] post.cell_states@[i]@[j]) != pre.cell_states@[i]@[j]
            ==> pre.cell_states@[i]@[j] is Hidden && post.cell_states@[i]@[j] is Revealed
}

/// Cell `(a, b)` is an in-bounds revealed cell with no adjacent mines.
pub open spec fn revealed_zero(s: GameState, a: int, b: int) -> bool {
    0 <= a < s.rows() && 0 <= b < s.cols() && s.cell_states@[a]@[b] is Revealed && s.board@[a]@[b]
        == 0
}

/// One of the up-to-8 neighbors of `(i, j)` is a revealed zero cell.
pub open spec fn touches_revealed_zero(s: GameState, i: int, j: int) -> bool {
    ||| revealed_zero(s, i - 1, j - 1)
    ||| revealed_zero(s, i - 1, j)
    ||| revealed_zero(s, i - 1, j + 1)
    ||| revealed_zero(s, i, j - 1)
    ||| revealed_zero(s, i, j + 1)
    ||| revealed_zero(s, i + 1, j - 1)
    ||| revealed_zero(s, i + 1, j)
    ||| revealed_zero(s, i + 1, j + 1)
}

/// Every cell the call revealed besides the target `(r, c)` touches a
/// revealed cell with no adjacent mines: nothing is revealed away from the
/// cascade.
#[verifier::opaque]
pub open spec fn cascade_sound(pre: GameState, post: GameState, r: int, c: int) -> bool {
    forall|i: int, j: int|
        pre.in_bounds(i, j) && (#[trigger] post.cell_states@[i]@[j]) != pre.cell_states@[i]@[j] && (
        i != r || j != c) ==> touches_revealed_zero(post, i, j)
}

/// Every zero-valued cell the call revealed has no hidden neighbor left: its
/// cascade ran to completion, through the connected zero region and the
/// numbered border around it, pausing only at flagged cells.
#[verifier::opaque]
pub open spec fn cascade_complete(pre: GameState, post: GameState) -> bool {
    forall|i: int, j: int|
        pre.in_bounds(i, j) && (#[trigger] post.cell_states@[i]@[j]) != pre.cell_states@[i]@[j]
            && post.board@[i]@[j] == 0 ==> forall|a: int, b: int|
            pre.in_bounds(a, b) && cells_adjacent(a, b, i, j) ==> !((
            #[trigger] post.cell_states@[a]@[b]) is Hidden)
}

/// What holds at every step of the reveal cascade that started at
/// `(row, col)`: `mid` is the state just before the target cell was revealed,
/// `s` the current state, `stack` the cells whose neighbors still must be
/// revealed. Everything but the cell states is frozen; cells change from
/// hidden to revealed only; every revealed cell is accounted for; every
/// revealed zero cell is either still queued or has no hidden neighbor.
pub open spec fn cascade_loop_inv(
    mid: GameState,
    s: GameState,
    stack: Seq<(usize, usize)>,
    row: int,
    col: int,
) -> bool {
    let rows = mid.rows();
    let cols = mid.cols();
    &&& mid.inv()
    &&& mid.status is Playing
    &&& mid.in_bounds(row, col)
    &&& mid.cell_states@[row]@[col] is Hidden
    &&& !mid.is_mine(row, col)
    &&& s.difficulty == mid.difficulty
    &&& s.status == mid.status
    &&& s.board == mid.board
    &&& s.mines_positions == mid.mines_positions
    &&& s.flags_count == mid.flags_count
    &&& s.elapsed_seconds == mid.elapsed_seconds
    &&& grid_dims_ok(s.cell_states@, rows, cols)
    &&& s.flags_count as int == count2(flagged_fn(s.cell_states@), rows, cols)
    &&& s.cell_states@[row]@[col] is Revealed
    &&& forall|i: int, j: int|
        0 <= i < rows && 0 <= j < cols && (#[trigger] s.cell_states@[i]@[j])
            != mid.cell_states@[i]@[j] ==> mid.cell_states@[i]@[j] is Hidden
            && s.cell_states@[i]@[j] is Revealed
    &&& forall|k: int|
        0 <= k < stack.len() ==> {
            let p = #[trigger] stack[k];
            &&& p.0 < rows
            &&& p.1 < cols
            &&& s.board@[p.0 as int]@[p.1 as int] == 0
            &&& s.cell_states@[p.0 as int]@[p.1 as int] is Revealed
        }
    &&& cascade_sound(mid, s, row, col)
    &&& s.no_mine_revealed()
}

/// No in-bounds neighbor of `(i, j)` is still hidden: the cascade owes this
/// cell nothing more.
pub open spec fn saturated(s: GameState, rows: int, cols: int, i: int, j: int) -> bool {
    forall|a: int, b: int|
        0 <= a < rows && 0 <= b < cols && cells_adjacent(a, b, i, j) ==> !((
        #[trigger] s.cell_states@[a]@[b]) is Hidden)
}

/// Every zero cell the cascade has revealed is still queued or saturated.
#[verifier::opaque]
pub open spec fn cascade_pending(mid: GameState, s: GameState, stack: Seq<(usize, usize)>) -> bool {
    forall|i: int, j: int|
        0 <= i < mid.rows() && 0 <= j < mid.cols() && (#[trigger] s.cell_states@[i]@[j])
            != mid.cell_states@[i]@[j] && s.board@[i]@[j] == 0 ==> stack.contains(
            (i as usize, j as usize),
        ) || saturated(s, mid.rows(), mid.cols(), i, j)
}

/// As `cascade_pending`, except that nothing is owed yet for the one cell
/// `(pr, pc)` whose neighborhood is being worked off.
#[verifier::opaque]
pub open spec fn cascade_pending_except(
    mid: GameState,
    s: GameState,
    stack: Seq<(usize, usize)>,
    pr: int,
    pc: int,
) -> bool {
    forall|i: int, j: int|
        0 <= i < mid.rows() && 0 <= j < mid.cols() && (#[trigger] s.cell_states@[i]@[j])
            != mid.cell_states@[i]@[j] && s.board@[i]@[j] == 0 && (i != pr || j != pc)
            ==> stack.contains((i as usize, j as usize)) || saturated(
            s,
            mid.rows(),
            mid.cols(),
            i,
            j,
        )
}

/// 1 if `(i, j)` is an in-bounds mine cell, else 0.
pub open spec fn mine_ind(b: Seq<Vec<u8>>, rows: int, cols: int, i: int, j: int) -> int {
    if 0 <= i < rows && 0 <= j < cols && b[i]@[j] == MINE {
        1
    } else {
        0
    }
}

/// Exact number of mine cells among the up-to-8 in-bounds neighbors of
/// `(r, c)`; the neighborhood is clipped at the edges, never wrapped.
pub open spec fn adjacent_mines(b: Seq<Vec<u8>>, rows: int, cols: int, r: int, c: int) -> int {
    mine_ind(b, rows, cols, r - 1, c - 1) + mine_ind(b, rows, cols, r - 1, c) + mine_ind(
        b,
        rows,
        cols,
        r - 1,
        c + 1,
    ) + mine_ind(b, rows, cols, r, c - 1) + mine_ind(b, rows, cols, r, c + 1) + mine_ind(
        b,
        rows,
        cols,
        r + 1,
        c - 1,
    ) + mine_ind(b, rows, cols, r + 1, c) + mine_ind(b, rows, cols, r + 1, c + 1)
}

/// The state `new` and `reset` produce for difficulty `d`: nothing started,
/// nothing placed, nothing revealed or flagged.
pub open spec fn is_initial(s: GameState, d: Difficulty) -> bool {
    &&& s.difficulty == d
    &&& s.status is NotStarted
    &&& grid_dims_ok(s.board@, d.spec_rows(), d.spec_cols())
    &&& grid_dims_ok(s.cell_states@, d.spec_rows(), d.spec_cols())
    &&& forall|i: int, j: int|
        0 <= i < d.spec_rows() && 0 <= j < d.spec_cols() ==> (#[trigger] s.board@[i]@[j]) == 0
    &&& forall|i: int, j: int|
        0 <= i < d.spec_rows() && 0 <= j < d.spec_cols() ==> (#[trigger] s.cell_states@[i]@[j])
            is Hidden
    &&& s.mines_positions@.len() == 0
    &&& s.flags_count == 0
    &&& s.elapsed_seconds == 0
}

/// Whether `toggle_flag` acts at all: the game has not ended and the cell is
/// not revealed.
pub open spec fn toggle_applies(s: GameState, r: int, c: int) -> bool {
    (s.status is Playing || s.status is NotStarted) && !(s.state(r, c) is Revealed)
}

/// Exactly what one `toggle_flag(r, c)` call does: either the swap of that
/// one cell between hidden and flagged, with the flag counter following, or
/// no change at all.
pub open spec fn toggle_rel(pre: GameState, post: GameState, r: int, c: int) -> bool {
    if toggle_applies(pre, r, c) {
        &&& post.difficulty == pre.difficulty
        &&& post.status == pre.status
        &&& post.board == pre.board
        &&& post.mines_positions == pre.mines_positions
        &&& post.elapsed_seconds == pre.elapsed_seconds
        &&& grid_dims_ok(post.cell_states@, pre.rows(), pre.cols())
        &&& forall|i: int, j: int|
            pre.in_bounds(i, j) && (i != r || j != c) ==> (#[trigger] post.cell_states@[i]@[j])
                == pre.cell_states@[i]@[j]
        &&& (pre.state(r, c) is Hidden ==> post.state(r, c) is Flagged && post.flags_count
            == pre.flags_count + 1)
        &&& (pre.state(r, c) is Flagged ==> post.state(r, c) is Hidden && post.flags_count + 1
            == pre.flags_count)
    } else {
        post == pre
    }
}


/// When only the target cell changed, nothing outside the cascade was
/// revealed.
proof fn lemma_sound_only_target(pre: GameState, post: GameState, r: int, c: int)
    requires
        forall|i: int, j: int|
            pre.in_bounds(i, j) && (i != r || j != c) ==> (#[trigger] post.cell_states@[i]@[j])
                == pre.cell_states@[i]@[j],
    ensures
        cascade_sound(pre, post, r, c),
{
    reveal(cascade_sound);
}

/// When only the target cell changed and it holds a number or a mine, no
/// cascade was owed.
proof fn lemma_complete_only_target(pre: GameState, post: GameState, r: int, c: int)
    requires
        forall|i: int, j: int|
            pre.in_bounds(i, j) && (i != r || j != c) ==> (#[trigger] post.cell_states@[i]@[j])
                == pre.cell_states@[i]@[j],
        post.board@[r]@[c] != 0,
    ensures
        cascade_complete(pre, post),
{
    reveal(cascade_complete);
}

/// When no cell changed at all, both cascade claims are vacuous.
proof fn lemma_cascade_noop(pre: GameState, post: GameState, r: int, c: int)
    requires
        post.cell_states == pre.cell_states,
    ensures
        cascade_sound(pre, post, r, c),
        cascade_complete(pre, post),
{
    reveal(cascade_sound);
    reveal(cascade_complete);
}

/// Revealing the hidden neighbor `(nr, nc)` of the revealed zero cell
/// `(pr, pc)` keeps the cascade sound: the new cell has its witness and the
/// old cells keep theirs.
proof fn lemma_sound_step(
    mid: GameState,
    prev: GameState,
    cur: GameState,
    row: int,
    col: int,
    pr: int,
    pc: int,
    nr: int,
    nc: int,
)
    requires
        cascade_sound(mid, prev, row, col),
        mid.in_bounds(nr, nc),
        mid.in_bounds(pr, pc),
        cells_adjacent(pr, pc, nr, nc),
        cur.board == prev.board,
        forall|i: int, j: int|
            mid.in_bounds(i, j) && (i != nr || j != nc) ==> (#[trigger] cur.cell_states@[i]@[j])
                == prev.cell_states@[i]@[j],
        cur.cell_states@[nr]@[nc] is Revealed,
        cur.cell_states@[pr]@[pc] is Revealed,
        cur.board@[pr]@[pc] == 0,
        cur.difficulty == prev.difficulty,
        mid.difficulty == prev.difficulty,
    ensures
        cascade_sound(mid, cur, row, col),
{
    reveal(cascade_sound);
    assert forall|a: int, b: int| revealed_zero(prev, a, b) implies revealed_zero(cur, a, b) by {
        if a == nr && b == nc {
        } else {
            assert(cur.cell_states@[a]@[b] == prev.cell_states@[a]@[b]);
        }
    }
    assert forall|i: int, j: int|
        mid.in_bounds(i, j) && (#[trigger] cur.cell_states@[i]@[j]) != mid.cell_states@[i]@[j] && (
        i != row || j != col) implies touches_revealed_zero(cur, i, j) by {
        if i == nr && j == nc {
            assert(revealed_zero(cur, pr, pc));
        } else {
            assert(prev.cell_states@[i]@[j] != mid.cell_states@[i]@[j]);
            assert(touches_revealed_zero(prev, i, j));
        }
    }
}

/// Revealing `(nr, nc)` keeps every other cascaded zero cell queued or
/// saturated; the new cell must have been queued when it is a zero cell.
proof fn lemma_pending_step(
    mid: GameState,
    prev: GameState,
    cur: GameState,
    stack_prev: Seq<(usize, usize)>,
    stack_cur: Seq<(usize, usize)>,
    pr: int,
    pc: int,
    nr: int,
    nc: int,
)
    requires
        cascade_pending_except(mid, prev, stack_prev, pr, pc),
        mid.in_bounds(nr, nc),
        cur.board == prev.board,
        forall|i: int, j: int|
            mid.in_bounds(i, j) && (i != nr || j != nc) ==> (#[trigger] cur.cell_states@[i]@[j])
                == prev.cell_states@[i]@[j],
        cur.cell_states@[nr]@[nc] is Revealed,
        stack_cur.len() >= stack_prev.len(),
        forall|k: int| 0 <= k < stack_prev.len() ==> #[trigger] stack_cur[k] == stack_prev[k],
        cur.board@[nr]@[nc] == 0 ==> stack_cur.contains(((nr as usize), (nc as usize))),
    ensures
        cascade_pending_except(mid, cur, stack_cur, pr, pc),
{
    reveal(cascade_pending_except);
    assert forall|i: int, j: int|
        0 <= i < mid.rows() && 0 <= j < mid.cols() && (#[trigger] cur.cell_states@[i]@[j])
            != mid.cell_states@[i]@[j] && cur.board@[i]@[j] == 0 && (i != pr || j
            != pc) implies stack_cur.contains((i as usize, j as usize)) || saturated(
        cur,
        mid.rows(),
        mid.cols(),
        i,
        j,
    ) by {
        if i == nr && j == nc {
            assert(stack_cur.contains((i as usize, j as usize)));
        } else {
            assert(prev.cell_states@[i]@[j] != mid.cell_states@[i]@[j]);
            if stack_prev.contains((i as usize, j as usize)) {
                let k = choose|k: int|
                    0 <= k < stack_prev.len() && stack_prev[k] == (i as usize, j as usize);
                assert(stack_cur[k] == (i as usize, j as usize));
                assert(stack_cur.contains((i as usize, j as usize)));
            } else {
                assert(saturated(prev, mid.rows(), mid.cols(), i, j));
                assert forall|a: int, b: int|
                    0 <= a < mid.rows() && 0 <= b < mid.cols() && cells_adjacent(
                        a,
                        b,
                        i,
                        j,
                    ) implies !((#[trigger] cur.cell_states@[a]@[b]) is Hidden) by {
                    assert(!(prev.cell_states@[a]@[b] is Hidden));
                }
            }
        }
    }
}

/// Popping the queued cell `(pr, pc)` owes the cascade nothing new for the
/// other queued cells.
proof fn lemma_pending_pop(
    mid: GameState,
    s: GameState,
    stack0: Seq<(usize, usize)>,
    stack1: Seq<(usize, usize)>,
    pr: int,
    pc: int,
)
    requires
        cascade_pending(mid, s, stack0),
        stack0.len() >= 1,
        stack1 == stack0.subrange(0, stack0.len() - 1),
        stack0[stack0.len() - 1] == ((pr as usize), (pc as usize)),
        mid.in_bounds(pr, pc),
    ensures
        cascade_pending_except(mid, s, stack1, pr, pc),
{
    reveal(cascade_pending);
    reveal(cascade_pending_except);
    assert forall|i: int, j: int|
        0 <= i < mid.rows() && 0 <= j < mid.cols() && (#[trigger] s.cell_states@[i]@[j])
            != mid.cell_states@[i]@[j] && s.board@[i]@[j] == 0 && (i != pr || j
            != pc) implies stack1.contains((i as usize, j as usize)) || saturated(
        s,
        mid.rows(),
        mid.cols(),
        i,
        j,
    ) by {
        if stack0.contains((i as usize, j as usize)) && !saturated(
            s,
            mid.rows(),
            mid.cols(),
            i,
            j,
        ) {
            let k = choose|k: int|
                0 <= k < stack0.len() && stack0[k] == (i as usize, j as usize);
            assert(k < stack0.len() - 1);
            assert(stack1[k] == (i as usize, j as usize));
            assert(stack1.contains((i as usize, j as usize)));
        }
    }
}

/// Once the popped cell's neighborhood has been worked off, the queue again
/// accounts for every cascaded zero cell.
proof fn lemma_pending_close(
    mid: GameState,
    s: GameState,
    stack: Seq<(usize, usize)>,
    pr: int,
    pc: int,
)
    requires
        cascade_pending_except(mid, s, stack, pr, pc),
        saturated(s, mid.rows(), mid.cols(), pr, pc),
    ensures
        cascade_pending(mid, s, stack),
{
    reveal(cascade_pending);
    reveal(cascade_pending_except);
}

/// At the start of a cascade only the target cell has been revealed, and it
/// is queued.
proof fn lemma_pending_init(
    mid: GameState,
    s: GameState,
    stack: Seq<(usize, usize)>,
    r: int,
    c: int,
)
    requires
        mid.in_bounds(r, c),
        forall|i: int, j: int|
            mid.in_bounds(i, j) && (i != r || j != c) ==> (#[trigger] s.cell_states@[i]@[j])
                == mid.cell_states@[i]@[j],
        stack.contains(((r as usize), (c as usize))),
    ensures
        cascade_pending(mid, s, stack),
{
    reveal(cascade_pending);
}

/// An emptied queue means every cascaded zero cell is saturated: the cascade
/// ran to completion.
proof fn lemma_complete_of_empty(
    mid: GameState,
    pre: GameState,
    s: GameState,
    stack: Seq<(usize, usize)>,
)
    requires
        cascade_pending(mid, s, stack),
        stack.len() == 0,
        pre.cell_states == mid.cell_states,
        pre.difficulty == mid.difficulty,
    ensures
        cascade_complete(pre, s),
{
    reveal(cascade_pending);
    reveal(cascade_complete);
    assert forall|i: int, j: int|
        pre.in_bounds(i, j) && (#[trigger] s.cell_states@[i]@[j]) != pre.cell_states@[i]@[j]
            && s.board@[i]@[j] == 0 implies forall|a: int, b: int|
        pre.in_bounds(a, b) && cells_adjacent(a, b, i, j) ==> !((
        #[trigger] s.cell_states@[a]@[b]) is Hidden) by {
        assert(s.cell_states@[i]@[j] != mid.cell_states@[i]@[j]);
        assert(!stack.contains((i as usize, j as usize)));
        assert(saturated(s, mid.rows(), mid.cols(), i, j));
    }
}

/// Soundness against the state the cascade started from carries back to any
/// state with the same cell states.
proof fn lemma_sound_bridge(mid: GameState, pre: GameState, s: GameState, r: int, c: int)
    requires
        cascade_sound(mid, s, r, c),
        pre.cell_states == mid.cell_states,
        pre.difficulty == mid.difficulty,
    ensures
        cascade_sound(pre, s, r, c),
{
    reveal(cascade_sound);
    assert forall|i: int, j: int|
        pre.in_bounds(i, j) && (#[trigger] s.cell_states@[i]@[j]) != pre.cell_states@[i]@[j] && (i
            != r || j != c) implies touches_revealed_zero(s, i, j) by {
        assert(s.cell_states@[i]@[j] != mid.cell_states@[i]@[j]);
    }
}

/// Both cascade claims depend only on the cells and the board, so they carry
/// to any later state that left both alone.
proof fn lemma_cascade_same_cells(
    pre: GameState,
    post1: GameState,
    post2: GameState,
    r: int,
    c: int,
)
    requires
        cascade_sound(pre, post1, r, c),
        cascade_complete(pre, post1),
        post2.cell_states == post1.cell_states,
        post2.board == post1.board,
        post2.difficulty == post1.difficulty,
    ensures
        cascade_sound(pre, post2, r, c),
        cascade_complete(pre, post2),
{
    reveal(cascade_sound);
    reveal(cascade_complete);
    assert forall|i: int, j: int|
        pre.in_bounds(i, j) && (#[trigger] post2.cell_states@[i]@[j]) != pre.cell_states@[i]@[j]
            && (i != r || j != c) implies touches_revealed_zero(post2, i, j) by {
        assert(post1.cell_states@[i]@[j] != pre.cell_states@[i]@[j]);
        assert(touches_revealed_zero(post1, i, j));
    }
}


impl GameState {
    pub open spec fn rows(self) -> int {
        self.difficulty.spec_rows()
    }

    pub open spec fn cols(self) -> int {
        self.difficulty.spec_cols()
    }

    pub open spec fn mines(self) -> int {
        self.difficulty.spec_mines()
    }

    pub open spec fn in_bounds(self, i: int, j: int) -> bool {
        0 <= i < self.rows() && 0 <= j < self.cols()
    }

    /// Generated value of cell `(i, j)`.
    pub open spec fn value(self, i: int, j: int) -> u8 {
        self.board@[i]@[j]
    }

    /// Player-visible state of cell `(i, j)`.
    pub open spec fn state(self, i: int, j: int) -> CellState {
        self.cell_states@[i]@[j]
    }

    pub open spec fn is_mine(self, i: int, j: int) -> bool {
        self.value(i, j) == MINE
    }

    pub open spec fn dims_ok(self) -> bool {
        &&& self.difficulty.is_valid()
        &&& grid_dims_ok(self.board@, self.rows(), self.cols())
        &&& grid_dims_ok(self.cell_states@, self.rows(), self.cols())
    }

    /// The flag counter equals the number of flagged cells.
    pub open spec fn flags_ok(self) -> bool {
        self.flags_count as int == count2(flagged_fn(self.cell_states@), self.rows(), self.cols())
    }

    /// `mines_positions` lists exactly the mine cells of the board, each once.
    pub open spec fn mines_listed_ok(self) -> bool {
        mines_listed(self.board@, self.mines_positions@, self.rows(), self.cols())
    }

    /// Every non-mine cell stores the exact count of mines in its clipped
    /// 8-neighborhood.
    pub open spec fn counts_ok(self) -> bool {
        forall|i: int, j: int|
            self.in_bounds(i, j) && (#[trigger] self.board@[i]@[j]) != MINE
                ==> self.board@[i]@[j] as int == adjacent_mines(
                self.board@,
                self.rows(),
                self.cols(),
                i,
                j,
            )
    }

    /// What initialization establishes: as many mines as the difficulty asks,
    /// listed in `mines_positions`, and correct adjacency counts everywhere.
    pub open spec fn initialized_ok(self) -> bool {
        &&& self.mines_positions@.len() == self.mines()
        &&& count2(mine_fn(self.board@), self.rows(), self.cols()) == self.mines()
        &&& self.mines_listed_ok()
        &&& self.counts_ok()
    }

    /// Before the first reveal nothing is generated: no mines anywhere, no
    /// cell revealed (flags are allowed).
    pub open spec fn blank_ok(self) -> bool {
        &&& self.mines_positions@.len() == 0
        &&& forall|i: int, j: int| self.in_bounds(i, j) ==> (#[trigger] self.board@[i]@[j]) == 0
        &&& forall|i: int, j: int|
            self.in_bounds(i, j) ==> !((#[trigger] self.cell_states@[i]@[j]) is Revealed)
    }

    pub open spec fn no_mine_revealed(self) -> bool {
        forall|i: int, j: int|
            #![trigger self.board@[i]@[j]]
            #![trigger self.cell_states@[i]@[j]]
            self.in_bounds(i, j) && self.board@[i]@[j] == MINE ==> !(self.cell_states@[i]@[j]
                is Revealed)
    }

    /// The engine's invariant: every public operation requires and preserves
    /// it.
    pub open spec fn inv(self) -> bool {
        &&& self.dims_ok()
        &&& self.flags_ok()
        &&& (self.status is NotStarted ==> self.blank_ok())
        &&& (!(self.status is NotStarted) ==> self.initialized_ok())
        &&& ((self.status is Playing || self.status is Won) ==> self.no_mine_revealed())
        &&& (self.status is Won ==> count2(unrevealed_fn(self.cell_states@), self.rows(), self.cols())
            == self.mines())
    }

    /// Mines the player has not flagged yet; negative when over-flagged.
    pub fn remaining_mines(&self) -> (r: isize)
        requires
            self.inv(),
        ensures
            r as int == self.mines() - self.flags_count as int,
    {
        proof {
            lemma_count2_bounds(flagged_fn(self.cell_states@), self.rows(), self.cols());
        }
        let (_, _, mines) = self.difficulty.dimensions();
        mines as isize - self.flags_count as isize
    }

    /// A fresh, not-yet-started game of the given difficulty.
    pub fn new(difficulty: Difficulty) -> (s: GameState)
        requires
            difficulty.is_valid(),
        ensures
            s.inv(),
            is_initial(s, difficulty),
    {
        let (rows, cols, _) = difficulty.dimensions();
        let s = GameState {
            difficulty,
            status: GameStatus::NotStarted,
            board: make_grid(0u8, rows, cols),
            cell_states: make_grid(CellState::Hidden, rows, cols),
            mines_positions: Vec::new(),
            flags_count: 0,
            elapsed_seconds: 0,
        };
        proof {
            lemma_count2_zero(flagged_fn(s.cell_states@), s.rows(), s.cols());
        }
        s
    }

    /// Forget the current game and start over, with the given difficulty or,
    /// without one, the current difficulty.
    pub fn reset(&mut self, difficulty: Option<Difficulty>)
        requires
            old(self).inv(),
            match difficulty {
                Some(d) => d.is_valid(),
                None => true,
            },
        ensures
            final(self).inv(),
            is_initial(
                *final(self),
                match difficulty {
                    Some(d) => d,
                    None => old(self).difficulty,
                },
            ),
    {
        let d = match difficulty {
            Some(d) => d,
            None => self.difficulty,
        };
        let (rows, cols, _) = d.dimensions();
        self.difficulty = d;
        self.status = GameStatus::NotStarted;
        self.board = make_grid(0u8, rows, cols);
        self.cell_states = make_grid(CellState::Hidden, rows, cols);
        self.mines_positions = Vec::new();
        self.flags_count = 0;
        self.elapsed_seconds = 0;
        proof {
            lemma_count2_zero(flagged_fn(self.cell_states@), self.rows(), self.cols());
        }
    }

    /// Flag a hidden cell or unflag a flagged one; no effect once the game
    /// has ended or on a revealed cell. Returns whether anything changed.
    pub fn toggle_flag(&mut self, row: usize, col: usize) -> (changed: bool)
        requires
            old(self).inv(),
            row < old(self).rows(),
            col < old(self).cols(),
        ensures
            final(self).inv(),
            toggle_rel(*old(self), *final(self), row as int, col as int),
            changed == toggle_applies(*old(self), row as int, col as int),
    {
        let playing_or_fresh = self.status == GameStatus::Playing || self.status
            == GameStatus::NotStarted;
        if !playing_or_fresh || self.cell_states[row][col] == CellState::Revealed {
            return false;
        }
        let ghost pre = *self;
        if self.cell_states[row][col] == CellState::Hidden {
            set_cell(&mut self.cell_states, row, col, CellState::Flagged);
            proof {
                lemma_count2_bounds(flagged_fn(pre.cell_states@), pre.rows(), pre.cols());
                lemma_count2_diff_one(
                    flagged_fn(pre.cell_states@),
                    flagged_fn(self.cell_states@),
                    pre.rows(),
                    pre.cols(),
                    row as int,
                    col as int,
                );
            }
            self.flags_count = self.flags_count + 1;
        } else {
            set_cell(&mut self.cell_states, row, col, CellState::Hidden);
            proof {
                lemma_count2_pos(
                    flagged_fn(pre.cell_states@),
                    pre.rows(),
                    pre.cols(),
                    row as int,
                    col as int,
                );
                lemma_count2_diff_one(
                    flagged_fn(pre.cell_states@),
                    flagged_fn(self.cell_states@),
                    pre.rows(),
                    pre.cols(),
                    row as int,
                    col as int,
                );
            }
            self.flags_count = self.flags_count - 1;
        }
        true
    }

    /// Whether the first reveal may happen at `(row, col)`: the cells outside
    /// its mine-free safe zone must be able to hold all of the difficulty's
    /// mines.
    pub fn can_start_at(&self, row: usize, col: usize) -> (ok: bool)
        requires
            self.inv(),
            row < self.rows(),
            col < self.cols(),
        ensures
            ok == (self.mines() + safe_zone_size(
                self.rows(),
                self.cols(),
                row as int,
                col as int,
            ) <= self.rows() * self.cols()),
    {
        let (rows, cols, mines) = self.difficulty.dimensions();
        let r0 = if row >= 1 {
            row - 1
        } else {
            0
        };
        let r1 = if row + 1 <= rows - 1 {
            row + 1
        } else {
            rows - 1
        };
        let c0 = if col >= 1 {
            col - 1
        } else {
            0
        };
        let c1 = if col + 1 <= cols - 1 {
            col + 1
        } else {
            cols - 1
        };
        proof {
            assert((r1 - r0 + 1) as int * ((c1 - c0 + 1) as int) <= 9) by (nonlinear_arith)
                requires
                    r1 as int - r0 as int + 1 <= 3,
                    c1 as int - c0 as int + 1 <= 3,
                    r1 >= r0,
                    c1 >= c0,
            ;
        }
        let safe_sz = (r1 - r0 + 1) * (c1 - c0 + 1);
        let area = rows * cols;
        proof {
            assert(safe_sz as int == safe_zone_size(
                rows as int,
                cols as int,
                row as int,
                col as int,
            ));
            lemma_count2_rect(
                safe_fn(row as int, col as int),
                r0 as int,
                r1 as int,
                c0 as int,
                c1 as int,
                rows as int,
                cols as int,
            );
            lemma_count2_bounds(safe_fn(row as int, col as int), rows as int, cols as int);
        }
        mines <= area - safe_sz
    }

    /// Generate the board for a first reveal at `(first_row, first_col)`:
    /// place the difficulty's mines, each drawn uniformly at random from the
    /// cells outside the safe zone that are not mines yet, store every
    /// non-mine cell's adjacent-mine count, and start playing. Cell states
    /// and the flag counter are untouched.
    #[verifier::loop_isolation(false)]
    #[verifier::rlimit(100)]
    #[verifier::spinoff_prover]
    pub fn initialize(&mut self, first_row: usize, first_col: usize)
        requires
            old(self).inv(),
            old(self).status is NotStarted,
            first_row < old(self).rows(),
            first_col < old(self).cols(),
            old(self).mines() + safe_zone_size(
                old(self).rows(),
                old(self).cols(),
                first_row as int,
                first_col as int,
            ) <= old(self).rows() * old(self).cols(),
        ensures
            final(self).inv(),
            final(self).status is Playing,
            final(self).difficulty == old(self).difficulty,
            final(self).cell_states == old(self).cell_states,
            final(self).flags_count == old(self).flags_count,
            final(self).elapsed_seconds == old(self).elapsed_seconds,
            forall|i: int, j: int|
                final(self).in_bounds(i, j) && in_safe_zone(
                    first_row as int,
                    first_col as int,
                    i,
                    j,
                ) ==> (#[trigger] final(self).board@[i]@[j]) != MINE,
    {
        let ghost fr = first_row as int;
        let ghost fc = first_col as int;
        let (rows, cols, mines) = self.difficulty.dimensions();

        self.board = make_grid(0u8, rows, cols);
        self.mines_positions = Vec::new();

        let r0 = if first_row >= 1 {
            first_row - 1
        } else {
            0
        };
        let r1 = if first_row + 1 <= rows - 1 {
            first_row + 1
        } else {
            rows - 1
        };
        let c0 = if first_col >= 1 {
            first_col - 1
        } else {
            0
        };
        let c1 = if first_col + 1 <= cols - 1 {
            first_col + 1
        } else {
            cols - 1
        };
        proof {
            assert((r1 - r0 + 1) as int * ((c1 - c0 + 1) as int) <= 9) by (nonlinear_arith)
                requires
                    r1 as int - r0 as int + 1 <= 3,
                    c1 as int - c0 as int + 1 <= 3,
                    r1 >= r0,
                    c1 >= c0,
            ;
        }
        let safe_sz = (r1 - r0 + 1) * (c1 - c0 + 1);
        let area = rows * cols;
        proof {
            assert(safe_sz as int == safe_zone_size(rows as int, cols as int, fr, fc));
            lemma_count2_zero(mine_fn(self.board@), rows as int, cols as int);
            lemma_count2_rect(
                safe_fn(fr, fc),
                r0 as int,
                r1 as int,
                c0 as int,
                c1 as int,
                rows as int,
                cols as int,
            );
            lemma_count2_bounds(safe_fn(fr, fc), rows as int, cols as int);
            lemma_count2_complement(
                safe_fn(fr, fc),
                eligible_fn(self.board@, fr, fc),
                rows as int,
                cols as int,
            );
            assert(count2(eligible_fn(self.board@, fr, fc), rows as int, cols as int) == area
                - safe_sz);
            lemma_mines_listed_empty(
                self.board@,
                self.mines_positions@,
                rows as int,
                cols as int,
            );
        }

        let mut placed: usize = 0;
        while placed < mines
            invariant
                placed <= mines,
                self.difficulty == old(self).difficulty,
                self.status == old(self).status,
                self.cell_states == old(self).cell_states,
                self.flags_count == old(self).flags_count,
                self.elapsed_seconds == old(self).elapsed_seconds,
                grid_dims_ok(self.board@, rows as int, cols as int),
                self.mines_positions@.len() == placed,
                count2(mine_fn(self.board@), rows as int, cols as int) == placed,
                count2(eligible_fn(self.board@, fr, fc), rows as int, cols as int) == area
                    - safe_sz - placed,
                forall|i: int, j: int|
                    0 <= i < rows && 0 <= j < cols ==> (#[trigger] self.board@[i]@[j]) == 0
                        || self.board@[i]@[j] == MINE,
                forall|i: int, j: int|
                    0 <= i < rows && 0 <= j < cols && in_safe_zone(fr, fc, i, j) ==> (
                    #[trigger] self.board@[i]@[j]) != MINE,
                mines_listed(self.board@, self.mines_positions@, rows as int, cols as int),
            decreases mines - placed,
        {
            let pool = area - safe_sz - placed;
            let k = random_below(pool);
            let (mr, mc) = find_kth_eligible(&self.board, rows, cols, first_row, first_col, k);
            let ghost prev = *self;
            set_cell(&mut self.board, mr, mc, MINE);
            self.mines_positions.push((mr, mc));
            placed = placed + 1;
            proof {
                lemma_count2_diff_one(
                    mine_fn(prev.board@),
                    mine_fn(self.board@),
                    rows as int,
                    cols as int,
                    mr as int,
                    mc as int,
                );
                lemma_count2_diff_one(
                    eligible_fn(prev.board@, fr, fc),
                    eligible_fn(self.board@, fr, fc),
                    rows as int,
                    cols as int,
                    mr as int,
                    mc as int,
                );
                assert(self.mines_positions@ == prev.mines_positions@.push((mr, mc)));
                lemma_mines_listed_push(
                    prev.board@,
                    self.board@,
                    prev.mines_positions@,
                    rows as int,
                    cols as int,
                    mr,
                    mc,
                );
            }
        }

        let ghost bp = self.board@;
        let mut r: usize = 0;
        while r < rows
            invariant
                r <= rows,
                self.difficulty == old(self).difficulty,
                self.status == old(self).status,
                self.cell_states == old(self).cell_states,
                self.flags_count == old(self).flags_count,
                self.elapsed_seconds == old(self).elapsed_seconds,
                grid_dims_ok(self.board@, rows as int, cols as int),
                self.mines_positions@.len() == mines,
                count2(mine_fn(self.board@), rows as int, cols as int) == mines as int,
                forall|i: int, j: int|
                    0 <= i < rows && 0 <= j < cols ==> ((#[trigger] self.board@[i]@[j]) == MINE)
                        == (bp[i]@[j] == MINE),
                forall|i: int, j: int|
                    0 <= i < rows && 0 <= j < cols && in_safe_zone(fr, fc, i, j) ==> (
                    #[trigger] self.board@[i]@[j]) != MINE,
                mines_listed(self.board@, self.mines_positions@, rows as int, cols as int),
                forall|i: int, j: int|
                    0 <= i < r && 0 <= j < cols && (#[trigger] self.board@[i]@[j]) != MINE
                        ==> self.board@[i]@[j] as int == adjacent_mines(
                        self.board@,
                        rows as int,
                        cols as int,
                        i,
                        j,
                    ),
            decreases rows - r,
        {
            let mut c: usize = 0;
            while c < cols
                invariant
                    c <= cols,
                    r < rows,
                    self.difficulty == old(self).difficulty,
                    self.status == old(self).status,
                    self.cell_states == old(self).cell_states,
                    self.flags_count == old(self).flags_count,
                    self.elapsed_seconds == old(self).elapsed_seconds,
                    grid_dims_ok(self.board@, rows as int, cols as int),
                    self.mines_positions@.len() == mines,
                    count2(mine_fn(self.board@), rows as int, cols as int) == mines as int,
                    forall|i: int, j: int|
                        0 <= i < rows && 0 <= j < cols ==> ((#[trigger] self.board@[i]@[j])
                            == MINE) == (bp[i]@[j] == MINE),
                    forall|i: int, j: int|
                        0 <= i < rows && 0 <= j < cols && in_safe_zone(fr, fc, i, j) ==> (
                        #[trigger] self.board@[i]@[j]) != MINE,
                    mines_listed(self.board@, self.mines_positions@, rows as int, cols as int),
                    forall|i: int, j: int|
                        0 <= i < r && 0 <= j < cols && (#[trigger] self.board@[i]@[j]) != MINE
                            ==> self.board@[i]@[j] as int == adjacent_mines(
                            self.board@,
                            rows as int,
                            cols as int,
                            i,
                            j,
                        ),
                    forall|j: int|
                        0 <= j < c && (#[trigger] self.board@[r as int]@[j]) != MINE
                            ==> self.board@[r as int]@[j] as int == adjacent_mines(
                            self.board@,
                            rows as int,
                            cols as int,
                            r as int,
                            j,
                        ),
                decreases cols - c,
            {
                if self.board[r][c] != MINE {
                    let n = count_adjacent_mines(&self.board, rows, cols, r, c);
                    let ghost prev = self.board@;
                    set_cell(&mut self.board, r, c, n);
                    proof {
                        assert forall|i: int, j: int| 0 <= i < rows && 0 <= j < cols implies ((
                        #[trigger] self.board@[i]@[j]) == MINE) == (prev[i]@[j] == MINE) by {
                            if i == r as int && j == c as int {
                                assert(n < MINE);
                            }
                        }
                        lemma_count2_congruent(
                            mine_fn(prev),
                            mine_fn(self.board@),
                            rows as int,
                            cols as int,
                        );
                        lemma_mines_listed_stable(
                            prev,
                            self.board@,
                            self.mines_positions@,
                            rows as int,
                            cols as int,
                        );
                        assert forall|i: int, j: int|
                            0 <= i < rows && 0 <= j < cols implies adjacent_mines(
                            self.board@,
                            rows as int,
                            cols as int,
                            i,
                            j,
                        ) == adjacent_mines(prev, rows as int, cols as int, i, j) by {}
                    }
                }
                c = c + 1;
            }
            r = r + 1;
        }
        self.status = GameStatus::Playing;
        proof {
            assert(self.mines_listed_ok());
        }
    }

    /// Set the game to won exactly when the number of unrevealed (hidden or
    /// flagged) cells has shrunk to the number of mines; since no mine is
    /// ever revealed while playing, that is exactly when every non-mine cell
    /// has been revealed.
    #[verifier::loop_isolation(false)]
    fn check_win(&mut self)
        requires
            old(self).inv(),
            old(self).status is Playing,
        ensures
            final(self).inv(),
            final(self).board == old(self).board,
            final(self).cell_states == old(self).cell_states,
            final(self).mines_positions == old(self).mines_positions,
            final(self).difficulty == old(self).difficulty,
            final(self).flags_count == old(self).flags_count,
            final(self).elapsed_seconds == old(self).elapsed_seconds,
            final(self).status == (if count2(
                unrevealed_fn(old(self).cell_states@),
                old(self).rows(),
                old(self).cols(),
            ) == old(self).mines() {
                GameStatus::Won
            } else {
                GameStatus::Playing
            }),
    {
        let (rows, cols, mines) = self.difficulty.dimensions();
        let mut hidden_count: usize = 0;
        let mut r: usize = 0;
        while r < rows
            invariant
                r <= rows,
                hidden_count as int == count2(
                    unrevealed_fn(self.cell_states@),
                    r as int,
                    cols as int,
                ),
            decreases rows - r,
        {
            let ghost urow = unrevealed_row_fn(self.cell_states@, r as int);
            let mut c: usize = 0;
            while c < cols
                invariant
                    c <= cols,
                    r < rows,
                    hidden_count as int == count2(
                        unrevealed_fn(self.cell_states@),
                        r as int,
                        cols as int,
                    ) + count1(urow, c as int),
                decreases cols - c,
            {
                let st = self.cell_states[r][c];
                proof {
                    lemma_count2_bounds(
                        unrevealed_fn(self.cell_states@),
                        r as int,
                        cols as int,
                    );
                    lemma_count1_bounds(urow, c as int);
                    assert(r as int * cols as int + cols as int <= rows as int
                        * cols as int) by (nonlinear_arith)
                        requires
                            r as int + 1 <= rows as int,
                            cols as int >= 0,
                    ;
                    assert((st != CellState::Revealed) == urow(c as int));
                }
                if st == CellState::Hidden || st == CellState::Flagged {
                    hidden_count = hidden_count + 1;
                }
                c = c + 1;
            }
            proof {
                lemma_count2_row_unfold(
                    unrevealed_fn(self.cell_states@),
                    urow,
                    r as int + 1,
                    cols as int,
                );
            }
            r = r + 1;
        }
        if hidden_count == mines {
            self.status = GameStatus::Won;
        }
    }

    /// One cascade step: reveal the neighbor `(nr, nc)` of the popped zero
    /// cell `(pr, pc)` if it is still hidden, and queue it when it has no
    /// adjacent mines itself. Flagged and revealed neighbors are left alone.
    #[verifier::rlimit(100)]
    #[verifier::spinoff_prover]
    fn cascade_step(
        &mut self,
        nr: usize,
        nc: usize,
        stack: &mut Vec<(usize, usize)>,
        Ghost(mid): Ghost<GameState>,
        Ghost(row): Ghost<int>,
        Ghost(col): Ghost<int>,
        Ghost(pr): Ghost<int>,
        Ghost(pc): Ghost<int>,
    )
        requires
            cascade_loop_inv(mid, *old(self), old(stack)@, row, col),
            cascade_pending_except(mid, *old(self), old(stack)@, pr, pc),
            nr < mid.rows(),
            nc < mid.cols(),
            mid.in_bounds(pr, pc),
            cells_adjacent(pr, pc, nr as int, nc as int),
            old(self).cell_states@[pr]@[pc] is Revealed,
            old(self).board@[pr]@[pc] == 0,
        ensures
            cascade_loop_inv(mid, *final(self), final(stack)@, row, col),
            cascade_pending_except(mid, *final(self), final(stack)@, pr, pc),
            count2(hidden_fn(final(self).cell_states@), mid.rows(), mid.cols()) <= count2(
                hidden_fn(old(self).cell_states@),
                mid.rows(),
                mid.cols(),
            ),
            count2(hidden_fn(final(self).cell_states@), mid.rows(), mid.cols())
                + final(stack)@.len() <= count2(
                hidden_fn(old(self).cell_states@),
                mid.rows(),
                mid.cols(),
            ) + old(stack)@.len(),
            forall|i: int, j: int|
                mid.in_bounds(i, j) && (i != nr as int || j != nc as int) ==> (
                #[trigger] final(self).cell_states@[i]@[j]) == old(self).cell_states@[i]@[j],
            !(final(self).cell_states@[nr as int]@[nc as int] is Hidden),
            forall|k: int| 0 <= k < old(stack)@.len() ==> final(stack)@[k] == old(stack)@[k],
            final(stack)@.len() >= old(stack)@.len(),
    {
        let ghost rows = mid.rows();
        let ghost cols = mid.cols();
        if self.cell_states[nr][nc] == CellState::Hidden {
            let ghost prev = *self;
            let ghost prev_stack = stack@;
            set_cell(&mut self.cell_states, nr, nc, CellState::Revealed);
            proof {
                // a neighbor of a revealed zero cell cannot be a mine
                assert(!mid.is_mine(pr, pc));
                assert(adjacent_mines(mid.board@, rows, cols, pr, pc) == 0);
                assert(mine_ind(mid.board@, rows, cols, nr as int, nc as int) == 0);
                assert(self.board@[nr as int]@[nc as int] != MINE);
                lemma_count2_diff_one(
                    flagged_fn(prev.cell_states@),
                    flagged_fn(self.cell_states@),
                    rows,
                    cols,
                    nr as int,
                    nc as int,
                );
                lemma_count2_diff_one(
                    hidden_fn(prev.cell_states@),
                    hidden_fn(self.cell_states@),
                    rows,
                    cols,
                    nr as int,
                    nc as int,
                );
            }
            if self.board[nr][nc] == 0 {
                stack.push((nr, nc));
                proof {
                    assert(stack@[stack@.len() - 1] == (nr, nc));
                    assert(stack@.contains((nr, nc)));
                }
            }
            proof {
                lemma_sound_step(
                    mid,
                    prev,
                    *self,
                    row,
                    col,
                    pr,
                    pc,
                    nr as int,
                    nc as int,
                );
                lemma_pending_step(
                    mid,
                    prev,
                    *self,
                    prev_stack,
                    stack@,
                    pr,
                    pc,
                    nr as int,
                    nc as int,
                );
            }
        }
    }


    /// Run the cascade that starts at the just-revealed zero cell
    /// `(row, col)` to completion: repeatedly take a revealed zero cell off
    /// the work list and reveal its still-hidden neighbors, queueing those
    /// that are zero themselves.
    #[verifier::loop_isolation(false)]
    #[verifier::rlimit(100)]
    #[verifier::spinoff_prover]
    fn cascade_from(&mut self, row: usize, col: usize, Ghost(mid): Ghost<GameState>)
        requires
            mid.inv(),
            mid.status is Playing,
            mid.in_bounds(row as int, col as int),
            mid.cell_states@[row as int]@[col as int] is Hidden,
            !mid.is_mine(row as int, col as int),
            mid.board@[row as int]@[col as int] == 0,
            old(self).difficulty == mid.difficulty,
            old(self).status == mid.status,
            old(self).board == mid.board,
            old(self).mines_positions == mid.mines_positions,
            old(self).flags_count == mid.flags_count,
            old(self).elapsed_seconds == mid.elapsed_seconds,
            grid_dims_ok(old(self).cell_states@, mid.rows(), mid.cols()),
            old(self).flags_count as int == count2(
                flagged_fn(old(self).cell_states@),
                mid.rows(),
                mid.cols(),
            ),
            old(self).cell_states@[row as int]@[col as int] is Revealed,
            forall|i: int, j: int|
                0 <= i < mid.rows() && 0 <= j < mid.cols() && (i != row as int || j
                    != col as int) ==> (#[trigger] old(self).cell_states@[i]@[j])
                    == mid.cell_states@[i]@[j],
            old(self).no_mine_revealed(),
        ensures
            cascade_loop_inv(
                mid,
                *final(self),
                Seq::<(usize, usize)>::empty(),
                row as int,
                col as int,
            ),
            cascade_pending(mid, *final(self), Seq::<(usize, usize)>::empty()),
    {
        let (rows, cols, _) = self.difficulty.dimensions();
        let mut stack: Vec<(usize, usize)> = Vec::new();
        stack.push((row, col));
        proof {
            assert(stack@[0] == (row, col));
            assert(stack@.contains((row, col)));
            lemma_sound_only_target(mid, *self, row as int, col as int);
            lemma_pending_init(mid, *self, stack@, row as int, col as int);
        }
        while stack.len() > 0
            invariant
                cascade_loop_inv(mid, *self, stack@, row as int, col as int),
                cascade_pending(mid, *self, stack@),
            decreases
                count2(hidden_fn(self.cell_states@), mid.rows(), mid.cols()),
                stack@.len(),
        {
            let ghost h0 = count2(hidden_fn(self.cell_states@), mid.rows(), mid.cols());
            let ghost l0 = stack@.len();
            let ghost stack0 = stack@;
            proof {
                lemma_count2_bounds(hidden_fn(self.cell_states@), mid.rows(), mid.cols());
            }
            let p = stack.pop().unwrap();
            let (pr, pc) = p;
            proof {
                assert(stack0[l0 - 1] == p);
                lemma_pending_pop(mid, *self, stack0, stack@, pr as int, pc as int);
            }
            if pr >= 1 && pc >= 1 {
                self.cascade_step(pr - 1, pc - 1, &mut stack, Ghost(mid), Ghost(row as int),
                    Ghost(col as int), Ghost(pr as int), Ghost(pc as int));
            }
            if pr >= 1 {
                self.cascade_step(pr - 1, pc, &mut stack, Ghost(mid), Ghost(row as int),
                    Ghost(col as int), Ghost(pr as int), Ghost(pc as int));
            }
            if pr >= 1 && pc + 1 < cols {
                self.cascade_step(pr - 1, pc + 1, &mut stack, Ghost(mid), Ghost(row as int),
                    Ghost(col as int), Ghost(pr as int), Ghost(pc as int));
            }
            if pc >= 1 {
                self.cascade_step(pr, pc - 1, &mut stack, Ghost(mid), Ghost(row as int),
                    Ghost(col as int), Ghost(pr as int), Ghost(pc as int));
            }
            if pc + 1 < cols {
                self.cascade_step(pr, pc + 1, &mut stack, Ghost(mid), Ghost(row as int),
                    Ghost(col as int), Ghost(pr as int), Ghost(pc as int));
            }
            if pr + 1 < rows && pc >= 1 {
                self.cascade_step(pr + 1, pc - 1, &mut stack, Ghost(mid), Ghost(row as int),
                    Ghost(col as int), Ghost(pr as int), Ghost(pc as int));
            }
            if pr + 1 < rows {
                self.cascade_step(pr + 1, pc, &mut stack, Ghost(mid), Ghost(row as int),
                    Ghost(col as int), Ghost(pr as int), Ghost(pc as int));
            }
            if pr + 1 < rows && pc + 1 < cols {
                self.cascade_step(pr + 1, pc + 1, &mut stack, Ghost(mid), Ghost(row as int),
                    Ghost(col as int), Ghost(pr as int), Ghost(pc as int));
            }
            proof {
                // the popped cell's whole neighborhood has now been dealt
                // with, so nothing is owed for it any more
                assert(saturated(*self, mid.rows(), mid.cols(), pr as int, pc as int));
                lemma_pending_close(mid, *self, stack@, pr as int, pc as int);
                // each step shrank the hidden count for every cell it
                // queued, so the work left gets strictly smaller
                lemma_count2_bounds(hidden_fn(self.cell_states@), mid.rows(), mid.cols());
                assert(count2(hidden_fn(self.cell_states@), mid.rows(), mid.cols()) <= h0);
                assert(count2(hidden_fn(self.cell_states@), mid.rows(), mid.cols())
                    + stack@.len() < h0 + l0);
            }
        }
        proof {
            assert(stack@ =~= Seq::<(usize, usize)>::empty());
        }
    }

    /// Reveal cell `(row, col)`.
    ///
    /// The first reveal of a fresh game generates the board first, with the
    /// target's whole neighborhood mine-free, so the first move never loses.
    /// Revealing a mine loses the game on the spot; revealing a cell with no
    /// adjacent mines cascades through its zero region and the numbered
    /// border around it; after any other effective reveal the win condition
    /// is checked. Hidden cells are the only ones a reveal can touch; the
    /// call reports whether one was revealed.
    #[verifier::loop_isolation(false)]
    #[verifier::rlimit(100)]
    #[verifier::spinoff_prover]
    pub fn reveal_cell(&mut self, row: usize, col: usize) -> (changed: bool)
        requires
            old(self).inv(),
            row < old(self).rows(),
            col < old(self).cols(),
            old(self).status is NotStarted ==> old(self).mines() + safe_zone_size(
                old(self).rows(),
                old(self).cols(),
                row as int,
                col as int,
            ) <= old(self).rows() * old(self).cols(),
        ensures
            final(self).inv(),
            final(self).difficulty == old(self).difficulty,
            final(self).elapsed_seconds == old(self).elapsed_seconds,
            final(self).flags_count == old(self).flags_count,
            only_hidden_to_revealed(*old(self), *final(self)),
            cascade_sound(*old(self), *final(self), row as int, col as int),
            cascade_complete(*old(self), *final(self)),
            (old(self).status is Won || old(self).status is Lost) ==> *final(self) == *old(self),
            !(old(self).status is NotStarted) ==> final(self).board == old(self).board && final(self).mines_positions == old(self).mines_positions,
            old(self).status is NotStarted ==> final(self).mines_positions@.len() == old(self).mines() && (forall|i: int, j: int|
                old(self).in_bounds(i, j) && in_safe_zone(row as int, col as int, i, j) ==> (
                #[trigger] final(self).board@[i]@[j]) != MINE),
            changed == ((old(self).status is NotStarted || old(self).status is Playing) && old(self).cell_states@[row as int]@[col as int] is Hidden),
            changed ==> final(self).cell_states@[row as int]@[col as int] is Revealed,
            !changed ==> final(self).cell_states == old(self).cell_states,
            !changed ==> final(self).status == (if old(self).status is NotStarted {
                GameStatus::Playing
            } else {
                old(self).status
            }),
            changed && final(self).board@[row as int]@[col as int] != 0 ==> forall|i: int, j: int|
                old(self).in_bounds(i, j) && (i != row as int || j != col as int) ==> (
                #[trigger] final(self).cell_states@[i]@[j]) == old(self).cell_states@[i]@[j],
            changed && final(self).board@[row as int]@[col as int] == MINE ==> final(self).status
                is Lost,
            changed && final(self).board@[row as int]@[col as int] != MINE ==> final(self).status
                == (if count2(
                unrevealed_fn(final(self).cell_states@),
                old(self).rows(),
                old(self).cols(),
            ) == old(self).mines() {
                GameStatus::Won
            } else {
                GameStatus::Playing
            }),
    {
        if self.status == GameStatus::NotStarted {
            self.initialize(row, col);
        }
        let ghost mid = *self;

        if self.status != GameStatus::Playing || self.cell_states[row][col]
            != CellState::Hidden {
            proof {
                lemma_cascade_noop(*old(self), *self, row as int, col as int);
            }
            return false;
        }

        set_cell(&mut self.cell_states, row, col, CellState::Revealed);
        proof {
            lemma_count2_diff_one(
                flagged_fn(mid.cell_states@),
                flagged_fn(self.cell_states@),
                mid.rows(),
                mid.cols(),
                row as int,
                col as int,
            );
        }

        if self.board[row][col] == MINE {
            self.status = GameStatus::Lost;
            proof {
                lemma_sound_only_target(*old(self), *self, row as int, col as int);
                lemma_complete_only_target(*old(self), *self, row as int, col as int);
            }
            return true;
        }

        if self.board[row][col] == 0 {
            self.cascade_from(row, col, Ghost(mid));
            proof {
                lemma_complete_of_empty(mid, *old(self), *self, Seq::<(usize, usize)>::empty());
            }
        }

        let ghost pre_win = *self;
        proof {
            if pre_win.board@[row as int]@[col as int] == 0 {
                lemma_sound_bridge(mid, *old(self), pre_win, row as int, col as int);
            } else {
                lemma_sound_only_target(*old(self), pre_win, row as int, col as int);
                lemma_complete_only_target(*old(self), pre_win, row as int, col as int);
            }
        }
        self.check_win();
        proof {
            lemma_cascade_same_cells(*old(self), pre_win, *self, row as int, col as int);
        }
        true
    }
}

/// Relies on fastrand::usize: a uniform draw from the given range. The range
/// is never empty here, so the call cannot panic; nothing more can be said of
/// a random draw than its bound.
#[verifier::external_body]
fn random_below(n: usize) -> (r: usize)
    requires
        n >= 1,
    ensures
        r < n,
{
    fastrand::usize(..n)
}

/// Number of mine cells among the up-to-8 in-bounds neighbors of `(r, c)`.
fn count_adjacent_mines(b: &Vec<Vec<u8>>, rows: usize, cols: usize, r: usize, c: usize) -> (n: u8)
    requires
        grid_dims_ok(b@, rows as int, cols as int),
        r < rows,
        c < cols,
    ensures
        n as int == adjacent_mines(b@, rows as int, cols as int, r as int, c as int),
        n <= 8,
{
    let mut n: u8 = 0;
    if r >= 1 && c >= 1 && b[r - 1][c - 1] == MINE {
        n = n + 1;
    }
    if r >= 1 && b[r - 1][c] == MINE {
        n = n + 1;
    }
    if r >= 1 && c + 1 < cols && b[r - 1][c + 1] == MINE {
        n = n + 1;
    }
    if c >= 1 && b[r][c - 1] == MINE {
        n = n + 1;
    }
    if c + 1 < cols && b[r][c + 1] == MINE {
        n = n + 1;
    }
    if r + 1 < rows && c >= 1 && b[r + 1][c - 1] == MINE {
        n = n + 1;
    }
    if r + 1 < rows && b[r + 1][c] == MINE {
        n = n + 1;
    }
    if r + 1 < rows && c + 1 < cols && b[r + 1][c + 1] == MINE {
        n = n + 1;
    }
    n
}

/// The `k`-th cell, in row-major order, where a mine may still be placed.
#[verifier::loop_isolation(false)]
fn find_kth_eligible(
    b: &Vec<Vec<u8>>,
    rows: usize,
    cols: usize,
    fr: usize,
    fc: usize,
    k: usize,
) -> (rc: (usize, usize))
    requires
        grid_dims_ok(b@, rows as int, cols as int),
        fr < rows,
        fc < cols,
        (k as int) < count2(eligible_fn(b@, fr as int, fc as int), rows as int, cols as int),
    ensures
        rc.0 < rows,
        rc.1 < cols,
        !in_safe_zone(fr as int, fc as int, rc.0 as int, rc.1 as int),
        b@[rc.0 as int]@[rc.1 as int] != MINE,
{
    let ghost e = eligible_fn(b@, fr as int, fc as int);
    let mut seen: usize = 0;
    let mut i: usize = 0;
    while i < rows
        invariant
            i <= rows,
            seen as int == count2(e, i as int, cols as int),
            seen <= k,
        decreases rows - i,
    {
        let ghost erow = eligible_row_fn(b@, fr as int, fc as int, i as int);
        let mut j: usize = 0;
        while j < cols
            invariant
                j <= cols,
                i < rows,
                seen as int == count2(e, i as int, cols as int) + count1(erow, j as int),
                seen <= k,
            decreases cols - j,
        {
            let safe = i + 1 >= fr && i <= fr + 1 && j + 1 >= fc && j <= fc + 1;
            let elig = !safe && b[i][j] != MINE;
            proof {
                assert(safe == in_safe_zone(fr as int, fc as int, i as int, j as int));
                assert(elig == erow(j as int));
            }
            if elig {
                if seen == k {
                    return (i, j);
                }
                seen = seen + 1;
            }
            j = j + 1;
        }
        proof {
            lemma_count2_row_unfold(e, erow, i as int + 1, cols as int);
        }
        i = i + 1;
    }
    proof {
        assert(false);
    }
    (0, 0)
}

/// A vector of `n` copies of `value`.
fn make_row<T: Copy>(value: T, n: usize) -> (r: Vec<T>)
    ensures
        r@.len() == n,
        forall|i: int| 0 <= i < n ==> r@[i] == value,
{
    let mut r: Vec<T> = Vec::new();
    let mut k: usize = 0;
    while k < n
        invariant
            k <= n,
            r@.len() == k,
            forall|i: int| 0 <= i < k ==> r@[i] == value,
        decreases n - k,
    {
        r.push(value);
        k = k + 1;
    }
    r
}

/// A `rows x cols` grid filled with `value`.
fn make_grid<T: Copy>(value: T, rows: usize, cols: usize) -> (g: Vec<Vec<T>>)
    ensures
        grid_dims_ok(g@, rows as int, cols as int),
        forall|i: int, j: int| 0 <= i < rows && 0 <= j < cols ==> (#[trigger] g@[i]@[j]) == value,
{
    let mut g: Vec<Vec<T>> = Vec::new();
    let mut k: usize = 0;
    while k < rows
        invariant
            k <= rows,
            g@.len() == k,
            forall|i: int| 0 <= i < k ==> (#[trigger] g@[i])@.len() == cols,
            forall|i: int, j: int| 0 <= i < k && 0 <= j < cols ==> (#[trigger] g@[i]@[j]) == value,
        decreases rows - k,
    {
        g.push(make_row(value, cols));
        k = k + 1;
    }
    g
}

/// Replace the value of cell `(i, j)` of a grid, leaving every other cell
/// and every row length as it was.
fn set_cell<T>(g: &mut Vec<Vec<T>>, i: usize, j: usize, value: T)
    requires
        i < old(g)@.len(),
        j < old(g)@[i as int]@.len(),
    ensures
        final(g)@.len() == old(g)@.len(),
        forall|r: int| 0 <= r < old(g)@.len() && r != i ==> final(g)@[r] == old(g)@[r],
        forall|r: int|
            0 <= r < old(g)@.len() ==> (#[trigger] final(g)@[r])@.len() == old(g)@[r]@.len(),
        final(g)@[i as int]@[j as int] == value,
        forall|r: int, c: int|
            0 <= r < old(g)@.len() && 0 <= c < old(g)@[r]@.len() && (r != i || c != j) ==> (
            #[trigger] final(g)@[r]@[c]) == old(g)@[r]@[c],
{
    let mut row: Vec<T> = g.remove(i);
    let _replaced: T = row.remove(j);
    row.insert(j, value);
    g.insert(i, row);
    proof {
        assert(g@[i as int]@ =~= old(g)@[i as int]@.update(j as int, value));
        assert(g@ =~= old(g)@.update(i as int, g@[i as int]));
    }
}

} // verus!
