//! The Connect Four board: a 6-row by 7-column grid filled bottom-up by
//! alternating Red and Yellow drops, with win detection over every line
//! of four cells (horizontal, vertical, and both diagonals) and the
//! heuristic evaluation used by the computer opponents.

use crate::piece_color::PieceColor;
use vstd::prelude::*;
use vstd::string::StringExecFns;

verus! {

/// Mathematical model of a Connect Four position.
///
/// `cells` lists the 42 board cells row-major with row 0 at the top;
/// gravity therefore fills each column from index `5 * 7 + c` upward.
#[verifier::ext_equal]
pub ghost struct C4Model {
    pub cells: Seq<Option<PieceColor>>,
    pub heights: Seq<int>,
    pub active: PieceColor,
    pub moves: int,
    pub winner: Option<PieceColor>,
    pub terminal: bool,
}

/// Sum of a sequence of column heights.
pub open spec fn seq_sum(s: Seq<int>) -> int
    decreases s.len(),
{
    if s.len() == 0 {
        0
    } else {
        s[0] + seq_sum(s.drop_first())
    }
}

/// Every element within `[lo, hi]` bounds the sum by `lo*len` and `hi*len`.
pub proof fn lemma_seq_sum_bounds(s: Seq<int>, lo: int, hi: int)
    requires
        forall|i: int| 0 <= i < s.len() ==> lo <= #[trigger] s[i] <= hi,
    ensures
        lo * s.len() <= seq_sum(s) <= hi * s.len(),
    decreases s.len(),
{
    if s.len() == 0 {
    } else {
        lemma_seq_sum_bounds(s.drop_first(), lo, hi);
        assert(lo * s.len() == lo + lo * (s.len() - 1)) by (nonlinear_arith);
        assert(hi * s.len() == hi + hi * (s.len() - 1)) by (nonlinear_arith);
    }
}

/// Updating one element changes the sum by the difference.
pub proof fn lemma_seq_sum_update(s: Seq<int>, i: int, v: int)
    requires
        0 <= i < s.len(),
    ensures
        seq_sum(s.update(i, v)) == seq_sum(s) - s[i] + v,
    decreases s.len(),
{
    if i == 0 {
        assert(s.update(0, v).drop_first() =~= s.drop_first());
    } else {
        assert(s.update(i, v).drop_first() =~= s.drop_first().update(i - 1, v));
        lemma_seq_sum_update(s.drop_first(), i - 1, v);
    }
}

impl C4Model {
    /// Valid cell coordinates on the 6x7 grid.
    pub open spec fn in_range(r: int, c: int) -> bool {
        0 <= r < 6 && 0 <= c < 7
    }

    /// The cell at row `r`, column `c`.
    pub open spec fn cell(self, r: int, c: int) -> Option<PieceColor> {
        self.cells[r * 7 + c]
    }

    /// `(r, c)` starts a length-4 window of direction `(dr, dc)` that
    /// lies entirely on the grid.  The four directions are the rows,
    /// the columns, the upward diagonals and the downward diagonals.
    pub open spec fn win_window(r: int, c: int, dr: int, dc: int) -> bool {
        ||| (dr == 0 && dc == 1 && 0 <= r < 6 && 0 <= c < 4)
        ||| (dr == 1 && dc == 0 && 0 <= r < 3 && 0 <= c < 7)
        ||| (dr == -1 && dc == 1 && 3 <= r < 6 && 0 <= c < 4)
        ||| (dr == 1 && dc == 1 && 0 <= r < 3 && 0 <= c < 4)
    }

    /// All four cells of the window starting at `(r, c)` hold `color`.
    pub open spec fn wins_at(self, color: PieceColor, r: int, c: int, dr: int, dc: int) -> bool {
        &&& self.cell(r, c) == Some(color)
        &&& self.cell(r + dr, c + dc) == Some(color)
        &&& self.cell(r + 2 * dr, c + 2 * dc) == Some(color)
        &&& self.cell(r + 3 * dr, c + 3 * dc) == Some(color)
    }

    /// Some window of four on the grid is entirely `color`.
    pub open spec fn has_win(self, color: PieceColor) -> bool {
        exists|r: int, c: int, dr: int, dc: int|
            Self::win_window(r, c, dr, dc) && #[trigger] self.wins_at(color, r, c, dr, dc)
    }

    /// A drop into `col` is accepted: the column exists, the game is
    /// still running, and the column is not full.
    pub open spec fn legal(self, col: int) -> bool {
        &&& 0 <= col < 7
        &&& !self.terminal
        &&& self.heights[col] < 6
    }

    /// The position after a legal drop into `col`: the active color
    /// lands on the lowest empty row of the column, win detection runs
    /// for the mover, and the turn passes.
    pub open spec fn drop_result(self, col: int) -> C4Model {
        let row = 5 - self.heights[col];
        let placed = C4Model {
            cells: self.cells.update(row * 7 + col, Some(self.active)),
            heights: self.heights.update(col, self.heights[col] + 1),
            moves: self.moves + 1,
            ..self
        };
        let w = if placed.has_win(self.active) {
            Some(self.active)
        } else {
            None
        };
        C4Model {
            winner: w,
            terminal: w is Some || placed.moves == 42,
            active: self.active.spec_switch(),
            ..placed
        }
    }

    /// Well-formedness: the grid is 6x7, the heights count the filled
    /// cells of each column from the bottom (gravity), the move count
    /// is the sum of the heights, the terminal flag tracks winner and
    /// fullness, a recorded winner has a line of four, and a running
    /// game has no line of four at all.
    pub open spec fn wf(self) -> bool {
        &&& self.cells.len() == 42
        &&& self.heights.len() == 7
        &&& forall|c: int| 0 <= c < 7 ==> 0 <= #[trigger] self.heights[c] <= 6
        &&& forall|r: int, c: int|
            Self::in_range(r, c) ==> (#[trigger] self.cell(r, c) is Some <==> 6 - self.heights[c]
                <= r)
        &&& self.moves == seq_sum(self.heights)
        &&& 0 <= self.moves <= 42
        &&& (self.terminal <==> (self.winner is Some || self.moves == 42))
        &&& (match self.winner {
            Some(w) => self.has_win(w),
            None => true,
        })
        &&& (!self.terminal ==> !self.has_win(PieceColor::RED) && !self.has_win(
            PieceColor::YELLOW,
        ))
    }

    /// 1 when the cell holds `color`.
    pub open spec fn own_at(self, color: PieceColor, r: int, c: int) -> int {
        if self.cell(r, c) == Some(color) {
            1
        } else {
            0
        }
    }

    /// 1 when the cell is filled by the other color.
    pub open spec fn opp_at(self, color: PieceColor, r: int, c: int) -> int {
        if self.cell(r, c) is Some && self.cell(r, c) != Some(color) {
            1
        } else {
            0
        }
    }

    /// 1 when the cell is empty and the next drop into its column
    /// would land exactly here.
    pub open spec fn empty_play_at(self, r: int, c: int) -> int {
        if self.cell(r, c) is None && self.heights[c] >= 5 - r {
            1
        } else {
            0
        }
    }

    /// 1 when the cell is empty and not immediately reachable.
    pub open spec fn empty_noplay_at(self, r: int, c: int) -> int {
        if self.cell(r, c) is None && self.heights[c] < 5 - r {
            1
        } else {
            0
        }
    }

    pub open spec fn own_count(
        self,
        color: PieceColor,
        r0: int,
        c0: int,
        r1: int,
        c1: int,
        r2: int,
        c2: int,
        r3: int,
        c3: int,
    ) -> int {
        self.own_at(color, r0, c0) + self.own_at(color, r1, c1) + self.own_at(color, r2, c2)
            + self.own_at(color, r3, c3)
    }

    pub open spec fn opp_count(
        self,
        color: PieceColor,
        r0: int,
        c0: int,
        r1: int,
        c1: int,
        r2: int,
        c2: int,
        r3: int,
        c3: int,
    ) -> int {
        self.opp_at(color, r0, c0) + self.opp_at(color, r1, c1) + self.opp_at(color, r2, c2)
            + self.opp_at(color, r3, c3)
    }

    pub open spec fn empty_play_count(
        self,
        r0: int,
        c0: int,
        r1: int,
        c1: int,
        r2: int,
        c2: int,
        r3: int,
        c3: int,
    ) -> int {
        self.empty_play_at(r0, c0) + self.empty_play_at(r1, c1) + self.empty_play_at(r2, c2)
            + self.empty_play_at(r3, c3)
    }

    pub open spec fn empty_noplay_count(
        self,
        r0: int,
        c0: int,
        r1: int,
        c1: int,
        r2: int,
        c2: int,
        r3: int,
        c3: int,
    ) -> int {
        self.empty_noplay_at(r0, c0) + self.empty_noplay_at(r1, c1) + self.empty_noplay_at(r2, c2)
            + self.empty_noplay_at(r3, c3)
    }

    /// Heuristic value of one window of four cells, seen from `color`:
    /// a window containing both colors is dead and worth 0; otherwise
    /// lines of four, three and two of one's own color score
    /// 100000/10/1, and opposing lines of three and two score
    /// -10000 or -20 (depending on whether the completing square is
    /// immediately playable) and -3.
    pub open spec fn window_value(
        self,
        color: PieceColor,
        r0: int,
        c0: int,
        r1: int,
        c1: int,
        r2: int,
        c2: int,
        r3: int,
        c3: int,
    ) -> int {
        let own = self.own_count(color, r0, c0, r1, c1, r2, c2, r3, c3);
        let opp = self.opp_count(color, r0, c0, r1, c1, r2, c2, r3, c3);
        let ep = self.empty_play_count(r0, c0, r1, c1, r2, c2, r3, c3);
        let en = self.empty_noplay_count(r0, c0, r1, c1, r2, c2, r3, c3);
        if own > 0 && opp > 0 {
            0
        } else if own == 4 {
            100000
        } else if own == 3 {
            10
        } else if own == 2 {
            1
        } else if opp == 3 && ep == 1 && en == 0 {
            -10000
        } else if opp == 3 && ep == 0 && en == 1 {
            -20
        } else if opp == 2 {
            -3
        } else {
            0
        }
    }

    /// The window of four starting at `(r, c)` in direction `(dr, dc)`.
    pub open spec fn wvalue(self, color: PieceColor, r: int, c: int, dr: int, dc: int) -> int {
        self.window_value(
            color,
            r,
            c,
            r + dr,
            c + dc,
            r + 2 * dr,
            c + 2 * dc,
            r + 3 * dr,
            c + 3 * dc,
        )
    }

    /// Sum of the row windows of row `r` starting at column `c` and to
    /// the right.
    pub open spec fn row_windows_from(self, color: PieceColor, r: int, c: int) -> int
        decreases 4 - c,
    {
        if c < 0 || c >= 4 {
            0
        } else {
            self.wvalue(color, r, c, 0, 1) + self.row_windows_from(color, r, c + 1)
        }
    }

    /// Sum of the row windows of rows `r` and below.
    pub open spec fn rows_from(self, color: PieceColor, r: int) -> int
        decreases 6 - r,
    {
        if r < 0 || r >= 6 {
            0
        } else {
            self.row_windows_from(color, r, 0) + self.rows_from(color, r + 1)
        }
    }

    /// Sum of the column windows of column `c` starting at row `r`.
    pub open spec fn col_windows_from(self, color: PieceColor, c: int, r: int) -> int
        decreases 3 - r,
    {
        if r < 0 || r >= 3 {
            0
        } else {
            self.wvalue(color, r, c, 1, 0) + self.col_windows_from(color, c, r + 1)
        }
    }

    /// Sum of the column windows of columns `c` and to the right.
    pub open spec fn cols_from(self, color: PieceColor, c: int) -> int
        decreases 7 - c,
    {
        if c < 0 || c >= 7 {
            0
        } else {
            self.col_windows_from(color, c, 0) + self.cols_from(color, c + 1)
        }
    }

    /// Sum of the upward-diagonal windows starting in row `r` from
    /// column `c` rightward.
    pub open spec fn du_windows_from(self, color: PieceColor, r: int, c: int) -> int
        decreases 4 - c,
    {
        if c < 0 || c >= 4 {
            0
        } else {
            self.wvalue(color, r, c, -1, 1) + self.du_windows_from(color, r, c + 1)
        }
    }

    /// Sum of the upward-diagonal windows starting in rows `r`..6.
    pub open spec fn du_from(self, color: PieceColor, r: int) -> int
        decreases 6 - r,
    {
        if r < 3 || r >= 6 {
            0
        } else {
            self.du_windows_from(color, r, 0) + self.du_from(color, r + 1)
        }
    }

    /// Sum of the downward-diagonal windows starting in row `r` from
    /// column `c` rightward.
    pub open spec fn dd_windows_from(self, color: PieceColor, r: int, c: int) -> int
        decreases 4 - c,
    {
        if c < 0 || c >= 4 {
            0
        } else {
            self.wvalue(color, r, c, 1, 1) + self.dd_windows_from(color, r, c + 1)
        }
    }

    /// Sum of the downward-diagonal windows starting in rows `r`..3.
    pub open spec fn dd_from(self, color: PieceColor, r: int) -> int
        decreases 3 - r,
    {
        if r < 0 || r >= 3 {
            0
        } else {
            self.dd_windows_from(color, r, 0) + self.dd_from(color, r + 1)
        }
    }

    /// Center-column bonus: 5 per own piece in column 3, rows `r`..6.
    pub open spec fn center_from(self, color: PieceColor, r: int) -> int
        decreases 6 - r,
    {
        if r < 0 || r >= 6 {
            0
        } else {
            (if self.cell(r, 3) == Some(color) {
                5int
            } else {
                0int
            }) + self.center_from(color, r + 1)
        }
    }

    /// The heuristic score of the position for `color`: the sum of the
    /// values of all 69 windows plus the center-column bonus.
    pub open spec fn score(self, color: PieceColor) -> int {
        self.rows_from(color, 0) + self.cols_from(color, 0) + self.du_from(color, 3)
            + self.dd_from(color, 0) + self.center_from(color, 0)
    }

    /// The character a cell prints as: `-` empty, `R` red, `Y` yellow.
    pub open spec fn cell_char(self, r: int, c: int) -> char {
        match self.cell(r, c) {
            None => '-',
            Some(PieceColor::RED) => 'R',
            Some(PieceColor::YELLOW) => 'Y',
        }
    }

    /// The printed characters of row `r` from column `c` on: each cell
    /// followed by a blank, the row closed by a newline.
    pub open spec fn row_chars(self, r: int, c: int) -> Seq<char>
        decreases 7 - c,
    {
        if c < 0 || c >= 7 {
            seq!['\n']
        } else {
            seq![self.cell_char(r, c), ' '] + self.row_chars(r, c + 1)
        }
    }

    /// The printed characters of rows `r` and below.
    pub open spec fn grid_chars(self, r: int) -> Seq<char>
        decreases 6 - r,
    {
        if r < 0 || r >= 6 {
            Seq::empty()
        } else {
            self.row_chars(r, 0) + self.grid_chars(r + 1)
        }
    }

    /// The full rendering: a heading, the grid top row first, and the
    /// column labels.
    pub open spec fn render_chars(self) -> Seq<char> {
        "\nCurrent Board:\n"@ + self.grid_chars(0) + "0 1 2 3 4 5 6\n"@
    }

    /// The empty starting position: no pieces, Red to move.
    pub open spec fn init() -> C4Model {
        C4Model {
            cells: Seq::new(42, |i: int| None),
            heights: Seq::new(7, |c: int| 0),
            active: PieceColor::RED,
            moves: 0,
            winner: None,
            terminal: false,
        }
    }
}

/// Each window is worth at most 100000 in either direction.
pub proof fn lemma_window_value_bound(
    m: C4Model,
    color: PieceColor,
    r0: int,
    c0: int,
    r1: int,
    c1: int,
    r2: int,
    c2: int,
    r3: int,
    c3: int,
)
    ensures
        -100000 <= m.window_value(color, r0, c0, r1, c1, r2, c2, r3, c3) <= 100000,
{
}

/// Whose turn it is has no bearing on well-formedness.
pub proof fn lemma_wf_active(m: C4Model, color: PieceColor)
    requires
        m.wf(),
    ensures
        (C4Model { active: color, ..m }).wf(),
{
    let m2 = C4Model { active: color, ..m };
    assert forall|r: int, c: int|
        C4Model::in_range(r, c) implies (#[trigger] m2.cell(r, c) is Some <==> 6 - m2.heights[c]
        <= r) by {
        assert(m2.cell(r, c) == m.cell(r, c));
    }
    lemma_has_win_same_cells(m, m2, PieceColor::RED);
    lemma_has_win_same_cells(m, m2, PieceColor::YELLOW);
    match m.winner {
        Some(w) => {
            assert(w is RED || w is YELLOW);
            assert(m2.has_win(w));
        },
        None => {},
    }
}

/// A running game always has a column left to drop into.
pub proof fn lemma_exists_legal(m: C4Model)
    requires
        m.wf(),
        !m.terminal,
    ensures
        exists|c: int| #[trigger] m.legal(c),
{
    if !(exists|c: int| #[trigger] m.legal(c)) {
        assert forall|c: int| 0 <= c < 7 implies 6 <= #[trigger] m.heights[c] <= 6 by {
            assert(!m.legal(c));
        }
        lemma_seq_sum_bounds(m.heights, 6, 6);
        assert(false);
    }
}

pub proof fn lemma_row_windows_bound(m: C4Model, color: PieceColor, r: int, c: int)
    requires
        0 <= c <= 4,
    ensures
        -100000 * (4 - c) <= m.row_windows_from(color, r, c) <= 100000 * (4 - c),
    decreases 4 - c,
{
    if c < 4 {
        lemma_window_value_bound(m, color, r, c, r, c + 1, r, c + 2, r, c + 3);
        lemma_row_windows_bound(m, color, r, c + 1);
    }
}

pub proof fn lemma_rows_bound(m: C4Model, color: PieceColor, r: int)
    requires
        0 <= r <= 6,
    ensures
        -400000 * (6 - r) <= m.rows_from(color, r) <= 400000 * (6 - r),
    decreases 6 - r,
{
    if r < 6 {
        lemma_row_windows_bound(m, color, r, 0);
        lemma_rows_bound(m, color, r + 1);
    }
}

pub proof fn lemma_col_windows_bound(m: C4Model, color: PieceColor, c: int, r: int)
    requires
        0 <= r <= 3,
    ensures
        -100000 * (3 - r) <= m.col_windows_from(color, c, r) <= 100000 * (3 - r),
    decreases 3 - r,
{
    if r < 3 {
        lemma_window_value_bound(m, color, r, c, r + 1, c, r + 2, c, r + 3, c);
        lemma_col_windows_bound(m, color, c, r + 1);
    }
}

pub proof fn lemma_cols_bound(m: C4Model, color: PieceColor, c: int)
    requires
        0 <= c <= 7,
    ensures
        -300000 * (7 - c) <= m.cols_from(color, c) <= 300000 * (7 - c),
    decreases 7 - c,
{
    if c < 7 {
        lemma_col_windows_bound(m, color, c, 0);
        lemma_cols_bound(m, color, c + 1);
    }
}

pub proof fn lemma_du_windows_bound(m: C4Model, color: PieceColor, r: int, c: int)
    requires
        0 <= c <= 4,
    ensures
        -100000 * (4 - c) <= m.du_windows_from(color, r, c) <= 100000 * (4 - c),
    decreases 4 - c,
{
    if c < 4 {
        lemma_window_value_bound(m, color, r, c, r - 1, c + 1, r - 2, c + 2, r - 3, c + 3);
        lemma_du_windows_bound(m, color, r, c + 1);
    }
}

pub proof fn lemma_du_bound(m: C4Model, color: PieceColor, r: int)
    requires
        3 <= r <= 6,
    ensures
        -400000 * (6 - r) <= m.du_from(color, r) <= 400000 * (6 - r),
    decreases 6 - r,
{
    if r < 6 {
        lemma_du_windows_bound(m, color, r, 0);
        lemma_du_bound(m, color, r + 1);
    }
}

pub proof fn lemma_dd_windows_bound(m: C4Model, color: PieceColor, r: int, c: int)
    requires
        0 <= c <= 4,
    ensures
        -100000 * (4 - c) <= m.dd_windows_from(color, r, c) <= 100000 * (4 - c),
    decreases 4 - c,
{
    if c < 4 {
        lemma_window_value_bound(m, color, r, c, r + 1, c + 1, r + 2, c + 2, r + 3, c + 3);
        lemma_dd_windows_bound(m, color, r, c + 1);
    }
}

pub proof fn lemma_dd_bound(m: C4Model, color: PieceColor, r: int)
    requires
        0 <= r <= 3,
    ensures
        -400000 * (3 - r) <= m.dd_from(color, r) <= 400000 * (3 - r),
    decreases 3 - r,
{
    if r < 3 {
        lemma_dd_windows_bound(m, color, r, 0);
        lemma_dd_bound(m, color, r + 1);
    }
}

pub proof fn lemma_center_bound(m: C4Model, color: PieceColor, r: int)
    requires
        0 <= r <= 6,
    ensures
        0 <= m.center_from(color, r) <= 5 * (6 - r),
    decreases 6 - r,
{
    if r < 6 {
        lemma_center_bound(m, color, r + 1);
    }
}

/// The heuristic score always stays far inside the `i32` range.
pub proof fn lemma_score_bound(m: C4Model, color: PieceColor)
    ensures
        -6900030 <= m.score(color) <= 6900030,
{
    lemma_rows_bound(m, color, 0);
    lemma_cols_bound(m, color, 0);
    lemma_du_bound(m, color, 3);
    lemma_dd_bound(m, color, 0);
    lemma_center_bound(m, color, 0);
}

/// The number of moves played always equals the total of the column
/// heights.
pub proof fn lemma_moves_is_height_sum(m: C4Model)
    requires
        m.wf(),
    ensures
        m.moves == seq_sum(m.heights),
{
}

/// Gravity: every cell below a filled cell in the same column is
/// filled as well.
pub proof fn lemma_gravity(m: C4Model, r: int, c: int, r2: int)
    requires
        m.wf(),
        C4Model::in_range(r, c),
        m.cell(r, c) is Some,
        r <= r2 < 6,
    ensures
        m.cell(r2, c) is Some,
{
    assert(C4Model::in_range(r2, c));
}

/// A successful drop raises the chosen column's height and the move
/// count by exactly one and leaves every other column's height alone.
pub proof fn lemma_drop_heights(m: C4Model, col: int)
    requires
        m.wf(),
        m.legal(col),
    ensures
        m.drop_result(col).heights[col] == m.heights[col] + 1,
        m.drop_result(col).moves == m.moves + 1,
        forall|c: int|
            0 <= c < 7 && c != col ==> m.drop_result(col).heights[c] == m.heights[c],
{
}

/// Once a position is terminal no drop is legal any more; `drop` then
/// fails and leaves the position unchanged.
pub proof fn lemma_terminal_rejects(m: C4Model, col: int)
    requires
        m.terminal,
    ensures
        !m.legal(col),
{
}

/// A board that never holds `color` anywhere has no win for it.
pub proof fn lemma_no_cell_no_win(m: C4Model, color: PieceColor)
    requires
        forall|r: int, c: int|
            C4Model::in_range(r, c) ==> #[trigger] m.cell(r, c) != Some(color),
    ensures
        !m.has_win(color),
{
    if m.has_win(color) {
        let (r, c, dr, dc) = choose|r: int, c: int, dr: int, dc: int|
            C4Model::win_window(r, c, dr, dc) && #[trigger] m.wins_at(color, r, c, dr, dc);
        assert(C4Model::in_range(r, c));
        assert(m.cell(r, c) != Some(color));
    }
}

/// Two models with the same cells agree on every win.
pub proof fn lemma_has_win_same_cells(m1: C4Model, m2: C4Model, color: PieceColor)
    requires
        m1.cells == m2.cells,
    ensures
        m1.has_win(color) == m2.has_win(color),
{
    if m1.has_win(color) {
        let (r, c, dr, dc) = choose|r: int, c: int, dr: int, dc: int|
            C4Model::win_window(r, c, dr, dc) && #[trigger] m1.wins_at(color, r, c, dr, dc);
        assert(m2.wins_at(color, r, c, dr, dc));
    }
    if m2.has_win(color) {
        let (r, c, dr, dc) = choose|r: int, c: int, dr: int, dc: int|
            C4Model::win_window(r, c, dr, dc) && #[trigger] m2.wins_at(color, r, c, dr, dc);
        assert(m1.wins_at(color, r, c, dr, dc));
    }
}

/// Placing a piece of one color cannot create a line of four of the
/// other color.
pub proof fn lemma_no_new_win_other(m: C4Model, idx: int, a: PieceColor, b: PieceColor)
    requires
        m.cells.len() == 42,
        0 <= idx < 42,
        a != b,
        !m.has_win(b),
    ensures
        !(C4Model { cells: m.cells.update(idx, Some(a)), ..m }).has_win(b),
{
    let m2 = C4Model { cells: m.cells.update(idx, Some(a)), ..m };
    if m2.has_win(b) {
        let (r, c, dr, dc) = choose|r: int, c: int, dr: int, dc: int|
            C4Model::win_window(r, c, dr, dc) && #[trigger] m2.wins_at(b, r, c, dr, dc);
        // None of the four window cells can be the updated index, which
        // holds `a`; hence the same window already won in `m`.
        assert(m.wins_at(b, r, c, dr, dc));
    }
}

/// A legal drop preserves well-formedness.
pub proof fn lemma_drop_preserves_wf(m: C4Model, col: int)
    requires
        m.wf(),
        m.legal(col),
    ensures
        m.drop_result(col).wf(),
        m.drop_result(col).moves == m.moves + 1,
{
    let h = m.heights[col];
    let row = 5 - h;
    let idx = row * 7 + col;
    let res = m.drop_result(col);
    assert(0 <= idx < 42) by {
        assert(0 <= row < 6);
    }
    lemma_seq_sum_update(m.heights, col, h + 1);
    assert forall|c: int| 0 <= c < 7 implies 0 <= #[trigger] res.heights[c] <= 6 by {}
    assert forall|r: int, c: int|
        C4Model::in_range(r, c) implies (#[trigger] res.cell(r, c) is Some <==> 6 - res.heights[c]
        <= r) by {
        if c == col {
            if r == row {
                assert(res.cell(r, c) == Some(m.active));
            } else {
                assert(r * 7 + c != idx);
                assert(res.cell(r, c) == m.cell(r, c));
            }
        } else {
            assert(r * 7 + c != idx);
            assert(res.cell(r, c) == m.cell(r, c));
        }
    }
    // The winner clause: a recorded winner has a win by construction,
    // and a running game has no win for either color.
    let placed = C4Model {
        cells: m.cells.update(idx, Some(m.active)),
        heights: m.heights.update(col, h + 1),
        moves: m.moves + 1,
        ..m
    };
    lemma_has_win_same_cells(placed, res, m.active);
    lemma_has_win_same_cells(placed, res, m.active.spec_switch());
    if !res.terminal {
        let opp = m.active.spec_switch();
        lemma_no_new_win_other(m, idx, m.active, opp);
        lemma_has_win_same_cells(C4Model { cells: m.cells.update(idx, Some(m.active)), ..m }, placed, opp);
        assert(!placed.has_win(opp));
        assert(!res.has_win(m.active) && !res.has_win(opp));
        assert(m.active is RED || m.active is YELLOW);
        assert(!res.has_win(PieceColor::RED) && !res.has_win(PieceColor::YELLOW));
    }
}

/// A Connect Four position: the 6x7 grid (row-major, row 0 on top),
/// whose turn it is, how many pieces are down, the per-column piece
/// counts, and whether the game has ended and for whom.
pub struct Connect4 {
    pub board: Vec<Option<PieceColor>>,
    pub active_player: PieceColor,
    pub moves_played: usize,
    pub is_terminal: bool,
    pub winner: Option<PieceColor>,
    pub column_heights: Vec<usize>,
}

impl View for Connect4 {
    type V = C4Model;

    open spec fn view(&self) -> C4Model {
        C4Model {
            cells: self.board@,
            heights: self.column_heights@.map_values(|h: usize| h as int),
            active: self.active_player,
            moves: self.moves_played as int,
            winner: self.winner,
            terminal: self.is_terminal,
        }
    }
}

impl Connect4 {
    /// The invariant every position built by `new` and `drop` satisfies.
    pub open spec fn wf(self) -> bool {
        self@.wf()
    }

    /// Initializes an empty Connect Four board.
    pub fn new() -> (r: Self)
        ensures
            r@ == C4Model::init(),
            r.wf(),
    {
        let mut board: Vec<Option<PieceColor>> = Vec::new();
        let mut i: usize = 0;
        while i < 42
            invariant
                i <= 42,
                board@.len() == i,
                forall|k: int| 0 <= k < i ==> board@[k] is None,
            decreases 42 - i,
        {
            board.push(None);
            i = i + 1;
        }
        let mut heights: Vec<usize> = Vec::new();
        let mut c: usize = 0;
        while c < 7
            invariant
                c <= 7,
                heights@.len() == c,
                forall|k: int| 0 <= k < c ==> heights@[k] == 0usize,
            decreases 7 - c,
        {
            heights.push(0);
            c = c + 1;
        }
        let r = Connect4 {
            board,
            active_player: PieceColor::RED,
            moves_played: 0,
            is_terminal: false,
            winner: None,
            column_heights: heights,
        };
        proof {
            assert(r@.cells =~= C4Model::init().cells);
            assert(r@.heights =~= C4Model::init().heights);
            assert(r@ =~= C4Model::init());
            lemma_seq_sum_bounds(r@.heights, 0, 0);
            assert forall|rr: int, cc: int|
                C4Model::in_range(rr, cc) implies #[trigger] r@.cell(rr, cc) != Some(
                PieceColor::RED,
            ) by {
                assert(0 <= rr * 7 + cc < 42);
            }
            assert forall|rr: int, cc: int|
                C4Model::in_range(rr, cc) implies #[trigger] r@.cell(rr, cc) != Some(
                PieceColor::YELLOW,
            ) by {
                assert(0 <= rr * 7 + cc < 42);
            }
            lemma_no_cell_no_win(r@, PieceColor::RED);
            lemma_no_cell_no_win(r@, PieceColor::YELLOW);
        }
        r
    }

    /// The cell at `(row, col)`; row 0 is the top row.
    pub fn grid_at(&self, row: usize, col: usize) -> (r: Option<PieceColor>)
        requires
            self@.cells.len() == 42,
            row < 6,
            col < 7,
        ensures
            r == self@.cell(row as int, col as int),
    {
        self.board[row * 7 + col]
    }

    /// Gets the number of chips that have been placed in a column.
    pub fn get_col_height(&self, col: usize) -> (r: usize)
        requires
            self.wf(),
            col < 7,
        ensures
            r == self@.heights[col as int],
    {
        self.column_heights[col]
    }

    /// True when the cell at `(row, col)` holds `color`.
    fn is_color(&self, row: usize, col: usize, color: PieceColor) -> (r: bool)
        requires
            self@.cells.len() == 42,
            row < 6,
            col < 7,
        ensures
            r == (self@.cell(row as int, col as int) == Some(color)),
    {
        match self.board[row * 7 + col] {
            None => false,
            Some(x) => x == color,
        }
    }

    /// Drops a piece of the active color into `col`.  Fails, leaving
    /// the position unchanged, when the column is out of range or full
    /// or the game is over; otherwise the piece lands on the lowest
    /// empty row, win detection runs for the mover, and the turn
    /// passes.
    pub fn drop(&mut self, col: usize) -> (ok: bool)
        requires
            old(self).wf(),
        ensures
            final(self).wf(),
            ok == old(self)@.legal(col as int),
            ok ==> final(self)@ == old(self)@.drop_result(col as int),
            !ok ==> *final(self) == *old(self),
    {
        if col >= 7 {
            return false;
        }
        if self.is_terminal {
            return false;
        }
        let col_height = self.column_heights[col];
        if col_height == 6 {
            return false;
        }
        let ghost m = self@;
        let row = 5 - col_height;
        let idx = row * 7 + col;
        assert(idx < 42);
        self.board[idx] = Some(self.active_player);
        self.moves_played = self.moves_played + 1;
        let ghost mid = self@;
        let win = self.check_for_win(self.active_player);
        self.winner = match win {
            Some(_) => Some(self.active_player),
            None => None,
        };
        self.column_heights[col] = col_height + 1;
        self.is_terminal = self.winner.is_some() || self.moves_played == 42;
        self.active_player = self.active_player.switch();
        proof {
            let res = m.drop_result(col as int);
            let placed = C4Model {
                cells: m.cells.update((5 - m.heights[col as int]) * 7 + col as int, Some(m.active)),
                heights: m.heights.update(col as int, m.heights[col as int] + 1),
                moves: m.moves + 1,
                ..m
            };
            assert(self@.cells =~= placed.cells);
            assert(self@.heights =~= placed.heights);
            lemma_has_win_same_cells(mid, placed, m.active);
            assert(win is Some <==> placed.has_win(m.active));
            assert(self@ =~= res);
            lemma_drop_preserves_wf(m, col as int);
        }
        true
    }

    /// Scans every length-4 window for four cells of `color`; returns
    /// the first winning line found (rows, then columns, then upward
    /// diagonals, then downward diagonals), or `None` when `color` has
    /// no line of four anywhere.
    pub fn check_for_win(&self, color: PieceColor) -> (r: Option<Vec<[usize; 2]>>)
        requires
            self@.cells.len() == 42,
        ensures
            r is Some <==> self@.has_win(color),
            match r {
                Some(l) => {
                    &&& l@.len() == 4
                    &&& exists|rr: int, cc: int, dr: int, dc: int|
                        {
                            &&& C4Model::win_window(rr, cc, dr, dc)
                            &&& #[trigger] self@.wins_at(color, rr, cc, dr, dc)
                            &&& forall|i: int|
                                0 <= i < 4 ==> (#[trigger] l@[i])[0] as int == rr + i * dr
                                    && l@[i][1] as int == cc + i * dc
                        }
                    &&& forall|i: int|
                        0 <= i < 4 ==> C4Model::in_range((#[trigger] l@[i])[0] as int, l@[i][1] as int)
                            && self@.cell(l@[i][0] as int, l@[i][1] as int) == Some(color)
                },
                None => true,
            },
    {
        // Rows.
        let mut r: usize = 0;
        while r < 6
            invariant
                self@.cells.len() == 42,
                r <= 6,
                forall|rr: int, cc: int|
                    0 <= rr < r && 0 <= cc < 4 ==> !self@.wins_at(color, rr, cc, 0, 1),
            decreases 6 - r,
        {
            let mut c: usize = 0;
            while c < 4
                invariant
                    self@.cells.len() == 42,
                    r < 6,
                    c <= 4,
                    forall|rr: int, cc: int|
                        0 <= rr < r && 0 <= cc < 4 ==> !self@.wins_at(color, rr, cc, 0, 1),
                    forall|cc: int| 0 <= cc < c ==> !self@.wins_at(color, r as int, cc, 0, 1),
                decreases 4 - c,
            {
                if self.is_color(r, c, color) && self.is_color(r, c + 1, color) && self.is_color(
                    r,
                    c + 2,
                    color,
                ) && self.is_color(r, c + 3, color) {
                    let mut line: Vec<[usize; 2]> = Vec::new();
                    line.push([r, c]);
                    line.push([r, c + 1]);
                    line.push([r, c + 2]);
                    line.push([r, c + 3]);
                    proof {
                        assert(self@.wins_at(color, r as int, c as int, 0, 1));
                        assert(C4Model::win_window(r as int, c as int, 0, 1));
                    }
                    return Some(line);
                }
                c = c + 1;
            }
            r = r + 1;
        }
        // Columns.
        let mut c: usize = 0;
        while c < 7
            invariant
                self@.cells.len() == 42,
                c <= 7,
                forall|rr: int, cc: int|
                    0 <= rr < 6 && 0 <= cc < 4 ==> !self@.wins_at(color, rr, cc, 0, 1),
                forall|rr: int, cc: int|
                    0 <= rr < 3 && 0 <= cc < c ==> !self@.wins_at(color, rr, cc, 1, 0),
            decreases 7 - c,
        {
            let mut sr: usize = 0;
            while sr < 3
                invariant
                    self@.cells.len() == 42,
                    c < 7,
                    sr <= 3,
                    forall|rr: int, cc: int|
                        0 <= rr < 3 && 0 <= cc < c ==> !self@.wins_at(color, rr, cc, 1, 0),
                    forall|rr: int| 0 <= rr < sr ==> !self@.wins_at(color, rr, c as int, 1, 0),
                decreases 3 - sr,
            {
                if self.is_color(sr, c, color) && self.is_color(sr + 1, c, color) && self.is_color(
                    sr + 2,
                    c,
                    color,
                ) && self.is_color(sr + 3, c, color) {
                    let mut line: Vec<[usize; 2]> = Vec::new();
                    line.push([sr, c]);
                    line.push([sr + 1, c]);
                    line.push([sr + 2, c]);
                    line.push([sr + 3, c]);
                    proof {
                        assert(self@.wins_at(color, sr as int, c as int, 1, 0));
                        assert(C4Model::win_window(sr as int, c as int, 1, 0));
                    }
                    return Some(line);
                }
                sr = sr + 1;
            }
            c = c + 1;
        }
        // Upward diagonals.
        let mut r: usize = 3;
        while r < 6
            invariant
                self@.cells.len() == 42,
                3 <= r <= 6,
                forall|rr: int, cc: int|
                    0 <= rr < 6 && 0 <= cc < 4 ==> !self@.wins_at(color, rr, cc, 0, 1),
                forall|rr: int, cc: int|
                    0 <= rr < 3 && 0 <= cc < 7 ==> !self@.wins_at(color, rr, cc, 1, 0),
                forall|rr: int, cc: int|
                    3 <= rr < r && 0 <= cc < 4 ==> !(#[trigger] self@.wins_at(color, rr, cc, -1, 1)),
            decreases 6 - r,
        {
            let mut c: usize = 0;
            while c < 4
                invariant
                    self@.cells.len() == 42,
                    3 <= r < 6,
                    c <= 4,
                    forall|rr: int, cc: int|
                        3 <= rr < r && 0 <= cc < 4 ==> !(#[trigger] self@.wins_at(color, rr, cc, -1, 1)),
                    forall|cc: int| 0 <= cc < c ==> !(#[trigger] self@.wins_at(color, r as int, cc, -1, 1)),
                decreases 4 - c,
            {
                if self.is_color(r, c, color) && self.is_color(r - 1, c + 1, color)
                    && self.is_color(r - 2, c + 2, color) && self.is_color(r - 3, c + 3, color) {
                    let mut line: Vec<[usize; 2]> = Vec::new();
                    line.push([r, c]);
                    line.push([r - 1, c + 1]);
                    line.push([r - 2, c + 2]);
                    line.push([r - 3, c + 3]);
                    proof {
                        assert(self@.wins_at(color, r as int, c as int, -1, 1));
                        assert(C4Model::win_window(r as int, c as int, -1, 1));
                    }
                    return Some(line);
                }
                c = c + 1;
            }
            r = r + 1;
        }
        // Downward diagonals.
        let mut r: usize = 0;
        while r < 3
            invariant
                self@.cells.len() == 42,
                r <= 3,
                forall|rr: int, cc: int|
                    0 <= rr < 6 && 0 <= cc < 4 ==> !self@.wins_at(color, rr, cc, 0, 1),
                forall|rr: int, cc: int|
                    0 <= rr < 3 && 0 <= cc < 7 ==> !self@.wins_at(color, rr, cc, 1, 0),
                forall|rr: int, cc: int|
                    3 <= rr < 6 && 0 <= cc < 4 ==> !(#[trigger] self@.wins_at(color, rr, cc, -1, 1)),
                forall|rr: int, cc: int|
                    0 <= rr < r && 0 <= cc < 4 ==> !self@.wins_at(color, rr, cc, 1, 1),
            decreases 3 - r,
        {
            let mut c: usize = 0;
            while c < 4
                invariant
                    self@.cells.len() == 42,
                    r < 3,
                    c <= 4,
                    forall|rr: int, cc: int|
                        0 <= rr < r && 0 <= cc < 4 ==> !self@.wins_at(color, rr, cc, 1, 1),
                    forall|cc: int| 0 <= cc < c ==> !self@.wins_at(color, r as int, cc, 1, 1),
                decreases 4 - c,
            {
                if self.is_color(r, c, color) && self.is_color(r + 1, c + 1, color)
                    && self.is_color(r + 2, c + 2, color) && self.is_color(r + 3, c + 3, color) {
                    let mut line: Vec<[usize; 2]> = Vec::new();
                    line.push([r, c]);
                    line.push([r + 1, c + 1]);
                    line.push([r + 2, c + 2]);
                    line.push([r + 3, c + 3]);
                    proof {
                        assert(self@.wins_at(color, r as int, c as int, 1, 1));
                        assert(C4Model::win_window(r as int, c as int, 1, 1));
                    }
                    return Some(line);
                }
                c = c + 1;
            }
            r = r + 1;
        }
        proof {
            if self@.has_win(color) {
                let (rr, cc, dr, dc) = choose|rr: int, cc: int, dr: int, dc: int|
                    C4Model::win_window(rr, cc, dr, dc) && #[trigger] self@.wins_at(
                        color,
                        rr,
                        cc,
                        dr,
                        dc,
                    );
                assert(false);
            }
        }
        None
    }

    /// Classifies the four cells of one window and returns its
    /// heuristic value for `color`.
    #[verifier::rlimit(50)]
    fn eval_window(
        &self,
        color: PieceColor,
        r0: usize,
        c0: usize,
        r1: usize,
        c1: usize,
        r2: usize,
        c2: usize,
        r3: usize,
        c3: usize,
    ) -> (s: i32)
        requires
            self@.cells.len() == 42,
            self@.heights.len() == 7,
            r0 < 6 && c0 < 7 && r1 < 6 && c1 < 7 && r2 < 6 && c2 < 7 && r3 < 6 && c3 < 7,
        ensures
            s as int == self@.window_value(
                color,
                r0 as int,
                c0 as int,
                r1 as int,
                c1 as int,
                r2 as int,
                c2 as int,
                r3 as int,
                c3 as int,
            ),
    {
        let mut own: i32 = 0;
        let mut opp: i32 = 0;
        let mut ep: i32 = 0;
        let mut en: i32 = 0;
        match self.board[r0 * 7 + c0] {
            None => {
                if self.column_heights[c0] >= 5 - r0 {
                    ep = ep + 1;
                } else {
                    en = en + 1;
                }
            },
            Some(x) => {
                if x == color {
                    own = own + 1;
                } else {
                    opp = opp + 1;
                }
            },
        }
        match self.board[r1 * 7 + c1] {
            None => {
                if self.column_heights[c1] >= 5 - r1 {
                    ep = ep + 1;
                } else {
                    en = en + 1;
                }
            },
            Some(x) => {
                if x == color {
                    own = own + 1;
                } else {
                    opp = opp + 1;
                }
            },
        }
        match self.board[r2 * 7 + c2] {
            None => {
                if self.column_heights[c2] >= 5 - r2 {
                    ep = ep + 1;
                } else {
                    en = en + 1;
                }
            },
            Some(x) => {
                if x == color {
                    own = own + 1;
                } else {
                    opp = opp + 1;
                }
            },
        }
        match self.board[r3 * 7 + c3] {
            None => {
                if self.column_heights[c3] >= 5 - r3 {
                    ep = ep + 1;
                } else {
                    en = en + 1;
                }
            },
            Some(x) => {
                if x == color {
                    own = own + 1;
                } else {
                    opp = opp + 1;
                }
            },
        }
        proof {
            let m = self@;
            assert(own == m.own_count(
                color,
                r0 as int,
                c0 as int,
                r1 as int,
                c1 as int,
                r2 as int,
                c2 as int,
                r3 as int,
                c3 as int,
            ));
            assert(opp == m.opp_count(
                color,
                r0 as int,
                c0 as int,
                r1 as int,
                c1 as int,
                r2 as int,
                c2 as int,
                r3 as int,
                c3 as int,
            ));
            assert(ep == m.empty_play_count(
                r0 as int,
                c0 as int,
                r1 as int,
                c1 as int,
                r2 as int,
                c2 as int,
                r3 as int,
                c3 as int,
            ));
            assert(en == m.empty_noplay_count(
                r0 as int,
                c0 as int,
                r1 as int,
                c1 as int,
                r2 as int,
                c2 as int,
                r3 as int,
                c3 as int,
            ));
        }
        if own > 0 && opp > 0 {
            return 0;
        }
        if own == 4 {
            100000
        } else if own == 3 {
            10
        } else if own == 2 {
            1
        } else if opp == 3 && ep == 1 && en == 0 {
            -10000
        } else if opp == 3 && ep == 0 && en == 1 {
            -20
        } else if opp == 2 {
            -3
        } else {
            0
        }
    }

    /// Calculates the heuristic score of the position for `color`: the
    /// sum of the values of every length-4 window plus 5 per own piece
    /// in the center column.
    pub fn calculate_score(&self, color: PieceColor) -> (s: i32)
        requires
            self@.cells.len() == 42,
            self@.heights.len() == 7,
        ensures
            s as int == self@.score(color),
    {
        let mut score: i32 = 0;
        // Rows.
        let mut r: usize = 0;
        while r < 6
            invariant
                self@.cells.len() == 42,
                self@.heights.len() == 7,
                r <= 6,
                score as int == self@.rows_from(color, 0) - self@.rows_from(color, r as int),
                -400000 * r <= score as int <= 400000 * r,
            decreases 6 - r,
        {
            let mut c: usize = 0;
            while c < 4
                invariant
                    self@.cells.len() == 42,
                    self@.heights.len() == 7,
                    r < 6,
                    c <= 4,
                    score as int == self@.rows_from(color, 0) - self@.rows_from(color, r as int)
                        + self@.row_windows_from(color, r as int, 0) - self@.row_windows_from(
                        color,
                        r as int,
                        c as int,
                    ),
                    -400000 * r - 100000 * c <= score as int <= 400000 * r + 100000 * c,
                decreases 4 - c,
            {
                let w = self.eval_window(color, r, c, r, c + 1, r, c + 2, r, c + 3);
                proof {
                    lemma_window_value_bound(
                        self@,
                        color,
                        r as int,
                        c as int,
                        r as int,
                        c as int + 1,
                        r as int,
                        c as int + 2,
                        r as int,
                        c as int + 3,
                    );
                }
                score = score + w;
                c = c + 1;
            }
            r = r + 1;
        }
        // Columns.
        let mut c: usize = 0;
        while c < 7
            invariant
                self@.cells.len() == 42,
                self@.heights.len() == 7,
                c <= 7,
                score as int == self@.rows_from(color, 0) + self@.cols_from(color, 0)
                    - self@.cols_from(color, c as int),
                -2400000 - 300000 * c <= score as int <= 2400000 + 300000 * c,
            decreases 7 - c,
        {
            let mut sr: usize = 0;
            while sr < 3
                invariant
                    self@.cells.len() == 42,
                    self@.heights.len() == 7,
                    c < 7,
                    sr <= 3,
                    score as int == self@.rows_from(color, 0) + self@.cols_from(color, 0)
                        - self@.cols_from(color, c as int) + self@.col_windows_from(
                        color,
                        c as int,
                        0,
                    ) - self@.col_windows_from(color, c as int, sr as int),
                    -2400000 - 300000 * c - 100000 * sr <= score as int <= 2400000 + 300000 * c
                        + 100000 * sr,
                decreases 3 - sr,
            {
                let w = self.eval_window(color, sr, c, sr + 1, c, sr + 2, c, sr + 3, c);
                proof {
                    lemma_window_value_bound(
                        self@,
                        color,
                        sr as int,
                        c as int,
                        sr as int + 1,
                        c as int,
                        sr as int + 2,
                        c as int,
                        sr as int + 3,
                        c as int,
                    );
                }
                score = score + w;
                sr = sr + 1;
            }
            c = c + 1;
        }
        // Upward diagonals.
        let mut r: usize = 3;
        while r < 6
            invariant
                self@.cells.len() == 42,
                self@.heights.len() == 7,
                3 <= r <= 6,
                score as int == self@.rows_from(color, 0) + self@.cols_from(color, 0)
                    + self@.du_from(color, 3) - self@.du_from(color, r as int),
                -4500000 - 400000 * (r - 3) <= score as int <= 4500000 + 400000 * (r - 3),
            decreases 6 - r,
        {
            let mut c: usize = 0;
            while c < 4
                invariant
                    self@.cells.len() == 42,
                    self@.heights.len() == 7,
                    3 <= r < 6,
                    c <= 4,
                    score as int == self@.rows_from(color, 0) + self@.cols_from(color, 0)
                        + self@.du_from(color, 3) - self@.du_from(color, r as int)
                        + self@.du_windows_from(color, r as int, 0) - self@.du_windows_from(
                        color,
                        r as int,
                        c as int,
                    ),
                    -4500000 - 400000 * (r - 3) - 100000 * c <= score as int <= 4500000 + 400000 * (
                    r - 3) + 100000 * c,
                decreases 4 - c,
            {
                let w = self.eval_window(color, r, c, r - 1, c + 1, r - 2, c + 2, r - 3, c + 3);
                proof {
                    lemma_window_value_bound(
                        self@,
                        color,
                        r as int,
                        c as int,
                        r as int - 1,
                        c as int + 1,
                        r as int - 2,
                        c as int + 2,
                        r as int - 3,
                        c as int + 3,
                    );
                }
                score = score + w;
                c = c + 1;
            }
            r = r + 1;
        }
        // Downward diagonals.
        let mut r: usize = 0;
        while r < 3
            invariant
                self@.cells.len() == 42,
                self@.heights.len() == 7,
                r <= 3,
                score as int == self@.rows_from(color, 0) + self@.cols_from(color, 0)
                    + self@.du_from(color, 3) + self@.dd_from(color, 0) - self@.dd_from(
                    color,
                    r as int,
                ),
                -5700000 - 400000 * r <= score as int <= 5700000 + 400000 * r,
            decreases 3 - r,
        {
            let mut c: usize = 0;
            while c < 4
                invariant
                    self@.cells.len() == 42,
                    self@.heights.len() == 7,
                    r < 3,
                    c <= 4,
                    score as int == self@.rows_from(color, 0) + self@.cols_from(color, 0)
                        + self@.du_from(color, 3) + self@.dd_from(color, 0) - self@.dd_from(
                        color,
                        r as int,
                    ) + self@.dd_windows_from(color, r as int, 0) - self@.dd_windows_from(
                        color,
                        r as int,
                        c as int,
                    ),
                    -5700000 - 400000 * r - 100000 * c <= score as int <= 5700000 + 400000 * r
                        + 100000 * c,
                decreases 4 - c,
            {
                let w = self.eval_window(color, r, c, r + 1, c + 1, r + 2, c + 2, r + 3, c + 3);
                proof {
                    lemma_window_value_bound(
                        self@,
                        color,
                        r as int,
                        c as int,
                        r as int + 1,
                        c as int + 1,
                        r as int + 2,
                        c as int + 2,
                        r as int + 3,
                        c as int + 3,
                    );
                }
                score = score + w;
                c = c + 1;
            }
            r = r + 1;
        }
        // Center-column bonus.
        let mut r: usize = 0;
        while r < 6
            invariant
                self@.cells.len() == 42,
                self@.heights.len() == 7,
                r <= 6,
                score as int == self@.rows_from(color, 0) + self@.cols_from(color, 0)
                    + self@.du_from(color, 3) + self@.dd_from(color, 0) + self@.center_from(
                    color,
                    0,
                ) - self@.center_from(color, r as int),
                -6900000 <= score as int <= 6900000 + 5 * r,
            decreases 6 - r,
        {
            match self.board[r * 7 + 3] {
                None => {},
                Some(x) => {
                    if x == color {
                        score = score + 5;
                    }
                },
            }
            r = r + 1;
        }
        score
    }

    /// Renders the position as text: a heading line, the grid with
    /// `-`, `R` and `Y` cells (top row first, each cell followed by a
    /// blank), and the column labels.
    pub fn render(&self) -> (s: String)
        requires
            self@.cells.len() == 42,
        ensures
            s@ == self@.render_chars(),
    {
        let mut s = String::new();
        s.append("\nCurrent Board:\n");
        proof {
            assert(Seq::<char>::empty() + "\nCurrent Board:\n"@ =~= "\nCurrent Board:\n"@);
        }
        let mut r: usize = 0;
        while r < 6
            invariant
                self@.cells.len() == 42,
                r <= 6,
                s@ + self@.grid_chars(r as int) + "0 1 2 3 4 5 6\n"@ == self@.render_chars(),
            decreases 6 - r,
        {
            proof {
                assert(s@ + (self@.row_chars(r as int, 0) + self@.grid_chars(r as int + 1)) =~= s@
                    + self@.row_chars(r as int, 0) + self@.grid_chars(r as int + 1));
            }
            let mut c: usize = 0;
            while c < 7
                invariant
                    self@.cells.len() == 42,
                    r < 6,
                    c <= 7,
                    s@ + self@.row_chars(r as int, c as int) + self@.grid_chars(r as int + 1)
                        + "0 1 2 3 4 5 6\n"@ == self@.render_chars(),
                decreases 7 - c,
            {
                let ghost pre = s@;
                match self.board[r * 7 + c] {
                    None => {
                        s.append("- ");
                        proof {
                            reveal_strlit("- ");
                            assert("- "@ =~= seq![self@.cell_char(r as int, c as int), ' ']);
                        }
                    },
                    Some(PieceColor::RED) => {
                        s.append("R ");
                        proof {
                            reveal_strlit("R ");
                            assert("R "@ =~= seq![self@.cell_char(r as int, c as int), ' ']);
                        }
                    },
                    Some(PieceColor::YELLOW) => {
                        s.append("Y ");
                        proof {
                            reveal_strlit("Y ");
                            assert("Y "@ =~= seq![self@.cell_char(r as int, c as int), ' ']);
                        }
                    },
                }
                proof {
                    assert(pre + (seq![self@.cell_char(r as int, c as int), ' ']
                        + self@.row_chars(r as int, c as int + 1)) =~= s@ + self@.row_chars(
                        r as int,
                        c as int + 1,
                    ));
                }
                c = c + 1;
            }
            s.append("\n");
            proof {
                reveal_strlit("\n");
                assert(self@.row_chars(r as int, 7) =~= "\n"@);
            }
            r = r + 1;
        }
        proof {
            assert(s@ + self@.grid_chars(6) =~= s@);
        }
        s.append("0 1 2 3 4 5 6\n");
        s
    }

    /// Gets the columns ordered by distance from the center.
    pub fn get_columns(&self) -> (r: [usize; 7])
        ensures
            r@ =~= seq![3usize, 2usize, 4usize, 1usize, 5usize, 0usize, 6usize],
    {
        [3, 2, 4, 1, 5, 0, 6]
    }
}

impl Clone for Connect4 {
    /// An identical copy of the position.
    fn clone(&self) -> (r: Self)
        ensures
            r@ == self@,
    {
        let mut board: Vec<Option<PieceColor>> = Vec::new();
        let mut i: usize = 0;
        while i < self.board.len()
            invariant
                i <= self.board@.len(),
                board@.len() == i,
                forall|k: int| 0 <= k < i ==> board@[k] == self.board@[k],
            decreases self.board@.len() - i,
        {
            board.push(self.board[i]);
            i = i + 1;
        }
        let mut heights: Vec<usize> = Vec::new();
        let mut c: usize = 0;
        while c < self.column_heights.len()
            invariant
                c <= self.column_heights@.len(),
                heights@.len() == c,
                forall|k: int| 0 <= k < c ==> heights@[k] == self.column_heights@[k],
            decreases self.column_heights@.len() - c,
        {
            heights.push(self.column_heights[c]);
            c = c + 1;
        }
        let r = Connect4 {
            board,
            active_player: self.active_player,
            moves_played: self.moves_played,
            is_terminal: self.is_terminal,
            winner: self.winner,
            column_heights: heights,
        };
        proof {
            assert(r.board@ =~= self.board@);
            assert(r.column_heights@ =~= self.column_heights@);
            assert(r@ =~= self@);
        }
        r
    }
}

} // verus!
