//! The TOOT-and-OTTO board: a 4-row by 6-column grid shared by two
//! players who both drop the letters T and O from a personal stock of
//! six of each.  TOOT wins by forming T-O-O-T, OTTO by forming
//! O-T-T-O, along any line of four; a drop completing both sequences
//! at once ends the game as a draw.

use crate::connect4::{lemma_seq_sum_bounds, lemma_seq_sum_update, seq_sum};
use crate::piece_letter::PieceLetter;
use crate::player::Player;
use vstd::prelude::*;
use vstd::string::StringExecFns;

verus! {

/// Mathematical model of a TOOT-and-OTTO position.
///
/// `cells` lists the 24 board cells row-major with row 0 at the top;
/// `counts` lists the remaining pieces as TOOT's T, TOOT's O, OTTO's
/// T, OTTO's O; `placed_toot` and `placed_otto` count the pieces each
/// player has dropped so far.
#[verifier::ext_equal]
pub ghost struct TOModel {
    pub cells: Seq<Option<PieceLetter>>,
    pub heights: Seq<int>,
    pub counts: Seq<int>,
    pub placed_toot: int,
    pub placed_otto: int,
    pub active: Player,
    pub moves: int,
    pub winner: Option<Player>,
    pub terminal: bool,
}

impl TOModel {
    /// Valid cell coordinates on the 4x6 grid.
    pub open spec fn in_range(r: int, c: int) -> bool {
        0 <= r < 4 && 0 <= c < 6
    }

    /// The cell at row `r`, column `c`.
    pub open spec fn cell(self, r: int, c: int) -> Option<PieceLetter> {
        self.cells[r * 6 + c]
    }

    /// Where a player's stock of a letter lives in `counts`.
    pub open spec fn count_index(p: Player, l: PieceLetter) -> int {
        (match p {
            Player::TOOT => 0int,
            Player::OTTO => 2int,
        }) + (match l {
            PieceLetter::T => 0int,
            PieceLetter::O => 1int,
        })
    }

    /// The letter a player needs at position `i` of a window: T-O-O-T
    /// for TOOT and O-T-T-O for OTTO.
    pub open spec fn pattern_at(p: Player, i: int) -> PieceLetter {
        match p {
            Player::TOOT => if i == 0 || i == 3 {
                PieceLetter::T
            } else {
                PieceLetter::O
            },
            Player::OTTO => if i == 0 || i == 3 {
                PieceLetter::O
            } else {
                PieceLetter::T
            },
        }
    }

    /// `(r, c)` starts a length-4 window of direction `(dr, dc)` that
    /// lies entirely on the grid.
    pub open spec fn win_window(r: int, c: int, dr: int, dc: int) -> bool {
        ||| (dr == 0 && dc == 1 && 0 <= r < 4 && 0 <= c < 3)
        ||| (dr == 1 && dc == 0 && r == 0 && 0 <= c < 6)
        ||| (dr == -1 && dc == 1 && r == 3 && 0 <= c < 3)
        ||| (dr == 1 && dc == 1 && r == 0 && 0 <= c < 3)
    }

    /// The window starting at `(r, c)` spells the player's sequence.
    pub open spec fn wins_at(self, p: Player, r: int, c: int, dr: int, dc: int) -> bool {
        &&& self.cell(r, c) == Some(Self::pattern_at(p, 0))
        &&& self.cell(r + dr, c + dc) == Some(Self::pattern_at(p, 1))
        &&& self.cell(r + 2 * dr, c + 2 * dc) == Some(Self::pattern_at(p, 2))
        &&& self.cell(r + 3 * dr, c + 3 * dc) == Some(Self::pattern_at(p, 3))
    }

    /// Some window of four on the grid spells the player's sequence.
    pub open spec fn has_win(self, p: Player) -> bool {
        exists|r: int, c: int, dr: int, dc: int|
            Self::win_window(r, c, dr, dc) && #[trigger] self.wins_at(p, r, c, dr, dc)
    }

    /// A drop of `letter` into `col` is accepted: the column exists,
    /// the game is still running, the column is not full, and the
    /// active player still has such a piece.
    pub open spec fn legal(self, letter: PieceLetter, col: int) -> bool {
        &&& 0 <= col < 6
        &&& !self.terminal
        &&& self.heights[col] < 4
        &&& self.counts[Self::count_index(self.active, letter)] > 0
    }

    /// The position after a legal drop of `letter` into `col`: the
    /// letter lands on the lowest empty row, the active player's stock
    /// of it shrinks by one, both target sequences are checked, and
    /// the turn passes.  Completing exactly one sequence decides the
    /// game for its owner; completing both at once ends it drawn.
    pub open spec fn drop_result(self, letter: PieceLetter, col: int) -> TOModel {
        let row = 3 - self.heights[col];
        let ci = Self::count_index(self.active, letter);
        let placed = TOModel {
            cells: self.cells.update(row * 6 + col, Some(letter)),
            heights: self.heights.update(col, self.heights[col] + 1),
            counts: self.counts.update(ci, self.counts[ci] - 1),
            moves: self.moves + 1,
            placed_toot: if self.active is TOOT {
                self.placed_toot + 1
            } else {
                self.placed_toot
            },
            placed_otto: if self.active is OTTO {
                self.placed_otto + 1
            } else {
                self.placed_otto
            },
            ..self
        };
        let tw = placed.has_win(Player::TOOT);
        let ow = placed.has_win(Player::OTTO);
        let w = if tw && ow {
            None
        } else if tw {
            Some(Player::TOOT)
        } else if ow {
            Some(Player::OTTO)
        } else {
            None
        };
        TOModel {
            winner: w,
            terminal: tw || ow || placed.moves == 24,
            active: self.active.spec_switch(),
            ..placed
        }
    }

    /// Well-formedness: the grid is 4x6 with gravity, the heights sum
    /// to the move count, both players' stocks and drop counts add up
    /// to their twelve starting pieces, the drops of both players add
    /// up to the move count, the terminal flag tracks winner, fullness
    /// and simultaneous completion, a recorded winner has their
    /// sequence on the board, and a running game shows no completed
    /// sequence at all.
    pub open spec fn wf(self) -> bool {
        &&& self.cells.len() == 24
        &&& self.heights.len() == 6
        &&& self.counts.len() == 4
        &&& forall|c: int| 0 <= c < 6 ==> 0 <= #[trigger] self.heights[c] <= 4
        &&& forall|r: int, c: int|
            Self::in_range(r, c) ==> (#[trigger] self.cell(r, c) is Some <==> 4 - self.heights[c]
                <= r)
        &&& self.moves == seq_sum(self.heights)
        &&& 0 <= self.moves <= 24
        &&& forall|i: int| 0 <= i < 4 ==> 0 <= #[trigger] self.counts[i] <= 6
        &&& self.placed_toot >= 0
        &&& self.placed_otto >= 0
        &&& self.counts[0] + self.counts[1] + self.placed_toot == 12
        &&& self.counts[2] + self.counts[3] + self.placed_otto == 12
        &&& self.placed_toot + self.placed_otto == self.moves
        &&& self.active == (if self.moves % 2 == 0 {
            Player::TOOT
        } else {
            Player::OTTO
        })
        &&& self.placed_toot == (self.moves + 1) / 2
        &&& self.placed_otto == self.moves / 2
        &&& (self.terminal <==> (self.winner is Some || self.moves == 24 || (self.has_win(
            Player::TOOT,
        ) && self.has_win(Player::OTTO))))
        &&& (match self.winner {
            Some(p) => self.has_win(p),
            None => true,
        })
        &&& (!self.terminal ==> !self.has_win(Player::TOOT) && !self.has_win(Player::OTTO))
    }

    /// The character a cell prints as: `-` empty, else its letter.
    pub open spec fn cell_char(self, r: int, c: int) -> char {
        match self.cell(r, c) {
            None => '-',
            Some(PieceLetter::T) => 'T',
            Some(PieceLetter::O) => 'O',
        }
    }

    /// The printed characters of row `r` from column `c` on: each cell
    /// followed by a blank, the row closed by a newline.
    pub open spec fn row_chars(self, r: int, c: int) -> Seq<char>
        decreases 6 - c,
    {
        if c < 0 || c >= 6 {
            seq!['\n']
        } else {
            seq![self.cell_char(r, c), ' '] + self.row_chars(r, c + 1)
        }
    }

    /// The printed characters of rows `r` and below.
    pub open spec fn grid_chars(self, r: int) -> Seq<char>
        decreases 4 - r,
    {
        if r < 0 || r >= 4 {
            Seq::empty()
        } else {
            self.row_chars(r, 0) + self.grid_chars(r + 1)
        }
    }

    /// The full rendering: a heading, the grid top row first, and the
    /// column labels.
    pub open spec fn render_chars(self) -> Seq<char> {
        "\nCurrent Board:\n"@ + self.grid_chars(0) + "0 1 2 3 4 5\n"@
    }

    /// The empty starting position: no pieces down, six of each letter
    /// in both stocks, TOOT to move.
    pub open spec fn init() -> TOModel {
        TOModel {
            cells: Seq::new(24, |i: int| None),
            heights: Seq::new(6, |c: int| 0),
            counts: Seq::new(4, |i: int| 6),
            placed_toot: 0,
            placed_otto: 0,
            active: Player::TOOT,
            moves: 0,
            winner: None,
            terminal: false,
        }
    }

    /// 1 when the cell holds the letter the player needs at window
    /// position `i`.
    pub open spec fn own_at(self, p: Player, i: int, r: int, c: int) -> int {
        if self.cell(r, c) == Some(Self::pattern_at(p, i)) {
            1
        } else {
            0
        }
    }

    /// 1 when the cell is filled with the wrong letter for position
    /// `i`.
    pub open spec fn opp_at(self, p: Player, i: int, r: int, c: int) -> int {
        if self.cell(r, c) is Some && self.cell(r, c) != Some(Self::pattern_at(p, i)) {
            1
        } else {
            0
        }
    }

    /// 1 when the cell is empty and the next drop into its column
    /// would land exactly here.
    pub open spec fn empty_play_at(self, r: int, c: int) -> int {
        if self.cell(r, c) is None && self.heights[c] >= 3 - r {
            1
        } else {
            0
        }
    }

    /// 1 when the cell is empty and not immediately reachable.
    pub open spec fn empty_noplay_at(self, r: int, c: int) -> int {
        if self.cell(r, c) is None && self.heights[c] < 3 - r {
            1
        } else {
            0
        }
    }

    /// Heuristic value of one window for player `p`, scored like the
    /// Connect Four windows but matching each cell against the letter
    /// the player's sequence needs at that position.
    pub open spec fn window_value(
        self,
        p: Player,
        r0: int,
        c0: int,
        r1: int,
        c1: int,
        r2: int,
        c2: int,
        r3: int,
        c3: int,
    ) -> int {
        let own = self.own_at(p, 0, r0, c0) + self.own_at(p, 1, r1, c1) + self.own_at(p, 2, r2, c2)
            + self.own_at(p, 3, r3, c3);
        let opp = self.opp_at(p, 0, r0, c0) + self.opp_at(p, 1, r1, c1) + self.opp_at(p, 2, r2, c2)
            + self.opp_at(p, 3, r3, c3);
        let ep = self.empty_play_at(r0, c0) + self.empty_play_at(r1, c1) + self.empty_play_at(
            r2,
            c2,
        ) + self.empty_play_at(r3, c3);
        let en = self.empty_noplay_at(r0, c0) + self.empty_noplay_at(r1, c1)
            + self.empty_noplay_at(r2, c2) + self.empty_noplay_at(r3, c3);
        if own > 0 && opp > 0 {
            0
        } else if own == 4 {
            100000
        } else if own == 3 {
            10
        } else if own == 2 {
            1
        } else if opp == 3 && ep == 1 && en == 0 {
            -10000
        } else if opp == 3 && ep == 0 && en == 1 {
            -20
        } else if opp == 2 {
            -3
        } else {
            0
        }
    }

    /// Sum of the row windows of row `r` from column `c` rightward.
    pub open spec fn row_windows_from(self, p: Player, r: int, c: int) -> int
        decreases 3 - c,
    {
        if c < 0 || c >= 3 {
            0
        } else {
            self.window_value(p, r, c, r, c + 1, r, c + 2, r, c + 3) + self.row_windows_from(
                p,
                r,
                c + 1,
            )
        }
    }

    /// Sum of the row windows of rows `r` and below.
    pub open spec fn rows_from(self, p: Player, r: int) -> int
        decreases 4 - r,
    {
        if r < 0 || r >= 4 {
            0
        } else {
            self.row_windows_from(p, r, 0) + self.rows_from(p, r + 1)
        }
    }

    /// Sum of the single column window of columns `c` and rightward.
    pub open spec fn cols_from(self, p: Player, c: int) -> int
        decreases 6 - c,
    {
        if c < 0 || c >= 6 {
            0
        } else {
            self.window_value(p, 0, c, 1, c, 2, c, 3, c) + self.cols_from(p, c + 1)
        }
    }

    /// Sum of the upward-diagonal windows from column `c` rightward.
    pub open spec fn du_from(self, p: Player, c: int) -> int
        decreases 3 - c,
    {
        if c < 0 || c >= 3 {
            0
        } else {
            self.window_value(p, 3, c, 2, c + 1, 1, c + 2, 0, c + 3) + self.du_from(p, c + 1)
        }
    }

    /// Sum of the downward-diagonal windows from column `c` rightward.
    pub open spec fn dd_from(self, p: Player, c: int) -> int
        decreases 3 - c,
    {
        if c < 0 || c >= 3 {
            0
        } else {
            self.window_value(p, 0, c, 1, c + 1, 2, c + 2, 3, c + 3) + self.dd_from(p, c + 1)
        }
    }

    /// The heuristic score of the position for player `p`: the sum of
    /// the values of all 24 windows.  There is no center bonus.
    pub open spec fn score(self, p: Player) -> int {
        self.rows_from(p, 0) + self.cols_from(p, 0) + self.du_from(p, 0) + self.dd_from(p, 0)
    }
}

/// Each window is worth at most 100000 in either direction.
pub proof fn lemma_window_value_bound_to(
    m: TOModel,
    p: Player,
    r0: int,
    c0: int,
    r1: int,
    c1: int,
    r2: int,
    c2: int,
    r3: int,
    c3: int,
)
    ensures
        -100000 <= m.window_value(p, r0, c0, r1, c1, r2, c2, r3, c3) <= 100000,
{
}

/// A running game always has a column left to drop into and a letter
/// the active player can still supply.
pub proof fn lemma_exists_legal_to(m: TOModel)
    requires
        m.wf(),
        !m.terminal,
    ensures
        exists|l: PieceLetter, c: int| #[trigger] m.legal(l, c),
{
    assert(m.moves < 24);
    if !(exists|c: int| 0 <= c < 6 && #[trigger] m.heights[c] < 4) {
        assert forall|c: int| 0 <= c < 6 implies 4 <= #[trigger] m.heights[c] <= 4 by {}
        lemma_seq_sum_bounds(m.heights, 4, 4);
        assert(false);
    }
    let c = choose|c: int| 0 <= c < 6 && #[trigger] m.heights[c] < 4;
    if m.active is TOOT {
        assert(m.moves % 2 == 0);
        assert(m.placed_toot <= 11);
        if m.counts[0] > 0 {
            assert(m.legal(PieceLetter::T, c));
        } else {
            assert(m.counts[1] > 0);
            assert(m.legal(PieceLetter::O, c));
        }
    } else {
        assert(m.placed_otto <= 11);
        if m.counts[2] > 0 {
            assert(m.legal(PieceLetter::T, c));
        } else {
            assert(m.counts[3] > 0);
            assert(m.legal(PieceLetter::O, c));
        }
    }
}

pub proof fn lemma_row_windows_bound_to(m: TOModel, p: Player, r: int, c: int)
    requires
        0 <= c <= 3,
    ensures
        -100000 * (3 - c) <= m.row_windows_from(p, r, c) <= 100000 * (3 - c),
    decreases 3 - c,
{
    if c < 3 {
        lemma_window_value_bound_to(m, p, r, c, r, c + 1, r, c + 2, r, c + 3);
        lemma_row_windows_bound_to(m, p, r, c + 1);
    }
}

pub proof fn lemma_rows_bound_to(m: TOModel, p: Player, r: int)
    requires
        0 <= r <= 4,
    ensures
        -300000 * (4 - r) <= m.rows_from(p, r) <= 300000 * (4 - r),
    decreases 4 - r,
{
    if r < 4 {
        lemma_row_windows_bound_to(m, p, r, 0);
        lemma_rows_bound_to(m, p, r + 1);
    }
}

pub proof fn lemma_cols_bound_to(m: TOModel, p: Player, c: int)
    requires
        0 <= c <= 6,
    ensures
        -100000 * (6 - c) <= m.cols_from(p, c) <= 100000 * (6 - c),
    decreases 6 - c,
{
    if c < 6 {
        lemma_window_value_bound_to(m, p, 0, c, 1, c, 2, c, 3, c);
        lemma_cols_bound_to(m, p, c + 1);
    }
}

pub proof fn lemma_du_bound_to(m: TOModel, p: Player, c: int)
    requires
        0 <= c <= 3,
    ensures
        -100000 * (3 - c) <= m.du_from(p, c) <= 100000 * (3 - c),
    decreases 3 - c,
{
    if c < 3 {
        lemma_window_value_bound_to(m, p, 3, c, 2, c + 1, 1, c + 2, 0, c + 3);
        lemma_du_bound_to(m, p, c + 1);
    }
}

pub proof fn lemma_dd_bound_to(m: TOModel, p: Player, c: int)
    requires
        0 <= c <= 3,
    ensures
        -100000 * (3 - c) <= m.dd_from(p, c) <= 100000 * (3 - c),
    decreases 3 - c,
{
    if c < 3 {
        lemma_window_value_bound_to(m, p, 0, c, 1, c + 1, 2, c + 2, 3, c + 3);
        lemma_dd_bound_to(m, p, c + 1);
    }
}

/// The heuristic score always stays far inside the `i32` range.
pub proof fn lemma_score_bound_to(m: TOModel, p: Player)
    ensures
        -2400000 <= m.score(p) <= 2400000,
{
    lemma_rows_bound_to(m, p, 0);
    lemma_cols_bound_to(m, p, 0);
    lemma_du_bound_to(m, p, 0);
    lemma_dd_bound_to(m, p, 0);
}

/// The number of moves played equals the sum of the column heights.
pub proof fn lemma_moves_is_height_sum_to(m: TOModel)
    requires
        m.wf(),
    ensures
        m.moves == seq_sum(m.heights),
{
}

/// Gravity: every cell below a filled cell in the same column is
/// filled as well.
pub proof fn lemma_gravity_to(m: TOModel, r: int, c: int, r2: int)
    requires
        m.wf(),
        TOModel::in_range(r, c),
        m.cell(r, c) is Some,
        r <= r2 < 4,
    ensures
        m.cell(r2, c) is Some,
{
    assert(TOModel::in_range(r2, c));
}

/// Piece conservation: each player's remaining stock of both letters
/// plus the pieces they have dropped always makes their twelve
/// starting pieces, and the two players' drops together make the move
/// count.
pub proof fn lemma_piece_conservation(m: TOModel)
    requires
        m.wf(),
    ensures
        m.counts[TOModel::count_index(Player::TOOT, PieceLetter::T)] + m.counts[TOModel::count_index(
            Player::TOOT,
            PieceLetter::O,
        )] + m.placed_toot == 12,
        m.counts[TOModel::count_index(Player::OTTO, PieceLetter::T)] + m.counts[TOModel::count_index(
            Player::OTTO,
            PieceLetter::O,
        )] + m.placed_otto == 12,
        m.placed_toot + m.placed_otto == m.moves,
{
}

/// A successful drop raises the chosen column's height and the move
/// count by exactly one, removes exactly one piece of the dropped
/// letter from the mover's stock, and leaves every other column and
/// stock entry alone.
pub proof fn lemma_drop_heights_to(m: TOModel, letter: PieceLetter, col: int)
    requires
        m.wf(),
        m.legal(letter, col),
    ensures
        m.drop_result(letter, col).heights[col] == m.heights[col] + 1,
        m.drop_result(letter, col).moves == m.moves + 1,
        forall|c: int|
            0 <= c < 6 && c != col ==> m.drop_result(letter, col).heights[c] == m.heights[c],
        m.drop_result(letter, col).counts[TOModel::count_index(m.active, letter)]
            == m.counts[TOModel::count_index(m.active, letter)] - 1,
        forall|i: int|
            0 <= i < 4 && i != TOModel::count_index(m.active, letter)
                ==> m.drop_result(letter, col).counts[i] == m.counts[i],
{
}

/// Once a position is terminal no drop is legal any more; `drop` then
/// fails and leaves the position unchanged.
pub proof fn lemma_terminal_rejects_to(m: TOModel, letter: PieceLetter, col: int)
    requires
        m.terminal,
    ensures
        !m.legal(letter, col),
{
}

/// A board with no cell filled has no completed sequence.
pub proof fn lemma_empty_no_win_to(m: TOModel, p: Player)
    requires
        forall|r: int, c: int| TOModel::in_range(r, c) ==> #[trigger] m.cell(r, c) is None,
    ensures
        !m.has_win(p),
{
    if m.has_win(p) {
        let (r, c, dr, dc) = choose|r: int, c: int, dr: int, dc: int|
            TOModel::win_window(r, c, dr, dc) && #[trigger] m.wins_at(p, r, c, dr, dc);
        assert(TOModel::in_range(r, c));
        assert(m.cell(r, c) is None);
    }
}

/// Two models with the same cells agree on every win.
pub proof fn lemma_has_win_same_cells_to(m1: TOModel, m2: TOModel, p: Player)
    requires
        m1.cells == m2.cells,
    ensures
        m1.has_win(p) == m2.has_win(p),
{
    if m1.has_win(p) {
        let (r, c, dr, dc) = choose|r: int, c: int, dr: int, dc: int|
            TOModel::win_window(r, c, dr, dc) && #[trigger] m1.wins_at(p, r, c, dr, dc);
        assert(m2.wins_at(p, r, c, dr, dc));
    }
    if m2.has_win(p) {
        let (r, c, dr, dc) = choose|r: int, c: int, dr: int, dc: int|
            TOModel::win_window(r, c, dr, dc) && #[trigger] m2.wins_at(p, r, c, dr, dc);
        assert(m1.wins_at(p, r, c, dr, dc));
    }
}

/// A legal drop preserves well-formedness.
pub proof fn lemma_drop_preserves_wf_to(m: TOModel, letter: PieceLetter, col: int)
    requires
        m.wf(),
        m.legal(letter, col),
    ensures
        m.drop_result(letter, col).wf(),
        m.drop_result(letter, col).moves == m.moves + 1,
{
    let h = m.heights[col];
    let row = 3 - h;
    let idx = row * 6 + col;
    let ci = TOModel::count_index(m.active, letter);
    let res = m.drop_result(letter, col);
    assert(0 <= idx < 24) by {
        assert(0 <= row < 4);
    }
    assert(0 <= ci < 4);
    lemma_seq_sum_update(m.heights, col, h + 1);
    assert forall|r: int, c: int|
        TOModel::in_range(r, c) implies (#[trigger] res.cell(r, c) is Some <==> 4 - res.heights[c]
        <= r) by {
        if c == col {
            if r == row {
                assert(res.cell(r, c) == Some(letter));
            } else {
                assert(r * 6 + c != idx);
                assert(res.cell(r, c) == m.cell(r, c));
            }
        } else {
            assert(r * 6 + c != idx);
            assert(res.cell(r, c) == m.cell(r, c));
        }
    }
    let placed = TOModel {
        cells: m.cells.update(idx, Some(letter)),
        heights: m.heights.update(col, h + 1),
        counts: m.counts.update(ci, m.counts[ci] - 1),
        moves: m.moves + 1,
        placed_toot: if m.active is TOOT {
            m.placed_toot + 1
        } else {
            m.placed_toot
        },
        placed_otto: if m.active is OTTO {
            m.placed_otto + 1
        } else {
            m.placed_otto
        },
        ..m
    };
    lemma_has_win_same_cells_to(placed, res, Player::TOOT);
    lemma_has_win_same_cells_to(placed, res, Player::OTTO);
}

/// A TOOT-and-OTTO position: the 4x6 grid (row-major, row 0 on top),
/// whose turn it is, the move count, the per-column piece counts, and
/// the remaining stock of each letter for each player, listed as
/// TOOT's T, TOOT's O, OTTO's T, OTTO's O.
pub struct TootAndOtto {
    pub board: Vec<Option<PieceLetter>>,
    pub winner: Option<Player>,
    pub active_player: Player,
    pub is_terminal: bool,
    pub moves_played: usize,
    pub column_heights: Vec<usize>,
    pub piece_counts: Vec<usize>,
    pub placed: Ghost<(int, int)>,
}

impl View for TootAndOtto {
    type V = TOModel;

    open spec fn view(&self) -> TOModel {
        TOModel {
            cells: self.board@,
            heights: self.column_heights@.map_values(|h: usize| h as int),
            counts: self.piece_counts@.map_values(|n: usize| n as int),
            placed_toot: self.placed@.0,
            placed_otto: self.placed@.1,
            active: self.active_player,
            moves: self.moves_played as int,
            winner: self.winner,
            terminal: self.is_terminal,
        }
    }
}

impl TootAndOtto {
    /// The invariant every position built by `new` and `drop` satisfies.
    pub open spec fn wf(self) -> bool {
        self@.wf()
    }

    /// Initializes an empty TOOT-and-OTTO board.
    pub fn new() -> (r: Self)
        ensures
            r@ == TOModel::init(),
            r.wf(),
    {
        let mut board: Vec<Option<PieceLetter>> = Vec::new();
        let mut i: usize = 0;
        while i < 24
            invariant
                i <= 24,
                board@.len() == i,
                forall|k: int| 0 <= k < i ==> board@[k] is None,
            decreases 24 - i,
        {
            board.push(None);
            i = i + 1;
        }
        let mut heights: Vec<usize> = Vec::new();
        let mut c: usize = 0;
        while c < 6
            invariant
                c <= 6,
                heights@.len() == c,
                forall|k: int| 0 <= k < c ==> heights@[k] == 0usize,
            decreases 6 - c,
        {
            heights.push(0);
            c = c + 1;
        }
        let mut counts: Vec<usize> = Vec::new();
        let mut j: usize = 0;
        while j < 4
            invariant
                j <= 4,
                counts@.len() == j,
                forall|k: int| 0 <= k < j ==> counts@[k] == 6usize,
            decreases 4 - j,
        {
            counts.push(6);
            j = j + 1;
        }
        let r = TootAndOtto {
            board,
            winner: None,
            active_player: Player::TOOT,
            is_terminal: false,
            moves_played: 0,
            column_heights: heights,
            piece_counts: counts,
            placed: Ghost((0, 0)),
        };
        proof {
            assert(r@.cells =~= TOModel::init().cells);
            assert(r@.heights =~= TOModel::init().heights);
            assert(r@.counts =~= TOModel::init().counts);
            assert(r@ =~= TOModel::init());
            lemma_seq_sum_bounds(r@.heights, 0, 0);
            assert forall|rr: int, cc: int|
                TOModel::in_range(rr, cc) implies #[trigger] r@.cell(rr, cc) is None by {
                assert(0 <= rr * 6 + cc < 24);
            }
            lemma_empty_no_win_to(r@, Player::TOOT);
            lemma_empty_no_win_to(r@, Player::OTTO);
        }
        r
    }

    /// The cell at `(row, col)`; row 0 is the top row.
    pub fn grid_at(&self, row: usize, col: usize) -> (r: Option<PieceLetter>)
        requires
            self@.cells.len() == 24,
            row < 4,
            col < 6,
        ensures
            r == self@.cell(row as int, col as int),
    {
        self.board[row * 6 + col]
    }

    /// Gets the number of chips that have been placed in a column.
    pub fn get_col_height(&self, col: usize) -> (r: usize)
        requires
            self.wf(),
            col < 6,
        ensures
            r == self@.heights[col as int],
    {
        self.column_heights[col]
    }

    /// How many pieces of `letter` the given player still holds.
    pub fn piece_count(&self, player: Player, letter: PieceLetter) -> (r: usize)
        requires
            self@.counts.len() == 4,
        ensures
            r == self@.counts[TOModel::count_index(player, letter)],
    {
        let ci = Self::count_idx(player, letter);
        self.piece_counts[ci]
    }

    /// Where a player's stock of a letter lives in `piece_counts`.
    fn count_idx(player: Player, letter: PieceLetter) -> (r: usize)
        ensures
            r as int == TOModel::count_index(player, letter),
            r < 4,
    {
        let p: usize = match player {
            Player::TOOT => 0,
            Player::OTTO => 2,
        };
        let l: usize = match letter {
            PieceLetter::T => 0,
            PieceLetter::O => 1,
        };
        p + l
    }

    /// True when the cell at `(row, col)` holds `letter`.
    fn is_letter(&self, row: usize, col: usize, letter: PieceLetter) -> (r: bool)
        requires
            self@.cells.len() == 24,
            row < 4,
            col < 6,
        ensures
            r == (self@.cell(row as int, col as int) == Some(letter)),
    {
        match self.board[row * 6 + col] {
            None => false,
            Some(x) => x == letter,
        }
    }

    /// Drops a piece of `letter` for the active player into `col`.
    /// Fails, leaving the position unchanged, when the column is out
    /// of range or full, the game is over, or the player has no piece
    /// of that letter left; otherwise the letter lands on the lowest
    /// empty row, both target sequences are checked, and the turn
    /// passes.
    pub fn drop(&mut self, letter: PieceLetter, col: usize) -> (ok: bool)
        requires
            old(self).wf(),
        ensures
            final(self).wf(),
            ok == old(self)@.legal(letter, col as int),
            ok ==> final(self)@ == old(self)@.drop_result(letter, col as int),
            !ok ==> *final(self) == *old(self),
    {
        if col >= 6 {
            return false;
        }
        if self.is_terminal {
            return false;
        }
        let ci = Self::count_idx(self.active_player, letter);
        let pc = self.piece_counts[ci];
        if pc == 0 {
            return false;
        }
        let col_height = self.column_heights[col];
        if col_height == 4 {
            return false;
        }
        let ghost m = self@;
        let row = 3 - col_height;
        let idx = row * 6 + col;
        assert(idx < 24);
        self.board[idx] = Some(letter);
        let ghost mid = self@;
        let toot_won = self.check_for_win(Player::TOOT);
        let otto_won = self.check_for_win(Player::OTTO);
        let tw = toot_won.is_some();
        let ow = otto_won.is_some();
        self.winner = if tw && ow {
            None
        } else if tw {
            Some(Player::TOOT)
        } else if ow {
            Some(Player::OTTO)
        } else {
            None
        };
        self.piece_counts[ci] = pc - 1;
        self.column_heights[col] = col_height + 1;
        self.moves_played = self.moves_played + 1;
        self.is_terminal = tw || ow || self.moves_played == 24;
        self.placed = Ghost(
            if m.active is TOOT {
                (m.placed_toot + 1, m.placed_otto)
            } else {
                (m.placed_toot, m.placed_otto + 1)
            },
        );
        self.active_player = self.active_player.switch();
        proof {
            let res = m.drop_result(letter, col as int);
            let placed = TOModel {
                cells: m.cells.update((3 - m.heights[col as int]) * 6 + col as int, Some(letter)),
                heights: m.heights.update(col as int, m.heights[col as int] + 1),
                counts: m.counts.update(
                    TOModel::count_index(m.active, letter),
                    m.counts[TOModel::count_index(m.active, letter)] - 1,
                ),
                moves: m.moves + 1,
                placed_toot: if m.active is TOOT {
                    m.placed_toot + 1
                } else {
                    m.placed_toot
                },
                placed_otto: if m.active is OTTO {
                    m.placed_otto + 1
                } else {
                    m.placed_otto
                },
                ..m
            };
            assert(self@.cells =~= placed.cells);
            assert(self@.heights =~= placed.heights);
            assert(self@.counts =~= placed.counts);
            lemma_has_win_same_cells_to(mid, placed, Player::TOOT);
            lemma_has_win_same_cells_to(mid, placed, Player::OTTO);
            assert(tw == placed.has_win(Player::TOOT));
            assert(ow == placed.has_win(Player::OTTO));
            assert(self@ =~= res);
            lemma_drop_preserves_wf_to(m, letter, col as int);
        }
        true
    }

    /// Scans every length-4 window for the player's target sequence;
    /// returns the first completed line found (rows, then columns,
    /// then upward diagonals, then downward diagonals), or `None` when
    /// the sequence appears nowhere.
    #[verifier::loop_isolation(false)]
    pub fn check_for_win(&self, player: Player) -> (r: Option<Vec<[usize; 2]>>)
        requires
            self@.cells.len() == 24,
        ensures
            r is Some <==> self@.has_win(player),
            match r {
                Some(l) => {
                    &&& l@.len() == 4
                    &&& exists|rr: int, cc: int, dr: int, dc: int|
                        {
                            &&& TOModel::win_window(rr, cc, dr, dc)
                            &&& #[trigger] self@.wins_at(player, rr, cc, dr, dc)
                            &&& forall|i: int|
                                0 <= i < 4 ==> (#[trigger] l@[i])[0] as int == rr + i * dr
                                    && l@[i][1] as int == cc + i * dc
                        }
                    &&& forall|i: int|
                        0 <= i < 4 ==> TOModel::in_range(
                            (#[trigger] l@[i])[0] as int,
                            l@[i][1] as int,
                        ) && self@.cell(l@[i][0] as int, l@[i][1] as int) == Some(
                            TOModel::pattern_at(player, i),
                        )
                },
                None => true,
            },
    {
        let (p0, p1, p2, p3) = match player {
            Player::TOOT => (PieceLetter::T, PieceLetter::O, PieceLetter::O, PieceLetter::T),
            Player::OTTO => (PieceLetter::O, PieceLetter::T, PieceLetter::T, PieceLetter::O),
        };
        proof {
            assert(p0 == TOModel::pattern_at(player, 0));
            assert(p1 == TOModel::pattern_at(player, 1));
            assert(p2 == TOModel::pattern_at(player, 2));
            assert(p3 == TOModel::pattern_at(player, 3));
        }
        // Rows.
        let mut r: usize = 0;
        while r < 4
            invariant
                self@.cells.len() == 24,
                r <= 4,
                forall|rr: int, cc: int|
                    0 <= rr < r && 0 <= cc < 3 ==> !self@.wins_at(player, rr, cc, 0, 1),
            decreases 4 - r,
        {
            let mut c: usize = 0;
            while c < 3
                invariant
                    self@.cells.len() == 24,
                    r < 4,
                    c <= 3,
                    forall|rr: int, cc: int|
                        0 <= rr < r && 0 <= cc < 3 ==> !self@.wins_at(player, rr, cc, 0, 1),
                    forall|cc: int| 0 <= cc < c ==> !self@.wins_at(player, r as int, cc, 0, 1),
                decreases 3 - c,
            {
                if self.is_letter(r, c, p0) && self.is_letter(r, c + 1, p1) && self.is_letter(
                    r,
                    c + 2,
                    p2,
                ) && self.is_letter(r, c + 3, p3) {
                    let mut line: Vec<[usize; 2]> = Vec::new();
                    line.push([r, c]);
                    line.push([r, c + 1]);
                    line.push([r, c + 2]);
                    line.push([r, c + 3]);
                    proof {
                        assert(self@.wins_at(player, r as int, c as int, 0, 1));
                        assert(TOModel::win_window(r as int, c as int, 0, 1));
                    }
                    return Some(line);
                }
                c = c + 1;
            }
            r = r + 1;
        }
        // Columns.
        let mut c: usize = 0;
        while c < 6
            invariant
                self@.cells.len() == 24,
                c <= 6,
                forall|rr: int, cc: int|
                    0 <= rr < 4 && 0 <= cc < 3 ==> !self@.wins_at(player, rr, cc, 0, 1),
                forall|cc: int| 0 <= cc < c ==> !self@.wins_at(player, 0, cc, 1, 0),
            decreases 6 - c,
        {
            if self.is_letter(0, c, p0) && self.is_letter(1, c, p1) && self.is_letter(2, c, p2)
                && self.is_letter(3, c, p3) {
                let mut line: Vec<[usize; 2]> = Vec::new();
                line.push([0, c]);
                line.push([1, c]);
                line.push([2, c]);
                line.push([3, c]);
                proof {
                    assert(self@.wins_at(player, 0, c as int, 1, 0));
                    assert(TOModel::win_window(0, c as int, 1, 0));
                }
                return Some(line);
            }
            c = c + 1;
        }
        // Upward diagonals.
        let mut c: usize = 0;
        while c < 3
            invariant
                self@.cells.len() == 24,
                c <= 3,
                forall|rr: int, cc: int|
                    0 <= rr < 4 && 0 <= cc < 3 ==> !self@.wins_at(player, rr, cc, 0, 1),
                forall|cc: int| 0 <= cc < 6 ==> !self@.wins_at(player, 0, cc, 1, 0),
                forall|cc: int| 0 <= cc < c ==> !(#[trigger] self@.wins_at(player, 3, cc, -1, 1)),
            decreases 3 - c,
        {
            if self.is_letter(3, c, p0) && self.is_letter(2, c + 1, p1) && self.is_letter(
                1,
                c + 2,
                p2,
            ) && self.is_letter(0, c + 3, p3) {
                let mut line: Vec<[usize; 2]> = Vec::new();
                line.push([3, c]);
                line.push([2, c + 1]);
                line.push([1, c + 2]);
                line.push([0, c + 3]);
                proof {
                    assert(self@.wins_at(player, 3, c as int, -1, 1));
                    assert(TOModel::win_window(3, c as int, -1, 1));
                }
                return Some(line);
            }
            c = c + 1;
        }
        // Downward diagonals.
        let mut c: usize = 0;
        while c < 3
            invariant
                self@.cells.len() == 24,
                c <= 3,
                forall|rr: int, cc: int|
                    0 <= rr < 4 && 0 <= cc < 3 ==> !self@.wins_at(player, rr, cc, 0, 1),
                forall|cc: int| 0 <= cc < 6 ==> !self@.wins_at(player, 0, cc, 1, 0),
                forall|cc: int| 0 <= cc < 3 ==> !(#[trigger] self@.wins_at(player, 3, cc, -1, 1)),
                forall|cc: int| 0 <= cc < c ==> !(#[trigger] self@.wins_at(player, 0, cc, 1, 1)),
            decreases 3 - c,
        {
            if self.is_letter(0, c, p0) && self.is_letter(1, c + 1, p1) && self.is_letter(
                2,
                c + 2,
                p2,
            ) && self.is_letter(3, c + 3, p3) {
                let mut line: Vec<[usize; 2]> = Vec::new();
                line.push([0, c]);
                line.push([1, c + 1]);
                line.push([2, c + 2]);
                line.push([3, c + 3]);
                proof {
                    assert(self@.wins_at(player, 0, c as int, 1, 1));
                    assert(TOModel::win_window(0, c as int, 1, 1));
                }
                return Some(line);
            }
            c = c + 1;
        }
        proof {
            if self@.has_win(player) {
                let (rr, cc, dr, dc) = choose|rr: int, cc: int, dr: int, dc: int|
                    TOModel::win_window(rr, cc, dr, dc) && #[trigger] self@.wins_at(
                        player,
                        rr,
                        cc,
                        dr,
                        dc,
                    );
                assert(false);
            }
        }
        None
    }

    /// Classifies the four cells of one window against the player's
    /// target sequence and returns its heuristic value.
    #[verifier::rlimit(50)]
    fn eval_window(
        &self,
        player: Player,
        r0: usize,
        c0: usize,
        r1: usize,
        c1: usize,
        r2: usize,
        c2: usize,
        r3: usize,
        c3: usize,
    ) -> (s: i32)
        requires
            self@.cells.len() == 24,
            self@.heights.len() == 6,
            r0 < 4 && c0 < 6 && r1 < 4 && c1 < 6 && r2 < 4 && c2 < 6 && r3 < 4 && c3 < 6,
        ensures
            s as int == self@.window_value(
                player,
                r0 as int,
                c0 as int,
                r1 as int,
                c1 as int,
                r2 as int,
                c2 as int,
                r3 as int,
                c3 as int,
            ),
    {
        let (p0, p1, p2, p3) = match player {
            Player::TOOT => (PieceLetter::T, PieceLetter::O, PieceLetter::O, PieceLetter::T),
            Player::OTTO => (PieceLetter::O, PieceLetter::T, PieceLetter::T, PieceLetter::O),
        };
        let mut own: i32 = 0;
        let mut opp: i32 = 0;
        let mut ep: i32 = 0;
        let mut en: i32 = 0;
        match self.board[r0 * 6 + c0] {
            None => {
                if self.column_heights[c0] >= 3 - r0 {
                    ep = ep + 1;
                } else {
                    en = en + 1;
                }
            },
            Some(x) => {
                if x == p0 {
                    own = own + 1;
                } else {
                    opp = opp + 1;
                }
            },
        }
        match self.board[r1 * 6 + c1] {
            None => {
                if self.column_heights[c1] >= 3 - r1 {
                    ep = ep + 1;
                } else {
                    en = en + 1;
                }
            },
            Some(x) => {
                if x == p1 {
                    own = own + 1;
                } else {
                    opp = opp + 1;
                }
            },
        }
        match self.board[r2 * 6 + c2] {
            None => {
                if self.column_heights[c2] >= 3 - r2 {
                    ep = ep + 1;
                } else {
                    en = en + 1;
                }
            },
            Some(x) => {
                if x == p2 {
                    own = own + 1;
                } else {
                    opp = opp + 1;
                }
            },
        }
        match self.board[r3 * 6 + c3] {
            None => {
                if self.column_heights[c3] >= 3 - r3 {
                    ep = ep + 1;
                } else {
                    en = en + 1;
                }
            },
            Some(x) => {
                if x == p3 {
                    own = own + 1;
                } else {
                    opp = opp + 1;
                }
            },
        }
        proof {
            let m = self@;
            assert(own == m.own_at(player, 0, r0 as int, c0 as int) + m.own_at(
                player,
                1,
                r1 as int,
                c1 as int,
            ) + m.own_at(player, 2, r2 as int, c2 as int) + m.own_at(
                player,
                3,
                r3 as int,
                c3 as int,
            ));
            assert(opp == m.opp_at(player, 0, r0 as int, c0 as int) + m.opp_at(
                player,
                1,
                r1 as int,
                c1 as int,
            ) + m.opp_at(player, 2, r2 as int, c2 as int) + m.opp_at(
                player,
                3,
                r3 as int,
                c3 as int,
            ));
            assert(ep == m.empty_play_at(r0 as int, c0 as int) + m.empty_play_at(
                r1 as int,
                c1 as int,
            ) + m.empty_play_at(r2 as int, c2 as int) + m.empty_play_at(r3 as int, c3 as int));
            assert(en == m.empty_noplay_at(r0 as int, c0 as int) + m.empty_noplay_at(
                r1 as int,
                c1 as int,
            ) + m.empty_noplay_at(r2 as int, c2 as int) + m.empty_noplay_at(r3 as int, c3 as int));
        }
        if own > 0 && opp > 0 {
            return 0;
        }
        if own == 4 {
            100000
        } else if own == 3 {
            10
        } else if own == 2 {
            1
        } else if opp == 3 && ep == 1 && en == 0 {
            -10000
        } else if opp == 3 && ep == 0 && en == 1 {
            -20
        } else if opp == 2 {
            -3
        } else {
            0
        }
    }

    /// Calculates the heuristic score of the position for player `p`:
    /// the sum of the values of every length-4 window.
    #[verifier::loop_isolation(false)]
    pub fn calculate_score(&self, player: Player) -> (s: i32)
        requires
            self@.cells.len() == 24,
            self@.heights.len() == 6,
        ensures
            s as int == self@.score(player),
    {
        let mut score: i32 = 0;
        // Rows.
        let mut r: usize = 0;
        while r < 4
            invariant
                r <= 4,
                score as int == self@.rows_from(player, 0) - self@.rows_from(player, r as int),
                -300000 * r <= score as int <= 300000 * r,
            decreases 4 - r,
        {
            let mut c: usize = 0;
            while c < 3
                invariant
                    r < 4,
                    c <= 3,
                    score as int == self@.rows_from(player, 0) - self@.rows_from(player, r as int)
                        + self@.row_windows_from(player, r as int, 0) - self@.row_windows_from(
                        player,
                        r as int,
                        c as int,
                    ),
                    -300000 * r - 100000 * c <= score as int <= 300000 * r + 100000 * c,
                decreases 3 - c,
            {
                let w = self.eval_window(player, r, c, r, c + 1, r, c + 2, r, c + 3);
                proof {
                    lemma_window_value_bound_to(
                        self@,
                        player,
                        r as int,
                        c as int,
                        r as int,
                        c as int + 1,
                        r as int,
                        c as int + 2,
                        r as int,
                        c as int + 3,
                    );
                }
                score = score + w;
                c = c + 1;
            }
            r = r + 1;
        }
        // Columns.
        let mut c: usize = 0;
        while c < 6
            invariant
                c <= 6,
                score as int == self@.rows_from(player, 0) + self@.cols_from(player, 0)
                    - self@.cols_from(player, c as int),
                -1200000 - 100000 * c <= score as int <= 1200000 + 100000 * c,
            decreases 6 - c,
        {
            let w = self.eval_window(player, 0, c, 1, c, 2, c, 3, c);
            proof {
                lemma_window_value_bound_to(
                    self@,
                    player,
                    0,
                    c as int,
                    1,
                    c as int,
                    2,
                    c as int,
                    3,
                    c as int,
                );
            }
            score = score + w;
            c = c + 1;
        }
        // Upward diagonals.
        let mut c: usize = 0;
        while c < 3
            invariant
                c <= 3,
                score as int == self@.rows_from(player, 0) + self@.cols_from(player, 0)
                    + self@.du_from(player, 0) - self@.du_from(player, c as int),
                -1800000 - 100000 * c <= score as int <= 1800000 + 100000 * c,
            decreases 3 - c,
        {
            let w = self.eval_window(player, 3, c, 2, c + 1, 1, c + 2, 0, c + 3);
            proof {
                lemma_window_value_bound_to(
                    self@,
                    player,
                    3,
                    c as int,
                    2,
                    c as int + 1,
                    1,
                    c as int + 2,
                    0,
                    c as int + 3,
                );
            }
            score = score + w;
            c = c + 1;
        }
        // Downward diagonals.
        let mut c: usize = 0;
        while c < 3
            invariant
                c <= 3,
                score as int == self@.rows_from(player, 0) + self@.cols_from(player, 0)
                    + self@.du_from(player, 0) + self@.dd_from(player, 0) - self@.dd_from(
                    player,
                    c as int,
                ),
                -2100000 - 100000 * c <= score as int <= 2100000 + 100000 * c,
            decreases 3 - c,
        {
            let w = self.eval_window(player, 0, c, 1, c + 1, 2, c + 2, 3, c + 3);
            proof {
                lemma_window_value_bound_to(
                    self@,
                    player,
                    0,
                    c as int,
                    1,
                    c as int + 1,
                    2,
                    c as int + 2,
                    3,
                    c as int + 3,
                );
            }
            score = score + w;
            c = c + 1;
        }
        score
    }

    /// Renders the position as text: a heading line, the grid with
    /// `-`, `T` and `O` cells (top row first, each cell followed by a
    /// blank), and the column labels.
    pub fn render(&self) -> (s: String)
        requires
            self@.cells.len() == 24,
        ensures
            s@ == self@.render_chars(),
    {
        let mut s = String::new();
        s.append("\nCurrent Board:\n");
        proof {
            assert(Seq::<char>::empty() + "\nCurrent Board:\n"@ =~= "\nCurrent Board:\n"@);
        }
        let mut r: usize = 0;
        while r < 4
            invariant
                self@.cells.len() == 24,
                r <= 4,
                s@ + self@.grid_chars(r as int) + "0 1 2 3 4 5\n"@ == self@.render_chars(),
            decreases 4 - r,
        {
            proof {
                assert(s@ + (self@.row_chars(r as int, 0) + self@.grid_chars(r as int + 1)) =~= s@
                    + self@.row_chars(r as int, 0) + self@.grid_chars(r as int + 1));
            }
            let mut c: usize = 0;
            while c < 6
                invariant
                    self@.cells.len() == 24,
                    r < 4,
                    c <= 6,
                    s@ + self@.row_chars(r as int, c as int) + self@.grid_chars(r as int + 1)
                        + "0 1 2 3 4 5\n"@ == self@.render_chars(),
                decreases 6 - c,
            {
                let ghost pre = s@;
                match self.board[r * 6 + c] {
                    None => {
                        s.append("- ");
                        proof {
                            reveal_strlit("- ");
                            assert("- "@ =~= seq![self@.cell_char(r as int, c as int), ' ']);
                        }
                    },
                    Some(PieceLetter::T) => {
                        s.append("T ");
                        proof {
                            reveal_strlit("T ");
                            assert("T "@ =~= seq![self@.cell_char(r as int, c as int), ' ']);
                        }
                    },
                    Some(PieceLetter::O) => {
                        s.append("O ");
                        proof {
                            reveal_strlit("O ");
                            assert("O "@ =~= seq![self@.cell_char(r as int, c as int), ' ']);
                        }
                    },
                }
                proof {
                    assert(pre + (seq![self@.cell_char(r as int, c as int), ' ']
                        + self@.row_chars(r as int, c as int + 1)) =~= s@ + self@.row_chars(
                        r as int,
                        c as int + 1,
                    ));
                }
                c = c + 1;
            }
            s.append("\n");
            proof {
                reveal_strlit("\n");
                assert(self@.row_chars(r as int, 6) =~= "\n"@);
            }
            r = r + 1;
        }
        proof {
            assert(s@ + self@.grid_chars(4) =~= s@);
        }
        s.append("0 1 2 3 4 5\n");
        s
    }

    /// Gets the columns ordered by distance from the center.
    pub fn get_columns(&self) -> (r: [usize; 6])
        ensures
            r@ =~= seq![2usize, 3usize, 1usize, 4usize, 0usize, 5usize],
    {
        [2, 3, 1, 4, 0, 5]
    }
}

impl Clone for TootAndOtto {
    /// An identical copy of the position.
    fn clone(&self) -> (r: Self)
        ensures
            r@ == self@,
    {
        let mut board: Vec<Option<PieceLetter>> = Vec::new();
        let mut i: usize = 0;
        while i < self.board.len()
            invariant
                i <= self.board@.len(),
                board@.len() == i,
                forall|k: int| 0 <= k < i ==> board@[k] == self.board@[k],
            decreases self.board@.len() - i,
        {
            board.push(self.board[i]);
            i = i + 1;
        }
        let mut heights: Vec<usize> = Vec::new();
        let mut c: usize = 0;
        while c < self.column_heights.len()
            invariant
                c <= self.column_heights@.len(),
                heights@.len() == c,
                forall|k: int| 0 <= k < c ==> heights@[k] == self.column_heights@[k],
            decreases self.column_heights@.len() - c,
        {
            heights.push(self.column_heights[c]);
            c = c + 1;
        }
        let mut counts: Vec<usize> = Vec::new();
        let mut j: usize = 0;
        while j < self.piece_counts.len()
            invariant
                j <= self.piece_counts@.len(),
                counts@.len() == j,
                forall|k: int| 0 <= k < j ==> counts@[k] == self.piece_counts@[k],
            decreases self.piece_counts@.len() - j,
        {
            counts.push(self.piece_counts[j]);
            j = j + 1;
        }
        let r = TootAndOtto {
            board,
            winner: self.winner,
            active_player: self.active_player,
            is_terminal: self.is_terminal,
            moves_played: self.moves_played,
            column_heights: heights,
            piece_counts: counts,
            placed: Ghost(self.placed@),
        };
        proof {
            assert(r.board@ =~= self.board@);
            assert(r.column_heights@ =~= self.column_heights@);
            assert(r.piece_counts@ =~= self.piece_counts@);
            assert(r@ =~= self@);
        }
        r
    }
}

} // verus!
