//! The medium Connect Four computer opponent: it wins on the spot
//! when it can, blocks the opponent's immediate win otherwise, and
//! else takes the most central column that does not hand the opponent
//! a win on the next exchange.

use crate::connect4::{C4Model, Connect4};
use crate::piece_color::PieceColor;
use vstd::prelude::*;

verus! {

/// Dropping a piece of `color` into `col` would complete a line of
/// four for `color`.
pub open spec fn wins_by(m: C4Model, color: PieceColor, col: int) -> bool {
    let m1 = C4Model { active: color, ..m };
    m1.legal(col) && m1.drop_result(col).winner == Some(color)
}

/// The position after forcing a piece of `color` into `col`, when
/// that is possible; otherwise the position with only the turn handed
/// to `color`.
pub open spec fn after_try_drop(m: C4Model, color: PieceColor, col: int) -> C4Model {
    let m1 = C4Model { active: color, ..m };
    if m1.legal(col) {
        m1.drop_result(col)
    } else {
        m1
    }
}

/// Dropping Yellow into `col` lets Red win by answering in the same
/// column.
pub open spec fn setup_move(m: C4Model, col: int) -> bool {
    after_try_drop(after_try_drop(m, PieceColor::YELLOW, col), PieceColor::RED, col).has_win(
        PieceColor::RED,
    )
}

/// The preference order of the fallback rule: central columns first,
/// columns that set the opponent up pushed to the very end.
pub open spec fn column_key(m: C4Model, col: int) -> int {
    if setup_move(m, col) {
        1000
    } else if col < 3 {
        3 - col
    } else {
        col - 3
    }
}

/// Checks if there is a move that will lead to a win for `color`;
/// returns the lowest-numbered such column.
pub fn check_for_winning_move(color: PieceColor, board: Connect4) -> (r: Option<usize>)
    requires
        board.wf(),
    ensures
        r is Some <==> exists|c: int| #[trigger] wins_by(board@, color, c),
        match r {
            Some(c) => c < 7 && wins_by(board@, color, c as int) && (forall|c2: int|
                0 <= c2 < c ==> !wins_by(board@, color, c2)),
            None => true,
        },
{
    let mut i: usize = 0;
    while i < 7
        invariant
            board.wf(),
            i <= 7,
            forall|c: int| 0 <= c < i ==> !wins_by(board@, color, c),
        decreases 7 - i,
    {
        let mut temp = board.clone();
        temp.active_player = color;
        let ghost m1 = temp@;
        proof {
            assert(m1 == (C4Model { active: color, ..board@ }));
            crate::connect4::lemma_wf_active(board@, color);
        }
        if temp.drop(i) {
            if match temp.winner {
                Some(w) => w == color,
                None => false,
            } {
                proof {
                    assert(wins_by(board@, color, i as int));
                }
                return Some(i);
            }
        }
        i = i + 1;
    }
    proof {
        if exists|c: int| #[trigger] wins_by(board@, color, c) {
            let c = choose|c: int| #[trigger] wins_by(board@, color, c);
            assert(0 <= c < 7);
            assert(false);
        }
    }
    None
}

/// Creates the list of moves that would let the opponent win by
/// answering in the same column.  These columns are avoided unless
/// they are the only options.
pub fn check_for_setup_moves(board: Connect4) -> (r: Vec<usize>)
    requires
        board.wf(),
    ensures
        forall|k: int| 0 <= k < r@.len() ==> (#[trigger] r@[k]) < 7,
        forall|c: int| 0 <= c < 7 ==> (setup_move(board@, c) <==> r@.contains(c as usize)),
{
    let mut bad: Vec<usize> = Vec::new();
    let mut i: usize = 0;
    while i < 7
        invariant
            board.wf(),
            i <= 7,
            forall|k: int| 0 <= k < bad@.len() ==> (#[trigger] bad@[k]) < i,
            forall|c: int| 0 <= c < i ==> (setup_move(board@, c) <==> bad@.contains(c as usize)),
        decreases 7 - i,
    {
        let ghost pre = bad@;
        let mut temp = board.clone();
        temp.active_player = PieceColor::YELLOW;
        proof {
            crate::connect4::lemma_wf_active(board@, PieceColor::YELLOW);
        }
        temp.drop(i);
        let ghost mid = after_try_drop(board@, PieceColor::YELLOW, i as int);
        proof {
            assert(temp@ == mid);
        }
        temp.active_player = PieceColor::RED;
        proof {
            crate::connect4::lemma_wf_active(mid, PieceColor::RED);
        }
        temp.drop(i);
        proof {
            assert(temp@ == after_try_drop(mid, PieceColor::RED, i as int));
        }
        let red_win = temp.check_for_win(PieceColor::RED);
        if red_win.is_some() {
            bad.push(i);
            proof {
                assert(bad@ == pre.push(i));
                assert(bad@[bad@.len() - 1] == i);
                assert(bad@.contains(i));
                assert forall|c: int| 0 <= c < i implies (setup_move(board@, c)
                    <==> bad@.contains(c as usize)) by {
                    if setup_move(board@, c) {
                        let k = choose|k: int| 0 <= k < pre.len() && pre[k] == c as usize;
                        assert(bad@[k] == c as usize);
                        assert(bad@.contains(c as usize));
                    }
                    if bad@.contains(c as usize) {
                        let k = choose|k: int| 0 <= k < bad@.len() && bad@[k] == c as usize;
                        if k < pre.len() {
                            assert(pre[k] == c as usize);
                            assert(pre.contains(c as usize));
                        } else {
                            assert(bad@[k] == i);
                            assert(false);
                        }
                    }
                }
            }
        } else {
            proof {
                assert(!setup_move(board@, i as int));
                assert forall|c: int| 0 <= c <= i implies (setup_move(board@, c)
                    <==> bad@.contains(c as usize)) by {}
            }
        }
        i = i + 1;
    }
    bad
}

/// Finds which columns in the board are still open, in ascending
/// order.
pub fn check_for_eligible_columns(board: Connect4) -> (r: Vec<usize>)
    requires
        board.wf(),
    ensures
        forall|k: int|
            0 <= k < r@.len() ==> (#[trigger] r@[k]) < 7 && board@.heights[r@[k] as int] < 6,
        forall|c: int| 0 <= c < 7 && board@.heights[c] < 6 ==> r@.contains(c as usize),
        forall|k1: int, k2: int| 0 <= k1 < k2 < r@.len() ==> r@[k1] < r@[k2],
{
    let mut eligible: Vec<usize> = Vec::new();
    let mut i: usize = 0;
    while i < 7
        invariant
            board.wf(),
            i <= 7,
            forall|k: int|
                0 <= k < eligible@.len() ==> (#[trigger] eligible@[k]) < i && board@.heights[
                    eligible@[k] as int
                ] < 6,
            forall|c: int| 0 <= c < i && board@.heights[c] < 6 ==> eligible@.contains(c as usize),
            forall|k1: int, k2: int|
                0 <= k1 < k2 < eligible@.len() ==> eligible@[k1] < eligible@[k2],
        decreases 7 - i,
    {
        let ghost pre = eligible@;
        if board.get_col_height(i) < 6 {
            eligible.push(i);
            proof {
                assert forall|c: int|
                    0 <= c < i + 1 && board@.heights[c] < 6 implies eligible@.contains(
                    c as usize,
                ) by {
                    if c < i {
                        let k = choose|k: int| 0 <= k < pre.len() && pre[k] == c as usize;
                        assert(eligible@[k] == c as usize);
                    } else {
                        assert(eligible@[eligible@.len() - 1] == i);
                    }
                }
            }
        }
        i = i + 1;
    }
    eligible
}

/// The medium opponent's move for Yellow: the lowest-numbered winning
/// column if one exists, else the lowest-numbered column that blocks
/// Red's immediate win, else the open column most preferred by the
/// fallback rule: smallest distance from the center, columns that set
/// Red up to win pushed behind all others, earlier columns winning
/// ties.
pub fn make_move(board: Connect4) -> (col: usize)
    requires
        board.wf(),
        !board@.terminal,
    ensures
        board@.legal(col as int),
        (exists|c: int| #[trigger] wins_by(board@, PieceColor::YELLOW, c)) ==> wins_by(
            board@,
            PieceColor::YELLOW,
            col as int,
        ),
        (!(exists|c: int| #[trigger] wins_by(board@, PieceColor::YELLOW, c)) && (exists|c: int|
            #[trigger] wins_by(board@, PieceColor::RED, c))) ==> wins_by(
            board@,
            PieceColor::RED,
            col as int,
        ),
        (!(exists|c: int| #[trigger] wins_by(board@, PieceColor::YELLOW, c)) && !(exists|c: int|
            #[trigger] wins_by(board@, PieceColor::RED, c))) ==> forall|c: int|
            0 <= c < 7 && board@.heights[c] < 6 ==> column_key(board@, col as int) < column_key(
                board@,
                c,
            ) || (column_key(board@, col as int) == column_key(board@, c) && col <= c),
{
    // The first priority is to check for a winning move.
    match check_for_winning_move(PieceColor::YELLOW, board.clone()) {
        Some(c) => {
            proof {
                let m1 = C4Model { active: PieceColor::YELLOW, ..board@ };
                assert(m1.legal(c as int) == board@.legal(c as int));
            }
            return c;
        },
        None => {},
    }
    // The second priority is to stop any winning move of the opponent.
    match check_for_winning_move(PieceColor::RED, board.clone()) {
        Some(c) => {
            return c;
        },
        None => {},
    }
    // Otherwise prefer central columns that do not set the opponent up.
    let bad = check_for_setup_moves(board.clone());
    let mut best: usize = 0;
    let mut best_key: i32 = 2000;
    let mut found = false;
    let mut i: usize = 0;
    while i < 7
        invariant
            board.wf(),
            i <= 7,
            forall|k: int| 0 <= k < bad@.len() ==> (#[trigger] bad@[k]) < 7,
            forall|c: int| 0 <= c < 7 ==> (setup_move(board@, c) <==> bad@.contains(c as usize)),
            !found ==> best_key == 2000 && (forall|c: int|
                0 <= c < i ==> board@.heights[c] >= 6),
            found ==> best < 7 && board@.heights[best as int] < 6 && best_key
                == column_key(board@, best as int) && best < i,
            found ==> forall|c: int|
                0 <= c < i && board@.heights[c] < 6 ==> best_key < column_key(board@, c) || (
                best_key == column_key(board@, c) && best <= c),
        decreases 7 - i,
    {
        if board.get_col_height(i) < 6 {
            let is_bad = contains_col(&bad, i);
            let key: i32 = if is_bad {
                1000
            } else if i < 3 {
                3 - i as i32
            } else {
                i as i32 - 3
            };
            proof {
                assert(key == column_key(board@, i as int));
            }
            if !found || key < best_key {
                best = i;
                best_key = key;
                found = true;
            }
        }
        i = i + 1;
    }
    proof {
        if !found {
            assert(board@.heights[0] >= 6);
            assert(board@.heights[0] <= 6);
            crate::connect4::lemma_exists_legal(board@);
            let c = choose|c: int| #[trigger] board@.legal(c);
            assert(false);
        }
    }
    best
}

/// True when the list holds the column.
fn contains_col(v: &Vec<usize>, x: usize) -> (r: bool)
    ensures
        r == v@.contains(x),
{
    let mut i: usize = 0;
    while i < v.len()
        invariant
            i <= v@.len(),
            forall|k: int| 0 <= k < i ==> v@[k] != x,
        decreases v@.len() - i,
    {
        if v[i] == x {
            return true;
        }
        i = i + 1;
    }
    proof {
        if v@.contains(x) {
            let k = choose|k: int| 0 <= k < v@.len() && v@[k] == x;
            assert(false);
        }
    }
    false
}

} // verus!
