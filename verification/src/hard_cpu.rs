//! The hard Connect Four computer opponent: a full-width search
//! without a depth limit that stops at immediate wins and full boards
//! and otherwise maximizes over the child scores.

use crate::connect4::{C4Model, Connect4};
use crate::medium_cpu::{check_for_winning_move, wins_by};
use crate::piece_color::PieceColor;
use vstd::prelude::*;

verus! {

/// The position after a piece of `p` is forced into `col`.
pub open spec fn drop_as(m: C4Model, p: PieceColor, col: int) -> C4Model {
    (C4Model { active: p, ..m }).drop_result(col)
}

/// The lowest-numbered column from `c` up whose drop completes a line
/// of four for `p`.
pub open spec fn first_win_from(m: C4Model, p: PieceColor, c: int) -> Option<int>
    decreases 7 - c,
{
    if c < 0 || c >= 7 {
        None
    } else if wins_by(m, p, c) {
        Some(c)
    } else {
        first_win_from(m, p, c + 1)
    }
}

/// The value the search gives to trying `col`, when the column is
/// open.
pub open spec fn neg_cand(m: C4Model, p: PieceColor, col: int) -> Option<int>
    decreases 42 - m.moves, 0int,
{
    if m.legal(col) && m.moves < 42 {
        Some(neg_value(drop_as(m, p, col), p.spec_switch()).0)
    } else {
        None
    }
}

/// One step of the column scan: a strictly better score takes over.
pub open spec fn neg_step(m: C4Model, p: PieceColor, acc: (int, int), col: int) -> (int, int)
    decreases 42 - m.moves, 1int,
{
    match neg_cand(m, p, col) {
        None => acc,
        Some(s) => if s > acc.0 {
            (s, col)
        } else {
            acc
        },
    }
}

/// The `(score, column)` pair the search returns for `p` to move: 0
/// for a full board, a move-count-discounted win score when `p` can
/// win at once, and otherwise the best score among the open columns
/// in ascending order, starting from -42.
pub open spec fn neg_value(m: C4Model, p: PieceColor) -> (int, int)
    decreases 42 - m.moves, 2int,
{
    if m.moves >= 42 {
        (0, 0)
    } else {
        match first_win_from(m, p, 0) {
            Some(c) => (43 - m.moves / 2, c),
            None => {
                let s0 = (-42int, 0int);
                let s1 = neg_step(m, p, s0, 0);
                let s2 = neg_step(m, p, s1, 1);
                let s3 = neg_step(m, p, s2, 2);
                let s4 = neg_step(m, p, s3, 3);
                let s5 = neg_step(m, p, s4, 4);
                let s6 = neg_step(m, p, s5, 5);
                neg_step(m, p, s6, 6)
            },
        }
    }
}

/// Tries one column and folds its score into the running best,
/// exactly as `neg_step` describes.
fn neg_consider(
    board: &Connect4,
    p: PieceColor,
    col: usize,
    best_score: &mut i32,
    best_col: &mut usize,
)
    requires
        board.wf(),
        board@.moves < 42,
        col < 7,
        -42 <= *old(best_score) <= 43,
    ensures
        (*final(best_score) as int, *final(best_col) as int) == neg_step(
            board@,
            p,
            (*old(best_score) as int, *old(best_col) as int),
            col as int,
        ),
        -42 <= *final(best_score) <= 43,
    decreases 42 - board@.moves, 0int,
{
    let mut next = board.clone();
    next.active_player = p;
    proof {
        crate::connect4::lemma_wf_active(board@, p);
    }
    if next.drop(col) {
        let r = negamax(next, p.switch());
        if r.0 > *best_score {
            *best_score = r.0;
            *best_col = col;
        }
    }
}

/// The full-width search.  Returns exactly the `(score, column)` pair
/// that `neg_value` describes for the given position and mover.
pub fn negamax(board: Connect4, active_player: PieceColor) -> (r: (i32, usize))
    requires
        board.wf(),
    ensures
        (r.0 as int, r.1 as int) == neg_value(board@, active_player),
        -42 <= r.0 <= 43,
    decreases 42 - board@.moves, 1int,
{
    if board.moves_played == 42 {
        return (0, 0);
    }
    match check_for_winning_move(active_player, board.clone()) {
        Some(col) => {
            proof {
                lemma_first_win_some(board@, active_player, col as int);
            }
            let s = (43 - board.moves_played / 2) as i32;
            return (s, col);
        },
        None => {
            proof {
                lemma_first_win_none(board@, active_player, 0);
            }
        },
    }
    let mut best_score: i32 = -42;
    let mut best_col: usize = 0;
    neg_consider(&board, active_player, 0, &mut best_score, &mut best_col);
    neg_consider(&board, active_player, 1, &mut best_score, &mut best_col);
    neg_consider(&board, active_player, 2, &mut best_score, &mut best_col);
    neg_consider(&board, active_player, 3, &mut best_score, &mut best_col);
    neg_consider(&board, active_player, 4, &mut best_score, &mut best_col);
    neg_consider(&board, active_player, 5, &mut best_score, &mut best_col);
    neg_consider(&board, active_player, 6, &mut best_score, &mut best_col);
    (best_score, best_col)
}

/// A winning column that every earlier column fails to match is what
/// the ascending scan finds.
proof fn lemma_first_win_some(m: C4Model, p: PieceColor, col: int)
    requires
        0 <= col < 7,
        wins_by(m, p, col),
        forall|c: int| 0 <= c < col ==> !wins_by(m, p, c),
    ensures
        first_win_from(m, p, 0) == Some(col),
{
    lemma_first_win_some_from(m, p, col, 0);
}

proof fn lemma_first_win_some_from(m: C4Model, p: PieceColor, col: int, c: int)
    requires
        0 <= c <= col < 7,
        wins_by(m, p, col),
        forall|k: int| c <= k < col ==> !wins_by(m, p, k),
    ensures
        first_win_from(m, p, c) == Some(col),
    decreases 7 - c,
{
    if c < col {
        lemma_first_win_some_from(m, p, col, c + 1);
    }
}

/// When no column wins, the ascending scan finds nothing.
proof fn lemma_first_win_none(m: C4Model, p: PieceColor, c: int)
    requires
        forall|k: int| !(#[trigger] wins_by(m, p, k)),
        0 <= c,
    ensures
        first_win_from(m, p, c) is None,
    decreases 7 - c,
{
    if c < 7 {
        lemma_first_win_none(m, p, c + 1);
    }
}

/// The hard opponent's move for Yellow: the column of the search.
pub fn make_move(board: Connect4) -> (col: usize)
    requires
        board.wf(),
    ensures
        col as int == neg_value(board@, PieceColor::YELLOW).1,
{
    let r = negamax(board, PieceColor::YELLOW);
    r.1
}

} // verus!
