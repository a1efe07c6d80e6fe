//! The Connect Four computer opponent with alpha-beta pruning: the
//! same depth-limited minimax as the plain search, carrying an
//! `(alpha, beta)` window that lets it skip siblings that can no
//! longer change the outcome.  Ties keep the earlier column, so the
//! result is deterministic; pruning is proven not to change the value
//! of the chosen move.

use crate::connect4::{
    lemma_drop_preserves_wf, lemma_exists_legal, C4Model, Connect4,
};
use crate::cpu::{
    cand_value, lemma_value_bounds, minimax_value, step_max, step_min, terminal_value,
};
use crate::piece_color::PieceColor;
use vstd::prelude::*;

verus! {

/// One step of the pruned maximizer scan.  The state is
/// `(value, column, alpha, cut)`: the best value and column so far,
/// the raised lower bound, and whether the scan has been cut off.
pub open spec fn ab_step_max(
    m: C4Model,
    depth: nat,
    beta: int,
    st: (int, int, int, bool),
    col: int,
) -> (int, int, int, bool)
    decreases depth, 0int,
{
    if st.3 {
        st
    } else if depth > 0 && m.legal(col) {
        let v = ab_value(m.drop_result(col), (depth - 1) as nat, st.2, beta, false);
        let value2 = if v > st.0 {
            v
        } else {
            st.0
        };
        let best2 = if v > st.0 {
            col
        } else {
            st.1
        };
        let alpha2 = if value2 > st.2 {
            value2
        } else {
            st.2
        };
        (value2, best2, alpha2, alpha2 >= beta)
    } else {
        st
    }
}

/// One step of the pruned minimizer scan; the state carries the
/// lowered upper bound instead.
pub open spec fn ab_step_min(
    m: C4Model,
    depth: nat,
    alpha: int,
    st: (int, int, int, bool),
    col: int,
) -> (int, int, int, bool)
    decreases depth, 0int,
{
    if st.3 {
        st
    } else if depth > 0 && m.legal(col) {
        let v = ab_value(m.drop_result(col), (depth - 1) as nat, alpha, st.2, true);
        let value2 = if v < st.0 {
            v
        } else {
            st.0
        };
        let best2 = if v < st.0 {
            col
        } else {
            st.1
        };
        let beta2 = if value2 < st.2 {
            value2
        } else {
            st.2
        };
        (value2, best2, beta2, alpha >= beta2)
    } else {
        st
    }
}

/// The pruned scan of the seven columns in center-outward order.
pub open spec fn ab_scan(m: C4Model, depth: nat, alpha: int, beta: int, is_max: bool) -> (
    int,
    int,
    int,
    bool,
)
    decreases depth, 1int,
{
    if is_max {
        let s0 = (i32::MIN as int, 0int, alpha, false);
        let s1 = ab_step_max(m, depth, beta, s0, 3);
        let s2 = ab_step_max(m, depth, beta, s1, 2);
        let s3 = ab_step_max(m, depth, beta, s2, 4);
        let s4 = ab_step_max(m, depth, beta, s3, 1);
        let s5 = ab_step_max(m, depth, beta, s4, 5);
        let s6 = ab_step_max(m, depth, beta, s5, 0);
        ab_step_max(m, depth, beta, s6, 6)
    } else {
        let s0 = (i32::MAX as int, 0int, beta, false);
        let s1 = ab_step_min(m, depth, alpha, s0, 3);
        let s2 = ab_step_min(m, depth, alpha, s1, 2);
        let s3 = ab_step_min(m, depth, alpha, s2, 4);
        let s4 = ab_step_min(m, depth, alpha, s3, 1);
        let s5 = ab_step_min(m, depth, alpha, s4, 5);
        let s6 = ab_step_min(m, depth, alpha, s5, 0);
        ab_step_min(m, depth, alpha, s6, 6)
    }
}

/// The value of the pruned search inside the window `(alpha, beta)`.
pub open spec fn ab_value(m: C4Model, depth: nat, alpha: int, beta: int, is_max: bool) -> int
    decreases depth, 2int,
{
    if m.terminal {
        terminal_value(m, depth as int)
    } else if depth == 0 {
        m.score(PieceColor::YELLOW)
    } else {
        ab_scan(m, depth, alpha, beta, is_max).0
    }
}

/// What the pruned search returns: `(column, value)`.
pub open spec fn ab_search(m: C4Model, depth: nat, alpha: int, beta: int, is_max: bool) -> (
    int,
    int,
) {
    if m.terminal {
        (3, terminal_value(m, depth as int))
    } else if depth == 0 {
        (3, m.score(PieceColor::YELLOW))
    } else {
        let s = ab_scan(m, depth, alpha, beta, is_max);
        (s.1, s.0)
    }
}

/// The scan invariant of the maximizer: while no cutoff has happened
/// the pruned value tracks the true partial maximum `u` inside the
/// window, and after a cutoff it is a lower bound on `u` at or above
/// `beta`.
pub open spec fn inv_max(alpha: int, beta: int, st: (int, int, int, bool), u: int) -> bool {
    if st.3 {
        st.0 >= beta && u >= st.0
    } else {
        &&& st.2 == (if st.0 > alpha {
            st.0
        } else {
            alpha
        })
        &&& st.0 < beta
        &&& u <= st.0
        &&& st.0 <= (if u > alpha {
            u
        } else {
            alpha
        })
    }
}

/// The scan invariant of the minimizer, mirrored.
pub open spec fn inv_min(alpha: int, beta: int, st: (int, int, int, bool), u: int) -> bool {
    if st.3 {
        st.0 <= alpha && u <= st.0
    } else {
        &&& st.2 == (if st.0 < beta {
            st.0
        } else {
            beta
        })
        &&& st.0 > alpha
        &&& u >= st.0
        &&& st.0 >= (if u < beta {
            u
        } else {
            beta
        })
    }
}

/// One maximizer step preserves the invariant.
proof fn lemma_step_max(m: C4Model, depth: nat, alpha: int, beta: int, st: (int, int, int, bool), u: int, col: int)
    requires
        m.wf(),
        !m.terminal,
        0 < depth <= 42,
        i32::MIN as int <= alpha < beta <= i32::MAX as int,
        inv_max(alpha, beta, st, u),
    ensures
        inv_max(
            alpha,
            beta,
            ab_step_max(m, depth, beta, st, col),
            step_max(u, cand_value(m, depth, true, col)),
        ),
    decreases depth, 3int,
{
    if !st.3 && m.legal(col) {
        lemma_drop_preserves_wf(m, col);
        lemma_ab_correct(m.drop_result(col), (depth - 1) as nat, st.2, beta, false);
    }
}

/// One minimizer step preserves the invariant.
proof fn lemma_step_min(m: C4Model, depth: nat, alpha: int, beta: int, st: (int, int, int, bool), u: int, col: int)
    requires
        m.wf(),
        !m.terminal,
        0 < depth <= 42,
        i32::MIN as int <= alpha < beta <= i32::MAX as int,
        inv_min(alpha, beta, st, u),
    ensures
        inv_min(
            alpha,
            beta,
            ab_step_min(m, depth, alpha, st, col),
            step_min(u, cand_value(m, depth, false, col)),
        ),
    decreases depth, 3int,
{
    if !st.3 && m.legal(col) {
        lemma_drop_preserves_wf(m, col);
        lemma_ab_correct(m.drop_result(col), (depth - 1) as nat, alpha, st.2, true);
    }
}

/// The Knuth-Moore window theorem for this search: inside the window
/// the pruned value is the minimax value, and outside it it is a
/// sound bound on it.
pub proof fn lemma_ab_correct(m: C4Model, depth: nat, alpha: int, beta: int, is_max: bool)
    requires
        m.wf(),
        depth <= 42,
        i32::MIN as int <= alpha < beta <= i32::MAX as int,
    ensures
        ({
            let r = ab_value(m, depth, alpha, beta, is_max);
            let v = minimax_value(m, depth, is_max);
            &&& (is_max ==> (r >= beta ==> v >= r) && (r < beta ==> v <= r) && (r > alpha ==> v
                >= r))
            &&& (!is_max ==> (r <= alpha ==> v <= r) && (r > alpha ==> v >= r) && (r < beta ==> v
                <= r))
        }),
    decreases depth, 4int,
{
    if m.terminal {
    } else if depth == 0 {
    } else if is_max {
        let s0 = (i32::MIN as int, 0int, alpha, false);
        let u0 = i32::MIN as int;
        let s1 = ab_step_max(m, depth, beta, s0, 3);
        let u1 = step_max(u0, cand_value(m, depth, true, 3));
        let s2 = ab_step_max(m, depth, beta, s1, 2);
        let u2 = step_max(u1, cand_value(m, depth, true, 2));
        let s3 = ab_step_max(m, depth, beta, s2, 4);
        let u3 = step_max(u2, cand_value(m, depth, true, 4));
        let s4 = ab_step_max(m, depth, beta, s3, 1);
        let u4 = step_max(u3, cand_value(m, depth, true, 1));
        let s5 = ab_step_max(m, depth, beta, s4, 5);
        let u5 = step_max(u4, cand_value(m, depth, true, 5));
        let s6 = ab_step_max(m, depth, beta, s5, 0);
        let u6 = step_max(u5, cand_value(m, depth, true, 0));
        let s7 = ab_step_max(m, depth, beta, s6, 6);
        let u7 = step_max(u6, cand_value(m, depth, true, 6));
        assert(inv_max(alpha, beta, s0, u0));
        lemma_step_max(m, depth, alpha, beta, s0, u0, 3);
        lemma_step_max(m, depth, alpha, beta, s1, u1, 2);
        lemma_step_max(m, depth, alpha, beta, s2, u2, 4);
        lemma_step_max(m, depth, alpha, beta, s3, u3, 1);
        lemma_step_max(m, depth, alpha, beta, s4, u4, 5);
        lemma_step_max(m, depth, alpha, beta, s5, u5, 0);
        lemma_step_max(m, depth, alpha, beta, s6, u6, 6);
        assert(inv_max(alpha, beta, s7, u7));
        assert(ab_value(m, depth, alpha, beta, true) == s7.0);
        assert(minimax_value(m, depth, true) == u7);
    } else {
        let s0 = (i32::MAX as int, 0int, beta, false);
        let u0 = i32::MAX as int;
        let s1 = ab_step_min(m, depth, alpha, s0, 3);
        let u1 = step_min(u0, cand_value(m, depth, false, 3));
        let s2 = ab_step_min(m, depth, alpha, s1, 2);
        let u2 = step_min(u1, cand_value(m, depth, false, 2));
        let s3 = ab_step_min(m, depth, alpha, s2, 4);
        let u3 = step_min(u2, cand_value(m, depth, false, 4));
        let s4 = ab_step_min(m, depth, alpha, s3, 1);
        let u4 = step_min(u3, cand_value(m, depth, false, 1));
        let s5 = ab_step_min(m, depth, alpha, s4, 5);
        let u5 = step_min(u4, cand_value(m, depth, false, 5));
        let s6 = ab_step_min(m, depth, alpha, s5, 0);
        let u6 = step_min(u5, cand_value(m, depth, false, 0));
        let s7 = ab_step_min(m, depth, alpha, s6, 6);
        let u7 = step_min(u6, cand_value(m, depth, false, 6));
        assert(inv_min(alpha, beta, s0, u0));
        lemma_step_min(m, depth, alpha, beta, s0, u0, 3);
        lemma_step_min(m, depth, alpha, beta, s1, u1, 2);
        lemma_step_min(m, depth, alpha, beta, s2, u2, 4);
        lemma_step_min(m, depth, alpha, beta, s3, u3, 1);
        lemma_step_min(m, depth, alpha, beta, s4, u4, 5);
        lemma_step_min(m, depth, alpha, beta, s5, u5, 0);
        lemma_step_min(m, depth, alpha, beta, s6, u6, 6);
        assert(inv_min(alpha, beta, s7, u7));
        assert(ab_value(m, depth, alpha, beta, false) == s7.0);
        assert(minimax_value(m, depth, false) == u7);
    }
}

/// Tries one column for the maximizer, narrowing the window and
/// cutting off the scan when the window closes, exactly as
/// `ab_step_max` describes.
fn consider_ab_max(
    board: &Connect4,
    col: usize,
    depth: usize,
    beta: i32,
    value: &mut i32,
    best: &mut usize,
    alpha: &mut i32,
    done: &mut bool,
)
    requires
        board.wf(),
        !board@.terminal,
        1 <= depth <= 42,
        col < 7,
        *old(best) < 7,
        *old(value) > i32::MIN ==> board@.legal(*old(best) as int),
    ensures
        (*final(value) as int, *final(best) as int, *final(alpha) as int, *final(done))
            == ab_step_max(
            board@,
            depth as nat,
            beta as int,
            (*old(value) as int, *old(best) as int, *old(alpha) as int, *old(done)),
            col as int,
        ),
        *final(best) < 7,
        *final(value) > i32::MIN ==> board@.legal(*final(best) as int),
    decreases depth, 0int,
{
    if *done {
        return ;
    }
    let mut copy = board.clone();
    if copy.drop(col) {
        let r = minmax(copy, depth - 1, *alpha, beta, false);
        if r.1 > *value {
            *value = r.1;
            *best = col;
        }
        if *value > *alpha {
            *alpha = *value;
        }
        if *alpha >= beta {
            *done = true;
        }
    }
}

/// Tries one column for the minimizer, mirrored.
fn consider_ab_min(
    board: &Connect4,
    col: usize,
    depth: usize,
    alpha: i32,
    value: &mut i32,
    best: &mut usize,
    beta: &mut i32,
    done: &mut bool,
)
    requires
        board.wf(),
        !board@.terminal,
        1 <= depth <= 42,
        col < 7,
        *old(best) < 7,
        *old(value) < i32::MAX ==> board@.legal(*old(best) as int),
    ensures
        (*final(value) as int, *final(best) as int, *final(beta) as int, *final(done))
            == ab_step_min(
            board@,
            depth as nat,
            alpha as int,
            (*old(value) as int, *old(best) as int, *old(beta) as int, *old(done)),
            col as int,
        ),
        *final(best) < 7,
        *final(value) < i32::MAX ==> board@.legal(*final(best) as int),
    decreases depth, 0int,
{
    if *done {
        return ;
    }
    let mut copy = board.clone();
    if copy.drop(col) {
        let r = minmax(copy, depth - 1, alpha, *beta, true);
        if r.1 < *value {
            *value = r.1;
            *best = col;
        }
        if *value < *beta {
            *beta = *value;
        }
        if alpha >= *beta {
            *done = true;
        }
    }
}

/// Depth-limited minimax with alpha-beta pruning, Yellow maximizing.
/// Returns exactly the `(column, value)` pair that `ab_search`
/// describes for the position, the depth and the window.
pub fn minmax(board: Connect4, depth: usize, alpha: i32, beta: i32, is_cpu_turn: bool) -> (r: (
    usize,
    i32,
))
    requires
        board.wf(),
        depth <= 42,
    ensures
        (r.0 as int, r.1 as int) == ab_search(
            board@,
            depth as nat,
            alpha as int,
            beta as int,
            is_cpu_turn,
        ),
        r.1 as int == ab_value(board@, depth as nat, alpha as int, beta as int, is_cpu_turn),
        !board@.terminal && depth > 0 && is_cpu_turn && r.1 > i32::MIN ==> board@.legal(
            r.0 as int,
        ),
        !board@.terminal && depth > 0 && !is_cpu_turn && r.1 < i32::MAX ==> board@.legal(
            r.0 as int,
        ),
    decreases depth, 1int,
{
    if board.is_terminal {
        let v: i32 = match board.winner {
            None => 0,
            Some(c) => match c {
                PieceColor::YELLOW => i32::MAX - 43 + depth as i32,
                PieceColor::RED => i32::MIN + 43 - depth as i32,
            },
        };
        return (3, v);
    }
    if depth == 0 {
        return (3, board.calculate_score(PieceColor::YELLOW));
    }
    let mut best: usize = 0;
    let mut done = false;
    if is_cpu_turn {
        let mut value: i32 = i32::MIN;
        let mut a = alpha;
        consider_ab_max(&board, 3, depth, beta, &mut value, &mut best, &mut a, &mut done);
        consider_ab_max(&board, 2, depth, beta, &mut value, &mut best, &mut a, &mut done);
        consider_ab_max(&board, 4, depth, beta, &mut value, &mut best, &mut a, &mut done);
        consider_ab_max(&board, 1, depth, beta, &mut value, &mut best, &mut a, &mut done);
        consider_ab_max(&board, 5, depth, beta, &mut value, &mut best, &mut a, &mut done);
        consider_ab_max(&board, 0, depth, beta, &mut value, &mut best, &mut a, &mut done);
        consider_ab_max(&board, 6, depth, beta, &mut value, &mut best, &mut a, &mut done);
        (best, value)
    } else {
        let mut value: i32 = i32::MAX;
        let mut b = beta;
        consider_ab_min(&board, 3, depth, alpha, &mut value, &mut best, &mut b, &mut done);
        consider_ab_min(&board, 2, depth, alpha, &mut value, &mut best, &mut b, &mut done);
        consider_ab_min(&board, 4, depth, alpha, &mut value, &mut best, &mut b, &mut done);
        consider_ab_min(&board, 1, depth, alpha, &mut value, &mut best, &mut b, &mut done);
        consider_ab_min(&board, 5, depth, alpha, &mut value, &mut best, &mut b, &mut done);
        consider_ab_min(&board, 0, depth, alpha, &mut value, &mut best, &mut b, &mut done);
        consider_ab_min(&board, 6, depth, alpha, &mut value, &mut best, &mut b, &mut done);
        (best, value)
    }
}

/// The computer's move: the pruned search over the full window.  The
/// chosen column is a legal drop whose value is exactly the value of
/// the unpruned minimax search at the same depth, and the choice is a
/// pure function of the position and the depth.
pub fn make_move(board: Connect4, depth: usize) -> (col: usize)
    requires
        board.wf(),
        !board@.terminal,
        1 <= depth <= 42,
    ensures
        board@.legal(col as int),
        col as int == ab_search(
            board@,
            depth as nat,
            i32::MIN as int,
            i32::MAX as int,
            true,
        ).0,
        ab_value(board@, depth as nat, i32::MIN as int, i32::MAX as int, true) == minimax_value(
            board@,
            depth as nat,
            true,
        ),
{
    let ghost m = board@;
    let r = minmax(board, depth, i32::MIN, i32::MAX, true);
    proof {
        lemma_pruning_preserves_value(m, depth as nat);
        lemma_value_bounds(m, depth as nat, true);
        lemma_exists_legal(m);
    }
    r.0
}

/// With the full window the pruned search returns exactly the value
/// of the unpruned minimax search: pruning is behavior-preserving.
pub proof fn lemma_pruning_preserves_value(m: C4Model, depth: nat)
    requires
        m.wf(),
        1 <= depth <= 42,
    ensures
        ab_value(m, depth, i32::MIN as int, i32::MAX as int, true) == minimax_value(
            m,
            depth,
            true,
        ),
{
    lemma_ab_correct(m, depth, i32::MIN as int, i32::MAX as int, true);
    lemma_value_bounds(m, depth, true);
    let r = ab_value(m, depth, i32::MIN as int, i32::MAX as int, true);
    let v = minimax_value(m, depth, true);
    if r >= i32::MAX as int {
        assert(v >= r);
        assert(false);
    }
    if r <= i32::MIN as int {
        assert(v <= r);
        assert(false);
    }
}

} // verus!
