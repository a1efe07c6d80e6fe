//! The TOOT-and-OTTO computer opponent: a depth-limited minimax
//! search with OTTO as the maximizer, trying both letters over the
//! columns in center-outward order and keeping the first best move.

use crate::cpu::{step_max, step_min};
use crate::piece_letter::PieceLetter;
use crate::player::Player;
use crate::toot_and_otto::{
    lemma_drop_preserves_wf_to, lemma_exists_legal_to, lemma_score_bound_to, TOModel, TootAndOtto,
};
use vstd::prelude::*;

verus! {

/// The value of a finished game with `depth` plies of search budget
/// left: an OTTO win is best and better the sooner it came, a TOOT
/// win is worst, a draw is 0.
pub open spec fn terminal_value_to(m: TOModel, depth: int) -> int {
    match m.winner {
        None => 0,
        Some(Player::OTTO) => i32::MAX - 25 + depth,
        Some(Player::TOOT) => i32::MIN + 25 - depth,
    }
}

/// The value a drop of `l` into `col` would lead to, when it is legal.
pub open spec fn cand_value_to(
    m: TOModel,
    depth: nat,
    is_max: bool,
    l: PieceLetter,
    col: int,
) -> Option<int>
    decreases depth, 0int,
{
    if depth > 0 && m.legal(l, col) {
        Some(minimax_value_to(m.drop_result(l, col), (depth - 1) as nat, !is_max))
    } else {
        None
    }
}

/// The minimax value of a position with `depth` plies left, OTTO
/// maximizing: the terminal value for finished games, the heuristic
/// score for exhausted depth, and otherwise the best value among the
/// legal drops, letters T then O over the columns center-outward.
pub open spec fn minimax_value_to(m: TOModel, depth: nat, is_max: bool) -> int
    decreases depth, 1int,
{
    if m.terminal {
        terminal_value_to(m, depth as int)
    } else if depth == 0 {
        m.score(Player::OTTO)
    } else if is_max {
        step_max(
            step_max(
                step_max(
                    step_max(
                        step_max(
                            step_max(
                                step_max(
                                    step_max(
                                        step_max(
                                            step_max(
                                                step_max(
                                                    step_max(
                                                        i32::MIN as int,
                                                        cand_value_to(
                                                            m,
                                                            depth,
                                                            true,
                                                            PieceLetter::T,
                                                            2,
                                                        ),
                                                    ),
                                                    cand_value_to(m, depth, true, PieceLetter::T, 3),
                                                ),
                                                cand_value_to(m, depth, true, PieceLetter::T, 1),
                                            ),
                                            cand_value_to(m, depth, true, PieceLetter::T, 4),
                                        ),
                                        cand_value_to(m, depth, true, PieceLetter::T, 0),
                                    ),
                                    cand_value_to(m, depth, true, PieceLetter::T, 5),
                                ),
                                cand_value_to(m, depth, true, PieceLetter::O, 2),
                            ),
                            cand_value_to(m, depth, true, PieceLetter::O, 3),
                        ),
                        cand_value_to(m, depth, true, PieceLetter::O, 1),
                    ),
                    cand_value_to(m, depth, true, PieceLetter::O, 4),
                ),
                cand_value_to(m, depth, true, PieceLetter::O, 0),
            ),
            cand_value_to(m, depth, true, PieceLetter::O, 5),
        )
    } else {
        step_min(
            step_min(
                step_min(
                    step_min(
                        step_min(
                            step_min(
                                step_min(
                                    step_min(
                                        step_min(
                                            step_min(
                                                step_min(
                                                    step_min(
                                                        i32::MAX as int,
                                                        cand_value_to(
                                                            m,
                                                            depth,
                                                            false,
                                                            PieceLetter::T,
                                                            2,
                                                        ),
                                                    ),
                                                    cand_value_to(
                                                        m,
                                                        depth,
                                                        false,
                                                        PieceLetter::T,
                                                        3,
                                                    ),
                                                ),
                                                cand_value_to(m, depth, false, PieceLetter::T, 1),
                                            ),
                                            cand_value_to(m, depth, false, PieceLetter::T, 4),
                                        ),
                                        cand_value_to(m, depth, false, PieceLetter::T, 0),
                                    ),
                                    cand_value_to(m, depth, false, PieceLetter::T, 5),
                                ),
                                cand_value_to(m, depth, false, PieceLetter::O, 2),
                            ),
                            cand_value_to(m, depth, false, PieceLetter::O, 3),
                        ),
                        cand_value_to(m, depth, false, PieceLetter::O, 1),
                    ),
                    cand_value_to(m, depth, false, PieceLetter::O, 4),
                ),
                cand_value_to(m, depth, false, PieceLetter::O, 0),
            ),
            cand_value_to(m, depth, false, PieceLetter::O, 5),
        )
    }
}

/// One step of the move scan: an illegal move changes nothing and a
/// strictly better value takes over; ties keep the earlier move.
/// `acc` is the running `(value, letter, column)` triple.
pub open spec fn pick_step_to(
    m: TOModel,
    depth: nat,
    is_max: bool,
    acc: (int, PieceLetter, int),
    l: PieceLetter,
    col: int,
) -> (int, PieceLetter, int) {
    match cand_value_to(m, depth, is_max, l, col) {
        None => acc,
        Some(v) => {
            if (is_max && v > acc.0) || (!is_max && v < acc.0) {
                (v, l, col)
            } else {
                acc
            }
        },
    }
}

/// The full scan of the twelve moves in engine order, returning the
/// final `(value, letter, column)` triple.
pub open spec fn search_moves_to(m: TOModel, depth: nat, is_max: bool) -> (int, PieceLetter, int) {
    let s0 = (
        if is_max {
            i32::MIN as int
        } else {
            i32::MAX as int
        },
        PieceLetter::T,
        0int,
    );
    let s1 = pick_step_to(m, depth, is_max, s0, PieceLetter::T, 2);
    let s2 = pick_step_to(m, depth, is_max, s1, PieceLetter::T, 3);
    let s3 = pick_step_to(m, depth, is_max, s2, PieceLetter::T, 1);
    let s4 = pick_step_to(m, depth, is_max, s3, PieceLetter::T, 4);
    let s5 = pick_step_to(m, depth, is_max, s4, PieceLetter::T, 0);
    let s6 = pick_step_to(m, depth, is_max, s5, PieceLetter::T, 5);
    let s7 = pick_step_to(m, depth, is_max, s6, PieceLetter::O, 2);
    let s8 = pick_step_to(m, depth, is_max, s7, PieceLetter::O, 3);
    let s9 = pick_step_to(m, depth, is_max, s8, PieceLetter::O, 1);
    let s10 = pick_step_to(m, depth, is_max, s9, PieceLetter::O, 4);
    let s11 = pick_step_to(m, depth, is_max, s10, PieceLetter::O, 0);
    pick_step_to(m, depth, is_max, s11, PieceLetter::O, 5)
}

/// What the search returns for a position: `(column, letter, value)`,
/// a pure function of the position and the depth.
pub open spec fn search_spec_to(m: TOModel, depth: nat, is_max: bool) -> (int, PieceLetter, int) {
    if m.terminal {
        (3, PieceLetter::O, terminal_value_to(m, depth as int))
    } else if depth == 0 {
        (3, PieceLetter::O, m.score(Player::OTTO))
    } else {
        let s = search_moves_to(m, depth, is_max);
        (s.2, s.1, s.0)
    }
}

/// The scan's value is the minimax value.
#[verifier::rlimit(100)]
pub proof fn lemma_search_value_to(m: TOModel, depth: nat, is_max: bool)
    ensures
        search_spec_to(m, depth, is_max).2 == minimax_value_to(m, depth, is_max),
{
}

/// The minimax value stays within the terminal band.
#[verifier::rlimit(100)]
pub proof fn lemma_value_bounds_to(m: TOModel, depth: nat, is_max: bool)
    requires
        m.wf(),
        depth <= 24,
    ensures
        i32::MIN + 25 - depth <= minimax_value_to(m, depth, is_max) <= i32::MAX - 25 + depth,
        !m.terminal && depth > 0 ==> i32::MIN + 26 - depth <= minimax_value_to(m, depth, is_max)
            <= i32::MAX - 26 + depth,
    decreases depth, 1int,
{
    if m.terminal {
    } else if depth == 0 {
        lemma_score_bound_to(m, Player::OTTO);
    } else {
        lemma_cand_bounds_to(m, depth, is_max, PieceLetter::T);
        lemma_cand_bounds_to(m, depth, is_max, PieceLetter::O);
        lemma_exists_legal_to(m);
        let (l0, c0) = choose|l: PieceLetter, c: int| #[trigger] m.legal(l, c);
        assert(0 <= c0 < 6);
        let hi = i32::MAX - 25 + depth;
        let lo = i32::MIN + 25 - depth;
        if is_max {
            lemma_max_value_upper(m, depth, hi - 1);
            lemma_max_value_lower(m, depth, lo + 1, l0, c0);
        } else {
            lemma_min_value_lower(m, depth, lo + 1);
            lemma_min_value_upper(m, depth, hi - 1, l0, c0);
        }
    }
}

/// Bounds for the six candidate drops of one letter.
pub proof fn lemma_cand_bounds_to(m: TOModel, depth: nat, is_max: bool, l: PieceLetter)
    requires
        m.wf(),
        0 < depth <= 24,
    ensures
        forall|c: int|
            0 <= c < 6 && m.legal(l, c) ==> i32::MIN + 25 - (depth - 1) <= minimax_value_to(
                (#[trigger] m.drop_result(l, c)),
                (depth - 1) as nat,
                !is_max,
            ) <= i32::MAX - 25 + (depth - 1),
    decreases depth, 0int,
{
    assert forall|c: int| 0 <= c < 6 && m.legal(l, c) implies i32::MIN + 25 - (depth - 1)
        <= minimax_value_to((#[trigger] m.drop_result(l, c)), (depth - 1) as nat, !is_max)
        <= i32::MAX - 25 + (depth - 1) by {
        lemma_drop_preserves_wf_to(m, l, c);
        lemma_value_bounds_to(m.drop_result(l, c), (depth - 1) as nat, !is_max);
    }
}

/// The minimax value of a node is at least (maximizer) or at most
/// (minimizer) the value reached through any legal move.
#[verifier::rlimit(100)]
pub proof fn lemma_value_dominates_to(
    m: TOModel,
    depth: nat,
    is_max: bool,
    l: PieceLetter,
    col: int,
)
    requires
        !m.terminal,
        depth > 0,
        m.legal(l, col),
    ensures
        is_max ==> minimax_value_to(m, depth, true) >= minimax_value_to(
            m.drop_result(l, col),
            (depth - 1) as nat,
            false,
        ),
        !is_max ==> minimax_value_to(m, depth, false) <= minimax_value_to(
            m.drop_result(l, col),
            (depth - 1) as nat,
            true,
        ),
{
    assert(0 <= col < 6);
    assert(cand_value_to(m, depth, is_max, l, col) == Some(
        minimax_value_to(m.drop_result(l, col), (depth - 1) as nat, !is_max),
    ));
}

/// A position whose winner slot does not show TOOT is worth strictly
/// more than the worst terminal value of its depth.
pub proof fn lemma_value_lower_not_toot(m: TOModel, depth: nat, is_max: bool)
    requires
        m.wf(),
        depth <= 24,
        m.winner != Some(Player::TOOT),
    ensures
        minimax_value_to(m, depth, is_max) >= i32::MIN + 26 - depth,
{
    if m.terminal {
    } else if depth == 0 {
        lemma_score_bound_to(m, Player::OTTO);
    } else {
        lemma_value_bounds_to(m, depth, is_max);
    }
}

/// The player to move can end the game in their favor with a single
/// drop.
pub open spec fn immediate_win_to(m: TOModel) -> bool {
    exists|l: PieceLetter, c: int|
        m.legal(l, c) && (#[trigger] m.drop_result(l, c)).winner == Some(m.active)
}

/// The drop of `l` into `c` denies the opponent every immediately
/// winning reply: it ends the game other than as a loss, or leaves a
/// position from which the opponent cannot win on the spot.
pub open spec fn blocks_to(m: TOModel, l: PieceLetter, c: int) -> bool {
    m.legal(l, c) && {
        let child = m.drop_result(l, c);
        if child.terminal {
            child.winner != Some(m.active.spec_switch())
        } else {
            !immediate_win_to(child)
        }
    }
}

/// The running `(value, letter, column)` triple either still holds
/// its starting value or holds the value reached through the held
/// legal move.
pub open spec fn attains_to(
    m: TOModel,
    depth: nat,
    is_max: bool,
    value: int,
    l: PieceLetter,
    col: int,
) -> bool {
    ||| value == (if is_max {
        i32::MIN as int
    } else {
        i32::MAX as int
    })
    ||| (m.legal(l, col) && cand_value_to(m, depth, is_max, l, col) == Some(value))
}

/// Tries one move and folds the value it reaches into the running
/// best, exactly as `pick_step_to` describes.
fn consider_to(
    board: &TootAndOtto,
    letter: PieceLetter,
    col: usize,
    depth: usize,
    is_max: bool,
    value: &mut i32,
    best_letter: &mut PieceLetter,
    best_col: &mut usize,
)
    requires
        board.wf(),
        !board@.terminal,
        1 <= depth <= 24,
        col < 6,
        *old(best_col) < 6,
    ensures
        (*final(value) as int, *final(best_letter), *final(best_col) as int) == pick_step_to(
            board@,
            depth as nat,
            is_max,
            (*old(value) as int, *old(best_letter), *old(best_col) as int),
            letter,
            col as int,
        ),
        *final(best_col) < 6,
        attains_to(
            board@,
            depth as nat,
            is_max,
            *old(value) as int,
            *old(best_letter),
            *old(best_col) as int,
        ) ==> attains_to(
            board@,
            depth as nat,
            is_max,
            *final(value) as int,
            *final(best_letter),
            *final(best_col) as int,
        ),
    decreases depth, 0int,
{
    let mut copy = board.clone();
    if copy.drop(letter, col) {
        let child = minmax(copy, depth - 1, !is_max);
        let nv = child.2;
        if (is_max && nv > *value) || (!is_max && nv < *value) {
            *value = nv;
            *best_letter = letter;
            *best_col = col;
        }
    }
}

/// Depth-limited minimax from OTTO's point of view.  Returns the
/// chosen column, the chosen letter and the exact minimax value of
/// the position, reached through the returned move whenever the game
/// is still open and depth remains.  The result is a pure function of
/// the position and the depth.
pub fn minmax(board: TootAndOtto, depth: usize, is_cpu_turn: bool) -> (r: (
    usize,
    PieceLetter,
    i32,
))
    requires
        board.wf(),
        depth <= 24,
    ensures
        r.2 as int == minimax_value_to(board@, depth as nat, is_cpu_turn),
        (r.0 as int, r.1, r.2 as int) == search_spec_to(board@, depth as nat, is_cpu_turn),
        !board@.terminal && depth > 0 ==> board@.legal(r.1, r.0 as int) && cand_value_to(
            board@,
            depth as nat,
            is_cpu_turn,
            r.1,
            r.0 as int,
        ) == Some(r.2 as int),
    decreases depth, 1int,
{
    if board.is_terminal {
        let v: i32 = match board.winner {
            None => 0,
            Some(p) => match p {
                Player::OTTO => i32::MAX - 25 + depth as i32,
                Player::TOOT => i32::MIN + 25 - depth as i32,
            },
        };
        return (3, PieceLetter::O, v);
    }
    if depth == 0 {
        return (3, PieceLetter::O, board.calculate_score(Player::OTTO));
    }
    let mut value: i32 = if is_cpu_turn {
        i32::MIN
    } else {
        i32::MAX
    };
    let mut best_letter: PieceLetter = PieceLetter::T;
    let mut best_col: usize = 0;
    consider_to(&board, PieceLetter::T, 2, depth, is_cpu_turn, &mut value, &mut best_letter, &mut best_col);
    consider_to(&board, PieceLetter::T, 3, depth, is_cpu_turn, &mut value, &mut best_letter, &mut best_col);
    consider_to(&board, PieceLetter::T, 1, depth, is_cpu_turn, &mut value, &mut best_letter, &mut best_col);
    consider_to(&board, PieceLetter::T, 4, depth, is_cpu_turn, &mut value, &mut best_letter, &mut best_col);
    consider_to(&board, PieceLetter::T, 0, depth, is_cpu_turn, &mut value, &mut best_letter, &mut best_col);
    consider_to(&board, PieceLetter::T, 5, depth, is_cpu_turn, &mut value, &mut best_letter, &mut best_col);
    consider_to(&board, PieceLetter::O, 2, depth, is_cpu_turn, &mut value, &mut best_letter, &mut best_col);
    consider_to(&board, PieceLetter::O, 3, depth, is_cpu_turn, &mut value, &mut best_letter, &mut best_col);
    consider_to(&board, PieceLetter::O, 1, depth, is_cpu_turn, &mut value, &mut best_letter, &mut best_col);
    consider_to(&board, PieceLetter::O, 4, depth, is_cpu_turn, &mut value, &mut best_letter, &mut best_col);
    consider_to(&board, PieceLetter::O, 0, depth, is_cpu_turn, &mut value, &mut best_letter, &mut best_col);
    consider_to(&board, PieceLetter::O, 5, depth, is_cpu_turn, &mut value, &mut best_letter, &mut best_col);
    proof {
        let m = board@;
        let d = depth as nat;
        assert((value as int, best_letter, best_col as int) == search_moves_to(m, d, is_cpu_turn));
        lemma_search_value_to(m, d, is_cpu_turn);
        lemma_exists_legal_to(m);
        let (l0, c0) = choose|l: PieceLetter, c: int| #[trigger] m.legal(l, c);
        lemma_drop_preserves_wf_to(m, l0, c0);
        lemma_value_bounds_to(m.drop_result(l0, c0), (d - 1) as nat, !is_cpu_turn);
        lemma_value_dominates_to(m, d, is_cpu_turn, l0, c0);
        assert(attains_to(m, d, is_cpu_turn, value as int, best_letter, best_col as int));
        if is_cpu_turn {
            assert(minimax_value_to(m, d, true) > i32::MIN);
        } else {
            assert(minimax_value_to(m, d, false) < i32::MAX);
        }
    }
    (best_col, best_letter, value)
}

/// The computer's move: minimax with the active player maximizing
/// OTTO's outcome.  The chosen move is always legal; at depth 1 and
/// more it ends the game in the mover's favor whenever a single drop
/// can, and at depth 2 and more it denies the opponent every
/// immediately winning reply whenever some drop could.  The choice is
/// a pure function of the position and the depth.
pub fn make_move(board: TootAndOtto, depth: usize) -> (r: (usize, PieceLetter))
    requires
        board.wf(),
        !board@.terminal,
        1 <= depth <= 24,
    ensures
        board@.legal(r.1, r.0 as int),
        r.0 as int == search_spec_to(board@, depth as nat, true).0,
        r.1 == search_spec_to(board@, depth as nat, true).1,
        board@.active == Player::OTTO && immediate_win_to(board@) ==> board@.drop_result(
            r.1,
            r.0 as int,
        ).winner == Some(Player::OTTO),
        depth >= 2 && board@.active == Player::OTTO && (exists|l: PieceLetter, c: int|
            #[trigger] blocks_to(board@, l, c)) ==> blocks_to(board@, r.1, r.0 as int),
{
    let ghost m = board@;
    let r = minmax(board, depth, true);
    proof {
        let d = depth as nat;
        if m.active == Player::OTTO && immediate_win_to(m) {
            lemma_win_pick_to(m, d, r.1, r.0 as int);
        }
        if depth >= 2 && m.active == Player::OTTO && (exists|l: PieceLetter, c: int|
            #[trigger] blocks_to(m, l, c)) {
            lemma_block_pick_to(m, d, r.1, r.0 as int);
        }
    }
    (r.0, r.1)
}

/// When OTTO can win on the spot, only an immediately winning move
/// carries the minimax value.
proof fn lemma_win_pick_to(m: TOModel, d: nat, letter: PieceLetter, col: int)
    requires
        m.wf(),
        !m.terminal,
        1 <= d <= 24,
        m.active == Player::OTTO,
        immediate_win_to(m),
        m.legal(letter, col),
        cand_value_to(m, d, true, letter, col) == Some(minimax_value_to(m, d, true)),
    ensures
        m.drop_result(letter, col).winner == Some(Player::OTTO),
{
    let v = minimax_value_to(m, d, true);
    let childc = m.drop_result(letter, col);
    lemma_drop_preserves_wf_to(m, letter, col);
    let (lw, cw) = choose|l: PieceLetter, c: int|
        m.legal(l, c) && (#[trigger] m.drop_result(l, c)).winner == Some(m.active);
    let childw = m.drop_result(lw, cw);
    assert(childw.terminal);
    assert(minimax_value_to(childw, (d - 1) as nat, false) == i32::MAX - 25 + (d - 1));
    lemma_value_dominates_to(m, d, true, lw, cw);
    assert(v >= i32::MAX - 25 + (d - 1));
    // The chosen move reaches the same value, which only an immediate
    // OTTO win can supply.
    assert(minimax_value_to(childc, (d - 1) as nat, false) == v);
    if childc.terminal {
        if childc.winner != Some(Player::OTTO) {
            assert(minimax_value_to(childc, (d - 1) as nat, false) <= 0);
            assert(false);
        }
    } else {
        if d - 1 == 0 {
            lemma_score_bound_to(childc, Player::OTTO);
            assert(false);
        } else {
            lemma_exists_legal_to(childc);
            let (lg, cg) = choose|l: PieceLetter, c: int| #[trigger] childc.legal(l, c);
            lemma_drop_preserves_wf_to(childc, lg, cg);
            lemma_value_bounds_to(childc.drop_result(lg, cg), (d - 2) as nat, true);
            lemma_value_dominates_to(childc, (d - 1) as nat, false, lg, cg);
            assert(false);
        }
    }
}

/// A maximizing node sits below any bound all its children respect.
proof fn lemma_max_value_upper(m: TOModel, depth: nat, bound: int)
    requires
        !m.terminal,
        depth > 0,
        bound >= i32::MIN,
        forall|l: PieceLetter, c: int|
            m.legal(l, c) ==> minimax_value_to(
                (#[trigger] m.drop_result(l, c)),
                (depth - 1) as nat,
                false,
            ) <= bound,
    ensures
        minimax_value_to(m, depth, true) <= bound,
{
    let k1 = cand_value_to(m, depth, true, PieceLetter::T, 2);
    let k2 = cand_value_to(m, depth, true, PieceLetter::T, 3);
    let k3 = cand_value_to(m, depth, true, PieceLetter::T, 1);
    let k4 = cand_value_to(m, depth, true, PieceLetter::T, 4);
    let k5 = cand_value_to(m, depth, true, PieceLetter::T, 0);
    let k6 = cand_value_to(m, depth, true, PieceLetter::T, 5);
    let k7 = cand_value_to(m, depth, true, PieceLetter::O, 2);
    let k8 = cand_value_to(m, depth, true, PieceLetter::O, 3);
    let k9 = cand_value_to(m, depth, true, PieceLetter::O, 1);
    let k10 = cand_value_to(m, depth, true, PieceLetter::O, 4);
    let k11 = cand_value_to(m, depth, true, PieceLetter::O, 0);
    let k12 = cand_value_to(m, depth, true, PieceLetter::O, 5);
    assert(below(k1, bound) && below(k2, bound) && below(k3, bound) && below(k4, bound) && below(
        k5,
        bound,
    ) && below(k6, bound));
    assert(below(k7, bound) && below(k8, bound) && below(k9, bound) && below(k10, bound) && below(
        k11,
        bound,
    ) && below(k12, bound));
    let v0 = i32::MIN as int;
    let v1 = step_max(v0, k1);
    let v2 = step_max(v1, k2);
    let v3 = step_max(v2, k3);
    let v4 = step_max(v3, k4);
    let v5 = step_max(v4, k5);
    let v6 = step_max(v5, k6);
    let v7 = step_max(v6, k7);
    let v8 = step_max(v7, k8);
    let v9 = step_max(v8, k9);
    let v10 = step_max(v9, k10);
    let v11 = step_max(v10, k11);
    let v12 = step_max(v11, k12);
    assert(minimax_value_to(m, depth, true) == v12);
    assert(v12 <= bound);
}

/// A maximizing node reaches at least what one of its children does.
proof fn lemma_max_value_lower(m: TOModel, depth: nat, bound: int, l0: PieceLetter, c0: int)
    requires
        !m.terminal,
        depth > 0,
        m.legal(l0, c0),
        minimax_value_to(m.drop_result(l0, c0), (depth - 1) as nat, false) >= bound,
    ensures
        minimax_value_to(m, depth, true) >= bound,
{
    assert(0 <= c0 < 6);
    let k1 = cand_value_to(m, depth, true, PieceLetter::T, 2);
    let k2 = cand_value_to(m, depth, true, PieceLetter::T, 3);
    let k3 = cand_value_to(m, depth, true, PieceLetter::T, 1);
    let k4 = cand_value_to(m, depth, true, PieceLetter::T, 4);
    let k5 = cand_value_to(m, depth, true, PieceLetter::T, 0);
    let k6 = cand_value_to(m, depth, true, PieceLetter::T, 5);
    let k7 = cand_value_to(m, depth, true, PieceLetter::O, 2);
    let k8 = cand_value_to(m, depth, true, PieceLetter::O, 3);
    let k9 = cand_value_to(m, depth, true, PieceLetter::O, 1);
    let k10 = cand_value_to(m, depth, true, PieceLetter::O, 4);
    let k11 = cand_value_to(m, depth, true, PieceLetter::O, 0);
    let k12 = cand_value_to(m, depth, true, PieceLetter::O, 5);
    let v0 = i32::MIN as int;
    let v1 = step_max(v0, k1);
    let v2 = step_max(v1, k2);
    let v3 = step_max(v2, k3);
    let v4 = step_max(v3, k4);
    let v5 = step_max(v4, k5);
    let v6 = step_max(v5, k6);
    let v7 = step_max(v6, k7);
    let v8 = step_max(v7, k8);
    let v9 = step_max(v8, k9);
    let v10 = step_max(v9, k10);
    let v11 = step_max(v10, k11);
    let v12 = step_max(v11, k12);
    assert(minimax_value_to(m, depth, true) == v12);
    assert(cand_value_to(m, depth, true, l0, c0) == Some(
        minimax_value_to(m.drop_result(l0, c0), (depth - 1) as nat, false),
    ));
    assert(v1 <= v2 <= v3 <= v4 <= v5 <= v6 <= v7 <= v8 <= v9 <= v10 <= v11 <= v12);
    if l0 == PieceLetter::T {
        if c0 == 2 {
            assert(v1 >= bound);
        } else if c0 == 3 {
            assert(v2 >= bound);
        } else if c0 == 1 {
            assert(v3 >= bound);
        } else if c0 == 4 {
            assert(v4 >= bound);
        } else if c0 == 0 {
            assert(v5 >= bound);
        } else {
            assert(v6 >= bound);
        }
    } else {
        if c0 == 2 {
            assert(v7 >= bound);
        } else if c0 == 3 {
            assert(v8 >= bound);
        } else if c0 == 1 {
            assert(v9 >= bound);
        } else if c0 == 4 {
            assert(v10 >= bound);
        } else if c0 == 0 {
            assert(v11 >= bound);
        } else {
            assert(v12 >= bound);
        }
    }
}

/// A minimizing node reaches at most what one of its children does.
proof fn lemma_min_value_upper(m: TOModel, depth: nat, bound: int, l0: PieceLetter, c0: int)
    requires
        !m.terminal,
        depth > 0,
        m.legal(l0, c0),
        minimax_value_to(m.drop_result(l0, c0), (depth - 1) as nat, true) <= bound,
    ensures
        minimax_value_to(m, depth, false) <= bound,
{
    assert(0 <= c0 < 6);
    let k1 = cand_value_to(m, depth, false, PieceLetter::T, 2);
    let k2 = cand_value_to(m, depth, false, PieceLetter::T, 3);
    let k3 = cand_value_to(m, depth, false, PieceLetter::T, 1);
    let k4 = cand_value_to(m, depth, false, PieceLetter::T, 4);
    let k5 = cand_value_to(m, depth, false, PieceLetter::T, 0);
    let k6 = cand_value_to(m, depth, false, PieceLetter::T, 5);
    let k7 = cand_value_to(m, depth, false, PieceLetter::O, 2);
    let k8 = cand_value_to(m, depth, false, PieceLetter::O, 3);
    let k9 = cand_value_to(m, depth, false, PieceLetter::O, 1);
    let k10 = cand_value_to(m, depth, false, PieceLetter::O, 4);
    let k11 = cand_value_to(m, depth, false, PieceLetter::O, 0);
    let k12 = cand_value_to(m, depth, false, PieceLetter::O, 5);
    let v0 = i32::MAX as int;
    let v1 = step_min(v0, k1);
    let v2 = step_min(v1, k2);
    let v3 = step_min(v2, k3);
    let v4 = step_min(v3, k4);
    let v5 = step_min(v4, k5);
    let v6 = step_min(v5, k6);
    let v7 = step_min(v6, k7);
    let v8 = step_min(v7, k8);
    let v9 = step_min(v8, k9);
    let v10 = step_min(v9, k10);
    let v11 = step_min(v10, k11);
    let v12 = step_min(v11, k12);
    assert(minimax_value_to(m, depth, false) == v12);
    assert(cand_value_to(m, depth, false, l0, c0) == Some(
        minimax_value_to(m.drop_result(l0, c0), (depth - 1) as nat, true),
    ));
    assert(v1 >= v2 >= v3 >= v4 >= v5 >= v6 >= v7 >= v8 >= v9 >= v10 >= v11 >= v12);
    if l0 == PieceLetter::T {
        if c0 == 2 {
            assert(v1 <= bound);
        } else if c0 == 3 {
            assert(v2 <= bound);
        } else if c0 == 1 {
            assert(v3 <= bound);
        } else if c0 == 4 {
            assert(v4 <= bound);
        } else if c0 == 0 {
            assert(v5 <= bound);
        } else {
            assert(v6 <= bound);
        }
    } else {
        if c0 == 2 {
            assert(v7 <= bound);
        } else if c0 == 3 {
            assert(v8 <= bound);
        } else if c0 == 1 {
            assert(v9 <= bound);
        } else if c0 == 4 {
            assert(v10 <= bound);
        } else if c0 == 0 {
            assert(v11 <= bound);
        } else {
            assert(v12 <= bound);
        }
    }
}

/// A candidate value, when present, is at most the bound.
pub open spec fn below(o: Option<int>, bound: int) -> bool {
    match o {
        None => true,
        Some(v) => v <= bound,
    }
}

/// A minimizing node sits above any bound all its children respect.
proof fn lemma_min_value_lower(m: TOModel, depth: nat, bound: int)
    requires
        !m.terminal,
        depth > 0,
        bound <= i32::MAX,
        forall|l: PieceLetter, c: int|
            m.legal(l, c) ==> minimax_value_to(
                (#[trigger] m.drop_result(l, c)),
                (depth - 1) as nat,
                true,
            ) >= bound,
    ensures
        minimax_value_to(m, depth, false) >= bound,
{
    let k1 = cand_value_to(m, depth, false, PieceLetter::T, 2);
    let k2 = cand_value_to(m, depth, false, PieceLetter::T, 3);
    let k3 = cand_value_to(m, depth, false, PieceLetter::T, 1);
    let k4 = cand_value_to(m, depth, false, PieceLetter::T, 4);
    let k5 = cand_value_to(m, depth, false, PieceLetter::T, 0);
    let k6 = cand_value_to(m, depth, false, PieceLetter::T, 5);
    let k7 = cand_value_to(m, depth, false, PieceLetter::O, 2);
    let k8 = cand_value_to(m, depth, false, PieceLetter::O, 3);
    let k9 = cand_value_to(m, depth, false, PieceLetter::O, 1);
    let k10 = cand_value_to(m, depth, false, PieceLetter::O, 4);
    let k11 = cand_value_to(m, depth, false, PieceLetter::O, 0);
    let k12 = cand_value_to(m, depth, false, PieceLetter::O, 5);
    assert(above(k1, bound) && above(k2, bound) && above(k3, bound) && above(k4, bound) && above(
        k5,
        bound,
    ) && above(k6, bound));
    assert(above(k7, bound) && above(k8, bound) && above(k9, bound) && above(k10, bound) && above(
        k11,
        bound,
    ) && above(k12, bound));
    let v0 = i32::MAX as int;
    let v1 = step_min(v0, k1);
    let v2 = step_min(v1, k2);
    let v3 = step_min(v2, k3);
    let v4 = step_min(v3, k4);
    let v5 = step_min(v4, k5);
    let v6 = step_min(v5, k6);
    let v7 = step_min(v6, k7);
    let v8 = step_min(v7, k8);
    let v9 = step_min(v8, k9);
    let v10 = step_min(v9, k10);
    let v11 = step_min(v10, k11);
    let v12 = step_min(v11, k12);
    assert(minimax_value_to(m, depth, false) == v12);
    assert(v12 >= bound);
}

/// A candidate value, when present, is at least the bound.
pub open spec fn above(o: Option<int>, bound: int) -> bool {
    match o {
        None => true,
        Some(v) => v >= bound,
    }
}

/// When some move of OTTO's denies TOOT every immediately winning
/// reply, only such a move carries the minimax value.
#[verifier::rlimit(100)]
proof fn lemma_block_pick_to(m: TOModel, d: nat, letter: PieceLetter, col: int)
    requires
        m.wf(),
        !m.terminal,
        2 <= d <= 24,
        m.active == Player::OTTO,
        exists|l: PieceLetter, c: int| #[trigger] blocks_to(m, l, c),
        m.legal(letter, col),
        cand_value_to(m, d, true, letter, col) == Some(minimax_value_to(m, d, true)),
    ensures
        blocks_to(m, letter, col),
{
    let v = minimax_value_to(m, d, true);
    let childc = m.drop_result(letter, col);
    lemma_drop_preserves_wf_to(m, letter, col);
    let (lb, cb) = choose|l: PieceLetter, c: int| #[trigger] blocks_to(m, l, c);
    let childb = m.drop_result(lb, cb);
    lemma_drop_preserves_wf_to(m, lb, cb);
    // Lower bound for the blocking child.
    if childb.terminal {
        assert(childb.winner != Some(Player::TOOT));
        assert(minimax_value_to(childb, (d - 1) as nat, false) >= 0);
    } else {
        assert(!immediate_win_to(childb));
        assert(childb.active == Player::TOOT);
        assert forall|l: PieceLetter, c: int| childb.legal(l, c) implies minimax_value_to(
            (#[trigger] childb.drop_result(l, c)),
            (d - 2) as nat,
            true,
        ) >= i32::MIN + 28 - d by {
            lemma_drop_preserves_wf_to(childb, l, c);
            assert(childb.drop_result(l, c).winner != Some(Player::TOOT));
            lemma_value_lower_not_toot(childb.drop_result(l, c), (d - 2) as nat, true);
        }
        lemma_min_value_lower(childb, (d - 1) as nat, i32::MIN + 28 - d);
    }
    assert(minimax_value_to(childb, (d - 1) as nat, false) > i32::MIN + 27 - d);
    lemma_value_dominates_to(m, d, true, lb, cb);
    assert(v > i32::MIN + 27 - d);
    // A non-blocking choice could not reach that value.
    if !blocks_to(m, letter, col) {
        if childc.terminal {
            assert(childc.winner == Some(Player::TOOT));
            assert(minimax_value_to(childc, (d - 1) as nat, false) == i32::MIN + 25 - (d - 1));
            assert(false);
        } else {
            assert(immediate_win_to(childc));
            let (lt, ct) = choose|l: PieceLetter, c: int|
                childc.legal(l, c) && (#[trigger] childc.drop_result(l, c)).winner == Some(
                    childc.active,
                );
            let grand = childc.drop_result(lt, ct);
            assert(grand.winner == Some(Player::TOOT));
            assert(grand.terminal);
            assert(minimax_value_to(grand, (d - 2) as nat, true) == i32::MIN + 25 - (d - 2));
            lemma_value_dominates_to(childc, (d - 1) as nat, false, lt, ct);
            assert(minimax_value_to(childc, (d - 1) as nat, false) <= i32::MIN + 27 - d);
            assert(false);
        }
    }
}

} // verus!
