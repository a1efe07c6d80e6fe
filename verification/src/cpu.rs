//! The Connect Four computer opponent: a depth-limited minimax search
//! with Yellow as the maximizer, scanning columns center-outward and
//! breaking ties between equally strong columns with a random seed.

use crate::connect4::{
    lemma_drop_preserves_wf, lemma_exists_legal, lemma_score_bound, C4Model, Connect4,
};
use crate::piece_color::PieceColor;
use crate::rng::random_seed;
use vstd::prelude::*;

verus! {

/// The value of a finished game with `depth` plies of search budget
/// left: a Yellow win is best, and better the sooner it came; a Red
/// win is worst, and less bad the later it comes; a draw is 0.
pub open spec fn terminal_value(m: C4Model, depth: int) -> int {
    match m.winner {
        None => 0,
        Some(PieceColor::YELLOW) => i32::MAX - 43 + depth,
        Some(PieceColor::RED) => i32::MIN + 43 - depth,
    }
}

/// The value a drop into `col` would lead to, when it is legal.
pub open spec fn cand_value(m: C4Model, depth: nat, is_max: bool, col: int) -> Option<int>
    decreases depth, 0int,
{
    if depth > 0 && m.legal(col) {
        Some(minimax_value(m.drop_result(col), (depth - 1) as nat, !is_max))
    } else {
        None
    }
}

/// Folds one candidate into a running maximum.
pub open spec fn step_max(acc: int, o: Option<int>) -> int {
    match o {
        None => acc,
        Some(v) => if v > acc {
            v
        } else {
            acc
        },
    }
}

/// Folds one candidate into a running minimum.
pub open spec fn step_min(acc: int, o: Option<int>) -> int {
    match o {
        None => acc,
        Some(v) => if v < acc {
            v
        } else {
            acc
        },
    }
}

/// The minimax value of a position with `depth` plies left, Yellow
/// maximizing: the terminal value for finished games, the heuristic
/// score for exhausted depth, and otherwise the best value among the
/// legal drops, scanned center-outward.
pub open spec fn minimax_value(m: C4Model, depth: nat, is_max: bool) -> int
    decreases depth, 1int,
{
    if m.terminal {
        terminal_value(m, depth as int)
    } else if depth == 0 {
        m.score(PieceColor::YELLOW)
    } else if is_max {
        step_max(
            step_max(
                step_max(
                    step_max(
                        step_max(
                            step_max(
                                step_max(i32::MIN as int, cand_value(m, depth, true, 3)),
                                cand_value(m, depth, true, 2),
                            ),
                            cand_value(m, depth, true, 4),
                        ),
                        cand_value(m, depth, true, 1),
                    ),
                    cand_value(m, depth, true, 5),
                ),
                cand_value(m, depth, true, 0),
            ),
            cand_value(m, depth, true, 6),
        )
    } else {
        step_min(
            step_min(
                step_min(
                    step_min(
                        step_min(
                            step_min(
                                step_min(i32::MAX as int, cand_value(m, depth, false, 3)),
                                cand_value(m, depth, false, 2),
                            ),
                            cand_value(m, depth, false, 4),
                        ),
                        cand_value(m, depth, false, 1),
                    ),
                    cand_value(m, depth, false, 5),
                ),
                cand_value(m, depth, false, 0),
            ),
            cand_value(m, depth, false, 6),
        )
    }
}

/// The tie-breaking coin: one bit of the seed, selected by the depth
/// and column at which the tie occurred.
pub open spec fn spec_coin(seed: u64, depth: u64, col: u64) -> bool {
    ((seed >> ((depth ^ col) & 63)) & 1) == 0
}

/// One step of the column scan: an illegal column changes nothing, a
/// strictly better value takes over, and an equal value keeps or
/// replaces the held column as the coin decides.  `acc` is the running
/// `(value, column)` pair.
pub open spec fn pick_step(
    m: C4Model,
    depth: nat,
    is_max: bool,
    seed: u64,
    acc: (int, int),
    col: int,
) -> (int, int) {
    match cand_value(m, depth, is_max, col) {
        None => acc,
        Some(v) => {
            if (is_max && v > acc.0) || (!is_max && v < acc.0) {
                (v, col)
            } else if v == acc.0 {
                if spec_coin(seed, depth as u64, col as u64) {
                    (acc.0, col)
                } else {
                    acc
                }
            } else {
                acc
            }
        },
    }
}

/// The full scan of the seven columns in center-outward order,
/// returning the final `(value, column)` pair.
pub open spec fn search_cols(m: C4Model, depth: nat, is_max: bool, seed: u64) -> (int, int) {
    let s0 = (
        if is_max {
            i32::MIN as int
        } else {
            i32::MAX as int
        },
        0int,
    );
    let s1 = pick_step(m, depth, is_max, seed, s0, 3);
    let s2 = pick_step(m, depth, is_max, seed, s1, 2);
    let s3 = pick_step(m, depth, is_max, seed, s2, 4);
    let s4 = pick_step(m, depth, is_max, seed, s3, 1);
    let s5 = pick_step(m, depth, is_max, seed, s4, 5);
    let s6 = pick_step(m, depth, is_max, seed, s5, 0);
    pick_step(m, depth, is_max, seed, s6, 6)
}

/// What the search returns for a position: `(column, value)`, a pure
/// function of the position, the depth and the seed.
pub open spec fn search_spec(m: C4Model, depth: nat, is_max: bool, seed: u64) -> (int, int) {
    if m.terminal {
        (3, terminal_value(m, depth as int))
    } else if depth == 0 {
        (3, m.score(PieceColor::YELLOW))
    } else {
        let s = search_cols(m, depth, is_max, seed);
        (s.1, s.0)
    }
}

/// Whatever the coin says, the scan's value is the minimax value.
pub proof fn lemma_search_value(m: C4Model, depth: nat, is_max: bool, seed: u64)
    ensures
        search_spec(m, depth, is_max, seed).1 == minimax_value(m, depth, is_max),
{
}

/// The minimax value stays within the terminal band: as good as an
/// immediate win and as bad as an immediate loss at most.
#[verifier::rlimit(100)]
pub proof fn lemma_value_bounds(m: C4Model, depth: nat, is_max: bool)
    requires
        m.wf(),
        depth <= 42,
    ensures
        i32::MIN + 43 - depth <= minimax_value(m, depth, is_max) <= i32::MAX - 43 + depth,
    decreases depth,
{
    if m.terminal {
    } else if depth == 0 {
        lemma_score_bound(m, PieceColor::YELLOW);
    } else {
        if m.legal(0) {
            lemma_drop_preserves_wf(m, 0);
            lemma_value_bounds(m.drop_result(0), (depth - 1) as nat, !is_max);
        }
        if m.legal(1) {
            lemma_drop_preserves_wf(m, 1);
            lemma_value_bounds(m.drop_result(1), (depth - 1) as nat, !is_max);
        }
        if m.legal(2) {
            lemma_drop_preserves_wf(m, 2);
            lemma_value_bounds(m.drop_result(2), (depth - 1) as nat, !is_max);
        }
        if m.legal(3) {
            lemma_drop_preserves_wf(m, 3);
            lemma_value_bounds(m.drop_result(3), (depth - 1) as nat, !is_max);
        }
        if m.legal(4) {
            lemma_drop_preserves_wf(m, 4);
            lemma_value_bounds(m.drop_result(4), (depth - 1) as nat, !is_max);
        }
        if m.legal(5) {
            lemma_drop_preserves_wf(m, 5);
            lemma_value_bounds(m.drop_result(5), (depth - 1) as nat, !is_max);
        }
        if m.legal(6) {
            lemma_drop_preserves_wf(m, 6);
            lemma_value_bounds(m.drop_result(6), (depth - 1) as nat, !is_max);
        }
        lemma_exists_legal(m);
        let c0 = choose|c: int| #[trigger] m.legal(c);
        assert(0 <= c0 < 7);
        assert(cand_value(m, depth, is_max, c0) == Some(
            minimax_value(m.drop_result(c0), (depth - 1) as nat, !is_max),
        ));
    }
}

/// The minimax value of a node is at least (maximizer) or at most
/// (minimizer) the value reached through any legal column.
pub proof fn lemma_value_dominates(m: C4Model, depth: nat, is_max: bool, col: int)
    requires
        !m.terminal,
        depth > 0,
        m.legal(col),
    ensures
        is_max ==> minimax_value(m, depth, true) >= minimax_value(
            m.drop_result(col),
            (depth - 1) as nat,
            false,
        ),
        !is_max ==> minimax_value(m, depth, false) <= minimax_value(
            m.drop_result(col),
            (depth - 1) as nat,
            true,
        ),
{
    assert(0 <= col < 7);
    assert(cand_value(m, depth, is_max, col) == Some(
        minimax_value(m.drop_result(col), (depth - 1) as nat, !is_max),
    ));
}

/// A non-terminal position whose winner field is empty is worth
/// strictly more than the worst terminal value of its depth.
pub proof fn lemma_value_lower_no_winner(m: C4Model, depth: nat, is_max: bool)
    requires
        m.wf(),
        depth <= 42,
        m.winner is None,
    ensures
        minimax_value(m, depth, is_max) >= i32::MIN + 44 - depth,
{
    if m.terminal {
    } else if depth == 0 {
        lemma_score_bound(m, PieceColor::YELLOW);
    } else {
        if m.legal(0) {
            lemma_drop_preserves_wf(m, 0);
            lemma_value_bounds(m.drop_result(0), (depth - 1) as nat, !is_max);
        }
        if m.legal(1) {
            lemma_drop_preserves_wf(m, 1);
            lemma_value_bounds(m.drop_result(1), (depth - 1) as nat, !is_max);
        }
        if m.legal(2) {
            lemma_drop_preserves_wf(m, 2);
            lemma_value_bounds(m.drop_result(2), (depth - 1) as nat, !is_max);
        }
        if m.legal(3) {
            lemma_drop_preserves_wf(m, 3);
            lemma_value_bounds(m.drop_result(3), (depth - 1) as nat, !is_max);
        }
        if m.legal(4) {
            lemma_drop_preserves_wf(m, 4);
            lemma_value_bounds(m.drop_result(4), (depth - 1) as nat, !is_max);
        }
        if m.legal(5) {
            lemma_drop_preserves_wf(m, 5);
            lemma_value_bounds(m.drop_result(5), (depth - 1) as nat, !is_max);
        }
        if m.legal(6) {
            lemma_drop_preserves_wf(m, 6);
            lemma_value_bounds(m.drop_result(6), (depth - 1) as nat, !is_max);
        }
        lemma_exists_legal(m);
        let c0 = choose|c: int| #[trigger] m.legal(c);
        assert(0 <= c0 < 7);
        assert(cand_value(m, depth, is_max, c0) == Some(
            minimax_value(m.drop_result(c0), (depth - 1) as nat, !is_max),
        ));
    }
}

/// The player to move can finish the game with a single drop.
pub open spec fn immediate_win(m: C4Model) -> bool {
    exists|c: int| m.legal(c) && (#[trigger] m.drop_result(c)).winner is Some
}

/// The drop into `c` denies the opponent every immediately winning
/// reply (by winning or filling the board itself, or by leaving no
/// winning drop open).
pub open spec fn blocks(m: C4Model, c: int) -> bool {
    m.legal(c) && (m.drop_result(c).terminal || !immediate_win(m.drop_result(c)))
}

/// The tie-breaking coin drawn from the seed.
#[verifier::when_used_as_spec(spec_coin)]
fn coin(seed: u64, depth: u64, col: u64) -> (r: bool)
    ensures
        r == spec_coin(seed, depth, col),
{
    proof {
        assert(((depth ^ col) & 63) < 64u64) by (bit_vector);
    }
    ((seed >> ((depth ^ col) & 63)) & 1) == 0
}

/// The running `(value, column)` pair either still holds its starting
/// value or holds the value reached through the held legal column.
pub open spec fn attains(m: C4Model, depth: nat, is_max: bool, value: int, best: int) -> bool {
    ||| value == (if is_max {
        i32::MIN as int
    } else {
        i32::MAX as int
    })
    ||| (m.legal(best) && cand_value(m, depth, is_max, best) == Some(value))
}

/// Tries one column and folds the value it reaches into the running
/// best, exactly as `pick_step` describes.
fn consider(
    board: &Connect4,
    col: usize,
    depth: usize,
    is_max: bool,
    seed: u64,
    value: &mut i32,
    best: &mut usize,
)
    requires
        board.wf(),
        !board@.terminal,
        1 <= depth <= 42,
        col < 7,
        *old(best) < 7,
    ensures
        (*final(value) as int, *final(best) as int) == pick_step(
            board@,
            depth as nat,
            is_max,
            seed,
            (*old(value) as int, *old(best) as int),
            col as int,
        ),
        *final(best) < 7,
        attains(board@, depth as nat, is_max, *old(value) as int, *old(best) as int) ==> attains(
            board@,
            depth as nat,
            is_max,
            *final(value) as int,
            *final(best) as int,
        ),
    decreases depth, 0int,
{
    let mut copy = board.clone();
    if copy.drop(col) {
        let child = minmax(copy, depth - 1, !is_max, seed);
        let nv = child.1;
        if (is_max && nv > *value) || (!is_max && nv < *value) {
            *value = nv;
            *best = col;
        } else if nv == *value {
            if coin(seed, depth as u64, col as u64) {
                *best = col;
            }
        }
    }
}

/// Depth-limited minimax from Yellow's point of view.  Returns the
/// chosen column and its value: the exact minimax value of the
/// position, reached through the returned column whenever the game is
/// still open and depth remains.  The whole result is a pure function
/// of the position, the depth and the seed.
pub fn minmax(board: Connect4, depth: usize, is_cpu_turn: bool, seed: u64) -> (r: (usize, i32))
    requires
        board.wf(),
        depth <= 42,
    ensures
        r.1 as int == minimax_value(board@, depth as nat, is_cpu_turn),
        (r.0 as int, r.1 as int) == search_spec(board@, depth as nat, is_cpu_turn, seed),
        !board@.terminal && depth > 0 ==> board@.legal(r.0 as int) && cand_value(
            board@,
            depth as nat,
            is_cpu_turn,
            r.0 as int,
        ) == Some(r.1 as int),
    decreases depth, 1int,
{
    if board.is_terminal {
        let v: i32 = match board.winner {
            None => 0,
            Some(c) => match c {
                PieceColor::YELLOW => i32::MAX - 43 + depth as i32,
                PieceColor::RED => i32::MIN + 43 - depth as i32,
            },
        };
        return (3, v);
    }
    if depth == 0 {
        return (3, board.calculate_score(PieceColor::YELLOW));
    }
    let mut value: i32 = if is_cpu_turn {
        i32::MIN
    } else {
        i32::MAX
    };
    let mut best: usize = 0;
    consider(&board, 3, depth, is_cpu_turn, seed, &mut value, &mut best);
    consider(&board, 2, depth, is_cpu_turn, seed, &mut value, &mut best);
    consider(&board, 4, depth, is_cpu_turn, seed, &mut value, &mut best);
    consider(&board, 1, depth, is_cpu_turn, seed, &mut value, &mut best);
    consider(&board, 5, depth, is_cpu_turn, seed, &mut value, &mut best);
    consider(&board, 0, depth, is_cpu_turn, seed, &mut value, &mut best);
    consider(&board, 6, depth, is_cpu_turn, seed, &mut value, &mut best);
    proof {
        let m = board@;
        let d = depth as nat;
        assert((value as int, best as int) == search_cols(m, d, is_cpu_turn, seed));
        lemma_search_value(m, d, is_cpu_turn, seed);
        lemma_exists_legal(m);
        let c0 = choose|c: int| #[trigger] m.legal(c);
        lemma_drop_preserves_wf(m, c0);
        lemma_value_bounds(m.drop_result(c0), (d - 1) as nat, !is_cpu_turn);
        lemma_value_dominates(m, d, is_cpu_turn, c0);
        assert(attains(m, d, is_cpu_turn, value as int, best as int));
        if is_cpu_turn {
            assert(minimax_value(m, d, true) > i32::MIN);
        } else {
            assert(minimax_value(m, d, false) < i32::MAX);
        }
    }
    (best, value)
}

/// The computer's move for the given seed: minimax with the active
/// player maximizing Yellow's outcome.  The chosen column is always a
/// legal drop; at depth 1 and more it wins on the spot whenever the
/// mover has a winning drop, and at depth 2 and more it denies the
/// opponent every immediately winning reply whenever some drop could.
/// The choice is a pure function of the position, the depth and the
/// seed.
pub fn make_move_seeded(board: &Connect4, depth: usize, seed: u64) -> (col: usize)
    requires
        board.wf(),
        !board@.terminal,
        1 <= depth <= 42,
    ensures
        board@.legal(col as int),
        col as int == search_spec(board@, depth as nat, true, seed).0,
        board@.active == PieceColor::YELLOW && immediate_win(board@) ==> board@.drop_result(
            col as int,
        ).winner == Some(PieceColor::YELLOW),
        depth >= 2 && board@.active == PieceColor::YELLOW && (exists|c: int|
            #[trigger] blocks(board@, c)) ==> blocks(board@, col as int),
{
    let r = minmax(board.clone(), depth, true, seed);
    proof {
        let m = board@;
        let d = depth as nat;
        let col = r.0 as int;
        let v = r.1 as int;
        let childc = m.drop_result(col);
        lemma_drop_preserves_wf(m, col);
        if m.active == PieceColor::YELLOW && immediate_win(m) {
            let w = choose|c: int| m.legal(c) && (#[trigger] m.drop_result(c)).winner is Some;
            let childw = m.drop_result(w);
            assert(childw.winner == Some(PieceColor::YELLOW));
            assert(childw.terminal);
            assert(minimax_value(childw, (d - 1) as nat, false) == i32::MAX - 43 + (d - 1));
            lemma_value_dominates(m, d, true, w);
            assert(v >= i32::MAX - 43 + (d - 1));
            // The chosen column reaches the same value, which only an
            // immediate Yellow win can supply.
            assert(minimax_value(childc, (d - 1) as nat, false) == v);
            if childc.terminal {
                if childc.winner is None {
                    assert(minimax_value(childc, (d - 1) as nat, false) == 0);
                    assert(false);
                }
                assert(childc.winner == Some(PieceColor::YELLOW));
            } else {
                if d - 1 == 0 {
                    lemma_score_bound(childc, PieceColor::YELLOW);
                    assert(false);
                } else {
                    // A min node is at most one of its children, and
                    // every grandchild sits a ply lower in the band.
                    lemma_exists_legal(childc);
                    let cc = choose|c: int| #[trigger] childc.legal(c);
                    lemma_drop_preserves_wf(childc, cc);
                    lemma_value_bounds(childc.drop_result(cc), (d - 2) as nat, true);
                    lemma_value_dominates(childc, (d - 1) as nat, false, cc);
                    assert(false);
                }
            }
        }
        if depth >= 2 && m.active == PieceColor::YELLOW && (exists|c: int|
            #[trigger] blocks(m, c)) {
            let b = choose|c: int| #[trigger] blocks(m, c);
            let childb = m.drop_result(b);
            lemma_drop_preserves_wf(m, b);
            // Lower bound for the blocking child.
            if childb.terminal {
                assert(childb.winner != Some(PieceColor::RED));
                assert(minimax_value(childb, (d - 1) as nat, false) >= 0);
            } else {
                assert(!immediate_win(childb));
                if childb.legal(0) {
                    lemma_drop_preserves_wf(childb, 0);
                    assert(childb.drop_result(0).winner is None);
                    lemma_value_lower_no_winner(childb.drop_result(0), (d - 2) as nat, true);
                }
                if childb.legal(1) {
                    lemma_drop_preserves_wf(childb, 1);
                    assert(childb.drop_result(1).winner is None);
                    lemma_value_lower_no_winner(childb.drop_result(1), (d - 2) as nat, true);
                }
                if childb.legal(2) {
                    lemma_drop_preserves_wf(childb, 2);
                    assert(childb.drop_result(2).winner is None);
                    lemma_value_lower_no_winner(childb.drop_result(2), (d - 2) as nat, true);
                }
                if childb.legal(3) {
                    lemma_drop_preserves_wf(childb, 3);
                    assert(childb.drop_result(3).winner is None);
                    lemma_value_lower_no_winner(childb.drop_result(3), (d - 2) as nat, true);
                }
                if childb.legal(4) {
                    lemma_drop_preserves_wf(childb, 4);
                    assert(childb.drop_result(4).winner is None);
                    lemma_value_lower_no_winner(childb.drop_result(4), (d - 2) as nat, true);
                }
                if childb.legal(5) {
                    lemma_drop_preserves_wf(childb, 5);
                    assert(childb.drop_result(5).winner is None);
                    lemma_value_lower_no_winner(childb.drop_result(5), (d - 2) as nat, true);
                }
                if childb.legal(6) {
                    lemma_drop_preserves_wf(childb, 6);
                    assert(childb.drop_result(6).winner is None);
                    lemma_value_lower_no_winner(childb.drop_result(6), (d - 2) as nat, true);
                }
                assert(minimax_value(childb, (d - 1) as nat, false) >= i32::MIN + 44 - (d - 2));
            }
            assert(minimax_value(childb, (d - 1) as nat, false) > i32::MIN + 43 - (d - 2));
            lemma_value_dominates(m, d, true, b);
            assert(v > i32::MIN + 43 - (d - 2));
            // A non-blocking choice could not reach that value.
            if !blocks(m, col) {
                assert(!childc.terminal);
                assert(immediate_win(childc));
                let t = choose|c: int|
                    childc.legal(c) && (#[trigger] childc.drop_result(c)).winner is Some;
                let grand = childc.drop_result(t);
                assert(grand.winner == Some(PieceColor::RED));
                assert(grand.terminal);
                assert(minimax_value(grand, (d - 2) as nat, true) == i32::MIN + 43 - (d - 2));
                lemma_value_dominates(childc, (d - 1) as nat, false, t);
                assert(minimax_value(childc, (d - 1) as nat, false) <= i32::MIN + 43 - (d - 2));
                assert(false);
            }
        }
    }
    r.0
}

/// The computer's move: a fresh random seed, then the seeded search.
pub fn make_move(board: Connect4, depth: usize) -> (col: usize)
    requires
        board.wf(),
        !board@.terminal,
        1 <= depth <= 42,
    ensures
        board@.legal(col as int),
        board@.active == PieceColor::YELLOW && immediate_win(board@) ==> board@.drop_result(
            col as int,
        ).winner == Some(PieceColor::YELLOW),
        depth >= 2 && board@.active == PieceColor::YELLOW && (exists|c: int|
            #[trigger] blocks(board@, c)) ==> blocks(board@, col as int),
{
    let seed = random_seed();
    make_move_seeded(&board, depth, seed)
}

} // verus!
