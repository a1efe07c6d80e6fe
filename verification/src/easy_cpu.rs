//! The easy Connect Four computer opponent: a uniformly random legal
//! column.

use crate::connect4::{lemma_seq_sum_bounds, Connect4};
use crate::rng::random_below;
use vstd::prelude::*;

verus! {

/// Chooses a random column that can still take a piece.
pub fn make_move(board: &Connect4) -> (col: usize)
    requires
        board.wf(),
        !board@.terminal,
    ensures
        board@.legal(col as int),
{
    let mut eligible: Vec<usize> = Vec::new();
    let mut i: usize = 0;
    while i < 7
        invariant
            board.wf(),
            i <= 7,
            forall|k: int|
                0 <= k < eligible@.len() ==> (#[trigger] eligible@[k]) < 7 && board@.heights[
                    eligible@[k] as int
                ] < 6,
            (exists|c: int| 0 <= c < i && board@.heights[c] < 6) ==> eligible@.len() > 0,
        decreases 7 - i,
    {
        if board.get_col_height(i) < 6 {
            eligible.push(i);
        }
        i = i + 1;
    }
    proof {
        if !(exists|c: int| 0 <= c < 7 && board@.heights[c] < 6) {
            assert forall|c: int| 0 <= c < 7 implies 6 <= #[trigger] board@.heights[c] <= 6 by {}
            lemma_seq_sum_bounds(board@.heights, 6, 6);
            assert(board@.moves == 42);
            assert(false);
        }
    }
    let idx = random_below(eligible.len());
    eligible[idx]
}

} // verus!
