use connect_games::connect4::Connect4;
use connect_games::cpu;
use connect_games::opponent::Opponent;
use connect_games::cpu_con4;
use connect_games::easy_cpu;
use connect_games::hard_cpu;
use connect_games::medium_cpu;
use connect_games::piece_color::PieceColor;

fn drop_all(board: &mut Connect4, cols: &[usize]) {
    for &c in cols {
        assert!(board.drop(c), "drop into column {} was rejected", c);
    }
}

/// Three Yellows on the bottom of columns 2,3,4 with Yellow to move:
/// columns 1 and 5 both complete the line.
fn forced_win_position() -> Connect4 {
    let mut b = Connect4::new();
    drop_all(&mut b, &[0, 2, 0, 3, 6, 4, 6]);
    assert_eq!(b.active_player, PieceColor::YELLOW);
    assert!(!b.is_terminal);
    b
}

/// Red owns the bottom of columns 0,1,2 with Yellow to move: only
/// column 3 stops the immediate red win.
fn must_block_position() -> Connect4 {
    let mut b = Connect4::new();
    drop_all(&mut b, &[0, 0, 1, 1, 2]);
    assert_eq!(b.active_player, PieceColor::YELLOW);
    assert!(!b.is_terminal);
    b
}

#[test]
fn make_move_returns_a_legal_column() {
    let b = Connect4::new();
    for depth in 1..4 {
        let col = cpu::make_move(b.clone(), depth);
        assert!(col < 7);
        assert!(b.get_col_height(col) < 6);
    }
}

#[test]
fn make_move_takes_an_immediate_win() {
    for depth in [1, 2, 3] {
        let b = forced_win_position();
        let col = cpu::make_move(b.clone(), depth);
        assert!(col == 1 || col == 5, "expected a winning column, got {}", col);
        let mut after = b.clone();
        assert!(after.drop(col));
        assert_eq!(after.winner, Some(PieceColor::YELLOW));
    }
}

#[test]
fn make_move_blocks_an_immediate_loss() {
    for depth in [2, 3, 4] {
        let b = must_block_position();
        let col = cpu::make_move(b.clone(), depth);
        assert_eq!(col, 3, "depth {} failed to block", depth);
    }
}

#[test]
fn seeded_search_is_deterministic() {
    let mut b = Connect4::new();
    drop_all(&mut b, &[3, 2, 4]);
    for seed in [0u64, 1, 0xDEADBEEF] {
        let a = cpu::make_move_seeded(&b, 3, seed);
        let c = cpu::make_move_seeded(&b, 3, seed);
        assert_eq!(a, c);
    }
}

#[test]
fn pruned_search_matches_plain_minimax_value() {
    let positions: Vec<Vec<usize>> = vec![
        vec![],
        vec![3],
        vec![3, 3, 2],
        vec![0, 1, 1, 2, 2, 3],
        vec![3, 2, 4, 2, 0, 6, 5],
    ];
    for cols in positions {
        let mut b = Connect4::new();
        drop_all(&mut b, &cols);
        for depth in [1, 2, 3, 4] {
            let plain = cpu::minmax(b.clone(), depth, true, 7).1;
            let pruned = cpu_con4::minmax(b.clone(), depth, i32::MIN, i32::MAX, true).1;
            assert_eq!(plain, pruned, "depth {} after {:?}", depth, cols);
        }
    }
}

#[test]
fn alpha_beta_make_move_takes_an_immediate_win() {
    let b = forced_win_position();
    let col = cpu_con4::make_move(b.clone(), 2);
    let mut after = b.clone();
    assert!(after.drop(col));
    assert_eq!(after.winner, Some(PieceColor::YELLOW));
}

#[test]
fn easy_cpu_picks_an_open_column() {
    let mut b = Connect4::new();
    // Fill column 3 completely so the random pick must avoid it.
    drop_all(&mut b, &[3, 3, 3, 3, 3, 3]);
    for _ in 0..20 {
        let col = easy_cpu::make_move(&b);
        assert!(col < 7);
        assert_ne!(col, 3);
        assert!(b.get_col_height(col) < 6);
    }
}

#[test]
fn medium_cpu_takes_an_immediate_win() {
    let b = forced_win_position();
    let col = medium_cpu::make_move(b.clone());
    // The scan is lowest-column-first, so of the two winning columns
    // it takes column 1.
    assert_eq!(col, 1);
    let mut after = b.clone();
    assert!(after.drop(col));
    assert_eq!(after.winner, Some(PieceColor::YELLOW));
}

#[test]
fn medium_cpu_blocks_an_immediate_loss() {
    let b = must_block_position();
    assert_eq!(medium_cpu::make_move(b), 3);
}

#[test]
fn medium_cpu_prefers_the_center() {
    let b = Connect4::new();
    assert_eq!(medium_cpu::make_move(b), 3);
}

#[test]
fn medium_cpu_avoids_setup_columns() {
    // Red owns row 4 over columns 0..2; a Yellow drop into column 3
    // would let Red complete that row on top of it.  The fallback rule
    // must skip the otherwise most central column 3 and take 2.
    let mut b = Connect4::new();
    drop_all(&mut b, &[2, 0, 0, 1, 1, 5, 2, 6, 4]);
    assert_eq!(b.active_player, PieceColor::YELLOW);
    let bad = medium_cpu::check_for_setup_moves(b.clone());
    assert_eq!(bad, vec![3]);
    assert_eq!(medium_cpu::make_move(b), 2);
}

#[test]
fn winning_move_scan_finds_the_lowest_column() {
    let b = forced_win_position();
    assert_eq!(
        medium_cpu::check_for_winning_move(PieceColor::YELLOW, b.clone()),
        Some(1)
    );
    assert_eq!(medium_cpu::check_for_winning_move(PieceColor::RED, b), None);
}

#[test]
fn eligible_columns_lists_the_open_ones() {
    let mut b = Connect4::new();
    drop_all(&mut b, &[3, 3, 3, 3, 3, 3]);
    assert_eq!(medium_cpu::check_for_eligible_columns(b), vec![0, 1, 2, 4, 5, 6]);
}

#[test]
fn opponents_are_distinct() {
    let strengths = [Opponent::Human, Opponent::EasyCPU, Opponent::MediumCPU, Opponent::HardCPU];
    for (i, a) in strengths.iter().enumerate() {
        for (j, b) in strengths.iter().enumerate() {
            assert_eq!(a == b, i == j);
        }
    }
}

#[test]
fn negamax_on_a_full_board_is_a_draw() {
    let mut b = Connect4::new();
    let mut seq: Vec<usize> = Vec::new();
    for _ in 0..6 {
        seq.extend_from_slice(&[0, 1, 2]);
    }
    for _ in 0..6 {
        seq.extend_from_slice(&[3, 4, 5]);
    }
    for _ in 0..6 {
        seq.push(6);
    }
    drop_all(&mut b, &seq);
    assert_eq!(hard_cpu::negamax(b, PieceColor::RED), (0, 0));
}

#[test]
fn negamax_takes_an_immediate_win() {
    let b = forced_win_position();
    let (score, col) = hard_cpu::negamax(b, PieceColor::YELLOW);
    assert_eq!(col, 1);
    assert_eq!(score, 43 - 7 / 2);
}
