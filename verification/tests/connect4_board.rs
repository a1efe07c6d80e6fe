use connect_games::connect4::Connect4;
use connect_games::piece_color::PieceColor;

fn drop_all(board: &mut Connect4, cols: &[usize]) {
    for &c in cols {
        assert!(board.drop(c), "drop into column {} was rejected", c);
    }
}

#[test]
fn new_board_is_empty() {
    let b = Connect4::new();
    assert_eq!(b.moves_played, 0);
    assert!(!b.is_terminal);
    assert!(b.winner.is_none());
    assert_eq!(b.active_player, PieceColor::RED);
    for c in 0..7 {
        assert_eq!(b.get_col_height(c), 0);
    }
    for r in 0..6 {
        for c in 0..7 {
            assert!(b.grid_at(r, c).is_none());
        }
    }
}

#[test]
fn drop_stacks_from_the_bottom() {
    let mut b = Connect4::new();
    assert!(b.drop(3));
    assert_eq!(b.grid_at(5, 3), Some(PieceColor::RED));
    assert_eq!(b.active_player, PieceColor::YELLOW);
    assert!(b.drop(3));
    assert_eq!(b.grid_at(4, 3), Some(PieceColor::YELLOW));
    assert!(b.grid_at(3, 3).is_none());
    assert_eq!(b.get_col_height(3), 2);
    assert_eq!(b.moves_played, 2);
    assert_eq!(b.get_col_height(2), 0);
}

#[test]
fn heights_always_sum_to_moves() {
    let mut b = Connect4::new();
    drop_all(&mut b, &[0, 3, 3, 6, 2, 2, 2]);
    let total: usize = (0..7).map(|c| b.get_col_height(c)).sum();
    assert_eq!(total, b.moves_played);
    assert_eq!(b.moves_played, 7);
}

#[test]
fn drop_rejects_out_of_range_column() {
    let mut b = Connect4::new();
    assert!(!b.drop(7));
    assert!(!b.drop(usize::MAX));
    assert_eq!(b.moves_played, 0);
    assert_eq!(b.active_player, PieceColor::RED);
}

#[test]
fn drop_rejects_full_column() {
    let mut b = Connect4::new();
    // Alternate columns 0 and 1 so nobody wins while column 0 fills.
    drop_all(&mut b, &[0, 1, 0, 1, 0, 0, 1, 0, 0]);
    assert_eq!(b.get_col_height(0), 6);
    assert!(!b.is_terminal);
    let before_moves = b.moves_played;
    let before_active = b.active_player;
    assert!(!b.drop(0));
    assert_eq!(b.moves_played, before_moves);
    assert_eq!(b.active_player, before_active);
    assert_eq!(b.get_col_height(0), 6);
}

#[test]
fn bottom_row_win() {
    // C4 scenario: drops 3,3,4,4,5,5,6 give Red four on the bottom row.
    let mut b = Connect4::new();
    drop_all(&mut b, &[3, 3, 4, 4, 5, 5, 6]);
    assert!(b.is_terminal);
    assert_eq!(b.winner, Some(PieceColor::RED));
    let line = b.check_for_win(PieceColor::RED).expect("red should have a line");
    assert_eq!(line, vec![[5, 3], [5, 4], [5, 5], [5, 6]]);
}

#[test]
fn winning_line_cells_hold_the_winner() {
    let mut b = Connect4::new();
    drop_all(&mut b, &[3, 3, 4, 4, 5, 5, 6]);
    let line = b.check_for_win(PieceColor::RED).expect("red should have a line");
    assert_eq!(line.len(), 4);
    for cell in line {
        assert_eq!(b.grid_at(cell[0], cell[1]), Some(PieceColor::RED));
    }
    assert!(b.check_for_win(PieceColor::YELLOW).is_none());
}

#[test]
fn diagonal_win() {
    // C4 scenario: drops 0,1,1,2,2,3,2,3,3,0,3 end in a diagonal win.
    let mut b = Connect4::new();
    drop_all(&mut b, &[0, 1, 1, 2, 2, 3, 2, 3, 3, 0]);
    assert!(!b.is_terminal);
    assert!(b.drop(3));
    assert!(b.is_terminal);
    assert_eq!(b.winner, Some(PieceColor::RED));
    let line = b.check_for_win(PieceColor::RED).expect("red should have a line");
    assert_eq!(line.len(), 4);
    for cell in line {
        assert_eq!(b.grid_at(cell[0], cell[1]), Some(PieceColor::RED));
    }
}

#[test]
fn full_board_draw() {
    // C4 scenario: 42 drops that fill the board without four in a row.
    let mut b = Connect4::new();
    let mut seq: Vec<usize> = Vec::new();
    for _ in 0..6 {
        seq.extend_from_slice(&[0, 1, 2]);
    }
    for _ in 0..6 {
        seq.extend_from_slice(&[3, 4, 5]);
    }
    for _ in 0..6 {
        seq.push(6);
    }
    drop_all(&mut b, &seq);
    assert_eq!(b.moves_played, 42);
    assert!(b.is_terminal);
    assert!(b.winner.is_none());
    assert!(b.check_for_win(PieceColor::RED).is_none());
    assert!(b.check_for_win(PieceColor::YELLOW).is_none());
}

#[test]
fn terminal_position_rejects_every_drop() {
    let mut b = Connect4::new();
    drop_all(&mut b, &[3, 3, 4, 4, 5, 5, 6]);
    assert!(b.is_terminal);
    let moves = b.moves_played;
    let winner = b.winner;
    for c in 0..7 {
        assert!(!b.drop(c));
    }
    assert_eq!(b.moves_played, moves);
    assert_eq!(b.winner, winner);
    assert_eq!(b.winner, Some(PieceColor::RED));
}

#[test]
fn gravity_leaves_no_hole() {
    let mut b = Connect4::new();
    drop_all(&mut b, &[2, 2, 2]);
    assert!(b.grid_at(5, 2).is_some());
    assert!(b.grid_at(4, 2).is_some());
    assert!(b.grid_at(3, 2).is_some());
    assert!(b.grid_at(2, 2).is_none());
    assert!(b.grid_at(1, 2).is_none());
}

#[test]
fn score_of_empty_board_is_zero() {
    let b = Connect4::new();
    assert_eq!(b.calculate_score(PieceColor::RED), 0);
    assert_eq!(b.calculate_score(PieceColor::YELLOW), 0);
}

#[test]
fn score_counts_center_column_bonus() {
    let mut b = Connect4::new();
    assert!(b.drop(3));
    // A single red piece in the center: every window holds at most one
    // piece, so only the center bonus counts.
    assert_eq!(b.calculate_score(PieceColor::RED), 5);
    assert_eq!(b.calculate_score(PieceColor::YELLOW), 0);
}

#[test]
fn score_fears_an_open_line_of_three() {
    // Red stacks three in the center while Yellow stacks two at the
    // edge: from Yellow's view that is an immediately completable red
    // line of three (-10000), a red pair (-3), and an own pair (+1).
    let mut b = Connect4::new();
    drop_all(&mut b, &[3, 0, 3, 0, 3]);
    assert_eq!(b.calculate_score(PieceColor::YELLOW), -10002);
    // From Red's view: a line of three (+10), a pair (+1), the center
    // bonus for three pieces (+15), and Yellow's pair (-3).
    assert_eq!(b.calculate_score(PieceColor::RED), 23);
}

#[test]
fn get_columns_is_center_outward() {
    let b = Connect4::new();
    assert_eq!(b.get_columns(), [3, 2, 4, 1, 5, 0, 6]);
}

#[test]
fn render_shows_the_grid() {
    let mut b = Connect4::new();
    assert!(b.drop(3));
    assert!(b.drop(3));
    let expected = "\nCurrent Board:\n- - - - - - - \n- - - - - - - \n- - - - - - - \n- - - - - - - \n- - - Y - - - \n- - - R - - - \n0 1 2 3 4 5 6\n";
    assert_eq!(b.render(), expected);
}

#[test]
fn switch_flips_colors() {
    assert_eq!(PieceColor::RED.switch(), PieceColor::YELLOW);
    assert_eq!(PieceColor::YELLOW.switch(), PieceColor::RED);
}
