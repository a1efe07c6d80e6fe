use connect_games::piece_letter::PieceLetter;
use connect_games::player::Player;
use connect_games::toot_and_otto::TootAndOtto;

fn drop_all(board: &mut TootAndOtto, moves: &[(PieceLetter, usize)]) {
    for &(l, c) in moves {
        assert!(board.drop(l, c), "drop of {:?} into column {} was rejected", l, c);
    }
}

#[test]
fn new_board_starts_with_full_stocks() {
    let b = TootAndOtto::new();
    assert_eq!(b.moves_played, 0);
    assert!(!b.is_terminal);
    assert!(b.winner.is_none());
    assert_eq!(b.active_player, Player::TOOT);
    for p in [Player::TOOT, Player::OTTO] {
        for l in [PieceLetter::T, PieceLetter::O] {
            assert_eq!(b.piece_count(p, l), 6);
        }
    }
    for c in 0..6 {
        assert_eq!(b.get_col_height(c), 0);
    }
}

#[test]
fn drop_places_the_letter_and_spends_a_piece() {
    let mut b = TootAndOtto::new();
    assert!(b.drop(PieceLetter::T, 2));
    assert_eq!(b.grid_at(3, 2), Some(PieceLetter::T));
    assert_eq!(b.piece_count(Player::TOOT, PieceLetter::T), 5);
    assert_eq!(b.piece_count(Player::TOOT, PieceLetter::O), 6);
    assert_eq!(b.piece_count(Player::OTTO, PieceLetter::T), 6);
    assert_eq!(b.active_player, Player::OTTO);
    assert!(b.drop(PieceLetter::T, 2));
    assert_eq!(b.grid_at(2, 2), Some(PieceLetter::T));
    assert_eq!(b.piece_count(Player::OTTO, PieceLetter::T), 5);
    assert_eq!(b.moves_played, 2);
}

#[test]
fn pieces_are_conserved() {
    let mut b = TootAndOtto::new();
    let moves = [
        (PieceLetter::T, 0),
        (PieceLetter::O, 1),
        (PieceLetter::O, 2),
        (PieceLetter::T, 4),
        (PieceLetter::T, 0),
    ];
    drop_all(&mut b, &moves);
    let mut remaining: usize = 0;
    for p in [Player::TOOT, Player::OTTO] {
        for l in [PieceLetter::T, PieceLetter::O] {
            remaining += b.piece_count(p, l);
        }
    }
    assert_eq!(remaining + b.moves_played, 24);
}

#[test]
fn drop_rejects_bad_input() {
    let mut b = TootAndOtto::new();
    assert!(!b.drop(PieceLetter::T, 6));
    assert_eq!(b.moves_played, 0);
    // Fill column 0 without forming a sequence: T,T on the bottom,
    // then O,O on top reads O,O,T,T downward.
    drop_all(
        &mut b,
        &[(PieceLetter::T, 0), (PieceLetter::T, 0), (PieceLetter::O, 0), (PieceLetter::O, 0)],
    );
    assert!(!b.is_terminal);
    assert!(!b.drop(PieceLetter::T, 0));
    assert_eq!(b.moves_played, 4);
}

#[test]
fn either_player_can_complete_toot() {
    // The column reads T,O,O,T downward after OTTO's own drop
    // completes TOOT's sequence: TOOT wins.
    let mut b = TootAndOtto::new();
    drop_all(
        &mut b,
        &[(PieceLetter::T, 0), (PieceLetter::O, 0), (PieceLetter::O, 0), (PieceLetter::T, 0)],
    );
    assert!(b.is_terminal);
    assert_eq!(b.winner, Some(Player::TOOT));
    let line = b.check_for_win(Player::TOOT).expect("TOOT spelled its word");
    assert_eq!(line, vec![[0, 0], [1, 0], [2, 0], [3, 0]]);
    assert_eq!(b.grid_at(0, 0), Some(PieceLetter::T));
    assert_eq!(b.grid_at(1, 0), Some(PieceLetter::O));
    assert_eq!(b.grid_at(2, 0), Some(PieceLetter::O));
    assert_eq!(b.grid_at(3, 0), Some(PieceLetter::T));
    // The finished game rejects every further drop unchanged.
    let moves = b.moves_played;
    assert!(!b.drop(PieceLetter::O, 1));
    assert_eq!(b.moves_played, moves);
    assert_eq!(b.winner, Some(Player::TOOT));
}

#[test]
fn simultaneous_completion_is_a_draw() {
    // TO scenario: the final T completes T-O-O-T vertically in column
    // 2 and O-T-T-O horizontally across the top row at once.
    let mut b = TootAndOtto::new();
    drop_all(
        &mut b,
        &[
            (PieceLetter::T, 0),
            (PieceLetter::T, 0),
            (PieceLetter::T, 0),
            (PieceLetter::T, 1),
            (PieceLetter::O, 0),
            (PieceLetter::T, 1),
            (PieceLetter::T, 1),
            (PieceLetter::T, 1),
            (PieceLetter::T, 3),
            (PieceLetter::T, 3),
            (PieceLetter::T, 3),
            (PieceLetter::O, 3),
            (PieceLetter::T, 2),
            (PieceLetter::O, 2),
            (PieceLetter::O, 2),
        ],
    );
    assert!(!b.is_terminal);
    assert!(b.drop(PieceLetter::T, 2));
    assert!(b.is_terminal);
    assert!(b.winner.is_none());
    assert!(b.check_for_win(Player::TOOT).is_some());
    assert!(b.check_for_win(Player::OTTO).is_some());
}

#[test]
fn exhausted_letter_cannot_be_dropped() {
    // TO scenario: TOOT spends all six of its T pieces; its next T
    // drop into an open column is rejected and changes nothing.
    let mut b = TootAndOtto::new();
    drop_all(
        &mut b,
        &[
            (PieceLetter::T, 0),
            (PieceLetter::O, 5),
            (PieceLetter::T, 0),
            (PieceLetter::O, 5),
            (PieceLetter::T, 0),
            (PieceLetter::O, 5),
            (PieceLetter::T, 0),
            (PieceLetter::O, 5),
            (PieceLetter::T, 1),
            (PieceLetter::O, 4),
            (PieceLetter::T, 1),
            (PieceLetter::O, 4),
        ],
    );
    assert_eq!(b.piece_count(Player::TOOT, PieceLetter::T), 0);
    assert_eq!(b.active_player, Player::TOOT);
    assert!(!b.is_terminal);
    let moves = b.moves_played;
    assert!(!b.drop(PieceLetter::T, 2));
    assert_eq!(b.moves_played, moves);
    assert!(b.grid_at(3, 2).is_none());
    assert_eq!(b.piece_count(Player::TOOT, PieceLetter::T), 0);
    // The other letter is still available.
    assert!(b.drop(PieceLetter::O, 2));
}

#[test]
fn to_score_of_empty_board_is_zero() {
    let b = TootAndOtto::new();
    assert_eq!(b.calculate_score(Player::TOOT), 0);
    assert_eq!(b.calculate_score(Player::OTTO), 0);
}

#[test]
fn score_matches_the_window_table() {
    // Two T's on the bottom row at columns 0 and 3: for TOOT they are
    // the ends of one T-O-O-T window (+1); for OTTO the same window
    // holds two wrong letters (-3).
    let mut b = TootAndOtto::new();
    drop_all(&mut b, &[(PieceLetter::T, 0), (PieceLetter::T, 3)]);
    assert_eq!(b.calculate_score(Player::TOOT), 1);
    assert_eq!(b.calculate_score(Player::OTTO), -3);
}

#[test]
fn to_get_columns_is_center_outward() {
    let b = TootAndOtto::new();
    assert_eq!(b.get_columns(), [2, 3, 1, 4, 0, 5]);
}

#[test]
fn to_render_shows_the_grid() {
    let mut b = TootAndOtto::new();
    assert!(b.drop(PieceLetter::T, 0));
    assert!(b.drop(PieceLetter::O, 5));
    let expected = "\nCurrent Board:\n- - - - - - \n- - - - - - \n- - - - - - \nT - - - - O \n0 1 2 3 4 5\n";
    assert_eq!(b.render(), expected);
}

#[test]
fn switch_flips_players() {
    assert_eq!(Player::TOOT.switch(), Player::OTTO);
    assert_eq!(Player::OTTO.switch(), Player::TOOT);
}
