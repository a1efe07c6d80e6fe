use connect_games::cpu_toot;
use connect_games::piece_letter::PieceLetter;
use connect_games::player::Player;
use connect_games::toot_and_otto::TootAndOtto;

fn drop_all(board: &mut TootAndOtto, moves: &[(PieceLetter, usize)]) {
    for &(l, c) in moves {
        assert!(board.drop(l, c), "drop of {:?} into column {} was rejected", l, c);
    }
}

#[test]
fn make_move_returns_a_legal_move() {
    let b = TootAndOtto::new();
    for depth in 1..3 {
        let (col, letter) = cpu_toot::make_move(b.clone(), depth);
        assert!(col < 6);
        assert!(b.get_col_height(col) < 4);
        assert!(b.piece_count(b.active_player, letter) > 0);
    }
}

#[test]
fn to_make_move_takes_an_immediate_win() {
    // Column 0 reads O,T,T upward from the bottom; OTTO to move drops
    // an O on top and spells O-T-T-O.
    let mut b = TootAndOtto::new();
    drop_all(&mut b, &[(PieceLetter::O, 0), (PieceLetter::T, 0), (PieceLetter::T, 0)]);
    assert_eq!(b.active_player, Player::OTTO);
    assert!(!b.is_terminal);
    let (col, letter) = cpu_toot::make_move(b.clone(), 1);
    assert_eq!(col, 0);
    assert_eq!(letter, PieceLetter::O);
    let mut after = b.clone();
    assert!(after.drop(letter, col));
    assert_eq!(after.winner, Some(Player::OTTO));
}

#[test]
fn search_is_deterministic() {
    let mut b = TootAndOtto::new();
    drop_all(&mut b, &[(PieceLetter::T, 2), (PieceLetter::O, 3)]);
    let a = cpu_toot::make_move(b.clone(), 2);
    let c = cpu_toot::make_move(b.clone(), 2);
    assert_eq!(a, c);
}

#[test]
fn minmax_value_of_a_won_position_rewards_speed() {
    let mut b = TootAndOtto::new();
    drop_all(
        &mut b,
        &[(PieceLetter::O, 0), (PieceLetter::T, 0), (PieceLetter::T, 0), (PieceLetter::O, 0)],
    );
    assert_eq!(b.winner, Some(Player::OTTO));
    let (_, _, v3) = cpu_toot::minmax(b.clone(), 3, true);
    let (_, _, v1) = cpu_toot::minmax(b.clone(), 1, true);
    assert_eq!(v3, i32::MAX - 25 + 3);
    assert_eq!(v1, i32::MAX - 25 + 1);
    assert!(v3 > v1);
}
