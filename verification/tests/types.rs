use reversi::app::{AppEnv, AppSettings};
use reversi::player::Player;
use reversi::rules::Direction;
use reversi::square::Square;
use reversi::stone::Stone;

#[test]
fn opponent_swaps_the_two_colours() {
    assert_eq!(Stone::White.opponent(), Stone::Black);
    assert_eq!(Stone::Black.opponent(), Stone::White);
    assert_eq!(Stone::Empty.opponent(), Stone::Empty);
}

#[test]
fn new_player_has_no_stones_and_no_turn() {
    let p = Player::new(Stone::Black, true);
    assert_eq!(p.stone, Stone::Black);
    assert!(p.cpu);
    assert_eq!(p.cnt, 0);
    assert!(!p.turn);
}

#[test]
fn inc_and_dec_move_the_count_by_one() {
    let mut p = Player::new(Stone::White, false);
    p.inc();
    p.inc();
    p.inc();
    assert_eq!(p.cnt, 3);
    p.dec();
    assert_eq!(p.cnt, 2);
    assert_eq!(p.stone, Stone::White);
    assert!(!p.cpu);
    assert!(!p.turn);
}

#[test]
fn new_square_is_empty_and_knows_its_position() {
    let s = Square::new(3, 5);
    assert_eq!(s.get_x(), 3);
    assert_eq!(s.get_y(), 5);
    assert_eq!(s.get_stone(), Stone::Empty);
    assert!(!s.is_focused());
}

#[test]
fn set_focus_changes_only_the_highlight() {
    let mut s = Square::new(1, 2);
    s.set_focus(true);
    assert!(s.is_focused());
    assert_eq!(s.get_stone(), Stone::Empty);
    assert_eq!((s.get_x(), s.get_y()), (1, 2));
    s.set_focus(false);
    assert!(!s.is_focused());
}

#[test]
fn put_stone_moves_the_counts_of_both_sides() {
    let settings = AppSettings { cell_size: 40, cols: 4, rows: 4 };
    let mut env = AppEnv::new(settings, false, false);
    let mut s = Square::new(0, 0);
    s.put_stone(&mut env, Stone::Black);
    assert_eq!(s.get_stone(), Stone::Black);
    assert_eq!(env.player_for(Stone::Black).cnt, 1);
    assert_eq!(env.player_for(Stone::White).cnt, 0);
    s.put_stone(&mut env, Stone::White);
    assert_eq!(s.get_stone(), Stone::White);
    assert_eq!(env.player_for(Stone::Black).cnt, 0);
    assert_eq!(env.player_for(Stone::White).cnt, 1);
    s.put_stone(&mut env, Stone::White);
    assert_eq!(env.player_for(Stone::White).cnt, 1);
    s.put_stone(&mut env, Stone::Empty);
    assert_eq!(s.get_stone(), Stone::Empty);
    assert_eq!(env.player_for(Stone::White).cnt, 0);
    assert_eq!(env.player_for(Stone::Black).cnt, 0);
    assert_eq!((s.get_x(), s.get_y()), (0, 0));
}

#[test]
fn default_settings_are_eight_by_eight() {
    let s = AppSettings::default();
    assert_eq!(s, AppSettings { cell_size: 40, cols: 8, rows: 8 });
    assert!(s.is_valid());
}

#[test]
fn settings_without_cells_or_with_too_many_are_not_valid() {
    assert!(!AppSettings { cell_size: 40, cols: 0, rows: 8 }.is_valid());
    assert!(!AppSettings { cell_size: 40, cols: 8, rows: 0 }.is_valid());
    assert!(!AppSettings { cell_size: 40, cols: 0, rows: 0 }.is_valid());
    assert!(!AppSettings { cell_size: 1, cols: 65536, rows: 65536 }.is_valid());
    assert!(AppSettings { cell_size: 1, cols: 65535, rows: 65537 }.is_valid());
    assert!(AppSettings { cell_size: 0, cols: 1, rows: 1 }.is_valid());
}

#[test]
fn new_env_starts_with_white_to_move() {
    let settings = AppSettings { cell_size: 40, cols: 8, rows: 8 };
    let env = AppEnv::new(settings, true, false);
    assert_eq!(*env.settings(), settings);
    assert_eq!(
        *env.current_player(),
        Player { stone: Stone::White, cpu: true, cnt: 0, turn: true }
    );
    assert_eq!(
        *env.player_for(Stone::Black),
        Player { stone: Stone::Black, cpu: false, cnt: 0, turn: false }
    );
    assert!(!env.is_done());
    assert!(!env.is_invalidated());
}

#[test]
fn switch_player_moves_the_turn_flag() {
    let settings = AppSettings { cell_size: 40, cols: 8, rows: 8 };
    let mut env = AppEnv::new(settings, false, false);
    env.switch_player();
    assert_eq!(env.current_player().stone, Stone::Black);
    assert!(env.player_for(Stone::Black).turn);
    assert!(!env.player_for(Stone::White).turn);
    env.switch_player();
    assert_eq!(env.current_player().stone, Stone::White);
    assert!(env.player_for(Stone::White).turn);
    assert!(!env.player_for(Stone::Black).turn);
}

#[test]
fn done_and_invalidate_flags_are_kept() {
    let settings = AppSettings { cell_size: 40, cols: 8, rows: 8 };
    let mut env = AppEnv::new(settings, false, false);
    env.set_invalidate(true);
    assert!(env.is_invalidated());
    env.set_invalidate(false);
    assert!(!env.is_invalidated());
    env.done();
    assert!(env.is_done());
    env.switch_player();
    assert!(env.is_done());
}

#[test]
fn directions_come_in_the_search_order() {
    let expected = [
        (Direction::West, (-1, 0)),
        (Direction::NorthWest, (-1, -1)),
        (Direction::North, (0, -1)),
        (Direction::NorthEast, (1, -1)),
        (Direction::East, (1, 0)),
        (Direction::SouthEast, (1, 1)),
        (Direction::South, (0, 1)),
        (Direction::SouthWest, (-1, 1)),
    ];
    for (i, (d, delta)) in expected.iter().enumerate() {
        assert_eq!(Direction::in_order(i), *d);
        assert_eq!(d.delta(), *delta);
    }
}
