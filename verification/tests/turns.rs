use reversi::app::{AppEnv, AppSettings};
use reversi::board::Board;
use reversi::stone::Stone;

const W: Stone = Stone::White;
const B: Stone = Stone::Black;
const E: Stone = Stone::Empty;

fn game_of(
    cols: u32,
    rows: u32,
    white_cpu: bool,
    black_cpu: bool,
    stones: &[(u32, u32, Stone)],
) -> (Board, AppEnv) {
    let settings = AppSettings { cell_size: 40, cols, rows };
    let mut board = Board::new(&settings).unwrap();
    let mut env = AppEnv::new(settings, white_cpu, black_cpu);
    for &(x, y, s) in stones {
        board.seed(&mut env, x, y, s);
    }
    (board, env)
}

fn opening(white_cpu: bool, black_cpu: bool) -> (Board, AppEnv) {
    game_of(
        4,
        4,
        white_cpu,
        black_cpu,
        &[(1, 1, W), (2, 2, W), (2, 1, B), (1, 2, B)],
    )
}

fn stones(board: &Board, env: &AppEnv) -> Vec<Vec<Stone>> {
    let s = *env.settings();
    (0..s.rows)
        .map(|y| {
            (0..s.cols)
                .map(|x| board.get_square(env, x, y).unwrap().get_stone())
                .collect()
        })
        .collect()
}

fn counts(env: &AppEnv) -> (u32, u32) {
    (env.player_for(W).cnt, env.player_for(B).cnt)
}

#[test]
fn update_always_asks_for_a_redraw() {
    let (mut board, mut env) = opening(false, false);
    assert!(!env.is_invalidated());
    board.update(&mut env);
    assert!(env.is_invalidated());
    env.set_invalidate(false);
    board.update(&mut env);
    assert!(env.is_invalidated());
}

#[test]
fn update_of_a_human_side_with_an_empty_queue_places_nothing() {
    let (mut board, mut env) = opening(false, false);
    let before = stones(&board, &env);
    board.update(&mut env);
    board.update(&mut env);
    assert_eq!(stones(&board, &env), before);
    assert_eq!(counts(&env), (2, 2));
    assert_eq!(env.current_player().stone, W);
    assert!(!env.is_done());
}

#[test]
fn update_plays_the_clicked_cell_of_a_human_side() {
    let (mut board, mut env) = opening(false, false);
    board.focus(&env, 3, 1);
    board.click();
    board.update(&mut env);
    assert_eq!(
        stones(&board, &env),
        vec![
            vec![E, E, E, E],
            vec![E, W, W, W],
            vec![E, B, W, E],
            vec![E, E, E, E],
        ]
    );
    assert_eq!(counts(&env), (4, 1));
    assert_eq!(env.current_player().stone, B);
    assert!(board.pending().is_empty());
}

#[test]
fn update_takes_one_waiting_position_per_tick_oldest_first() {
    let (mut board, mut env) = opening(false, false);
    board.focus(&env, 3, 1);
    board.click();
    board.focus(&env, 3, 0);
    board.click();
    board.focus(&env, 0, 0);
    board.click();
    assert_eq!(board.pending().len(), 3);
    board.update(&mut env);
    assert_eq!(board.pending().len(), 2);
    assert_eq!(counts(&env), (4, 1));
    assert_eq!(env.current_player().stone, B);
    // Black brackets (2,1) between (3,0) and (1,2).
    board.update(&mut env);
    assert_eq!(board.pending().len(), 1);
    assert_eq!(counts(&env), (3, 3));
    assert_eq!(env.current_player().stone, W);
    assert_eq!(
        stones(&board, &env),
        vec![
            vec![E, E, E, B],
            vec![E, W, B, W],
            vec![E, B, W, E],
            vec![E, E, E, E],
        ]
    );
    // (0,0) brackets nothing for White: the position is dropped.
    board.update(&mut env);
    assert!(board.pending().is_empty());
    assert_eq!(counts(&env), (3, 3));
    assert_eq!(env.current_player().stone, W);
}

#[test]
fn a_waiting_position_that_is_not_legal_is_dropped_silently() {
    let (mut board, mut env) = opening(false, false);
    let before = stones(&board, &env);
    board.focus(&env, 1, 1);
    board.click();
    board.focus(&env, 0, 0);
    board.click();
    board.update(&mut env);
    assert_eq!(board.pending().len(), 1);
    board.update(&mut env);
    assert!(board.pending().is_empty());
    assert_eq!(stones(&board, &env), before);
    assert_eq!(counts(&env), (2, 2));
    assert_eq!(env.current_player().stone, W);
    assert_eq!(board.empties().len(), 12);
}

#[test]
fn a_click_on_a_cell_that_lost_the_highlight_is_not_queued() {
    let (mut board, mut env) = opening(false, false);
    board.focus(&env, 3, 1);
    board.focus(&env, 9, 9);
    board.click();
    assert!(board.pending().is_empty());
    board.update(&mut env);
    assert_eq!(counts(&env), (2, 2));
    assert_eq!(env.current_player().stone, W);
}

#[test]
fn a_side_without_a_placement_passes() {
    let (mut board, mut env) = game_of(3, 1, false, false, &[(0, 0, W), (1, 0, B)]);
    env.switch_player();
    assert_eq!(env.current_player().stone, B);
    board.focus(&env, 2, 0);
    board.click();
    let before = stones(&board, &env);
    board.update(&mut env);
    assert_eq!(env.current_player().stone, W);
    assert!(env.player_for(W).turn);
    assert!(!env.player_for(B).turn);
    assert_eq!(stones(&board, &env), before);
    assert_eq!(counts(&env), (1, 1));
    assert_eq!(board.pending().len(), 1);
    assert!(!env.is_done());
    board.update(&mut env);
    assert_eq!(stones(&board, &env), vec![vec![W, W, W]]);
    assert_eq!(counts(&env), (3, 0));
    assert!(board.pending().is_empty());
}

#[test]
fn two_sides_without_a_placement_pass_in_turn() {
    let (mut board, mut env) = game_of(4, 4, true, false, &[(0, 0, W), (3, 3, B)]);
    for tick in 0..6 {
        let expected = if tick % 2 == 0 { W } else { B };
        assert_eq!(env.current_player().stone, expected);
        board.update(&mut env);
        assert_eq!(counts(&env), (1, 1));
        assert_eq!(board.empties().len(), 14);
        assert!(!env.is_done());
    }
}

#[test]
fn the_computer_takes_the_first_of_the_best_placements() {
    let (mut board, mut env) = opening(true, false);
    board.update(&mut env);
    assert_eq!(
        stones(&board, &env),
        vec![
            vec![E, E, E, E],
            vec![E, W, B, E],
            vec![W, W, W, E],
            vec![E, E, E, E],
        ]
    );
    assert_eq!(counts(&env), (4, 1));
    assert_eq!(env.current_player().stone, B);
}

#[test]
fn the_computer_takes_the_placement_that_turns_most() {
    let (mut board, mut env) = game_of(
        6,
        2,
        true,
        false,
        &[
            (0, 0, W),
            (1, 0, B),
            (0, 1, W),
            (1, 1, B),
            (2, 1, B),
            (3, 1, B),
        ],
    );
    // (2,0) would turn one stone, (4,1) three.
    board.update(&mut env);
    assert_eq!(
        stones(&board, &env),
        vec![vec![W, B, E, E, E, E], vec![W, W, W, W, W, E]]
    );
    assert_eq!(counts(&env), (6, 1));
    assert_eq!(env.current_player().stone, B);
}

#[test]
fn the_computer_ignores_the_queue() {
    let (mut board, mut env) = opening(true, false);
    board.focus(&env, 3, 1);
    board.click();
    board.update(&mut env);
    assert_eq!(board.pending().len(), 1);
    assert_eq!(
        board.get_square(&env, 0, 2).unwrap().get_stone(),
        W
    );
    assert_eq!(board.get_square(&env, 3, 1).unwrap().get_stone(), E);
}

#[test]
fn the_computer_without_a_placement_does_nothing() {
    let (mut board, mut env) = game_of(4, 4, true, true, &[(0, 0, W), (1, 0, W)]);
    let before = stones(&board, &env);
    board.cpu(&mut env);
    assert_eq!(stones(&board, &env), before);
    assert_eq!(counts(&env), (2, 0));
    assert_eq!(env.current_player().stone, W);
}

#[test]
fn a_full_board_ends_the_game_for_good() {
    let (mut board, mut env) = game_of(
        2,
        2,
        false,
        true,
        &[(0, 0, W), (1, 1, W), (1, 0, B), (0, 1, B)],
    );
    assert!(board.empties().is_empty());
    assert!(!env.is_done());
    board.focus(&env, 0, 0);
    board.click();
    let before = stones(&board, &env);
    for _ in 0..5 {
        board.update(&mut env);
        assert!(env.is_done());
        assert_eq!(stones(&board, &env), before);
        assert_eq!(counts(&env), (2, 2));
        assert_eq!(env.current_player().stone, W);
        assert_eq!(board.pending().len(), 1);
    }
}

#[test]
fn a_game_between_two_computers_ends_with_a_full_board_or_a_stalemate() {
    let settings = AppSettings { cell_size: 40, cols: 4, rows: 4 };
    let mut board = Board::new(&settings).unwrap();
    let mut env = AppEnv::new(settings, true, true);
    board.seed(&mut env, 1, 1, W);
    board.seed(&mut env, 2, 2, W);
    board.seed(&mut env, 2, 1, B);
    board.seed(&mut env, 1, 2, B);
    let mut last = counts(&env);
    for _ in 0..64 {
        let mover = env.current_player().stone;
        board.update(&mut env);
        let now = counts(&env);
        if now != last {
            assert_eq!(now.0 + now.1, last.0 + last.1 + 1);
            assert_ne!(env.current_player().stone, mover);
        }
        assert_eq!((now.0 + now.1) as usize + board.empties().len(), 16);
        last = now;
    }
    assert_eq!(env.is_done(), board.empties().is_empty());
}

#[test]
fn every_tick_of_a_long_game_keeps_counts_and_empties_in_step() {
    let settings = AppSettings { cell_size: 40, cols: 8, rows: 8 };
    let mut board = Board::new(&settings).unwrap();
    let mut env = AppEnv::new(settings, true, true);
    board.seed(&mut env, 3, 3, W);
    board.seed(&mut env, 4, 4, W);
    board.seed(&mut env, 4, 3, B);
    board.seed(&mut env, 3, 4, B);
    let mut done_seen = false;
    for _ in 0..200 {
        let before = counts(&env);
        let empties = board.empties().len();
        let mover = env.current_player().stone;
        let was_full = board.empties().is_empty();
        board.update(&mut env);
        let after = counts(&env);
        let mut white = 0;
        let mut black = 0;
        for row in stones(&board, &env) {
            for s in row {
                if s == W {
                    white += 1;
                } else if s == B {
                    black += 1;
                }
            }
        }
        assert_eq!(after, (white, black));
        assert_eq!((white + black) as usize + board.empties().len(), 64);
        if after != before {
            assert_eq!(after.0 + after.1, before.0 + before.1 + 1);
            assert_eq!(board.empties().len(), empties - 1);
            assert_eq!(env.current_player().stone, mover.opponent());
        } else {
            assert_eq!(board.empties().len(), empties);
        }
        if done_seen {
            assert!(env.is_done());
        }
        assert_eq!(env.is_done(), was_full || done_seen);
        done_seen = env.is_done();
        assert!(env.player_for(env.current_player().stone).turn);
        assert!(!env.player_for(env.current_player().stone.opponent()).turn);
    }
}
