use reversi::app::{AppEnv, AppSettings};
use reversi::board::Board;
use reversi::stone::Stone;

const W: Stone = Stone::White;
const B: Stone = Stone::Black;

fn game(cols: u32, rows: u32, stones: &[(u32, u32, Stone)]) -> (Board, AppEnv) {
    let settings = AppSettings { cell_size: 40, cols, rows };
    let mut board = Board::new(&settings).unwrap();
    let mut env = AppEnv::new(settings, false, false);
    for &(x, y, s) in stones {
        board.seed(&mut env, x, y, s);
    }
    (board, env)
}

#[test]
fn a_single_bracketed_stone_is_found() {
    let (board, env) = game(4, 4, &[(1, 1, W), (2, 2, W), (2, 1, B), (1, 2, B)]);
    assert_eq!(board.search_reversible(&env, 3, 1, W), Some(vec![(2, 1)]));
    assert_eq!(board.search_reversible(&env, 2, 0, W), Some(vec![(2, 1)]));
    assert_eq!(board.search_reversible(&env, 0, 2, W), Some(vec![(1, 2)]));
    assert_eq!(board.search_reversible(&env, 1, 3, W), Some(vec![(1, 2)]));
    assert_eq!(board.search_reversible(&env, 0, 1, B), Some(vec![(1, 1)]));
    assert_eq!(board.search_reversible(&env, 1, 0, B), Some(vec![(1, 1)]));
    assert_eq!(board.search_reversible(&env, 3, 2, B), Some(vec![(2, 2)]));
    assert_eq!(board.search_reversible(&env, 2, 3, B), Some(vec![(2, 2)]));
}

#[test]
fn a_cell_that_brackets_nothing_gives_none() {
    let (board, env) = game(4, 4, &[(1, 1, W), (2, 2, W), (2, 1, B), (1, 2, B)]);
    assert_eq!(board.search_reversible(&env, 3, 1, B), None);
    assert_eq!(board.search_reversible(&env, 0, 0, W), None);
    assert_eq!(board.search_reversible(&env, 0, 0, B), None);
    assert_eq!(board.search_reversible(&env, 3, 3, W), None);
    assert_eq!(board.search_reversible(&env, 0, 3, B), None);
}

#[test]
fn a_whole_run_is_turned_nearest_first() {
    let (board, env) = game(8, 1, &[(0, 0, W), (1, 0, B), (2, 0, B), (3, 0, B)]);
    assert_eq!(
        board.search_reversible(&env, 4, 0, W),
        Some(vec![(3, 0), (2, 0), (1, 0)])
    );
}

#[test]
fn a_run_that_reaches_the_edge_is_not_turned() {
    let (board, env) = game(8, 1, &[(0, 0, B), (1, 0, B), (2, 0, B)]);
    assert_eq!(board.search_reversible(&env, 3, 0, W), None);
}

#[test]
fn a_run_that_reaches_an_empty_cell_is_not_turned() {
    let (board, env) = game(8, 1, &[(0, 0, W), (2, 0, B), (3, 0, B)]);
    assert_eq!(board.search_reversible(&env, 4, 0, W), None);
}

#[test]
fn an_own_stone_next_to_the_cell_turns_nothing() {
    let (board, env) = game(8, 1, &[(0, 0, B), (1, 0, W), (2, 0, W)]);
    assert_eq!(board.search_reversible(&env, 3, 0, W), None);
}

#[test]
fn all_eight_directions_are_searched_in_order() {
    let (board, env) = game(
        5,
        5,
        &[
            (1, 2, B),
            (1, 1, B),
            (2, 1, B),
            (3, 1, B),
            (3, 2, B),
            (3, 3, B),
            (2, 3, B),
            (1, 3, B),
            (0, 2, W),
            (0, 0, W),
            (2, 0, W),
            (4, 0, W),
            (4, 2, W),
            (4, 4, W),
            (2, 4, W),
            (0, 4, W),
        ],
    );
    assert_eq!(
        board.search_reversible(&env, 2, 2, W),
        Some(vec![
            (1, 2),
            (1, 1),
            (2, 1),
            (3, 1),
            (3, 2),
            (3, 3),
            (2, 3),
            (1, 3)
        ])
    );
    assert_eq!(board.search_reversible(&env, 2, 2, B), None);
}

#[test]
fn only_the_bracketed_directions_contribute() {
    let (board, env) = game(
        5,
        5,
        &[
            (1, 2, B),
            (0, 2, W),
            (2, 1, B),
            (3, 2, B),
            (4, 2, B),
            (3, 3, B),
            (4, 4, W),
            (2, 3, B),
        ],
    );
    assert_eq!(
        board.search_reversible(&env, 2, 2, W),
        Some(vec![(1, 2), (3, 3)])
    );
}

#[test]
fn every_turned_stone_is_a_rival_before_an_own_stone() {
    let (board, env) = game(
        6,
        6,
        &[
            (1, 0, B),
            (2, 0, B),
            (3, 0, W),
            (1, 1, B),
            (2, 2, B),
            (3, 3, W),
            (0, 1, B),
            (0, 2, B),
            (0, 3, B),
            (0, 4, W),
        ],
    );
    let flips = board.search_reversible(&env, 0, 0, W).unwrap();
    assert_eq!(
        flips,
        vec![(1, 0), (2, 0), (1, 1), (2, 2), (0, 1), (0, 2), (0, 3)]
    );
    for &(fx, fy) in &flips {
        assert_eq!(board.get_square(&env, fx, fy).unwrap().get_stone(), B);
        let dx = (fx as i64 - 0).signum();
        let dy = (fy as i64 - 0).signum();
        let (mut cx, mut cy) = (dx, dy);
        loop {
            let s = board
                .get_square(&env, cx as u32, cy as u32)
                .unwrap()
                .get_stone();
            if s == W {
                break;
            }
            assert_eq!(s, B);
            cx += dx;
            cy += dy;
        }
        assert!(cx.abs().max(cy.abs()) > (fx as i64).max(fy as i64));
    }
}

#[test]
fn the_empty_colour_turns_nothing() {
    let (board, env) = game(4, 4, &[(1, 1, W), (2, 2, W), (2, 1, B), (1, 2, B)]);
    for y in 0..4 {
        for x in 0..4 {
            assert_eq!(board.search_reversible(&env, x, y, Stone::Empty), None);
        }
    }
}

#[test]
fn a_position_outside_the_board_is_searched_without_harm() {
    let (board, env) = game(4, 4, &[(1, 1, W), (2, 2, W), (2, 1, B), (1, 2, B)]);
    assert_eq!(board.search_reversible(&env, 9, 9, W), None);
    assert_eq!(board.search_reversible(&env, u32::MAX, u32::MAX, B), None);
    assert_eq!(board.search_reversible(&env, 4, 1, W), None);
    assert_eq!(board.search_reversible(&env, u32::MAX, 0, W), None);
}

#[test]
fn is_putable_tells_whether_a_side_has_a_placement() {
    let (board, env) = game(4, 4, &[(1, 1, W), (2, 2, W), (2, 1, B), (1, 2, B)]);
    assert!(board.is_putable(&env, env.player_for(W)));
    assert!(board.is_putable(&env, env.player_for(B)));
    let (board, env) = game(4, 4, &[(1, 1, W), (2, 2, W)]);
    assert!(!board.is_putable(&env, env.player_for(W)));
    assert!(!board.is_putable(&env, env.player_for(B)));
    let (board, env) = game(3, 1, &[(0, 0, W), (1, 0, B)]);
    assert!(board.is_putable(&env, env.player_for(W)));
    assert!(!board.is_putable(&env, env.player_for(B)));
}
