use reversi::app::{App, AppSettings};
use reversi::stone::Stone;

const W: Stone = Stone::White;
const B: Stone = Stone::Black;
const E: Stone = Stone::Empty;

fn stones(app: &App) -> Vec<Vec<Stone>> {
    let s = *app.env().settings();
    (0..s.rows)
        .map(|y| {
            (0..s.cols)
                .map(|x| {
                    app.board()
                        .get_square(app.env(), x, y)
                        .unwrap()
                        .get_stone()
                })
                .collect()
        })
        .collect()
}

fn counts(app: &App) -> (u32, u32) {
    (
        app.env().player_for(W).cnt,
        app.env().player_for(B).cnt,
    )
}

#[test]
fn a_game_opens_with_four_stones_in_the_middle() {
    let settings = AppSettings { cell_size: 40, cols: 4, rows: 4 };
    let app = App::with_sides(&settings, false, false).unwrap();
    assert_eq!(
        stones(&app),
        vec![
            vec![E, E, E, E],
            vec![E, W, B, E],
            vec![E, B, W, E],
            vec![E, E, E, E],
        ]
    );
    assert_eq!(counts(&app), (2, 2));
    assert_eq!(app.env().current_player().stone, W);
    assert!(app.env().current_player().turn);
    assert!(!app.env().player_for(B).turn);
    assert_eq!(app.board().empties().len(), 12);
    assert!(!app.is_done());
}

#[test]
fn the_default_game_opens_on_eight_by_eight() {
    let app = App::with_sides(&AppSettings::default(), false, true).unwrap();
    let board = app.board();
    let env = app.env();
    assert_eq!(board.get_square(env, 3, 3).unwrap().get_stone(), W);
    assert_eq!(board.get_square(env, 4, 4).unwrap().get_stone(), W);
    assert_eq!(board.get_square(env, 4, 3).unwrap().get_stone(), B);
    assert_eq!(board.get_square(env, 3, 4).unwrap().get_stone(), B);
    assert_eq!(board.empties().len(), 60);
    assert!(!env.player_for(W).cpu);
    assert!(env.player_for(B).cpu);
}

#[test]
fn a_game_on_a_board_that_is_not_square_opens_in_its_middle() {
    let settings = AppSettings { cell_size: 10, cols: 6, rows: 2 };
    let app = App::with_sides(&settings, false, false).unwrap();
    assert_eq!(
        stones(&app),
        vec![vec![E, E, W, B, E, E], vec![E, E, B, W, E, E]]
    );
}

#[test]
fn no_game_opens_on_a_board_that_is_too_small() {
    for &(cols, rows) in &[(0, 0), (0, 8), (8, 0), (1, 8), (8, 1), (1, 1), (65536, 65536)] {
        let settings = AppSettings { cell_size: 40, cols, rows };
        assert!(App::with_sides(&settings, false, false).is_none());
        assert!(App::new(&settings).is_none());
    }
}

#[test]
fn chance_gives_the_computer_one_side() {
    let settings = AppSettings { cell_size: 40, cols: 4, rows: 4 };
    for _ in 0..32 {
        let app = App::new(&settings).unwrap();
        let white = app.env().player_for(W).cpu;
        let black = app.env().player_for(B).cpu;
        assert_ne!(white, black);
        assert_eq!(counts(&app), (2, 2));
        assert_eq!(app.env().current_player().stone, W);
    }
}

#[test]
fn window_size_leaves_room_for_the_counters() {
    let app = App::with_sides(&AppSettings::default(), false, false).unwrap();
    assert_eq!(app.size(), (560, 400));
    let settings = AppSettings { cell_size: 10, cols: 6, rows: 2 };
    let app = App::with_sides(&settings, false, false).unwrap();
    assert_eq!(app.size(), (120, 40));
}

#[test]
fn the_pointer_highlights_the_cell_under_it() {
    let mut app = App::with_sides(&AppSettings::default(), false, false).unwrap();
    app.mouse_move(40, 40);
    assert_eq!(app.board().focused(), Some((0, 0)));
    app.mouse_move(79, 80);
    assert_eq!(app.board().focused(), Some((0, 1)));
    app.mouse_move(359, 359);
    assert_eq!(app.board().focused(), Some((7, 7)));
    app.mouse_move(205, 167);
    assert_eq!(app.board().focused(), Some((4, 3)));
}

#[test]
fn the_pointer_outside_the_board_leaves_the_highlight() {
    let mut app = App::with_sides(&AppSettings::default(), false, false).unwrap();
    app.mouse_move(100, 100);
    assert_eq!(app.board().focused(), Some((1, 1)));
    for &(x, y) in &[(39, 100), (100, 39), (360, 100), (100, 360), (0, 0), (u32::MAX, u32::MAX)] {
        app.mouse_move(x, y);
        assert_eq!(app.board().focused(), Some((1, 1)));
    }
}

#[test]
fn the_pointer_over_a_board_with_cells_of_no_size_highlights_nothing() {
    let settings = AppSettings { cell_size: 0, cols: 4, rows: 4 };
    let mut app = App::with_sides(&settings, false, false).unwrap();
    app.mouse_move(0, 0);
    app.mouse_move(3, 3);
    assert_eq!(app.board().focused(), None);
}

#[test]
fn pointer_click_and_tick_place_a_stone() {
    let settings = AppSettings { cell_size: 40, cols: 4, rows: 4 };
    let mut app = App::with_sides(&settings, false, false).unwrap();
    app.mouse_move(40 + 3 * 40 + 5, 40 + 40 + 5);
    app.click();
    assert_eq!(app.board().pending().len(), 1);
    app.update();
    assert_eq!(
        stones(&app),
        vec![
            vec![E, E, E, E],
            vec![E, W, W, W],
            vec![E, B, W, E],
            vec![E, E, E, E],
        ]
    );
    assert_eq!(counts(&app), (4, 1));
    assert_eq!(app.env().current_player().stone, B);
    assert!(!app.is_done());
}

#[test]
fn a_click_without_a_highlight_does_nothing() {
    let settings = AppSettings { cell_size: 40, cols: 4, rows: 4 };
    let mut app = App::with_sides(&settings, false, false).unwrap();
    app.click();
    assert!(app.board().pending().is_empty());
    app.update();
    assert_eq!(counts(&app), (2, 2));
    assert_eq!(app.env().current_player().stone, W);
}

#[test]
fn a_game_on_two_by_two_is_over_at_the_first_tick() {
    let settings = AppSettings { cell_size: 40, cols: 2, rows: 2 };
    let mut app = App::with_sides(&settings, true, true).unwrap();
    assert_eq!(stones(&app), vec![vec![W, B], vec![B, W]]);
    assert!(!app.is_done());
    app.update();
    assert!(app.is_done());
    app.update();
    app.update();
    assert!(app.is_done());
    assert_eq!(stones(&app), vec![vec![W, B], vec![B, W]]);
    assert_eq!(counts(&app), (2, 2));
}

#[test]
fn the_redraw_request_is_taken_once() {
    let settings = AppSettings { cell_size: 40, cols: 4, rows: 4 };
    let mut app = App::with_sides(&settings, false, false).unwrap();
    assert!(!app.take_invalidate());
    app.update();
    assert!(app.take_invalidate());
    assert!(!app.take_invalidate());
    app.update();
    assert!(app.take_invalidate());
}

#[test]
fn the_computer_answers_on_the_tick_after_the_human() {
    let settings = AppSettings { cell_size: 40, cols: 4, rows: 4 };
    let mut app = App::with_sides(&settings, false, true).unwrap();
    app.mouse_move(40 + 3 * 40, 40 + 40);
    app.click();
    app.update();
    assert_eq!(counts(&app), (4, 1));
    assert_eq!(app.env().current_player().stone, B);
    // Black: (3,0) turns (2,1); (1,0) turns (1,1); (3,2) turns (2,2). All
    // turn one stone, and (1,0) comes first by column.
    app.update();
    assert_eq!(
        stones(&app),
        vec![
            vec![E, B, E, E],
            vec![E, B, W, W],
            vec![E, B, W, E],
            vec![E, E, E, E],
        ]
    );
    assert_eq!(counts(&app), (3, 3));
    assert_eq!(app.env().current_player().stone, W);
}
