use crate::board::Board;
use crate::game::{EnvView, Game};
use crate::laws::lemma_initial_wf;
use crate::player::Player;
use crate::stone::Stone;
use vstd::prelude::*;

verus! {

/// The size of a game: the side of a cell on the screen, and the number of
/// columns and rows of the board.
#[derive(Copy, Clone, PartialEq, Eq, Debug, Structural)]
pub struct AppSettings {
    pub cell_size: u32,
    pub cols: u32,
    pub rows: u32,
}

impl Default for AppSettings {
    /// Cells of 40 units on a board of 8 by 8.
    fn default() -> (s: AppSettings)
        ensures
            s == (AppSettings { cell_size: 40, cols: 8, rows: 8 }),
    {
        AppSettings { cell_size: 40, cols: 8, rows: 8 }
    }
}

impl AppSettings {
    /// A board can be built: it has a column and a row at least, and the
    /// number of its cells fits the stone counters.
    pub open spec fn valid(self) -> bool {
        &&& self.cols >= 1
        &&& self.rows >= 1
        &&& self.cols * self.rows <= u32::MAX
    }

    /// Whether a board can be built with these settings.
    pub fn is_valid(&self) -> (b: bool)
        ensures
            b == self.valid(),
    {
        assert(self.cols * self.rows <= 0xffff_ffff * 0xffff_ffff) by (nonlinear_arith)
            requires
                self.cols <= 0xffff_ffff,
                self.rows <= 0xffff_ffff,
        ;
        self.cols >= 1 && self.rows >= 1 && (self.cols as u64) * (self.rows as u64) <= (
        u32::MAX as u64)
    }
}

/// The sides of a game and whose turn it is.
pub struct AppEnv {
    settings: AppSettings,
    invalidate: bool,
    current: usize,
    players: [Player; 2],
    done: bool,
}

impl View for AppEnv {
    type V = EnvView;

    closed spec fn view(&self) -> EnvView {
        EnvView {
            settings: self.settings,
            invalidate: self.invalidate,
            current: self.current as int,
            players: self.players@,
            done: self.done,
        }
    }
}

impl AppEnv {
    /// The sides at the start of a game: White is to move, and no side has
    /// a stone yet.
    pub fn new(settings: AppSettings, white_cpu: bool, black_cpu: bool) -> (env: AppEnv)
        ensures
            env@ == EnvView::initial(settings, white_cpu, black_cpu),
            env@.wf(),
    {
        let mut white = Player::new(Stone::White, white_cpu);
        white.turn = true;
        let black = Player::new(Stone::Black, black_cpu);
        let env = AppEnv {
            settings,
            invalidate: false,
            current: 0,
            players: [white, black],
            done: false,
        };
        assert(env@.players =~= EnvView::initial(settings, white_cpu, black_cpu).players);
        env
    }

    /// The settings of the game.
    pub fn settings(&self) -> (s: &AppSettings)
        ensures
            *s == self@.settings,
    {
        &self.settings
    }

    /// The side to move.
    pub fn current_player(&self) -> (p: &Player)
        requires
            self@.wf(),
        ensures
            *p == self@.players[self@.current],
    {
        &self.players[self.current]
    }

    /// Passes the turn to the other side.
    pub fn switch_player(&mut self)
        requires
            old(self)@.wf(),
        ensures
            final(self)@ == old(self)@.switched(),
            final(self)@.wf(),
    {
        let n = self.current;
        self.players[n].turn = false;
        let next = (n + 1) % 2;
        self.current = next;
        self.players[next].turn = true;
        assert(self@.players =~= old(self)@.switched().players);
    }

    /// The side that plays `stone`.
    pub fn player_for(&self, stone: Stone) -> (p: &Player)
        requires
            self@.wf(),
            stone.is_side(),
        ensures
            *p == self@.players[EnvView::seat(stone)],
            p.stone == stone,
    {
        if self.players[0].stone == stone {
            &self.players[0]
        } else {
            &self.players[1]
        }
    }

    /// The side that plays `stone`, to change its count.
    pub(crate) fn player_for_mut(&mut self, stone: Stone) -> (p: &mut Player)
        requires
            old(self)@.wf(),
            stone.is_side(),
        ensures
            *p == old(self)@.players[EnvView::seat(stone)],
            final(self)@ == (EnvView {
                players: old(self)@.players.update(EnvView::seat(stone), *final(p)),
                ..old(self)@
            }),
    {
        if self.players[0].stone == stone {
            &mut self.players[0]
        } else {
            &mut self.players[1]
        }
    }

    /// Sets or clears the flag that asks for a redraw.
    pub fn set_invalidate(&mut self, invalidate: bool)
        ensures
            final(self)@ == old(self)@.marked(invalidate),
    {
        self.invalidate = invalidate;
    }

    /// Whether a redraw is asked for.
    pub fn is_invalidated(&self) -> (b: bool)
        ensures
            b == self@.invalidate,
    {
        self.invalidate
    }

    /// Marks the game as over.
    pub fn done(&mut self)
        ensures
            final(self)@ == old(self)@.finished(),
    {
        self.done = true;
    }

    /// Whether the game is over.
    pub fn is_done(&self) -> (b: bool)
        ensures
            b == self@.done,
    {
        self.done
    }
}

/// Draws one of `true` and `false` with `rand::random`, which takes the
/// value from the generator of the calling thread. Nothing is claimed of
/// the outcome. The generator panics where the operating system fails to
/// seed it; no argument of this function has a part in that.
#[verifier::external_body]
fn random_bool() -> (b: bool) {
    rand::random::<bool>()
}

/// A game: a board and the sides that play on it.
pub struct App {
    env: AppEnv,
    board: Board,
}

impl View for App {
    type V = Game;

    closed spec fn view(&self) -> Game {
        self.board.game(&self.env)
    }
}

impl App {
    /// The board and the sides of the game belong together and form a
    /// sound game.
    pub closed spec fn wf(&self) -> bool {
        self.board.wf(&self.env)
    }

    /// Whether a game can be opened with `settings`: a board can be built,
    /// and it has room for the four stones of the opening.
    pub open spec fn playable(settings: AppSettings) -> bool {
        settings.valid() && settings.cols >= 2 && settings.rows >= 2
    }

    /// A sound game is a sound game of the model.
    pub proof fn lemma_wf(&self)
        requires
            self.wf(),
        ensures
            self@.wf(),
    {
    }

    /// A game in its opening position, in which chance decides which of the
    /// two sides the computer plays; the other is played by a human. White
    /// moves first. Settings with which no game can be opened give `None`.
    ///
    /// The choice is drawn from the random number generator of the calling
    /// thread, which panics where the operating system fails to seed it;
    /// `with_sides` opens a game without it.
    pub fn new(settings: &AppSettings) -> (r: Option<App>)
        ensures
            r is Some <==> Self::playable(*settings),
            r matches Some(app) ==> {
                &&& app.wf()
                &&& (app@ == Game::opening(*settings, true, false) || app@ == Game::opening(
                    *settings,
                    false,
                    true,
                ))
            },
    {
        let black_cpu = random_bool();
        Self::with_sides(settings, !black_cpu, black_cpu)
    }

    /// A game in its opening position: two stones of each side on the four
    /// cells in the middle of the board, White to move. `white_cpu` and
    /// `black_cpu` say which sides the computer plays. Settings with which
    /// no game can be opened give `None`.
    pub fn with_sides(settings: &AppSettings, white_cpu: bool, black_cpu: bool) -> (r: Option<App>)
        ensures
            r is Some <==> Self::playable(*settings),
            r matches Some(app) ==> {
                &&& app.wf()
                &&& app@ == Game::opening(*settings, white_cpu, black_cpu)
            },
    {
        if settings.cols < 2 || settings.rows < 2 {
            return None;
        }
        match Board::new(settings) {
            None => None,
            Some(board) => {
                let mut board = board;
                let mut env = AppEnv::new(*settings, white_cpu, black_cpu);
                proof {
                    lemma_initial_wf(*settings, white_cpu, black_cpu);
                }
                let half_cols = settings.cols / 2;
                let half_rows = settings.rows / 2;
                board.seed(&mut env, half_cols - 1, half_rows - 1, Stone::White);
                board.seed(&mut env, half_cols, half_rows, Stone::White);
                board.seed(&mut env, half_cols, half_rows - 1, Stone::Black);
                board.seed(&mut env, half_cols - 1, half_rows, Stone::Black);
                Some(App { env, board })
            },
        }
    }

    /// The sides of the game.
    pub fn env(&self) -> (env: &AppEnv)
        ensures
            env@ == self@.env,
    {
        &self.env
    }

    /// The board of the game.
    pub fn board(&self) -> (board: &Board)
        ensures
            board@ == self@.board,
            self.wf() ==> board.fits(self@.env.settings),
    {
        &self.board
    }

    /// The width and height of the window of the game: the board, with
    /// room for the counters of the sides at its right and a margin around.
    pub fn size(&self) -> (r: (u32, u32))
        requires
            (self@.env.settings.cols + 6) * self@.env.settings.cell_size <= u32::MAX,
            (self@.env.settings.rows + 2) * self@.env.settings.cell_size <= u32::MAX,
        ensures
            r.0 == (self@.env.settings.cols + 6) * self@.env.settings.cell_size,
            r.1 == (self@.env.settings.rows + 2) * self@.env.settings.cell_size,
    {
        let cell_size = self.env.settings().cell_size;
        let cols = self.env.settings().cols;
        let rows = self.env.settings().rows;
        assert((cols + 6) * cell_size == cols * cell_size + cell_size * 6) by (nonlinear_arith);
        assert((rows + 2) * cell_size == rows * cell_size + cell_size * 2) by (nonlinear_arith);
        assert(cols * cell_size >= 0 && rows * cell_size >= 0) by (nonlinear_arith)
            requires
                cols >= 0,
                rows >= 0,
                cell_size >= 0,
        ;
        let (w, h) = self.board.size(&self.env);
        (w + cell_size * 6, h + cell_size * 2)
    }

    /// Advances the game by one tick.
    pub fn update(&mut self)
        requires
            old(self).wf(),
        ensures
            final(self).wf(),
            final(self)@ == old(self)@.update(),
    {
        self.board.update(&mut self.env);
    }

    /// Queues the highlighted cell, if there is one, as a placement to try.
    pub fn click(&mut self)
        requires
            old(self).wf(),
        ensures
            final(self).wf(),
            final(self)@ == old(self)@.click(),
    {
        self.board.click();
    }

    /// The pointer has moved to `(x, y)` on the screen. Over the board, the
    /// highlight moves to the cell under the pointer; elsewhere nothing
    /// changes.
    pub fn mouse_move(&mut self, x: u32, y: u32)
        requires
            old(self).wf(),
        ensures
            final(self).wf(),
            final(self)@ == old(self)@.pointed(x as int, y as int),
    {
        let cell_size = self.env.settings().cell_size;
        let cols = self.env.settings().cols;
        let rows = self.env.settings().rows;
        assert(cols * cell_size <= 0xffff_ffff * 0xffff_ffff && rows * cell_size <= 0xffff_ffff
            * 0xffff_ffff) by (nonlinear_arith)
            requires
                cols <= 0xffff_ffff,
                rows <= 0xffff_ffff,
                cell_size <= 0xffff_ffff,
        ;
        assert(cell_size == 0 ==> cols * cell_size == 0 && rows * cell_size == 0)
            by (nonlinear_arith);
        if cell_size <= x && cell_size <= y && ((x - cell_size) as u64) < (cols as u64) * (
        cell_size as u64) && ((y - cell_size) as u64) < (rows as u64) * (cell_size as u64) {
            let cell_x = (x - cell_size) / cell_size;
            let cell_y = (y - cell_size) / cell_size;
            self.board.focus(&self.env, cell_x, cell_y);
        }
    }

    /// Whether the game is over.
    pub fn is_done(&self) -> (b: bool)
        ensures
            b == self@.env.done,
    {
        self.env.is_done()
    }

    /// Says whether the window has to be drawn anew, and takes the request
    /// back.
    pub fn take_invalidate(&mut self) -> (b: bool)
        requires
            old(self).wf(),
        ensures
            final(self).wf(),
            b == old(self)@.env.invalidate,
            final(self)@ == (Game { env: old(self)@.env.marked(false), ..old(self)@ }),
    {
        let b = self.env.is_invalidated();
        self.env.set_invalidate(false);
        b
    }
}

} // verus!
