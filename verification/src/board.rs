use crate::app::{AppEnv, AppSettings};
use crate::game::{precedes, BoardView, Game};
use crate::grid::{
    lemma_index_in_range, lemma_index_injective, lemma_tally_positive, lemma_tally_room, Grid,
};
use crate::laws::{
    lemma_best_is, lemma_put_wf, lemma_seed_wf, lemma_stage_first, lemma_stage_last,
    lemma_stage_next, lemma_staged, lemma_update_wf,
};
use crate::order::{lemma_increasing_precedes, lemma_positions_comparable};
use crate::player::Player;
use crate::rules::{
    bracketed, captures, flips, flips_through, lemma_captures_run, lemma_flips_unfold, ray, spot,
    Direction,
};
use crate::square::Square;
use crate::stone::Stone;
use std::collections::BTreeSet;
use std::collections::VecDeque;
use vstd::prelude::*;
use vstd::std_specs::iter::IteratorSpec;

verus! {

/// The cells of a game, the set of the empty positions, the highlighted
/// cell, and the queue of clicked positions.
pub struct Board {
    squares: Vec<Square>,
    focus: Option<(u32, u32)>,
    queue: VecDeque<(u32, u32)>,
    empties: BTreeSet<(u32, u32)>,
}

impl View for Board {
    type V = BoardView;

    closed spec fn view(&self) -> BoardView {
        BoardView {
            stones: Seq::new(self.squares@.len(), |i: int| self.squares@[i].stone()),
            empties: self.empties@,
            focus: self.focus,
            pending: self.queue@,
        }
    }
}

/// How far a walk in direction `d` can go on from the cell `(cx, cy)` of a
/// board of `cols` by `rows` cells.
spec fn room(cols: int, rows: int, d: Direction, cx: int, cy: int) -> int {
    (if d.dx() > 0 {
        cols - cx
    } else if d.dx() < 0 {
        cx + 1
    } else {
        0
    }) + (if d.dy() > 0 {
        rows - cy
    } else if d.dy() < 0 {
        cy + 1
    } else {
        0
    })
}

impl Board {
    /// The board has one square per position of `settings`, in row-major
    /// order, and each square knows its own position.
    closed spec fn laid_out(&self, settings: AppSettings) -> bool {
        &&& settings.valid()
        &&& self.squares@.len() == settings.cols * settings.rows
        &&& forall|i: int|
            0 <= i < self.squares@.len() ==> {
                let s = #[trigger] self.squares@[i];
                &&& s.x() < settings.cols
                &&& s.y() < settings.rows
                &&& s.y() * settings.cols + s.x() == i
            }
    }

    /// The board was built for `settings` and is sound inside: it has one
    /// square per position, in row-major order, each square knows its own
    /// position, and the highlighted square, if any, is the only one whose
    /// highlight flag is set.
    pub closed spec fn fits(&self, settings: AppSettings) -> bool {
        &&& self.laid_out(settings)
        &&& forall|i: int|
            0 <= i < self.squares@.len() ==> {
                let s = #[trigger] self.squares@[i];
                s.focused() <==> self.focus == Some((s.x(), s.y()))
            }
    }

    /// The positions of the squares whose highlight flag is set.
    pub closed spec fn highlighted(&self) -> Set<(u32, u32)> {
        Set::new(
            |p: (u32, u32)|
                exists|i: int|
                    0 <= i < self.squares@.len() && (#[trigger] self.squares@[i]).focused() && (
                    self.squares@[i].x(),
                    self.squares@[i].y(),
                ) == p,
        )
    }

    /// The board and the sides of `env` seen as one game.
    pub open spec fn game(&self, env: &AppEnv) -> Game {
        Game { board: self@, env: env@ }
    }

    /// The cells of the board, with the dimensions that `env` gives.
    pub open spec fn grid(&self, env: &AppEnv) -> Grid {
        self.game(env).grid()
    }

    /// The board and `env` belong together and form a sound game.
    pub open spec fn wf(&self, env: &AppEnv) -> bool {
        self.fits(env@.settings) && self.game(env).wf()
    }

    /// One cell at most has its highlight flag set: the one that the board
    /// records as highlighted.
    pub proof fn lemma_one_highlight(&self, env: &AppEnv)
        requires
            self.wf(env),
        ensures
            self.highlighted() == match self@.focus {
                Some(p) => set![p],
                None => Set::empty(),
            },
    {
        let g = self.grid(env);
        let expected = match self@.focus {
            Some(p) => set![p],
            None => Set::empty(),
        };
        assert forall|p: (u32, u32)| self.highlighted().contains(p) <==> expected.contains(
            p,
        ) by {
            if expected.contains(p) {
                let i = g.index(p.0 as int, p.1 as int);
                lemma_index_in_range(g, p.0 as int, p.1 as int);
                let s = self.squares@[i];
                lemma_index_injective(g, p.0 as int, p.1 as int, s.x() as int, s.y() as int);
                assert(s.focused());
            }
        }
        assert(self.highlighted() =~= expected);
    }

    /// A board for `settings` without any stone: every position is empty,
    /// no cell is highlighted and no position waits. Settings with which no
    /// board can be built give `None`.
    pub fn new(settings: &AppSettings) -> (r: Option<Board>)
        ensures
            r is Some <==> settings.valid(),
            r matches Some(b) ==> {
                &&& b.fits(*settings)
                &&& b@ == BoardView::blank(settings.cols as int, settings.rows as int)
            },
    {
        if !settings.is_valid() {
            return None;
        }
        let cols = settings.cols;
        let rows = settings.rows;
        let mut board = Board {
            squares: Vec::new(),
            focus: None,
            queue: VecDeque::new(),
            empties: BTreeSet::new(),
        };
        let mut y: u32 = 0;
        while y < rows
            invariant
                settings.valid(),
                cols == settings.cols,
                rows == settings.rows,
                y <= rows,
                board.focus is None,
                board.queue@.len() == 0,
                board.squares@.len() == y * cols,
                forall|i: int|
                    0 <= i < board.squares@.len() ==> {
                        let s = #[trigger] board.squares@[i];
                        &&& s.x() < cols
                        &&& s.y() < y
                        &&& s.y() * cols + s.x() == i
                        &&& !s.focused()
                        &&& s.stone() == Stone::Empty
                    },
                board.empties@ =~= Set::new(|p: (u32, u32)| p.0 < cols && p.1 < y),
            decreases rows - y,
        {
            let mut x: u32 = 0;
            while x < cols
                invariant
                    settings.valid(),
                    cols == settings.cols,
                    rows == settings.rows,
                    y < rows,
                    x <= cols,
                    board.focus is None,
                    board.queue@.len() == 0,
                    board.squares@.len() == y * cols + x,
                    forall|i: int|
                        0 <= i < board.squares@.len() ==> {
                            let s = #[trigger] board.squares@[i];
                            &&& s.x() < cols
                            &&& s.y() <= y
                            &&& s.y() * cols + s.x() == i
                            &&& !s.focused()
                            &&& s.stone() == Stone::Empty
                        },
                    board.empties@ =~= Set::new(
                        |p: (u32, u32)| p.0 < cols && (p.1 < y || (p.1 == y && p.0 < x)),
                    ),
                decreases cols - x,
            {
                proof {
                    lemma_positions_comparable();
                }
                board.squares.push(Square::new(x, y));
                board.empties.insert((x, y));
                x = x + 1;
            }
            proof {
                assert((y + 1) * cols == y * cols + cols) by (nonlinear_arith);
            }
            y = y + 1;
        }
        proof {
            let blank = BoardView::blank(cols as int, rows as int);
            let grid = Grid::blank(cols as int, rows as int);
            assert(rows * cols == cols * rows) by (nonlinear_arith);
            assert(board@.stones =~= blank.stones);
            assert forall|p: (u32, u32)| board@.empties.contains(p) <==> blank.empties.contains(
                p,
            ) by {
                if p.0 < cols && p.1 < rows {
                    lemma_index_in_range(grid, p.0 as int, p.1 as int);
                }
            }
            assert(board@.empties =~= blank.empties);
            assert(board@.pending =~= blank.pending);
        }
        Some(board)
    }

    /// The positions of the cells that hold no stone.
    pub fn empties(&self) -> (e: &BTreeSet<(u32, u32)>)
        ensures
            e@ == self@.empties,
    {
        &self.empties
    }

    /// The clicked positions that wait to be played, oldest first.
    pub fn pending(&self) -> (q: &VecDeque<(u32, u32)>)
        ensures
            q@ == self@.pending,
    {
        &self.queue
    }

    /// The position of the highlighted cell, if there is one.
    pub fn focused(&self) -> (f: Option<(u32, u32)>)
        ensures
            f == self@.focus,
    {
        self.focus
    }

    /// Where the square of the cell `(x, y)` stands in `squares`.
    fn index_of(&self, env: &AppEnv, x: u32, y: u32) -> (i: usize)
        requires
            self.laid_out(env@.settings),
            self.grid(env).contains(x as int, y as int),
        ensures
            i == self.grid(env).index(x as int, y as int),
            i < self.squares@.len(),
            self.squares@[i as int].x() == x,
            self.squares@[i as int].y() == y,
            self.squares@[i as int].stone() == self.grid(env).at(x as int, y as int),
    {
        let cols = env.settings().cols;
        let ghost g = self.grid(env);
        proof {
            lemma_index_in_range(g, x as int, y as int);
            assert(y * cols >= 0) by (nonlinear_arith)
                requires
                    y >= 0,
                    cols >= 0,
            ;
        }
        let i = (y as usize) * (cols as usize) + (x as usize);
        proof {
            let s = self.squares@[i as int];
            lemma_index_injective(g, x as int, y as int, s.x() as int, s.y() as int);
        }
        i
    }

    /// The square of the cell `(x, y)`, or nothing where `(x, y)` lies
    /// outside the board.
    pub fn get_square(&self, env: &AppEnv, x: u32, y: u32) -> (r: Option<&Square>)
        requires
            self.fits(env@.settings),
        ensures
            r is Some <==> self.grid(env).contains(x as int, y as int),
            r matches Some(s) ==> {
                &&& s.x() == x
                &&& s.y() == y
                &&& s.stone() == self.grid(env).at(x as int, y as int)
                &&& (s.focused() <==> self@.focus == Some((x, y)))
            },
    {
        if x < env.settings().cols && y < env.settings().rows {
            let i = self.index_of(env, x, y);
            Some(&self.squares[i])
        } else {
            None
        }
    }

    /// Sets the cell `(x, y)` to `stone`, whatever it held before, and keeps
    /// the set of empty positions and the counts of the sides in step. A
    /// position outside the board changes nothing.
    ///
    /// This is how the stones of the opening are laid out: a new board is
    /// empty.
    pub fn seed(&mut self, env: &mut AppEnv, x: u32, y: u32, stone: Stone)
        requires
            old(self).wf(old(env)),
        ensures
            final(self).wf(final(env)),
            final(self).game(final(env)) == old(self).game(old(env)).seed(
                x as int,
                y as int,
                stone,
            ),
    {
        let ghost g0 = self.game(env);
        if x < env.settings().cols && y < env.settings().rows {
            let i = self.index_of(env, x, y);
            proof {
                let grid = g0.grid();
                let from = grid.at(x as int, y as int);
                if from.is_side() {
                    lemma_tally_positive(grid.stones, from, i as int);
                }
                if stone.is_side() && stone != from {
                    lemma_tally_room(grid.stones, stone, i as int);
                }
                lemma_positions_comparable();
            }
            self.squares[i].put_stone(env, stone);
            if stone == Stone::Empty {
                self.empties.insert((x, y));
            } else {
                let p = (x, y);
                self.empties.remove(&p);
            }
            proof {
                lemma_seed_wf(g0, x as int, y as int, stone);
                assert(self@.stones =~= g0.seed(x as int, y as int, stone).board.stones);
                assert(self@.empties =~= g0.seed(x as int, y as int, stone).board.empties);
            }
        }
    }

    /// The side to move tries to place a stone at `(x, y)`.
    ///
    /// Nothing happens where `(x, y)` lies outside the board, where the cell
    /// holds a stone, or where the stone would turn over nothing. Otherwise
    /// the cell and every stone that it turns over come to hold a stone of
    /// the mover, the cell leaves the set of empty positions, both sides are
    /// counted anew, and the turn passes.
    pub fn put(&mut self, env: &mut AppEnv, x: u32, y: u32)
        requires
            old(self).wf(old(env)),
        ensures
            final(self).wf(final(env)),
            final(self).game(final(env)) == old(self).game(old(env)).put(x as int, y as int),
    {
        let ghost g0 = self.game(env);
        if let Some(square) = self.get_square(env, x, y) {
            let current = env.current_player().stone;
            match square.get_stone() {
                Stone::Empty => {
                    if let Some(reversibles) = self.search_reversible(env, x, y, current) {
                        proof {
                            lemma_stage_first(g0, x as int, y as int);
                        }
                        self.seed(env, x, y, current);
                        let mut j: usize = 0;
                        while j < reversibles.len()
                            invariant
                                g0.wf(),
                                g0.legal(x as int, y as int),
                                g0.mover() == current,
                                reversibles@ == g0.gains(x as int, y as int),
                                j <= reversibles.len(),
                                self.wf(env),
                                self.game(env) == g0.staged(x as int, y as int, j as int),
                            decreases reversibles.len() - j,
                        {
                            let (fx, fy) = reversibles[j];
                            proof {
                                lemma_staged(g0, x as int, y as int, j as int);
                                lemma_stage_next(g0, x as int, y as int, j as int);
                            }
                            self.seed(env, fx, fy, current);
                            j = j + 1;
                        }
                        env.switch_player();
                        proof {
                            lemma_stage_last(g0, x as int, y as int);
                            lemma_put_wf(g0, x as int, y as int);
                        }
                    }
                },
                _ => {},
            }
        }
    }

    /// Advances the game by one tick.
    ///
    /// A redraw is asked for in any case. With no empty cell left the game
    /// is marked as over. Otherwise a side that has no legal placement
    /// passes, the computer makes its move at once, and a human side plays
    /// the position that has waited longest in the queue, if there is one;
    /// a waiting position that is not legal is dropped without effect.
    pub fn update(&mut self, env: &mut AppEnv)
        requires
            old(self).wf(old(env)),
        ensures
            final(self).wf(final(env)),
            final(self).game(final(env)) == old(self).game(old(env)).update(),
    {
        proof {
            lemma_update_wf(self.game(env));
        }
        env.set_invalidate(true);
        if !self.empties.is_empty() {
            let putable = self.is_putable(env, env.current_player());
            if !putable {
                env.switch_player();
            } else {
                match env.current_player().cpu {
                    true => self.cpu(env),
                    false => if let Some((x, y)) = self.queue.pop_front() {
                        assert(self@.pending =~= old(self)@.pending.drop_first());
                        assert(self.game(env).wf());
                        self.put(env, x, y)
                    },
                }
            }
        } else {
            env.done()
        }
    }

    /// Moves the highlight to the cell `(x, y)`: the cell that was
    /// highlighted no longer is, and `(x, y)` is if it lies on the board.
    /// Outside the board no cell is highlighted afterwards. Whether a stone
    /// may be placed there plays no part.
    pub fn focus(&mut self, env: &AppEnv, x: u32, y: u32)
        requires
            old(self).wf(env),
        ensures
            final(self).wf(env),
            final(self).game(env) == old(self).game(env).focus(x as int, y as int),
    {
        let cols = env.settings().cols;
        let rows = env.settings().rows;
        if let Some((fx, fy)) = self.focus {
            if fx < cols && fy < rows {
                let i = self.index_of(env, fx, fy);
                self.squares[i].set_focus(false);
            }
        }
        if x < cols && y < rows {
            let i = self.index_of(env, x, y);
            self.focus = Some((x, y));
            self.squares[i].set_focus(true);
        } else {
            self.focus = None;
        }
        assert(self@.stones =~= old(self)@.stones);
    }

    /// Queues the highlighted cell, if there is one, as a placement to try.
    /// Whether the placement is legal is decided when it is taken from the
    /// queue.
    pub fn click(&mut self)
        ensures
            final(self)@ == old(self)@.clicked(),
            forall|settings: AppSettings|
                #[trigger] old(self).fits(settings) ==> final(self).fits(settings),
    {
        if let Some((x, y)) = self.focus {
            self.queue.push_back((x, y));
        }
    }

    /// The width and height of the board on the screen.
    pub fn size(&self, env: &AppEnv) -> (r: (u32, u32))
        requires
            env@.settings.cols * env@.settings.cell_size <= u32::MAX,
            env@.settings.rows * env@.settings.cell_size <= u32::MAX,
        ensures
            r.0 == env@.settings.cols * env@.settings.cell_size,
            r.1 == env@.settings.rows * env@.settings.cell_size,
    {
        let settings = env.settings();
        (settings.cols * settings.cell_size, settings.rows * settings.cell_size)
    }

    /// Whether `player` could place a stone somewhere: whether a stone of
    /// its colour on some empty cell would turn over a stone.
    pub fn is_putable(&self, env: &AppEnv, player: &Player) -> (b: bool)
        requires
            self.fits(env@.settings),
        ensures
            b == self.game(env).can_place(player.stone),
    {
        let ghost g = self.game(env);
        proof {
            lemma_positions_comparable();
        }
        for p in it: self.empties.iter()
            invariant
                self.fits(env@.settings),
                g == self.game(env),
                it.seq() == self.empties.iter().remaining(),
                forall|i: int|
                    0 <= i < it.index() ==> flips(
                        g.grid(),
                        (#[trigger] it.seq()[i]).0 as int,
                        it.seq()[i].1 as int,
                        player.stone,
                    ).len() == 0,
        {
            let (x, y) = *p;
            if let Some(_) = self.search_reversible(env, x, y, player.stone) {
                proof {
                    let q = (x, y);
                    let r = it.seq();
                    assert(r.unref()[it.index()] == q);
                    assert(r.unref().to_set().contains(q));
                    assert(g.board.empties.contains(q));
                }
                return true;
            }
        }
        proof {
            let r = self.empties.iter().remaining();
            assert forall|q: (u32, u32)| #[trigger] g.board.empties.contains(q) implies flips(
                g.grid(),
                q.0 as int,
                q.1 as int,
                player.stone,
            ).len() == 0 by {
                assert(r.unref().to_set().contains(q));
                let i = choose|i: int| 0 <= i < r.unref().len() && r.unref()[i] == q;
                assert(*r[i] == q);
            }
        }
        false
    }

    /// The computer plays for the side to move.
    ///
    /// Every empty position is tried, by column and then by row. The
    /// computer places where the most stones are turned over, at the first
    /// such position. Where no position turns over a stone, nothing happens.
    pub fn cpu(&mut self, env: &mut AppEnv)
        requires
            old(self).wf(old(env)),
        ensures
            final(self).wf(final(env)),
            final(self).game(final(env)) == old(self).game(old(env)).cpu(),
    {
        let ghost g = self.game(env);
        let stone = env.current_player().stone;
        let mut max: Option<(usize, u32, u32)> = None;
        let ghost mut at: int = 0;
        proof {
            lemma_positions_comparable();
        }
        for p in it: self.empties.iter()
            invariant
                self.wf(env),
                g == self.game(env),
                stone == g.mover(),
                it.seq() == self.empties.iter().remaining(),
                max is None ==> forall|i: int|
                    0 <= i < it.index() ==> g.gains(
                        (#[trigger] it.seq()[i]).0 as int,
                        it.seq()[i].1 as int,
                    ).len() == 0,
                max matches Some((n, x, y)) ==> {
                    &&& 0 <= at < it.index()
                    &&& *it.seq()[at] == (x, y)
                    &&& n == g.gains(x as int, y as int).len()
                    &&& n > 0
                    &&& forall|i: int|
                        0 <= i < it.index() ==> {
                            let m = g.gains(
                                (#[trigger] it.seq()[i]).0 as int,
                                it.seq()[i].1 as int,
                            ).len();
                            m <= n && (m == n ==> at <= i)
                        }
                },
        {
            let (x, y) = *p;
            if let Some(reversibles) = self.search_reversible(env, x, y, stone) {
                if let Some((n, _, _)) = max {
                    if n < reversibles.len() {
                        max = Some((reversibles.len(), x, y));
                        proof {
                            at = it.index();
                        }
                    }
                } else {
                    max = Some((reversibles.len(), x, y));
                    proof {
                        at = it.index();
                    }
                }
            }
        }
        proof {
            let r = self.empties.iter().remaining();
            lemma_increasing_precedes(r);
            if let Some((n, x, y)) = max {
                let best = (x, y);
                assert(r.unref()[at] == best);
                assert(r.unref().to_set().contains(best));
                assert forall|q: (u32, u32)| #[trigger] g.board.empties.contains(q) implies {
                    let theirs = g.gains(q.0 as int, q.1 as int).len();
                    let ours = g.gains(best.0 as int, best.1 as int).len();
                    theirs <= ours && (theirs == ours ==> !precedes(q, best))
                } by {
                    assert(r.unref().to_set().contains(q));
                    let i = choose|i: int| 0 <= i < r.unref().len() && r.unref()[i] == q;
                    assert(*r[i] == q);
                    if at < i {
                        assert(precedes(*r[at], *r[i]));
                    }
                }
                assert(g.is_best(best));
                lemma_best_is(g, best);
            } else {
                assert forall|q: (u32, u32)| !g.is_best(q) by {
                    if g.is_best(q) {
                        assert(r.unref().to_set().contains(q));
                        let i = choose|i: int| 0 <= i < r.unref().len() && r.unref()[i] == q;
                        assert(*r[i] == q);
                    }
                }
            }
        }
        if let Some((_, x, y)) = max {
            self.put(env, x, y)
        }
    }

    /// The stones that a stone of `my` at `(x, y)` turns over in direction
    /// `d`, nearest first.
    fn scan(&self, env: &AppEnv, x: u32, y: u32, d: Direction, my: Stone) -> (run: Vec<(u32, u32)>)
        requires
            self.fits(env@.settings),
        ensures
            run@ == captures(self.grid(env), x as int, y as int, d, my),
    {
        let ghost g = self.grid(env);
        let mut run: Vec<(u32, u32)> = Vec::new();
        if my == Stone::Empty {
            assert(run@ =~= captures(g, x as int, y as int, d, my));
            return run;
        }
        let cols: i64 = env.settings().cols as i64;
        let rows: i64 = env.settings().rows as i64;
        let (dx, dy) = d.delta();
        let mut cx: i64 = x as i64 + dx;
        let mut cy: i64 = y as i64 + dy;
        let ghost mut k: int = 1;
        loop
            invariant
                self.fits(env@.settings),
                g == self.grid(env),
                my != Stone::Empty,
                cols == env@.settings.cols,
                rows == env@.settings.rows,
                dx == d.dx(),
                dy == d.dy(),
                k >= 1,
                (cx as int, cy as int) == ray(x as int, y as int, d, k),
                -1 <= cx <= 0x1_0000_0000,
                -1 <= cy <= 0x1_0000_0000,
                run@.len() == k - 1,
                forall|j: int|
                    1 <= j < k ==> {
                        let c = #[trigger] ray(x as int, y as int, d, j);
                        g.holds(c.0, c.1, my.rival()) && run@[j - 1] == spot(c)
                    },
            decreases room(cols as int, rows as int, d, cx as int, cy as int),
        {
            if cx < 0 || cx >= cols || cy < 0 || cy >= rows {
                proof {
                    assert forall|n: int| !bracketed(g, x as int, y as int, d, my, n) by {
                        if bracketed(g, x as int, y as int, d, my, n) {
                            if n >= k {
                                let c = ray(x as int, y as int, d, k);
                                assert(g.holds(c.0, c.1, my.rival()));
                            } else {
                                let c = ray(x as int, y as int, d, n + 1);
                                assert(g.holds(c.0, c.1, my.rival()));
                            }
                        }
                    }
                }
                return Vec::new();
            }
            let i = self.index_of(env, cx as u32, cy as u32);
            let other = self.squares[i].get_stone();
            if other == my.opponent() {
                run.push((cx as u32, cy as u32));
                cx = cx + dx;
                cy = cy + dy;
                proof {
                    k = k + 1;
                }
            } else if other == my {
                proof {
                    if k > 1 {
                        lemma_captures_run(g, x as int, y as int, d, my, k - 1);
                        assert(run@ =~= captures(g, x as int, y as int, d, my));
                    } else {
                        assert forall|n: int| !bracketed(g, x as int, y as int, d, my, n) by {
                            if bracketed(g, x as int, y as int, d, my, n) {
                                let c = ray(x as int, y as int, d, 1);
                                assert(g.holds(c.0, c.1, my.rival()));
                            }
                        }
                        assert(run@ =~= captures(g, x as int, y as int, d, my));
                    }
                }
                return run;
            } else {
                proof {
                    assert forall|n: int| !bracketed(g, x as int, y as int, d, my, n) by {
                        if bracketed(g, x as int, y as int, d, my, n) {
                            if n >= k {
                                let c = ray(x as int, y as int, d, k);
                                assert(g.holds(c.0, c.1, my.rival()));
                            } else {
                                let c = ray(x as int, y as int, d, n + 1);
                                assert(g.holds(c.0, c.1, my.rival()));
                            }
                        }
                    }
                }
                return Vec::new();
            }
        }
    }

    /// Looks for the stones that a stone of `my` at `(x, y)` would turn
    /// over.
    ///
    /// Each of the eight directions is walked outwards from `(x, y)`. A run
    /// of stones of the other side that ends at a stone of `my` is turned
    /// over; a run that ends at the edge or at an empty cell is not. The
    /// result holds the runs of all directions in the search order, or is
    /// `None` where no stone is turned over.
    pub fn search_reversible(&self, env: &AppEnv, x: u32, y: u32, my: Stone) -> (r: Option<
        Vec<(u32, u32)>,
    >)
        requires
            self.fits(env@.settings),
        ensures
            match r {
                Some(v) => v@ == flips(self.grid(env), x as int, y as int, my) && v@.len() > 0,
                None => flips(self.grid(env), x as int, y as int, my).len() == 0,
            },
    {
        let ghost g = self.grid(env);
        let mut vec: Vec<(u32, u32)> = Vec::new();
        let mut i: usize = 0;
        while i < 8
            invariant
                self.fits(env@.settings),
                g == self.grid(env),
                i <= 8,
                vec@ == flips_through(g, x as int, y as int, my, i as int),
            decreases 8 - i,
        {
            let d = Direction::in_order(i);
            let mut run = self.scan(env, x, y, d, my);
            vec.append(&mut run);
            i = i + 1;
        }
        proof {
            lemma_flips_unfold(g, x as int, y as int, my);
        }
        if vec.len() > 0 {
            Some(vec)
        } else {
            None
        }
    }
}

} // verus!
