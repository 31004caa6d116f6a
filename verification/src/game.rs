use crate::app::AppSettings;
use crate::grid::Grid;
use crate::player::Player;
use crate::rules::{covers, flips, placed, spot};
use crate::stone::Stone;
use vstd::prelude::*;

verus! {

/// `a` comes before `b` in the order in which positions are tried: by
/// column, then by row.
pub open spec fn precedes(a: (u32, u32), b: (u32, u32)) -> bool {
    a.0 < b.0 || (a.0 == b.0 && a.1 < b.1)
}

/// The state of the sides and of the turn: the settings of the game, the
/// flag that asks for a redraw, the index of the side to move, the two
/// sides, and whether the game is over.
pub struct EnvView {
    pub settings: AppSettings,
    pub invalidate: bool,
    pub current: int,
    pub players: Seq<Player>,
    pub done: bool,
}

impl EnvView {
    /// There are two sides, White before Black, and the turn flag is set on
    /// the side to move and on no other.
    pub open spec fn wf(self) -> bool {
        &&& self.players.len() == 2
        &&& self.players[0].stone == Stone::White
        &&& self.players[1].stone == Stone::Black
        &&& (self.current == 0 || self.current == 1)
        &&& self.players[self.current].turn
        &&& !self.players[1 - self.current].turn
    }

    /// The state in which a game starts: White is to move, no side has a
    /// stone yet.
    pub open spec fn initial(settings: AppSettings, white_cpu: bool, black_cpu: bool) -> EnvView {
        EnvView {
            settings,
            invalidate: false,
            current: 0,
            players: seq![
                Player { stone: Stone::White, cpu: white_cpu, cnt: 0, turn: true },
                Player { stone: Stone::Black, cpu: black_cpu, cnt: 0, turn: false },
            ],
            done: false,
        }
    }

    /// The index of the side that plays `stone`.
    pub open spec fn seat(stone: Stone) -> int {
        if stone == Stone::White {
            0
        } else {
            1
        }
    }

    /// The colour of the side to move.
    pub open spec fn mover(self) -> Stone {
        self.players[self.current].stone
    }

    /// The state after the turn has passed to the other side.
    pub open spec fn switched(self) -> EnvView {
        let next = 1 - self.current;
        EnvView {
            current: next,
            players: self.players.update(
                self.current,
                self.players[self.current].with_turn(false),
            ).update(next, self.players[next].with_turn(true)),
            ..self
        }
    }

    /// The state after a cell that held `from` has come to hold `to`: the
    /// side of `from` counts one stone fewer, the side of `to` one more.
    pub open spec fn recounted(self, from: Stone, to: Stone) -> EnvView {
        let less = if from.is_side() {
            self.players.update(Self::seat(from), self.players[Self::seat(from)].gained(-1))
        } else {
            self.players
        };
        let more = if to.is_side() {
            less.update(Self::seat(to), less[Self::seat(to)].gained(1))
        } else {
            less
        };
        EnvView { players: more, ..self }
    }

    /// The state after the side to move has placed a stone that turned over
    /// `n` stones of the other side.
    pub open spec fn scored(self, n: int) -> EnvView {
        let other = 1 - self.current;
        EnvView {
            players: self.players.update(
                self.current,
                self.players[self.current].gained(1 + n),
            ).update(other, self.players[other].gained(-n)),
            ..self
        }
    }

    /// The state with the redraw flag set to `invalidate`.
    pub open spec fn marked(self, invalidate: bool) -> EnvView {
        EnvView { invalidate, ..self }
    }

    /// The state of a game that is over.
    pub open spec fn finished(self) -> EnvView {
        EnvView { done: true, ..self }
    }
}

/// The state of a board: what each cell holds (in row-major order), the
/// positions without a stone, the highlighted cell, and the clicked
/// positions that wait to be played.
pub struct BoardView {
    pub stones: Seq<Stone>,
    pub empties: Set<(u32, u32)>,
    pub focus: Option<(u32, u32)>,
    pub pending: Seq<(u32, u32)>,
}

impl BoardView {
    /// A board of the given size without any stone, highlight or waiting
    /// position: every position is in `empties`.
    pub open spec fn blank(cols: int, rows: int) -> BoardView {
        let grid = Grid::blank(cols, rows);
        BoardView {
            stones: grid.stones,
            empties: grid.vacant(),
            focus: None,
            pending: Seq::empty(),
        }
    }

    /// The board after a click: the highlighted cell, if there is one, is
    /// added to the end of the waiting positions.
    pub open spec fn clicked(self) -> BoardView {
        match self.focus {
            Some(p) => BoardView { pending: self.pending.push(p), ..self },
            None => self,
        }
    }
}

/// The state of a game: a board and the sides that play on it.
pub struct Game {
    pub board: BoardView,
    pub env: EnvView,
}

impl Game {
    /// The cells of the board, with the dimensions that the settings give.
    pub open spec fn grid(self) -> Grid {
        Grid {
            cols: self.env.settings.cols as int,
            rows: self.env.settings.rows as int,
            stones: self.board.stones,
        }
    }

    /// What holds of a game at every moment: the sides are in order, the
    /// board has one cell per position, `empties` is exactly the set of the
    /// cells without a stone, the highlighted cell and the waiting positions
    /// lie on the board, and each side counts the stones of its colour.
    pub open spec fn wf(self) -> bool {
        &&& self.env.settings.valid()
        &&& self.env.wf()
        &&& self.grid().wf()
        &&& self.board.empties == self.grid().vacant()
        &&& (self.board.focus matches Some(p) ==> self.grid().contains(p.0 as int, p.1 as int))
        &&& forall|i: int|
            0 <= i < self.board.pending.len() ==> self.grid().contains(
                (#[trigger] self.board.pending[i]).0 as int,
                self.board.pending[i].1 as int,
            )
        &&& self.env.players[0].cnt == self.grid().count(Stone::White)
        &&& self.env.players[1].cnt == self.grid().count(Stone::Black)
    }

    /// The game before anything was placed.
    pub open spec fn initial(settings: AppSettings, white_cpu: bool, black_cpu: bool) -> Game {
        Game {
            board: BoardView::blank(settings.cols as int, settings.rows as int),
            env: EnvView::initial(settings, white_cpu, black_cpu),
        }
    }

    /// The game as it is opened: on the four cells in the middle of the
    /// board lie two stones of each side, those of one side on a diagonal.
    pub open spec fn opening(settings: AppSettings, white_cpu: bool, black_cpu: bool) -> Game {
        let half_cols = settings.cols as int / 2;
        let half_rows = settings.rows as int / 2;
        Game::initial(settings, white_cpu, black_cpu)
            .seed(half_cols - 1, half_rows - 1, Stone::White)
            .seed(half_cols, half_rows, Stone::White)
            .seed(half_cols, half_rows - 1, Stone::Black)
            .seed(half_cols - 1, half_rows, Stone::Black)
    }

    /// The colour of the side to move.
    pub open spec fn mover(self) -> Stone {
        self.env.mover()
    }

    /// The stones that the side to move would turn over by placing at
    /// `(x, y)`.
    pub open spec fn gains(self, x: int, y: int) -> Seq<(u32, u32)> {
        flips(self.grid(), x, y, self.mover())
    }

    /// The side to move may place at `(x, y)`: the cell is on the board,
    /// holds no stone, and the placement turns over at least one stone.
    pub open spec fn legal(self, x: int, y: int) -> bool {
        self.grid().holds(x, y, Stone::Empty) && self.gains(x, y).len() > 0
    }

    /// The game with the cell `(x, y)` holding `stone`, whatever it held
    /// before; a position outside the board changes nothing.
    pub open spec fn seed(self, x: int, y: int, stone: Stone) -> Game {
        if !self.grid().contains(x, y) {
            self
        } else {
            let p = spot((x, y));
            Game {
                board: BoardView {
                    stones: self.grid().with(x, y, stone).stones,
                    empties: if stone == Stone::Empty {
                        self.board.empties.insert(p)
                    } else {
                        self.board.empties.remove(p)
                    },
                    ..self.board
                },
                env: self.env.recounted(self.grid().at(x, y), stone),
            }
        }
    }

    /// The game after the side to move has tried to place at `(x, y)`.
    ///
    /// A placement that is not legal changes nothing. A legal one puts a
    /// stone of the mover on the cell and on every cell that it turns over,
    /// takes the cell out of `empties`, moves the counts of both sides, and
    /// passes the turn.
    pub open spec fn put(self, x: int, y: int) -> Game {
        if !self.legal(x, y) {
            self
        } else {
            Game {
                board: BoardView {
                    stones: placed(self.grid(), x, y, self.mover()).stones,
                    empties: self.board.empties.remove(spot((x, y))),
                    ..self.board
                },
                env: self.env.scored(self.gains(x, y).len() as int).switched(),
            }
        }
    }

    /// A legal placement at `(x, y)` under way: the stone is placed and the
    /// first `j` of the stones that it turns over are turned, the others
    /// not yet, and the turn has not passed. Placements are carried out and
    /// reasoned about stage by stage.
    pub open spec fn staged(self, x: int, y: int, j: int) -> Game {
        let grid = self.grid();
        let turned = self.gains(x, y).take(j);
        Game {
            board: BoardView {
                stones: Seq::new(
                    grid.stones.len(),
                    |i: int|
                        if i == grid.index(x, y) || covers(grid, turned, i) {
                            self.mover()
                        } else {
                            grid.stones[i]
                        },
                ),
                empties: self.board.empties.remove(spot((x, y))),
                ..self.board
            },
            env: self.env.scored(j),
        }
    }

    /// A stone of `stone` placed on some empty cell would turn over a stone.
    pub open spec fn can_place(self, stone: Stone) -> bool {
        exists|p: (u32, u32)|
            #[trigger] self.board.empties.contains(p) && flips(
                self.grid(),
                p.0 as int,
                p.1 as int,
                stone,
            ).len() > 0
    }

    /// The side to move has a legal placement somewhere.
    pub open spec fn can_move(self) -> bool {
        self.can_place(self.mover())
    }

    /// `p` is the placement that the computer chooses: an empty cell that
    /// turns over at least one stone and as many as any other, and the first
    /// such cell in the order of positions.
    pub open spec fn is_best(self, p: (u32, u32)) -> bool {
        &&& self.board.empties.contains(p)
        &&& self.gains(p.0 as int, p.1 as int).len() > 0
        &&& forall|q: (u32, u32)| #[trigger]
            self.board.empties.contains(q) ==> {
                let theirs = self.gains(q.0 as int, q.1 as int).len();
                let ours = self.gains(p.0 as int, p.1 as int).len();
                theirs <= ours && (theirs == ours ==> !precedes(q, p))
            }
    }

    /// The placement that the computer chooses, if the side to move has one.
    pub open spec fn best_move(self) -> Option<(u32, u32)> {
        if exists|p: (u32, u32)| self.is_best(p) {
            Some(choose|p: (u32, u32)| self.is_best(p))
        } else {
            None
        }
    }

    /// The game after the computer has played for the side to move: its
    /// chosen placement, or nothing where it has none.
    pub open spec fn cpu(self) -> Game {
        match self.best_move() {
            Some(p) => self.put(p.0 as int, p.1 as int),
            None => self,
        }
    }

    /// The game with the highlight on `(x, y)`, or on no cell where `(x, y)`
    /// lies outside the board.
    pub open spec fn focus(self, x: int, y: int) -> Game {
        Game {
            board: BoardView {
                focus: if self.grid().contains(x, y) {
                    Some(spot((x, y)))
                } else {
                    None
                },
                ..self.board
            },
            ..self
        }
    }

    /// The game after the pointer has moved to `(px, py)` on the screen,
    /// where the board starts one cell's width from the left and from the
    /// top: over the board, the highlight moves to the cell under the
    /// pointer; elsewhere nothing changes.
    pub open spec fn pointed(self, px: int, py: int) -> Game {
        let cell = self.env.settings.cell_size as int;
        let width = self.env.settings.cols * cell;
        let height = self.env.settings.rows * cell;
        if cell <= px && cell <= py && px - cell < width && py - cell < height {
            self.focus((px - cell) / cell, (py - cell) / cell)
        } else {
            self
        }
    }

    /// The game after a click: the highlighted cell, if there is one, waits
    /// to be played.
    pub open spec fn click(self) -> Game {
        Game { board: self.board.clicked(), ..self }
    }

    /// The game after the turn has passed without a placement.
    pub open spec fn pass(self) -> Game {
        Game { env: self.env.switched(), ..self }
    }

    /// The game after the first waiting position, if there is one, has been
    /// taken from the queue and tried as a placement.
    pub open spec fn play_pending(self) -> Game {
        if self.board.pending.len() == 0 {
            self
        } else {
            let p = self.board.pending[0];
            Game {
                board: BoardView { pending: self.board.pending.drop_first(), ..self.board },
                ..self
            }.put(p.0 as int, p.1 as int)
        }
    }

    /// The game `n` ticks later.
    pub open spec fn after(self, n: nat) -> Game
        decreases n,
    {
        if n == 0 {
            self
        } else {
            self.after((n - 1) as nat).update()
        }
    }

    /// The game one tick later.
    ///
    /// The redraw flag is set. Then: with no empty cell left the game is
    /// over; a side without a legal placement passes; the computer plays its
    /// chosen placement at once; a human side plays the first waiting
    /// position, if any.
    pub open spec fn update(self) -> Game {
        let g = Game { env: self.env.marked(true), ..self };
        if g.board.empties.is_empty() {
            Game { env: g.env.finished(), ..g }
        } else if !g.can_move() {
            g.pass()
        } else if g.env.players[g.env.current].cpu {
            g.cpu()
        } else {
            g.play_pending()
        }
    }
}

} // verus!
