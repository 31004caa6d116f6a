use crate::app::AppSettings;
use crate::game::{precedes, EnvView, Game};
use crate::grid::{
    lemma_dims_small, lemma_index_in_range, lemma_index_injective, lemma_tally_blank,
    lemma_tally_bound, lemma_tally_positive, lemma_tally_update, lemma_vacant_finite, one_if,
};
use crate::rules::{covers, lemma_flips_sound};
use crate::stone::Stone;
use vstd::prelude::*;

verus! {

/// The game before anything was placed is sound.
pub proof fn lemma_initial_wf(settings: AppSettings, white_cpu: bool, black_cpu: bool)
    requires
        settings.valid(),
    ensures
        Game::initial(settings, white_cpu, black_cpu).wf(),
{
    let g = Game::initial(settings, white_cpu, black_cpu);
    lemma_tally_blank(g.board.stones, Stone::White);
    lemma_tally_blank(g.board.stones, Stone::Black);
}

/// The game as it is opened is sound.
pub proof fn lemma_opening_wf(settings: AppSettings, white_cpu: bool, black_cpu: bool)
    requires
        settings.valid(),
    ensures
        Game::opening(settings, white_cpu, black_cpu).wf(),
{
    let half_cols = settings.cols as int / 2;
    let half_rows = settings.rows as int / 2;
    let a = Game::initial(settings, white_cpu, black_cpu);
    lemma_initial_wf(settings, white_cpu, black_cpu);
    lemma_seed_wf(a, half_cols - 1, half_rows - 1, Stone::White);
    let b = a.seed(half_cols - 1, half_rows - 1, Stone::White);
    lemma_seed_wf(b, half_cols, half_rows, Stone::White);
    let c = b.seed(half_cols, half_rows, Stone::White);
    lemma_seed_wf(c, half_cols, half_rows - 1, Stone::Black);
    let d = c.seed(half_cols, half_rows - 1, Stone::Black);
    lemma_seed_wf(d, half_cols - 1, half_rows, Stone::Black);
}

/// Setting one cell keeps a game sound, and moves the count of each side
/// by the stone that left the cell and the stone that came.
pub proof fn lemma_seed_wf(g: Game, x: int, y: int, s: Stone)
    requires
        g.wf(),
    ensures
        g.seed(x, y, s).wf(),
        g.seed(x, y, s).env.current == g.env.current,
        g.grid().contains(x, y) ==> {
            let from = g.grid().at(x, y);
            let h = g.seed(x, y, s);
            &&& h.env.players[0].cnt == g.env.players[0].cnt - one_if(from == Stone::White)
                + one_if(s == Stone::White)
            &&& h.env.players[1].cnt == g.env.players[1].cnt - one_if(from == Stone::Black)
                + one_if(s == Stone::Black)
        },
{
    if g.grid().contains(x, y) {
        let grid = g.grid();
        let i = grid.index(x, y);
        let from = grid.at(x, y);
        let h = g.seed(x, y, s);
        lemma_index_in_range(grid, x, y);
        lemma_dims_small(grid);
        lemma_tally_update(grid.stones, i, s, Stone::White);
        lemma_tally_update(grid.stones, i, s, Stone::Black);
        if from.is_side() {
            lemma_tally_positive(grid.stones, from, i);
        }
        lemma_tally_bound(h.board.stones, Stone::White);
        lemma_tally_bound(h.board.stones, Stone::Black);
        assert forall|p: (u32, u32)|
            h.board.empties.contains(p) <==> h.grid().vacant().contains(p) by {
            if grid.contains(p.0 as int, p.1 as int) {
                lemma_index_in_range(grid, p.0 as int, p.1 as int);
                if grid.index(p.0 as int, p.1 as int) == i {
                    lemma_index_injective(grid, x, y, p.0 as int, p.1 as int);
                }
            }
            assert(g.board.empties.contains(p) <==> grid.vacant().contains(p));
        }
        assert(h.board.empties =~= h.grid().vacant());
    }
}

/// A legal placement is made by a side, on a cell of the board that none
/// of the turned stones shares, and the turned stones are all different
/// cells that hold stones of the rival.
pub proof fn lemma_legal_facts(g: Game, x: int, y: int)
    requires
        g.wf(),
        g.legal(x, y),
    ensures
        g.mover().is_side(),
        EnvView::seat(g.mover()) == g.env.current,
        EnvView::seat(g.mover().rival()) == 1 - g.env.current,
        g.grid().contains(x, y),
        0 <= x <= u32::MAX,
        0 <= y <= u32::MAX,
        0 <= g.grid().index(x, y) < g.board.stones.len(),
        g.gains(x, y).no_duplicates(),
        forall|i: int|
            0 <= i < g.gains(x, y).len() ==> {
                let c = #[trigger] g.gains(x, y)[i];
                &&& g.grid().holds(c.0 as int, c.1 as int, g.mover().rival())
                &&& g.grid().index(c.0 as int, c.1 as int) != g.grid().index(x, y)
                &&& 0 <= g.grid().index(c.0 as int, c.1 as int) < g.board.stones.len()
            },
{
    let grid = g.grid();
    let f = g.gains(x, y);
    lemma_flips_sound(grid, x, y, g.mover());
    lemma_dims_small(grid);
    lemma_index_in_range(grid, x, y);
    assert forall|i: int| 0 <= i < f.len() implies {
        let c = #[trigger] f[i];
        &&& grid.holds(c.0 as int, c.1 as int, g.mover().rival())
        &&& grid.index(c.0 as int, c.1 as int) != grid.index(x, y)
        &&& 0 <= grid.index(c.0 as int, c.1 as int) < g.board.stones.len()
    } by {
        let c = f[i];
        lemma_index_in_range(grid, c.0 as int, c.1 as int);
        if grid.index(c.0 as int, c.1 as int) == grid.index(x, y) {
            lemma_index_injective(grid, x, y, c.0 as int, c.1 as int);
        }
    }
}

/// The first stage of a legal placement is the placed stone alone.
pub proof fn lemma_stage_first(g: Game, x: int, y: int)
    requires
        g.wf(),
        g.legal(x, y),
    ensures
        g.staged(x, y, 0) == g.seed(x, y, g.mover()),
{
    lemma_legal_facts(g, x, y);
    let a = g.staged(x, y, 0);
    let b = g.seed(x, y, g.mover());
    assert(g.gains(x, y).take(0).len() == 0);
    assert(a.board.stones =~= b.board.stones);
    assert(a.env.players =~= b.env.players);
}

/// The next stage of a legal placement turns the next stone, which held a
/// stone of the rival until then.
pub proof fn lemma_stage_next(g: Game, x: int, y: int, j: int)
    requires
        g.wf(),
        g.legal(x, y),
        0 <= j < g.gains(x, y).len(),
        g.staged(x, y, j).env.players[g.env.current].cnt == g.env.players[g.env.current].cnt + 1
            + j,
        g.staged(x, y, j).env.players[1 - g.env.current].cnt == g.env.players[1
            - g.env.current].cnt - j,
    ensures
        g.staged(x, y, j + 1) == g.staged(x, y, j).seed(
            g.gains(x, y)[j].0 as int,
            g.gains(x, y)[j].1 as int,
            g.mover(),
        ),
        g.staged(x, y, j).grid().at(g.gains(x, y)[j].0 as int, g.gains(x, y)[j].1 as int)
            == g.mover().rival(),
{
    lemma_legal_facts(g, x, y);
    let grid = g.grid();
    let f = g.gains(x, y);
    let c = f[j];
    let ci = grid.index(c.0 as int, c.1 as int);
    let a = g.staged(x, y, j);
    let b = g.staged(x, y, j + 1);
    let s = a.seed(c.0 as int, c.1 as int, g.mover());
    assert(!covers(grid, f.take(j), ci)) by {
        if covers(grid, f.take(j), ci) {
            let t = choose|t: int|
                0 <= t < f.take(j).len() && ci == grid.index(
                    #[trigger] f.take(j)[t].0 as int,
                    f.take(j)[t].1 as int,
                );
            assert(f.take(j)[t] == f[t]);
            lemma_index_injective(grid, c.0 as int, c.1 as int, f[t].0 as int, f[t].1 as int);
        }
    }
    assert(a.grid().at(c.0 as int, c.1 as int) == g.mover().rival());
    assert forall|i: int| 0 <= i < b.board.stones.len() implies b.board.stones[i]
        == s.board.stones[i] by {
        if covers(grid, f.take(j + 1), i) {
            let t = choose|t: int|
                0 <= t < f.take(j + 1).len() && i == grid.index(
                    #[trigger] f.take(j + 1)[t].0 as int,
                    f.take(j + 1)[t].1 as int,
                );
            assert(f.take(j + 1)[t] == f[t]);
            if t < j {
                assert(f.take(j)[t] == f[t]);
                assert(covers(grid, f.take(j), i));
            }
        }
        if covers(grid, f.take(j), i) {
            let t = choose|t: int|
                0 <= t < f.take(j).len() && i == grid.index(
                    #[trigger] f.take(j)[t].0 as int,
                    f.take(j)[t].1 as int,
                );
            assert(f.take(j)[t] == f[t]);
            assert(f.take(j + 1)[t] == f[t]);
            assert(covers(grid, f.take(j + 1), i));
        }
        if i == ci {
            assert(f.take(j + 1)[j] == f[j]);
            assert(covers(grid, f.take(j + 1), i));
        }
    }
    assert(b.board.stones =~= s.board.stones);
    assert(b.board.empties =~= s.board.empties) by {
        assert(grid.vacant().contains(c) == false);
    }
    assert(b.env.players =~= s.env.players);
}

/// Every stage of a legal placement is a sound game, in which the mover
/// has gained the placed stone and the stones turned so far, and the rival
/// has lost the latter.
pub proof fn lemma_staged(g: Game, x: int, y: int, j: int)
    requires
        g.wf(),
        g.legal(x, y),
        0 <= j <= g.gains(x, y).len(),
    ensures
        g.staged(x, y, j).wf(),
        g.staged(x, y, j).env.current == g.env.current,
        g.staged(x, y, j).env.players[g.env.current].cnt == g.env.players[g.env.current].cnt + 1
            + j,
        g.staged(x, y, j).env.players[1 - g.env.current].cnt == g.env.players[1
            - g.env.current].cnt - j,
    decreases j,
{
    lemma_legal_facts(g, x, y);
    if j == 0 {
        lemma_stage_first(g, x, y);
        lemma_seed_wf(g, x, y, g.mover());
    } else {
        lemma_staged(g, x, y, j - 1);
        lemma_stage_next(g, x, y, j - 1);
        let c = g.gains(x, y)[j - 1];
        lemma_seed_wf(g.staged(x, y, j - 1), c.0 as int, c.1 as int, g.mover());
    }
}

/// A legal placement is its last stage with the turn passed on.
pub proof fn lemma_stage_last(g: Game, x: int, y: int)
    requires
        g.wf(),
        g.legal(x, y),
    ensures
        g.put(x, y) == (Game {
            env: g.staged(x, y, g.gains(x, y).len() as int).env.switched(),
            ..g.staged(x, y, g.gains(x, y).len() as int)
        }),
{
    let f = g.gains(x, y);
    let last = g.staged(x, y, f.len() as int);
    assert(f.take(f.len() as int) =~= f);
    assert(g.put(x, y).board.stones =~= last.board.stones);
}

/// The computer's choice is determined: no two positions are both the
/// first among those that turn over the most stones.
pub proof fn lemma_best_unique(g: Game, p: (u32, u32), q: (u32, u32))
    requires
        g.is_best(p),
        g.is_best(q),
    ensures
        p == q,
{
    assert(g.board.empties.contains(p));
    assert(g.board.empties.contains(q));
}

/// The computer has a choice exactly where the side to move has a legal
/// placement.
pub proof fn lemma_best_is(g: Game, p: (u32, u32))
    requires
        g.is_best(p),
    ensures
        g.best_move() == Some(p),
        g.can_move(),
{
    let c = choose|c: (u32, u32)| g.is_best(c);
    lemma_best_unique(g, p, c);
}

/// Where the side to move has a legal placement, the computer finds one to
/// choose, and its choice is legal.
pub proof fn lemma_can_move_has_best(g: Game)
    requires
        g.wf(),
        g.can_move(),
    ensures
        g.best_move() matches Some(p) && g.is_best(p) && g.legal(p.0 as int, p.1 as int),
{
    let turning = |p: (u32, u32)| g.gains(p.0 as int, p.1 as int).len();
    let better = |a: (u32, u32), b: (u32, u32)|
        turning(a) > turning(b) || (turning(a) == turning(b) && !precedes(b, a));
    let candidates = g.board.empties.filter(|p: (u32, u32)| turning(p) > 0);
    lemma_vacant_finite(g.grid());
    assert(candidates.finite()) by {
        vstd::set_lib::lemma_set_subset_finite(g.board.empties, candidates);
    }
    let w = choose|p: (u32, u32)| #[trigger]
        g.board.empties.contains(p) && g.gains(p.0 as int, p.1 as int).len() > 0;
    assert(candidates.contains(w));
    assert(candidates.len() > 0) by {
        if candidates.len() == 0 {
            candidates.lemma_len0_is_empty();
        }
    }
    assert(vstd::relations::total_ordering(better)) by {
        assert(vstd::relations::reflexive(better));
        assert(vstd::relations::antisymmetric(better));
        assert(vstd::relations::transitive(better));
        assert(vstd::relations::strongly_connected(better));
    }
    candidates.find_unique_minimal_ensures(better);
    let best = candidates.find_unique_minimal(better);
    assert forall|q: (u32, u32)| #[trigger] g.board.empties.contains(q) implies {
        let theirs = g.gains(q.0 as int, q.1 as int).len();
        let ours = g.gains(best.0 as int, best.1 as int).len();
        theirs <= ours && (theirs == ours ==> !precedes(q, best))
    } by {
        if candidates.contains(q) {
            assert(better(best, q) || better(q, best));
        }
    }
    assert(g.is_best(best));
    lemma_best_is(g, best);
}

/// The computer's move keeps a game sound.
pub proof fn lemma_cpu_wf(g: Game)
    requires
        g.wf(),
    ensures
        g.cpu().wf(),
{
    if let Some(p) = g.best_move() {
        lemma_put_wf(g, p.0 as int, p.1 as int);
    }
}

/// A tick keeps a game sound.
pub proof fn lemma_update_wf(g: Game)
    requires
        g.wf(),
    ensures
        g.update().wf(),
{
    let m = Game { env: g.env.marked(true), ..g };
    assert(m.wf());
    if m.board.empties.is_empty() {
    } else if !m.can_move() {
    } else if m.env.players[m.env.current].cpu {
        lemma_cpu_wf(m);
    } else if m.board.pending.len() > 0 {
        let p = m.board.pending[0];
        let popped = Game {
            board: crate::game::BoardView { pending: m.board.pending.drop_first(), ..m.board },
            ..m
        };
        assert forall|i: int| 0 <= i < popped.board.pending.len() implies popped.grid().contains(
            (#[trigger] popped.board.pending[i]).0 as int,
            popped.board.pending[i].1 as int,
        ) by {
            assert(popped.board.pending[i] == m.board.pending[i + 1]);
        }
        lemma_put_wf(popped, p.0 as int, p.1 as int);
    }
}

/// Trying a placement keeps a game sound.
pub proof fn lemma_put_wf(g: Game, x: int, y: int)
    requires
        g.wf(),
    ensures
        g.put(x, y).wf(),
{
    if g.legal(x, y) {
        let n = g.gains(x, y).len() as int;
        lemma_staged(g, x, y, n);
        lemma_stage_last(g, x, y);
    }
}

/// A legal placement gives the mover the placed stone and every stone that
/// it turns over, takes the turned stones from the rival, so that the two
/// sides together count one stone more, and leaves one empty position
/// fewer.
pub proof fn lemma_put_counts(g: Game, x: int, y: int)
    requires
        g.wf(),
        g.legal(x, y),
    ensures
        ({
            let n = g.gains(x, y).len();
            let h = g.put(x, y);
            let mover = g.env.current;
            let rival = 1 - g.env.current;
            &&& n >= 1
            &&& h.env.players[mover].cnt == g.env.players[mover].cnt + 1 + n
            &&& h.env.players[rival].cnt == g.env.players[rival].cnt - n
            &&& h.env.players[0].cnt + h.env.players[1].cnt == g.env.players[0].cnt
                + g.env.players[1].cnt + 1
            &&& g.board.empties.finite()
            &&& h.board.empties.len() == g.board.empties.len() - 1
        }),
{
    let n = g.gains(x, y).len() as int;
    lemma_staged(g, x, y, n);
    lemma_stage_last(g, x, y);
    lemma_legal_facts(g, x, y);
    lemma_vacant_finite(g.grid());
    assert(g.board.empties.contains(crate::rules::spot((x, y))));
}

/// A legal placement passes the turn to the other side.
pub proof fn lemma_put_passes_turn(g: Game, x: int, y: int)
    requires
        g.wf(),
        g.legal(x, y),
    ensures
        g.put(x, y).env.current == 1 - g.env.current,
        g.put(x, y).mover() == g.mover().rival(),
{
    lemma_put_wf(g, x, y);
}

/// A placement that is not legal changes nothing: neither the board nor
/// the counts nor the turn.
pub proof fn lemma_illegal_put_is_noop(g: Game, x: int, y: int)
    requires
        !g.legal(x, y),
    ensures
        g.put(x, y) == g,
{
}

/// A tick on which the side to move has no legal placement, while the
/// board is not full, passes the turn and does nothing else: no stone is
/// placed, no count changes, and no waiting position is used up.
pub proof fn lemma_forced_pass(g: Game)
    requires
        g.wf(),
        !g.board.empties.is_empty(),
        !g.can_move(),
    ensures
        g.update().env.current == 1 - g.env.current,
        g.update().board == g.board,
        g.update().env.players[0].cnt == g.env.players[0].cnt,
        g.update().env.players[1].cnt == g.env.players[1].cnt,
        g.update().env.done == g.env.done,
{
    let m = Game { env: g.env.marked(true), ..g };
    assert(m.grid() == g.grid());
    assert(m.can_move() == g.can_move());
}

/// A tick of a human side with nothing in the queue places no stone and
/// keeps the turn.
pub proof fn lemma_idle_tick(g: Game)
    requires
        g.wf(),
        !g.board.empties.is_empty(),
        g.can_move(),
        !g.env.players[g.env.current].cpu,
        g.board.pending.len() == 0,
    ensures
        g.update().board == g.board,
        g.update().env == g.env.marked(true),
{
    let m = Game { env: g.env.marked(true), ..g };
    assert(m.grid() == g.grid());
    assert(m.can_move() == g.can_move());
}

/// A tick that places a stone passes the turn and adds one stone to the
/// board; a tick that places none leaves every count as it is.
pub proof fn lemma_tick_turn(g: Game)
    requires
        g.wf(),
    ensures
        g.update().board.stones != g.board.stones ==> {
            &&& g.update().env.current == 1 - g.env.current
            &&& g.update().env.players[0].cnt + g.update().env.players[1].cnt
                == g.env.players[0].cnt + g.env.players[1].cnt + 1
        },
        g.update().board.stones == g.board.stones ==> {
            &&& g.update().env.players[0].cnt == g.env.players[0].cnt
            &&& g.update().env.players[1].cnt == g.env.players[1].cnt
            &&& g.update().board.empties == g.board.empties
        },
{
    let m = Game { env: g.env.marked(true), ..g };
    assert(m.wf());
    if m.board.empties.is_empty() {
    } else if !m.can_move() {
    } else if m.env.players[m.env.current].cpu {
        if let Some(p) = m.best_move() {
            lemma_tried_placement(m, p.0 as int, p.1 as int);
        }
    } else if m.board.pending.len() > 0 {
        let p = m.board.pending[0];
        let popped = Game {
            board: crate::game::BoardView { pending: m.board.pending.drop_first(), ..m.board },
            ..m
        };
        assert forall|i: int| 0 <= i < popped.board.pending.len() implies popped.grid().contains(
            (#[trigger] popped.board.pending[i]).0 as int,
            popped.board.pending[i].1 as int,
        ) by {
            assert(popped.board.pending[i] == m.board.pending[i + 1]);
        }
        lemma_tried_placement(popped, p.0 as int, p.1 as int);
    }
}

/// A placement that is tried either changes the stones of the board,
/// passes the turn and adds one stone to the two counts together, or
/// changes nothing at all.
pub proof fn lemma_tried_placement(g: Game, x: int, y: int)
    requires
        g.wf(),
    ensures
        g.legal(x, y) ==> {
            &&& g.put(x, y).board.stones != g.board.stones
            &&& g.put(x, y).env.current == 1 - g.env.current
            &&& g.put(x, y).env.players[0].cnt + g.put(x, y).env.players[1].cnt
                == g.env.players[0].cnt + g.env.players[1].cnt + 1
        },
        !g.legal(x, y) ==> g.put(x, y) == g,
{
    if g.legal(x, y) {
        lemma_put_counts(g, x, y);
        lemma_put_passes_turn(g, x, y);
        lemma_legal_facts(g, x, y);
        let i = g.grid().index(x, y);
        assert(g.put(x, y).board.stones[i] == g.mover());
        assert(g.board.stones[i] == Stone::Empty);
    }
}

/// Moving the highlight twice to the same place is the same as moving it
/// once, and one cell at most is highlighted.
pub proof fn lemma_focus_idempotent(g: Game, x: int, y: int)
    ensures
        g.focus(x, y).focus(x, y) == g.focus(x, y),
        g.grid().contains(x, y) ==> g.focus(x, y).board.focus == Some(crate::rules::spot((x, y))),
        !g.grid().contains(x, y) ==> g.focus(x, y).board.focus is None,
{
}

/// A click queues the highlighted cell once, at the end of the queue; a
/// click without a highlighted cell queues nothing.
pub proof fn lemma_click_queues_focus(g: Game)
    ensures
        g.board.focus matches Some(p) ==> g.click().board.pending == g.board.pending.push(p)
            && g.click().board.pending.len() == g.board.pending.len() + 1,
        g.board.focus is None ==> g.click() == g,
        g.click().board.stones == g.board.stones,
        g.click().env == g.env,
{
}

/// A tick never takes back that the game is over, and never adds an empty
/// position.
pub proof fn lemma_done_never_resets(g: Game)
    requires
        g.wf(),
    ensures
        g.update().env.done == (g.env.done || g.board.empties.is_empty()),
        g.update().board.empties.subset_of(g.board.empties),
{
    let m = Game { env: g.env.marked(true), ..g };
    if m.board.empties.is_empty() {
    } else if !m.can_move() {
    } else if m.env.players[m.env.current].cpu {
        if let Some(p) = m.best_move() {
        }
    } else if m.board.pending.len() > 0 {
    }
}

/// Once no position is empty, every further tick finds the game over and
/// places nothing: the board, the counts and the turn stay as they are.
pub proof fn lemma_done_is_permanent(g: Game, n: nat)
    requires
        g.wf(),
        g.board.empties.is_empty(),
        n >= 1,
    ensures
        g.after(n).env.done,
        g.after(n).board == g.board,
        g.after(n).env == g.env.marked(true).finished(),
    decreases n,
{
    if n > 1 {
        lemma_done_is_permanent(g, (n - 1) as nat);
    }
    reveal_with_fuel(Game::after, 2);
}

} // verus!
