use crate::stone::Stone;
use vstd::prelude::*;

verus! {

/// The mathematical picture of a board: `cols * rows` cells in row-major
/// order, the cell at column `x` and row `y` standing at `y * cols + x`.
pub struct Grid {
    pub cols: int,
    pub rows: int,
    pub stones: Seq<Stone>,
}

/// One where `b` holds, zero where it does not.
pub open spec fn one_if(b: bool) -> nat {
    if b {
        1
    } else {
        0
    }
}

/// How many cells of `stones` hold `s`.
pub open spec fn tally(stones: Seq<Stone>, s: Stone) -> nat
    decreases stones.len(),
{
    if stones.len() == 0 {
        0
    } else {
        tally(stones.drop_last(), s) + one_if(stones.last() == s)
    }
}

impl Grid {
    /// Both dimensions are positive, there is one stone value per cell, and
    /// the number of cells fits a `u32`, so that each cell has a position.
    pub open spec fn wf(self) -> bool {
        &&& 0 < self.cols
        &&& 0 < self.rows
        &&& self.stones.len() == self.cols * self.rows
        &&& self.cols * self.rows <= u32::MAX
    }

    /// Whether `(x, y)` names a cell of the grid.
    pub open spec fn contains(self, x: int, y: int) -> bool {
        0 <= x < self.cols && 0 <= y < self.rows
    }

    /// Where the cell `(x, y)` stands in `stones`.
    pub open spec fn index(self, x: int, y: int) -> int {
        y * self.cols + x
    }

    /// What the cell `(x, y)` holds.
    pub open spec fn at(self, x: int, y: int) -> Stone {
        self.stones[self.index(x, y)]
    }

    /// `(x, y)` is a cell of the grid and holds `s`.
    pub open spec fn holds(self, x: int, y: int, s: Stone) -> bool {
        self.contains(x, y) && self.at(x, y) == s
    }

    /// How many cells hold `s`.
    pub open spec fn count(self, s: Stone) -> nat {
        tally(self.stones, s)
    }

    /// The positions of the cells that hold no stone.
    pub open spec fn vacant(self) -> Set<(u32, u32)> {
        Set::new(|p: (u32, u32)| self.holds(p.0 as int, p.1 as int, Stone::Empty))
    }

    /// The grid with the cell `(x, y)` holding `s`.
    pub open spec fn with(self, x: int, y: int, s: Stone) -> Grid {
        Grid { stones: self.stones.update(self.index(x, y), s), ..self }
    }

    /// A grid of the given size without any stone.
    pub open spec fn blank(cols: int, rows: int) -> Grid {
        Grid { cols, rows, stones: Seq::new((cols * rows) as nat, |i: int| Stone::Empty) }
    }
}

/// Neither dimension of a grid exceeds the number of its cells.
pub proof fn lemma_dims_small(g: Grid)
    requires
        g.wf(),
    ensures
        g.cols <= u32::MAX,
        g.rows <= u32::MAX,
{
    assert(g.cols <= g.cols * g.rows) by (nonlinear_arith)
        requires
            g.cols > 0,
            g.rows > 0,
    ;
    assert(g.rows <= g.cols * g.rows) by (nonlinear_arith)
        requires
            g.cols > 0,
            g.rows > 0,
    ;
}

/// A cell of the grid stands inside `stones`.
pub proof fn lemma_index_in_range(g: Grid, x: int, y: int)
    requires
        g.wf(),
        g.contains(x, y),
    ensures
        0 <= g.index(x, y) < g.stones.len(),
{
    assert(y * g.cols >= 0) by (nonlinear_arith)
        requires
            y >= 0,
            g.cols > 0,
    ;
    assert((y + 1) * g.cols <= g.rows * g.cols) by (nonlinear_arith)
        requires
            y + 1 <= g.rows,
            g.cols > 0,
    ;
    assert((y + 1) * g.cols == y * g.cols + g.cols) by (nonlinear_arith);
    assert(g.rows * g.cols == g.cols * g.rows) by (nonlinear_arith);
}

/// Two cells that stand at the same place in `stones` are the same cell.
pub proof fn lemma_index_injective(g: Grid, x1: int, y1: int, x2: int, y2: int)
    requires
        g.wf(),
        g.contains(x1, y1),
        g.contains(x2, y2),
        g.index(x1, y1) == g.index(x2, y2),
    ensures
        x1 == x2,
        y1 == y2,
{
    if y1 < y2 {
        assert((y1 + 1) * g.cols <= y2 * g.cols) by (nonlinear_arith)
            requires
                y1 + 1 <= y2,
                g.cols > 0,
        ;
        assert((y1 + 1) * g.cols == y1 * g.cols + g.cols) by (nonlinear_arith);
    } else if y2 < y1 {
        assert((y2 + 1) * g.cols <= y1 * g.cols) by (nonlinear_arith)
            requires
                y2 + 1 <= y1,
                g.cols > 0,
        ;
        assert((y2 + 1) * g.cols == y2 * g.cols + g.cols) by (nonlinear_arith);
    }
}

/// A grid has finitely many empty cells.
pub proof fn lemma_vacant_finite(g: Grid)
    requires
        g.wf(),
    ensures
        g.vacant().finite(),
{
    let n = g.cols * g.rows;
    let cols = g.cols;
    let all = vstd::set_lib::set_int_range(0, n);
    let place = |i: int| ((i % cols) as u32, (i / cols) as u32);
    vstd::set_lib::lemma_int_range(0, n);
    all.lemma_map_finite(place);
    lemma_dims_small(g);
    assert forall|p: (u32, u32)| g.vacant().contains(p) implies all.map(place).contains(p) by {
        let i = g.index(p.0 as int, p.1 as int);
        lemma_index_in_range(g, p.0 as int, p.1 as int);
        vstd::arithmetic::div_mod::lemma_fundamental_div_mod_converse(
            i,
            cols,
            p.1 as int,
            p.0 as int,
        );
        assert(all.contains(i));
        assert(place(i) == p);
    }
    vstd::set_lib::lemma_set_subset_finite(all.map(place), g.vacant());
}

/// There are never more cells holding `s` than cells.
pub proof fn lemma_tally_bound(stones: Seq<Stone>, s: Stone)
    ensures
        tally(stones, s) <= stones.len(),
    decreases stones.len(),
{
    if stones.len() > 0 {
        lemma_tally_bound(stones.drop_last(), s);
    }
}

/// A cell that holds `s` is counted.
pub proof fn lemma_tally_positive(stones: Seq<Stone>, s: Stone, i: int)
    requires
        0 <= i < stones.len(),
        stones[i] == s,
    ensures
        tally(stones, s) >= 1,
    decreases stones.len(),
{
    if i < stones.len() - 1 {
        lemma_tally_positive(stones.drop_last(), s, i);
    }
}

/// A cell that does not hold `s` leaves room in the count.
pub proof fn lemma_tally_room(stones: Seq<Stone>, s: Stone, i: int)
    requires
        0 <= i < stones.len(),
        stones[i] != s,
    ensures
        tally(stones, s) < stones.len(),
    decreases stones.len(),
{
    if i < stones.len() - 1 {
        lemma_tally_room(stones.drop_last(), s, i);
    } else {
        lemma_tally_bound(stones.drop_last(), s);
    }
}

/// Changing one cell moves the count of `s` by the cell's old and new value.
pub proof fn lemma_tally_update(stones: Seq<Stone>, i: int, t: Stone, s: Stone)
    requires
        0 <= i < stones.len(),
    ensures
        tally(stones.update(i, t), s) == tally(stones, s) - one_if(stones[i] == s) + one_if(t == s),
    decreases stones.len(),
{
    let after = stones.update(i, t);
    if i == stones.len() - 1 {
        assert(after.drop_last() =~= stones.drop_last());
    } else {
        assert(after.drop_last() =~= stones.drop_last().update(i, t));
        lemma_tally_update(stones.drop_last(), i, t, s);
    }
}

/// A sequence of empty cells holds no stone of either side, and only
/// empty cells.
pub proof fn lemma_tally_blank(stones: Seq<Stone>, s: Stone)
    requires
        forall|i: int| 0 <= i < stones.len() ==> stones[i] == Stone::Empty,
    ensures
        tally(stones, s) == if s == Stone::Empty {
            stones.len()
        } else {
            0
        },
    decreases stones.len(),
{
    if stones.len() > 0 {
        lemma_tally_blank(stones.drop_last(), s);
    }
}

} // verus!
