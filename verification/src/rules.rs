use crate::grid::Grid;
use crate::stone::Stone;
use vstd::prelude::*;

verus! {

/// One of the eight lines that leave a cell. North is towards row 0, west
/// towards column 0.
#[derive(Copy, Clone, PartialEq, Eq, Debug, Structural)]
pub enum Direction {
    West,
    NorthWest,
    North,
    NorthEast,
    East,
    SouthEast,
    South,
    SouthWest,
}

impl Direction {
    /// The change of the column on one step.
    pub open spec fn dx(self) -> int {
        match self {
            Direction::West | Direction::NorthWest | Direction::SouthWest => -1,
            Direction::North | Direction::South => 0,
            Direction::NorthEast | Direction::East | Direction::SouthEast => 1,
        }
    }

    /// The change of the row on one step.
    pub open spec fn dy(self) -> int {
        match self {
            Direction::NorthWest | Direction::North | Direction::NorthEast => -1,
            Direction::West | Direction::East => 0,
            Direction::SouthEast | Direction::South | Direction::SouthWest => 1,
        }
    }

    /// The directions in the order in which a placement is searched.
    pub open spec fn nth(i: int) -> Direction {
        if i == 0 {
            Direction::West
        } else if i == 1 {
            Direction::NorthWest
        } else if i == 2 {
            Direction::North
        } else if i == 3 {
            Direction::NorthEast
        } else if i == 4 {
            Direction::East
        } else if i == 5 {
            Direction::SouthEast
        } else if i == 6 {
            Direction::South
        } else {
            Direction::SouthWest
        }
    }

    /// The place of a direction in the search order.
    pub open spec fn rank(self) -> int {
        match self {
            Direction::West => 0,
            Direction::NorthWest => 1,
            Direction::North => 2,
            Direction::NorthEast => 3,
            Direction::East => 4,
            Direction::SouthEast => 5,
            Direction::South => 6,
            Direction::SouthWest => 7,
        }
    }

    /// The change of column and row on one step.
    pub fn delta(self) -> (r: (i64, i64))
        ensures
            r.0 == self.dx(),
            r.1 == self.dy(),
    {
        match self {
            Direction::West => (-1, 0),
            Direction::NorthWest => (-1, -1),
            Direction::North => (0, -1),
            Direction::NorthEast => (1, -1),
            Direction::East => (1, 0),
            Direction::SouthEast => (1, 1),
            Direction::South => (0, 1),
            Direction::SouthWest => (-1, 1),
        }
    }

    /// The direction that is searched in place `i`.
    pub fn in_order(i: usize) -> (d: Direction)
        requires
            i < 8,
        ensures
            d == Direction::nth(i as int),
            d.rank() == i,
    {
        if i == 0 {
            Direction::West
        } else if i == 1 {
            Direction::NorthWest
        } else if i == 2 {
            Direction::North
        } else if i == 3 {
            Direction::NorthEast
        } else if i == 4 {
            Direction::East
        } else if i == 5 {
            Direction::SouthEast
        } else if i == 6 {
            Direction::South
        } else {
            Direction::SouthWest
        }
    }
}

/// The cell `k` steps away from `(x, y)` in direction `d`.
pub open spec fn ray(x: int, y: int, d: Direction, k: int) -> (int, int) {
    match d {
        Direction::West => (x - k, y),
        Direction::NorthWest => (x - k, y - k),
        Direction::North => (x, y - k),
        Direction::NorthEast => (x + k, y - k),
        Direction::East => (x + k, y),
        Direction::SouthEast => (x + k, y + k),
        Direction::South => (x, y + k),
        Direction::SouthWest => (x - k, y + k),
    }
}

/// A cell of the grid as a position.
pub open spec fn spot(c: (int, int)) -> (u32, u32) {
    (c.0 as u32, c.1 as u32)
}

/// A stone of `mover` at `(x, y)` brackets exactly `n` stones in direction
/// `d`: the next `n` cells on that line hold stones of the rival, and the
/// cell after them holds a stone of `mover`.
pub open spec fn bracketed(g: Grid, x: int, y: int, d: Direction, mover: Stone, n: int) -> bool {
    &&& mover != Stone::Empty
    &&& n >= 1
    &&& forall|k: int|
        1 <= k <= n ==> {
            let c = #[trigger] ray(x, y, d, k);
            g.holds(c.0, c.1, mover.rival())
        }
    &&& {
        let c = ray(x, y, d, n + 1);
        g.holds(c.0, c.1, mover)
    }
}

/// The stones that a stone of `mover` at `(x, y)` turns over in direction
/// `d`, nearest first: the bracketed run, or nothing where the line runs off
/// the grid or reaches an empty cell before a stone of `mover`.
pub open spec fn captures(g: Grid, x: int, y: int, d: Direction, mover: Stone) -> Seq<(u32, u32)> {
    if exists|n: int| bracketed(g, x, y, d, mover, n) {
        let n = choose|n: int| bracketed(g, x, y, d, mover, n);
        Seq::new(n as nat, |i: int| spot(ray(x, y, d, i + 1)))
    } else {
        Seq::empty()
    }
}

/// The stones turned over in the first `i` directions of the search order.
pub open spec fn flips_through(g: Grid, x: int, y: int, mover: Stone, i: int) -> Seq<(u32, u32)>
    decreases i,
{
    if i <= 0 {
        Seq::empty()
    } else {
        flips_through(g, x, y, mover, i - 1) + captures(g, x, y, Direction::nth(i - 1), mover)
    }
}

/// All the stones that a stone of `mover` at `(x, y)` turns over, direction
/// by direction in the search order.
pub open spec fn flips(g: Grid, x: int, y: int, mover: Stone) -> Seq<(u32, u32)> {
    captures(g, x, y, Direction::West, mover)
        + captures(g, x, y, Direction::NorthWest, mover)
        + captures(g, x, y, Direction::North, mover)
        + captures(g, x, y, Direction::NorthEast, mover)
        + captures(g, x, y, Direction::East, mover)
        + captures(g, x, y, Direction::SouthEast, mover)
        + captures(g, x, y, Direction::South, mover)
        + captures(g, x, y, Direction::SouthWest, mover)
}

/// Whether one of `cells` stands at place `i` of the stones of `g`.
pub open spec fn covers(g: Grid, cells: Seq<(u32, u32)>, i: int) -> bool {
    exists|j: int|
        0 <= j < cells.len() && i == g.index(#[trigger] cells[j].0 as int, cells[j].1 as int)
}

/// The grid after a stone of `mover` has been placed at `(x, y)`: that cell
/// and every cell that the placement turns over hold a stone of `mover`, and
/// every other cell holds what it held.
pub open spec fn placed(g: Grid, x: int, y: int, mover: Stone) -> Grid {
    Grid {
        stones: Seq::new(
            g.stones.len(),
            |i: int|
                if i == g.index(x, y) || covers(g, flips(g, x, y, mover), i) {
                    mover
                } else {
                    g.stones[i]
                },
        ),
        ..g
    }
}

/// A line brackets one length at most.
pub proof fn lemma_bracket_unique(
    g: Grid,
    x: int,
    y: int,
    d: Direction,
    mover: Stone,
    n: int,
    m: int,
)
    requires
        bracketed(g, x, y, d, mover, n),
        bracketed(g, x, y, d, mover, m),
    ensures
        n == m,
{
    if n < m {
        let c = ray(x, y, d, n + 1);
        assert(g.holds(c.0, c.1, mover.rival()));
    } else if m < n {
        let c = ray(x, y, d, m + 1);
        assert(g.holds(c.0, c.1, mover.rival()));
    }
}

/// Where a line brackets `n` stones, those `n` cells are what is captured.
pub proof fn lemma_captures_run(g: Grid, x: int, y: int, d: Direction, mover: Stone, n: int)
    requires
        bracketed(g, x, y, d, mover, n),
    ensures
        captures(g, x, y, d, mover) == Seq::new(n as nat, |i: int| spot(ray(x, y, d, i + 1))),
        captures(g, x, y, d, mover).len() == n,
{
    let m = choose|m: int| bracketed(g, x, y, d, mover, m);
    lemma_bracket_unique(g, x, y, d, mover, n, m);
}

/// The eight captures, one after the other, are the flips.
pub proof fn lemma_flips_unfold(g: Grid, x: int, y: int, mover: Stone)
    ensures
        flips(g, x, y, mover) == flips_through(g, x, y, mover, 8),
{
    reveal_with_fuel(flips_through, 9);
    assert(flips(g, x, y, mover) =~= flips_through(g, x, y, mover, 8));
}

/// The cell `c` is the `k`-th of a run of `n` stones that a stone of `mover`
/// at `(x, y)` brackets in direction `d`.
pub open spec fn turned(
    g: Grid,
    x: int,
    y: int,
    mover: Stone,
    d: Direction,
    k: int,
    n: int,
    c: (u32, u32),
) -> bool {
    &&& bracketed(g, x, y, d, mover, n)
    &&& 1 <= k <= n
    &&& c == spot(ray(x, y, d, k))
}

/// Two walks from one cell that reach the same cell go the same way and
/// the same distance.
pub proof fn lemma_ray_injective(x: int, y: int, d1: Direction, k1: int, d2: Direction, k2: int)
    requires
        k1 >= 1,
        k2 >= 1,
        ray(x, y, d1, k1) == ray(x, y, d2, k2),
    ensures
        d1 == d2,
        k1 == k2,
{
}

/// A cell of a bracketed run lies on the grid, holds a stone of the rival,
/// and is not the cell of the placement.
pub proof fn lemma_turned_cell(
    g: Grid,
    x: int,
    y: int,
    mover: Stone,
    d: Direction,
    k: int,
    n: int,
    c: (u32, u32),
)
    requires
        g.wf(),
        turned(g, x, y, mover, d, k, n, c),
    ensures
        g.holds(c.0 as int, c.1 as int, mover.rival()),
        (c.0 as int, c.1 as int) == ray(x, y, d, k),
        (c.0 as int, c.1 as int) != (x, y),
        mover != Stone::Empty,
{
    crate::grid::lemma_dims_small(g);
    let r = ray(x, y, d, k);
    assert(g.holds(r.0, r.1, mover.rival()));
}

/// Every stone among those turned over in the first `m` directions lies on
/// a bracketed run of one of these directions.
pub proof fn lemma_through_member(g: Grid, x: int, y: int, mover: Stone, m: int, i: int)
    requires
        0 <= m <= 8,
        0 <= i < flips_through(g, x, y, mover, m).len(),
    ensures
        exists|d: Direction, k: int, n: int|
            d.rank() < m && turned(g, x, y, mover, d, k, n, flips_through(g, x, y, mover, m)[i]),
    decreases m,
{
    let prev = flips_through(g, x, y, mover, m - 1);
    let d = Direction::nth(m - 1);
    let cap = captures(g, x, y, d, mover);
    let c = flips_through(g, x, y, mover, m)[i];
    if i < prev.len() {
        lemma_through_member(g, x, y, mover, m - 1, i);
        let (d0, k0, n0) = choose|d0: Direction, k0: int, n0: int|
            d0.rank() < m - 1 && turned(g, x, y, mover, d0, k0, n0, prev[i]);
        assert(d0.rank() < m && turned(g, x, y, mover, d0, k0, n0, c));
    } else {
        let n = choose|n: int| bracketed(g, x, y, d, mover, n);
        lemma_captures_run(g, x, y, d, mover, n);
        let k = i - prev.len() + 1;
        assert(c == cap[k - 1]);
        assert(d.rank() < m && turned(g, x, y, mover, d, k, n, c));
    }
}

/// No stone occurs twice among those turned over in the first `m`
/// directions.
pub proof fn lemma_through_distinct(g: Grid, x: int, y: int, mover: Stone, m: int, i: int, j: int)
    requires
        g.wf(),
        0 <= m <= 8,
        0 <= i < j < flips_through(g, x, y, mover, m).len(),
    ensures
        flips_through(g, x, y, mover, m)[i] != flips_through(g, x, y, mover, m)[j],
    decreases m,
{
    let prev = flips_through(g, x, y, mover, m - 1);
    let d = Direction::nth(m - 1);
    let cap = captures(g, x, y, d, mover);
    let all = flips_through(g, x, y, mover, m);
    if j < prev.len() {
        lemma_through_distinct(g, x, y, mover, m - 1, i, j);
    } else {
        let n = choose|n: int| bracketed(g, x, y, d, mover, n);
        lemma_captures_run(g, x, y, d, mover, n);
        let kj = j - prev.len() + 1;
        assert(all[j] == cap[kj - 1]);
        assert(turned(g, x, y, mover, d, kj, n, all[j]));
        lemma_turned_cell(g, x, y, mover, d, kj, n, all[j]);
        if i < prev.len() {
            lemma_through_member(g, x, y, mover, m - 1, i);
            let (d0, k0, n0) = choose|d0: Direction, k0: int, n0: int|
                d0.rank() < m - 1 && turned(g, x, y, mover, d0, k0, n0, prev[i]);
            lemma_turned_cell(g, x, y, mover, d0, k0, n0, prev[i]);
            if all[i] == all[j] {
                lemma_ray_injective(x, y, d0, k0, d, kj);
            }
        } else {
            let ki = i - prev.len() + 1;
            assert(all[i] == cap[ki - 1]);
            assert(turned(g, x, y, mover, d, ki, n, all[i]));
            lemma_turned_cell(g, x, y, mover, d, ki, n, all[i]);
            if all[i] == all[j] {
                lemma_ray_injective(x, y, d, ki, d, kj);
            }
        }
    }
}

/// Every stone that a placement turns over lies on a run of stones of the
/// rival that starts next to the placed stone and ends before a stone of
/// the mover: nothing else is ever turned over.
pub proof fn lemma_flips_are_bracketed(g: Grid, x: int, y: int, mover: Stone, i: int)
    requires
        0 <= i < flips(g, x, y, mover).len(),
    ensures
        exists|d: Direction, k: int, n: int|
            turned(g, x, y, mover, d, k, n, flips(g, x, y, mover)[i]),
{
    lemma_flips_unfold(g, x, y, mover);
    lemma_through_member(g, x, y, mover, 8, i);
    let (d, k, n) = choose|d: Direction, k: int, n: int|
        d.rank() < 8 && turned(g, x, y, mover, d, k, n, flips(g, x, y, mover)[i]);
    assert(turned(g, x, y, mover, d, k, n, flips(g, x, y, mover)[i]));
}

/// Every stone of a bracketed run is turned over.
pub proof fn lemma_bracketed_are_flipped(
    g: Grid,
    x: int,
    y: int,
    mover: Stone,
    d: Direction,
    k: int,
    n: int,
)
    requires
        bracketed(g, x, y, d, mover, n),
        1 <= k <= n,
    ensures
        flips(g, x, y, mover).contains(spot(ray(x, y, d, k))),
{
    lemma_captures_run(g, x, y, d, mover, n);
    let cap = captures(g, x, y, d, mover);
    assert(cap[k - 1] == spot(ray(x, y, d, k)));
    assert(cap.contains(spot(ray(x, y, d, k))));
    lemma_captures_in_flips(g, x, y, mover, d, k - 1);
}

/// What is captured in one direction is among the flips.
pub proof fn lemma_captures_in_flips(g: Grid, x: int, y: int, mover: Stone, d: Direction, i: int)
    requires
        0 <= i < captures(g, x, y, d, mover).len(),
    ensures
        flips(g, x, y, mover).contains(captures(g, x, y, d, mover)[i]),
{
    let c0 = captures(g, x, y, Direction::West, mover);
    let c1 = captures(g, x, y, Direction::NorthWest, mover);
    let c2 = captures(g, x, y, Direction::North, mover);
    let c3 = captures(g, x, y, Direction::NorthEast, mover);
    let c4 = captures(g, x, y, Direction::East, mover);
    let c5 = captures(g, x, y, Direction::SouthEast, mover);
    let c6 = captures(g, x, y, Direction::South, mover);
    let c7 = captures(g, x, y, Direction::SouthWest, mover);
    let f = flips(g, x, y, mover);
    let off = match d {
        Direction::West => 0,
        Direction::NorthWest => c0.len(),
        Direction::North => c0.len() + c1.len(),
        Direction::NorthEast => c0.len() + c1.len() + c2.len(),
        Direction::East => c0.len() + c1.len() + c2.len() + c3.len(),
        Direction::SouthEast => c0.len() + c1.len() + c2.len() + c3.len() + c4.len(),
        Direction::South => c0.len() + c1.len() + c2.len() + c3.len() + c4.len() + c5.len(),
        Direction::SouthWest => c0.len() + c1.len() + c2.len() + c3.len() + c4.len() + c5.len()
            + c6.len(),
    };
    assert(f[off + i] == captures(g, x, y, d, mover)[i]);
}

/// The stones that a placement turns over lie on the grid, hold stones of
/// the rival, differ from the cell of the placement, and are all different.
pub proof fn lemma_flips_sound(g: Grid, x: int, y: int, mover: Stone)
    requires
        g.wf(),
    ensures
        forall|i: int|
            0 <= i < flips(g, x, y, mover).len() ==> {
                let c = #[trigger] flips(g, x, y, mover)[i];
                &&& g.holds(c.0 as int, c.1 as int, mover.rival())
                &&& (c.0 as int, c.1 as int) != (x, y)
            },
        flips(g, x, y, mover).no_duplicates(),
        flips(g, x, y, mover).len() > 0 ==> mover != Stone::Empty,
{
    let f = flips(g, x, y, mover);
    lemma_flips_unfold(g, x, y, mover);
    assert forall|i: int| 0 <= i < f.len() implies {
        let c = #[trigger] f[i];
        &&& g.holds(c.0 as int, c.1 as int, mover.rival())
        &&& (c.0 as int, c.1 as int) != (x, y)
        &&& mover != Stone::Empty
    } by {
        lemma_flips_are_bracketed(g, x, y, mover, i);
        let (d, k, n) = choose|d: Direction, k: int, n: int|
            turned(g, x, y, mover, d, k, n, f[i]);
        lemma_turned_cell(g, x, y, mover, d, k, n, f[i]);
    }
    assert forall|i: int, j: int| 0 <= i < f.len() && 0 <= j < f.len() && i != j implies f[i]
        != f[j] by {
        if i < j {
            lemma_through_distinct(g, x, y, mover, 8, i, j);
        } else {
            lemma_through_distinct(g, x, y, mover, 8, j, i);
        }
    }
}

/// The line from `(x, y)` in direction `d` leaves the grid or reaches an
/// empty cell at step `k`, and has no stone of `mover` before that step.
pub open spec fn stops_at(g: Grid, x: int, y: int, d: Direction, mover: Stone, k: int) -> bool {
    &&& k >= 1
    &&& {
        let c = ray(x, y, d, k);
        !g.contains(c.0, c.1) || g.holds(c.0, c.1, Stone::Empty)
    }
    &&& forall|j: int|
        1 <= j < k ==> {
            let c = #[trigger] ray(x, y, d, j);
            !g.holds(c.0, c.1, mover)
        }
}

/// The line from `(x, y)` in direction `d` runs off the grid or reaches an
/// empty cell before it reaches a stone of `mover`.
pub open spec fn blocked(g: Grid, x: int, y: int, d: Direction, mover: Stone) -> bool {
    exists|k: int| stops_at(g, x, y, d, mover, k)
}

/// Where every line from `(x, y)` runs off the grid or reaches an empty
/// cell before it reaches a stone of `mover`, nothing is turned over.
pub proof fn lemma_no_bracket_no_flip(g: Grid, x: int, y: int, mover: Stone)
    requires
        forall|d: Direction| blocked(g, x, y, d, mover),
    ensures
        flips(g, x, y, mover).len() == 0,
{
    if flips(g, x, y, mover).len() > 0 {
        lemma_flips_are_bracketed(g, x, y, mover, 0);
        let (d, k0, n) = choose|d: Direction, k0: int, n: int|
            turned(g, x, y, mover, d, k0, n, flips(g, x, y, mover)[0]);
        assert(blocked(g, x, y, d, mover));
        let k = choose|k: int| stops_at(g, x, y, d, mover, k);
        if k <= n {
            let c = ray(x, y, d, k);
            assert(g.holds(c.0, c.1, mover.rival()));
        } else if k > n + 1 {
            let c = ray(x, y, d, n + 1);
            assert(g.holds(c.0, c.1, mover));
        }
        assert(false);
    }
}

} // verus!
