use crate::stone::Stone;
use vstd::prelude::*;

verus! {

/// One of the two sides of a game.
#[derive(Copy, Clone, PartialEq, Eq, Debug, Structural)]
pub struct Player {
    /// The colour that the side plays.
    pub stone: Stone,
    /// Whether the computer chooses the side's placements.
    pub cpu: bool,
    /// How many stones of the side lie on the board.
    pub cnt: u32,
    /// Whether the side is to move.
    pub turn: bool,
}

impl Player {
    /// The side with `n` stones more (or, for a negative `n`, fewer).
    pub open spec fn gained(self, n: int) -> Player {
        Player { cnt: (self.cnt + n) as u32, ..self }
    }

    /// The side with its turn flag set to `turn`.
    pub open spec fn with_turn(self, turn: bool) -> Player {
        Player { turn, ..self }
    }

    /// A side without stones that is not to move.
    pub fn new(stone: Stone, cpu: bool) -> (p: Player)
        ensures
            p == (Player { stone, cpu, cnt: 0, turn: false }),
    {
        Player { stone, cpu, cnt: 0, turn: false }
    }

    /// Counts one stone more.
    pub fn inc(&mut self)
        requires
            old(self).cnt < u32::MAX,
        ensures
            *final(self) == old(self).gained(1),
            final(self).cnt == old(self).cnt + 1,
    {
        self.cnt = self.cnt + 1;
    }

    /// Counts one stone fewer.
    pub fn dec(&mut self)
        requires
            old(self).cnt > 0,
        ensures
            *final(self) == old(self).gained(-1),
            final(self).cnt == old(self).cnt - 1,
    {
        self.cnt = self.cnt - 1;
    }
}

} // verus!
