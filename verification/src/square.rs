use crate::app::AppEnv;
use crate::game::EnvView;
use crate::stone::Stone;
use vstd::prelude::*;

verus! {

/// One cell of a board: its position, what it holds, and whether it is
/// highlighted.
#[derive(Copy, Clone, PartialEq, Eq, Debug)]
pub struct Square {
    stone: Stone,
    x: u32,
    y: u32,
    focused: bool,
}

impl Square {
    /// What the cell holds.
    pub closed spec fn stone(&self) -> Stone {
        self.stone
    }

    /// The column of the cell.
    pub closed spec fn x(&self) -> u32 {
        self.x
    }

    /// The row of the cell.
    pub closed spec fn y(&self) -> u32 {
        self.y
    }

    /// Whether the cell is highlighted.
    pub closed spec fn focused(&self) -> bool {
        self.focused
    }

    /// An empty cell at `(x, y)` that is not highlighted.
    pub fn new(x: u32, y: u32) -> (s: Square)
        ensures
            s.stone() == Stone::Empty,
            s.x() == x,
            s.y() == y,
            !s.focused(),
    {
        Square { stone: Stone::Empty, x, y, focused: false }
    }

    /// Puts `stone` on the cell (or clears it, for `Empty`) and moves the
    /// counts of the sides: the side whose stone leaves the cell counts one
    /// fewer, the side whose stone comes counts one more.
    pub fn put_stone(&mut self, env: &mut AppEnv, stone: Stone)
        requires
            old(env)@.wf(),
            old(self).stone().is_side() ==> old(env)@.players[EnvView::seat(
                old(self).stone(),
            )].cnt > 0,
            stone.is_side() && stone != old(self).stone() ==> old(env)@.players[EnvView::seat(
                stone,
            )].cnt < u32::MAX,
        ensures
            final(self).stone() == stone,
            final(self).x() == old(self).x(),
            final(self).y() == old(self).y(),
            final(self).focused() == old(self).focused(),
            final(env)@ == old(env)@.recounted(old(self).stone(), stone),
            final(env)@.wf(),
    {
        match self.stone {
            Stone::Black => env.player_for_mut(Stone::Black).dec(),
            Stone::White => env.player_for_mut(Stone::White).dec(),
            Stone::Empty => {},
        }
        self.stone = stone;
        match self.stone {
            Stone::Black => env.player_for_mut(Stone::Black).inc(),
            Stone::White => env.player_for_mut(Stone::White).inc(),
            Stone::Empty => {},
        }
        assert(env@.players =~= old(env)@.recounted(old(self).stone(), stone).players);
    }

    /// What the cell holds.
    pub fn get_stone(&self) -> (s: Stone)
        ensures
            s == self.stone(),
    {
        self.stone
    }

    /// Sets or clears the highlight of the cell.
    pub fn set_focus(&mut self, focus: bool)
        ensures
            final(self).focused() == focus,
            final(self).stone() == old(self).stone(),
            final(self).x() == old(self).x(),
            final(self).y() == old(self).y(),
    {
        self.focused = focus;
    }

    /// Whether the cell is highlighted.
    pub fn is_focused(&self) -> (b: bool)
        ensures
            b == self.focused(),
    {
        self.focused
    }

    /// The column of the cell.
    pub fn get_x(&self) -> (x: u32)
        ensures
            x == self.x(),
    {
        self.x
    }

    /// The row of the cell.
    pub fn get_y(&self) -> (y: u32)
        ensures
            y == self.y(),
    {
        self.y
    }
}

} // verus!
