use vstd::prelude::*;

verus! {

/// True when `v` can be held in an `i32`.
pub open spec fn in_i32(v: int) -> bool {
    i32::MIN <= v <= i32::MAX
}

/// The velocity component that follows a move onto coordinate `p` on an
/// axis of extent `bound`: reversed on or past either edge, kept otherwise.
pub open spec fn bounced(v: int, p: int, bound: int) -> int {
    if p <= 0 || p >= bound {
        -v
    } else {
        v
    }
}

/// An entity as mathematical integers: position and velocity.
pub struct EnemyModel {
    pub x: int,
    pub y: int,
    pub vx: int,
    pub vy: int,
}

/// One time step on a `width` by `height` world: move by the velocity,
/// then reverse each velocity component whose new coordinate lies on or
/// beyond an edge of its axis.
pub open spec fn step(m: EnemyModel, width: int, height: int) -> EnemyModel {
    let x = m.x + m.vx;
    let y = m.y + m.vy;
    EnemyModel { x, y, vx: bounced(m.vx, x, width), vy: bounced(m.vy, y, height) }
}

/// The step from `m` can be computed with 32-bit fields.
pub open spec fn step_fits(m: EnemyModel) -> bool {
    in_i32(m.x + m.vx) && in_i32(m.y + m.vy) && in_i32(-m.vx) && in_i32(-m.vy)
}

/// On an axis of extent `bound`, the coordinate `p` lies on the closed
/// interval `[0, bound]`, the velocity `v` is a unit step, and on an edge
/// it points back inside.
pub open spec fn axis_settled(p: int, v: int, bound: int) -> bool {
    &&& v == 1 || v == -1
    &&& 0 <= p <= bound
    &&& p == 0 ==> v == 1
    &&& p == bound ==> v == -1
}

/// The entity is inside the `width` by `height` world with unit speed on
/// each axis, heading inward wherever it touches an edge.
pub open spec fn settled(m: EnemyModel, width: int, height: int) -> bool {
    axis_settled(m.x, m.vx, width) && axis_settled(m.y, m.vy, height)
}

/// An entity settled in a world of positive extents that fits in 32 bits
/// can take a step without overflow, and is settled again after it: it
/// never leaves the world, whatever the number of steps.
pub proof fn lemma_step_keeps_settled(m: EnemyModel, width: int, height: int)
    requires
        1 <= width <= i32::MAX,
        1 <= height <= i32::MAX,
        settled(m, width, height),
    ensures
        step_fits(m),
        settled(step(m, width, height), width, height),
{
}

/// A moving point with integer position and velocity.
#[derive(Clone, Copy, Debug, PartialEq, Eq, Structural)]
pub struct Enemy {
    pub x: i32,
    pub y: i32,
    pub vx: i32,
    pub vy: i32,
}

impl View for Enemy {
    type V = EnemyModel;

    open spec fn view(&self) -> EnemyModel {
        EnemyModel { x: self.x as int, y: self.y as int, vx: self.vx as int, vy: self.vy as int }
    }
}

impl Enemy {
    /// An entity at `(x, y)` moving by `(vx, vy)` each step.
    pub fn new(x: i32, y: i32, vx: i32, vy: i32) -> (r: Enemy)
        ensures
            r.x == x,
            r.y == y,
            r.vx == vx,
            r.vy == vy,
    {
        Enemy { x, y, vx, vy }
    }

    /// Advances the entity by one time step on a `width` by `height` world.
    ///
    /// The position moves by the velocity held before the step; the bounce
    /// test then looks at the moved position, with inclusive edges, and
    /// each axis is tested on its own.
    pub fn update(&mut self, width: i32, height: i32)
        requires
            step_fits(old(self)@),
        ensures
            final(self)@ == step(old(self)@, width as int, height as int),
            final(self).x == old(self).x + old(self).vx,
            final(self).y == old(self).y + old(self).vy,
            old(self).vx != 0 ==> (final(self).vx == -old(self).vx <==> (final(self).x <= 0
                || final(self).x >= width)),
            old(self).vx == 0 ==> final(self).vx == 0,
            old(self).vy != 0 ==> (final(self).vy == -old(self).vy <==> (final(self).y <= 0
                || final(self).y >= height)),
            old(self).vy == 0 ==> final(self).vy == 0,
    {
        self.x = self.x + self.vx;
        self.y = self.y + self.vy;
        if self.x <= 0 || self.x >= width {
            self.vx = -self.vx;
        }
        if self.y <= 0 || self.y >= height {
            self.vy = -self.vy;
        }
    }
}

} // verus!
