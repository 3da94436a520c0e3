//! The engine that moves bodies and makes them collide, and the two steps
//! that every contact in the world goes through.

use vstd::prelude::*;

verus! {

/// What the world needs from the numbers it does not look into.
///
/// An engine brings the types of a circular body, of hit points, of an
/// acceleration and of a thruster, and the operations of one tick on them.
/// It also holds the tuning of the game: the length of a tick, the turn and
/// throttle rates, the damage of a hit, the fuel in a pickup and the speed
/// below which a pickup is caught. No operation may fail: each one is
/// defined on every value.
pub trait Physics {
    /// A positioned, rotatable, moving circle.
    type Body: Copy;

    /// Hit points.
    type Health: Copy;

    /// The acceleration that a thruster gave in the last tick.
    type Accel: Copy;

    /// A fuel tank with a throttle and a power switch.
    type Thruster: Copy;

    /// The body, rotated by one tick of steering; `hor` is `-1`, `0` or `1`.
    fn turn(&self, body: Self::Body, hor: i8) -> Self::Body;

    /// The thruster, switched on or off.
    fn set_power(&self, thruster: Self::Thruster, on: bool) -> Self::Thruster;

    /// The thruster, its throttle moved by one tick in the direction `dir`
    /// (`-1`, `0` or `1`) and kept within its bounds.
    fn throttle(&self, thruster: Self::Thruster, dir: i8) -> Self::Thruster;

    /// One tick of a body under its own thruster: burns fuel if the power is
    /// on, and moves the body by the acceleration that came of it.
    fn thrust(&self, body: Self::Body, thruster: Self::Thruster) -> (
        Self::Body,
        Self::Accel,
        Self::Thruster,
    );

    /// The thruster, its tank filled with what `pickups` fuel pickups hold.
    fn refuel(&self, thruster: Self::Thruster, pickups: usize) -> Self::Thruster;

    /// The body, moved by its velocity for one tick.
    fn update(&self, body: Self::Body) -> Self::Body;

    /// Whether two bodies overlap or touch.
    fn collides(&self, a: &Self::Body, b: &Self::Body) -> bool;

    /// Whether two bodies move slowly enough, relative to each other, for one
    /// to be caught by the other.
    fn is_slow(&self, a: &Self::Body, b: &Self::Body) -> bool;

    /// Both bodies, moved apart until they only just touch.
    fn uncollide(&self, a: Self::Body, b: Self::Body) -> (Self::Body, Self::Body);

    /// Both bodies, with the velocities of an elastic collision.
    fn elastic_collide(&self, a: Self::Body, b: Self::Body) -> (Self::Body, Self::Body);

    /// The hit points that are left after one hit.
    fn hit(&self, health: Self::Health) -> Self::Health;

    /// Whether no hit points are left.
    fn is_dead(&self, health: &Self::Health) -> bool;
}

/// `after` is what a collision makes of `a` and `b`: they are moved apart
/// first, and what comes of that exchanges velocities.
pub open spec fn resolved<P: Physics>(
    k: &P,
    a: P::Body,
    b: P::Body,
    after: (P::Body, P::Body),
) -> bool {
    exists|apart: (P::Body, P::Body)|
        {
            &&& #[trigger] call_ensures(P::uncollide, (k, a, b), apart)
            &&& call_ensures(P::elastic_collide, (k, apart.0, apart.1), after)
        }
}

/// `after` is what a meeting makes of `a` and `b`: a collision if they
/// collide, and nothing if they do not.
pub open spec fn met<P: Physics>(k: &P, a: P::Body, b: P::Body, after: (P::Body, P::Body)) -> bool {
    exists|touching: bool|
        {
            &&& #[trigger] call_ensures(P::collides, (k, &a, &b), touching)
            &&& if touching {
                resolved(k, a, b, after)
            } else {
                after == (a, b)
            }
        }
}

/// Resolves a collision: moves the two bodies apart, then lets them bounce
/// off each other.
pub fn resolve<P: Physics>(k: &P, o1: &mut P::Body, o2: &mut P::Body)
    ensures
        resolved(k, *old(o1), *old(o2), (*final(o1), *final(o2))),
{
    let apart = k.uncollide(*o1, *o2);
    let after = k.elastic_collide(apart.0, apart.1);
    assert(call_ensures(P::uncollide, (k, *old(o1), *old(o2)), apart));
    *o1 = after.0;
    *o2 = after.1;
}

/// Resolves the collision of the two bodies if they collide.
pub fn check_and_resolve<P: Physics>(k: &P, o1: &mut P::Body, o2: &mut P::Body)
    ensures
        met(k, *old(o1), *old(o2), (*final(o1), *final(o2))),
{
    let touching = k.collides(o1, o2);
    assert(call_ensures(P::collides, (k, &*old(o1), &*old(o2)), touching));
    if touching {
        resolve(k, o1, o2);
    }
}

} // verus!
