//! Bodies with hit points, and bodies that push themselves.

use crate::phys::Physics;
use vstd::prelude::*;

verus! {

/// A body with health.
#[derive(Clone, Copy, Debug, PartialEq)]
pub struct DestructableObj<B, H> {
    /// The body itself.
    pub obj: B,
    /// Hit points.
    pub health: H,
}

/// A self acceleratable `DestructableObj`.
#[derive(Clone, Copy, Debug, PartialEq)]
pub struct ThrustedObj<B, H, A, E> {
    /// The body and its health.
    pub obj: DestructableObj<B, H>,
    /// The acceleration of the last tick, kept for drawing it.
    pub acc: A,
    /// Thruster of the object.
    pub thruster: E,
}

/// An asteroid of the engine `P`.
pub type Asteroid<P> = DestructableObj<<P as Physics>::Body, <P as Physics>::Health>;

/// The player's ship of the engine `P`.
pub type Player<P> = ThrustedObj<
    <P as Physics>::Body,
    <P as Physics>::Health,
    <P as Physics>::Accel,
    <P as Physics>::Thruster,
>;

/// `after` is `before` with one hit taken: the body is the same, the health
/// is what the engine leaves of it.
pub open spec fn struck<P: Physics>(k: &P, before: Asteroid<P>, after: Asteroid<P>) -> bool {
    &&& after.obj == before.obj
    &&& call_ensures(P::hit, (k, before.health), after.health)
}

/// `after` is `before` after one tick under its own thruster: the engine
/// gives the body, the acceleration and the thruster; the health is the same.
pub open spec fn thrusted<P: Physics>(k: &P, before: Player<P>, after: Player<P>) -> bool {
    &&& after.obj.health == before.obj.health
    &&& call_ensures(
        P::thrust,
        (k, before.obj.obj, before.thruster),
        (after.obj.obj, after.acc, after.thruster),
    )
}

impl<B: Copy, H: Copy> DestructableObj<B, H> {
    /// Make new `DestructableObj`.
    pub fn new(obj: B, health: H) -> (made: Self)
        ensures
            made.obj == obj,
            made.health == health,
    {
        DestructableObj { obj, health }
    }

    /// Take damage.
    pub fn hit<P: Physics<Body = B, Health = H>>(&mut self, k: &P)
        ensures
            struck(k, *old(self), *final(self)),
    {
        self.health = k.hit(self.health);
    }

    /// Check whether it's destroyed.
    pub fn is_dead<P: Physics<Body = B, Health = H>>(&self, k: &P) -> (dead: bool)
        ensures
            call_ensures(P::is_dead, (k, &self.health), dead),
    {
        k.is_dead(&self.health)
    }
}

impl<B, H> DestructableObj<B, H> {
    /// The same health on another body.
    pub open spec fn with_obj(self, obj: B) -> Self {
        DestructableObj { obj, health: self.health }
    }

    /// The same body with another health.
    pub open spec fn with_health(self, health: H) -> Self {
        DestructableObj { obj: self.obj, health }
    }
}

impl<B, H, A, E> ThrustedObj<B, H, A, E> {
    /// The same ship with another body.
    pub open spec fn with_body(self, body: B) -> Self {
        ThrustedObj { obj: self.obj.with_obj(body), acc: self.acc, thruster: self.thruster }
    }

    /// The same ship with another health.
    pub open spec fn with_health(self, health: H) -> Self {
        ThrustedObj { obj: self.obj.with_health(health), acc: self.acc, thruster: self.thruster }
    }

    /// The same ship with another thruster.
    pub open spec fn with_thruster(self, thruster: E) -> Self {
        ThrustedObj { obj: self.obj, acc: self.acc, thruster }
    }
}

impl<B: Copy, H: Copy, A: Copy, E: Copy> ThrustedObj<B, H, A, E> {
    /// Creates a new `ThrustedObj`.
    pub fn new(obj: DestructableObj<B, H>, acc: A, thruster: E) -> (made: Self)
        ensures
            made.obj == obj,
            made.acc == acc,
            made.thruster == thruster,
    {
        ThrustedObj { obj, acc, thruster }
    }

    /// Update physics of object.
    pub fn update<P: Physics<Body = B, Health = H, Accel = A, Thruster = E>>(&mut self, k: &P)
        ensures
            thrusted(k, *old(self), *final(self)),
    {
        let (body, acc, thruster) = k.thrust(self.obj.obj, self.thruster);
        self.obj.obj = body;
        self.acc = acc;
        self.thruster = thruster;
    }
}

} // verus!
