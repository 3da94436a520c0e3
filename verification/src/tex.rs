//! The faces that bodies are drawn with.

use vstd::prelude::*;

verus! {

/// An object to reference a sprite among the assets.
#[derive(Debug, Clone, Copy, PartialEq, Eq, Structural)]
pub enum Sprite {
    /// The ship at low throttle.
    ShipOn,
    /// The ship with its thruster off.
    ShipOff,
    /// The ship at medium throttle.
    ShipLit,
    /// The ship at high throttle.
    ShipSpeed2,
    /// The ship at full throttle.
    ShipSpeed3,
    /// An asteroid.
    Asteroid,
    /// The background of stars.
    StarsBg,
    /// A fuel pickup.
    Fuel,
    /// A bullet.
    Bullet,
}

} // verus!
