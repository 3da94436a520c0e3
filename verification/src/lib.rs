//! The world of a small arcade space shooter and its fixed-timestep tick.
//!
//! The crate owns the bodies of the game (one player, asteroids, fuel
//! pickups, bullets), decides in which order they are moved, tested against
//! each other and removed, and proves what one tick does to them. The
//! numbers themselves (positions, speeds, health, fuel) are not its business:
//! they live in the types of a [`Physics`] engine that the caller supplies,
//! and every contract here is stated over what that engine's operations
//! promise.

pub mod exact;
pub mod ext;
pub mod obj;
pub mod objects;
pub mod pairs;
pub mod phys;
pub mod tex;
pub mod world;

pub use ext::{BoolExt, Control, InputState};
pub use obj::{Asteroid, DestructableObj, Player, ThrustedObj};
pub use objects::Objects;
pub use phys::{check_and_resolve, resolve, Physics};
pub use tex::Sprite;
pub use world::{Snapshot, World};
