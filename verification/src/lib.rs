//! Verified core of a real-time multiplayer spatial-simulation server:
//! the secure session protocol (hybrid key exchange, authenticated
//! per-message framing), the wire codec, the spatial index and collision
//! resolution engine, the procedurally streamed world-chunk subsystem,
//! and the intent-driven simulation tick.
#![allow(unused_imports)]

use vstd::prelude::*;

pub mod animal;
pub mod chunks;
pub mod codec;
pub mod collision;
pub mod crypto;
pub mod mathx;
pub mod quadtree;
pub mod scheduler;
pub mod session;
pub mod spatial_hash;
pub mod wire;
pub mod world;

verus! {

} // verus!
