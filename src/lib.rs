//! Authoritative core of a small multiplayer game server: the world of
//! player entities, the connection lifecycle that spawns and removes them,
//! the intake of movement commands guarded by ownership, the movement
//! integrator and the replication deltas sent to clients.
//!
//! All quantities are integers in fixed point: a direction axis is counted
//! in thousandths, elapsed time in milliseconds and a position in
//! millionths of a world unit, so that `direction * elapsed * speed` is
//! exact.
use vstd::prelude::*;

pub mod color;
pub mod motion;
pub mod world;
pub mod intake;
pub mod replication;
pub mod server;
pub mod queue;
pub mod lifecycle;

verus! {

/// Protocol tag exchanged at handshake; client and server must agree on it.
pub const PROTOCOL_ID: u64 = 0;

} // verus!
