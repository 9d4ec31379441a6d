//! An authoritative tick-based multiplayer simulation engine.
//!
//! Clients send batches of movement commands as datagrams; the engine applies
//! them to a shared world on a fixed tick cadence, runs one physics step, and
//! prepares a snapshot broadcast for every known player. All world arithmetic
//! is fixed-point (sub-units of `game::SCALE` per world unit), so the whole
//! tick pipeline is verified: command application, joins, physics with bounds
//! clamping, queue draining, and the wire codec.
//!
//! The binary around this library owns the socket and the two threads
//! (ingestion and tick loop); it hands the library plain bytes and address
//! keys and performs the send attempts the library plans.

pub mod codec;
pub mod engine;
pub mod game;
pub mod laws;
pub mod queue;

pub use game::Color;
pub use game::Command;
pub use game::Player;
pub use game::Vec2;
