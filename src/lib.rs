//! Single-producer / single-consumer ring buffers and a fan-out channel
//! built from them.
//!
//! A ring is a power-of-two array of slots addressed by two 64-bit cursors:
//! the producer reserves room, writes, and commits; the consumer peeks and
//! advances, or takes everything at once with a batch consume. Each side
//! touches only its own cursor and a cached copy of the other's, which it
//! refreshes only when the cached copy no longer suffices. The ring comes in
//! two storage variants with one contract: `Ring` keeps its slots in a heap
//! buffer, `StackRing` inline. A `Channel` holds one ring per producer and
//! hands each registered `Producer` exactly one of them.
//!
//! Every operation takes the ring by `&mut`, so the caller decides how the
//! two sides reach it; the contracts describe each step of the protocol over
//! the abstract state in `model` and `protocol`.
pub mod atomics;
pub mod channel;
pub mod model;
pub mod protocol;
pub mod raw_arc;
pub mod ring;
pub mod stack_ring;

pub use channel::{Channel, Config, Producer, RegisterError};
pub use protocol::Reservation;
pub use raw_arc::RawArc;
pub use ring::Ring;
pub use stack_ring::StackRing;
