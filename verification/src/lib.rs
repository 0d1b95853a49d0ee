//! Management of outgoing connections.
//!
//! The heart of this crate is [`outgoing::OutgoingManager`], a per-address
//! state machine that maintains persistent outbound connections: it retries
//! failed dials with exponential backoff, keeps an administrative block list,
//! and exposes a routing table from authenticated peer identities to live
//! send handles. Every externally visible operation leaves the state machine
//! and the routing table mutually consistent, and that consistency is stated
//! in the contracts and proved.
//!
//! The manager performs no I/O itself: operations that need a dial attempt
//! report the addresses to dial, and the caller forwards each eventual
//! outcome back through `handle_dial_outcome`.
//!
//! The [`block`] module holds a versioned block enum with an integrity check
//! and a tagged byte encoding, unrelated to connection management.

pub mod block;
pub mod outgoing;
pub mod table;
