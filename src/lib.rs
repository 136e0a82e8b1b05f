//! A multi-party line chat relay: the room that owns membership and decides
//! every outbound line, the receiver-side delivery filter, the per-connection
//! session state machine, and line decoding, all stated and proved with Verus.
//!
//! Beside it stand the other services of the same server family: an
//! incremental prime checker with the line protocol around it, the binary
//! price-message decoder and range mean, a datagram key-value store, and the
//! boguscoin address rewrite of a chat proxy.

pub mod address;
pub mod kv;
pub mod line;
pub mod means;
pub mod message;
pub mod name;
pub mod prime_time;
pub mod primes;
pub mod room;
pub mod session;
