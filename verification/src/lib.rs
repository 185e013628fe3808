//! Client-side core for a typed inter-process message bus.
//!
//! The crate models the two subsystems of a bus client that carry real
//! design weight: the typed argument marshalling layer (signature strings,
//! wire values, and per-type conversion capabilities) and the message
//! routing layer (match-rule filtering and a hierarchical object-path
//! dispatch table).  Transport concerns (sockets, authentication, byte
//! framing) are left to the embedding application.

pub mod dispatch;
pub mod signature;
pub mod value;
pub mod marshal;
pub mod matchrule;
pub mod message;
