//! The core of a small in-memory key-value server that speaks a Redis-like
//! wire protocol: the decoder for requests, the encoder for replies, the
//! store with lazy expiry, and the dispatcher that carries commands out.
//!
//! Nothing here touches a socket, a clock or a lock. Bytes, the current
//! time and the store come in as arguments; replies go out as values.

pub mod decimal;
pub mod dispatch;
pub mod parser;
pub mod reply;
pub mod store;
pub mod text;
