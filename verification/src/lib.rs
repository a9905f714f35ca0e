//! A minimal node runtime for message-passing protocol participants, with a
//! gossip broadcast engine: envelope framing, init handshake, correlated
//! replies, and value dissemination over a neighbor topology with
//! acknowledgment and retry.

pub mod broadcast;
pub mod laws;
pub mod message;
pub mod model;
pub mod runtime;
