//! Verified core of a bidirectional-streaming echo call: the messages, the
//! client's request generator and call bookkeeping, the classification of
//! transport faults, and the server's per-call consumption task.
pub mod buffer;
pub mod cause;
pub mod client;
pub mod message;
pub mod request;
pub mod server;
