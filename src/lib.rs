//! Runtime core of a transaction processor: the wire envelope codec, the
//! handler registry, the per-request dispatch state machine, state-access
//! checks and the reconnect policy, each with a verified contract.

pub mod codec;
pub mod fields;
pub mod registry;
pub mod dispatch;
pub mod access;
pub mod connection;
pub mod settings;
pub mod messages;
pub mod diagnostics;
