//! Helper library for an interactive instant-messaging login tool.
//!
//! The library holds the logic of the tool: the device-identity value object
//! and its randomized generation, the bidirectional translator between the
//! canonical identity schema and the alternate (compatibility) schema, the
//! textual interchange codec used to persist identities, the load-or-create
//! policy of the identity store, and the state machine that drives an
//! interactive QR-code login to completion.
//!
//! All I/O (the command shell, the network protocol client, the filesystem)
//! stays outside the library: callers hand in file contents and protocol
//! events as plain values and perform the actions the library decides on.

pub mod codec;
pub mod entropy;
pub mod identity;
pub mod mirai;
pub mod qr;
pub mod store;
pub mod text;
