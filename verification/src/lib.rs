//! Session engine for a streaming chat-completion client.
//!
//! The library holds the verified core of the client: the incremental
//! decoder for the line-delimited streaming response, the persistence
//! codec for conversation transcripts, the load/backup rules of the
//! session store, the completion engine, and the command dispatcher.
//! Terminal and network plumbing live outside the library and hand it
//! plain values.

pub mod ascii;
pub mod codec;
pub mod complete;
pub mod decoder;
pub mod dispatch;
pub mod event;
pub mod jsonstr;
pub mod msg;
pub mod session;
pub mod store;
