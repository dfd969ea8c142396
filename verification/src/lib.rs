//! The mutation-and-synchronization core of a mail server: per-account
//! monotonic change logs and states, an atomic batch-write engine over an
//! opaque storage collaborator, conversation-thread resolution by
//! reference tokens, quota and concurrency admission on the upload path,
//! a cross-account message-copy pipeline, and the push-channel wire
//! protocol with its keyed-dispatch message parser and serializers.

pub mod copy;
pub mod jmap;
pub mod store;
pub mod text;
pub mod thread;
pub mod types;
pub mod upload;
pub mod websocket;
