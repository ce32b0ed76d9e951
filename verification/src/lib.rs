//! Building a compressed archive out of objects held in a remote object store
//! and writing it back with the store's multipart upload protocol.
//!
//! Everything here works on plain values. The caller talks to the store and
//! reports what happened; the library decides what has to happen next.

pub mod archive;
pub mod error;
pub mod fetch;
pub mod job;
pub mod laws;
pub mod partition;
pub mod protocol;
pub mod upload;
