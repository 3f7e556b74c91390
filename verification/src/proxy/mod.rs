//! The explicit HTTP/1.1 proxy: what it decides and what it writes.
pub mod entry;
pub mod framing;
pub mod message;
pub mod session;
