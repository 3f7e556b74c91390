//! Parsers for the protocols whose metadata is reported.
pub mod certificate;
pub mod dns;
pub mod http1;
pub mod tls;
