//! Network inspection: packet decoding, flow tracking, protocol metadata and an intercepting HTTP
//! proxy, as verified functions on plain values.
pub mod addr;
pub mod capture;
pub mod certs;
pub mod events;
pub mod hooks;
pub mod laws;
pub mod outside;
pub mod parsers;
pub mod paths;
pub mod proxy;
pub mod text;
pub mod textmap;
pub mod wire;
