//! A tiny DNS responder that answers one configured name with one TXT record.
//!
//! The library holds the wire logic: the header flag words, reading a query's
//! header and name, and laying out each reply in a fixed 512-byte buffer.

pub mod flags;
pub mod wire;
pub mod header;
pub mod buffer;
pub mod qname;
pub mod names;
pub mod response;
