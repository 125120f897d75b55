//! A verified core for a wire-protocol dissector: a schema registry that
//! flattens a recursive message description into a catalog of field paths,
//! a batch reassembler for stream and datagram transports, a tree renderer
//! that walks decoded values, and a bounded lazy summarizer.

pub mod batch;
pub mod casing;
pub mod dissect;
pub mod header_field;
pub mod laws;
pub mod reassembly;
pub mod schema;
pub mod tree;
pub mod utils;
pub mod value;
pub mod zenoh_impl;
