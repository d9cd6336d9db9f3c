//! Data-model core of a YAML engine: scalar resolution, number and
//! timestamp parsing, the node arena and its builder, materialisation into
//! host values, the reverse serialisation, text decoding and error
//! formatting.
//!
//! Decoding runs from bytes to a host value: [`decoder`] turns bytes into
//! text, [`builder`] turns the tokenizer's [`events`] into nodes of the
//! [`arena`], resolving each scalar through [`scalar`], and
//! [`materialize`] turns a subtree into a [`host`] value; [`loader`] does
//! the last three in one call. Encoding runs through [`dump`], from a host
//! object to a [`yaml`] tree. [`report`] formats the tokenizer's failures.
//! [`laws`] and [`timestamp_laws`] state what holds across these parts.

pub mod ascii;
pub mod text;
pub mod search;
pub mod bigint;
pub mod value;
pub mod arena;
pub mod integer;
pub mod digits;
pub mod float;
pub mod datetime;
pub mod scalar;
pub mod events;
pub mod anchors;
pub mod builder;
pub mod host;
pub mod materialize;
pub mod loader;
pub mod yaml;
pub mod dump;
pub mod decoder;
pub mod report;
pub mod laws;
pub mod timestamp_laws;
