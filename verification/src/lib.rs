//! A line-oriented field/byte/character extraction library.
//!
//! Each input record is partitioned into elements (delimited fields, raw
//! bytes, or Unicode scalar values), and a caller-specified subset of those
//! elements is emitted in a caller-specified order. The heart of the library
//! is the selection engine: parsing textual selection expressions such as
//! `1,2,-2` or `..-1`, resolving signed logical indices against a
//! per-record element count, and materializing clamped half-open spans.

pub mod selection;
pub mod resolve;
pub mod numparse;
pub mod parse;
pub mod delim;
pub mod config;
pub mod textutil;
pub mod tokenize;
pub mod pipeline;
