//! Tools for viewing, storing, and sharing mixed-signal time series data.
//!
//! This crate holds the verified core: index ranges and element sizes; the
//! `.izs` footer and block index encodings; ZIP directory parsing and the
//! chunks of sigrok session files with their metadata; CSV options, record
//! reading and column type inference; flat-file data types; import and
//! export format selection; relative paths and HTTP ranges; times, their
//! arithmetic, text renderings and timeline ticks; an append-only array;
//! the tree that describes a file's entities, and their colors.
#![allow(unused_imports)]

pub mod idx_range;
pub mod le;
pub mod element;
pub mod izs;
pub mod zip;
pub mod text;
pub mod time;
pub mod time_format;
pub mod config;
pub mod csv_options;
pub mod formats;
pub mod rel_path;
pub mod srzip;
pub mod ranges;
pub mod append_array;
pub mod column;
pub mod ticks;
pub mod info;
pub mod order;
pub mod chunks;
pub mod flat_file;
pub mod csv_records;
pub mod type_infer;
pub mod importer;
pub mod entity;
pub mod column_parser;

pub use idx_range::{Idx, IdxRange};
pub use element::ElementSize;
