//! Parsing of packet-filter kernel log lines into flow records.

pub mod text;
pub mod field_map;
pub mod model;
pub mod parser;
pub mod record;
pub mod laws;
