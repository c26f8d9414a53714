//! Parsing of strace logs into system-call records, merging of unfinished and
//! resumed calls, conversion to Trace Event Format records and extraction of
//! graph nodes and edges.

pub mod text;
pub mod pattern;
pub mod arg_map;
pub mod syscall_parser;
pub mod tef_converter;
pub mod graph_generator;
pub mod output_format;
