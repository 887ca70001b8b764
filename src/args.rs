//! Command-line arguments of the extractor.

pub mod input_parser;
