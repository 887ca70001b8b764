//! Extraction engine for ZIP archives: little-endian field decoding, a seekable
//! byte stream, decoders for the three ZIP record kinds, the compression-method
//! strategies and the archive walker.

pub mod algorithms;
pub mod args;
pub mod args_parser;
pub mod byte_readers;
pub mod records;
pub mod stream_nav;
pub mod structs;
pub mod unpacker;
pub mod zip_error;
