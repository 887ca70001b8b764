//! Errors of the extraction engine.

use vstd::prelude::*;

verus! {

/// Why a read, a decode or an extraction failed.
#[derive(Debug, Clone, Copy, PartialEq, Eq, Structural)]
pub enum ZipError {
    /// Fewer bytes remain than a read asked for.
    Truncated,
    /// A seek would move the cursor before the start of the stream or past the largest offset.
    InvalidSeek,
    /// A name or comment field is not valid UTF-8.
    InvalidText,
    /// The compression method code is neither Store nor Deflate.
    UnknownCompressionMethod(u16),
    /// The data uses a form of a known method that is not decoded: Deflate's
    /// Huffman-coded blocks.
    UnsupportedCompressionMethod(u16),
    /// A Deflate block declares the reserved block type.
    InvalidDeflateBlock,
    /// The output directory already holds entries.
    OutputDirNotEmpty,
}

} // verus!
