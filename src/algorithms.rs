//! Decompression strategies, one per compression method, and the selection of
//! a strategy from the method code of a local file header.

use vstd::prelude::*;

use crate::byte_readers::read_to;
use crate::records::field;
use crate::stream_nav::{current_position, length, ByteStream};
use crate::structs::{DEFLATE, STORE};
use crate::zip_error::ZipError;

verus! {

/// The most payload bytes that Store takes from the stream in one read.
pub const CHUNK_SIZE: usize = 0x10_0000;

/// Bit `k` (0 = least significant) of `byte`.
pub open spec fn bit(byte: u8, k: u8) -> bool {
    (byte >> k) & 1u8 == 1u8
}

/// Whether bit `n_bit` of `byte` is set, counting from 1 at the least
/// significant bit.
pub fn is_bit_set(byte: u8, n_bit: u8) -> (r: bool)
    requires
        1 <= n_bit <= 8,
    ensures
        r == bit(byte, (n_bit - 1) as u8),
{
    let shift: u8 = n_bit - 1;
    let mask = 1u8 << shift;
    assert((byte & (1u8 << shift) > 0u8) == ((byte >> shift) & 1u8 == 1u8)) by (bit_vector)
        requires
            shift < 8u8,
    ;
    (byte & mask) > 0
}

/// The three-bit header of a Deflate block: its kind.
#[derive(Debug, Clone, Copy, PartialEq, Eq, Structural)]
pub enum BlockType {
    Stored,
    FixedHuffman,
    DynamicHuffman,
    Reserved,
}

/// The header that opens a Deflate block.
#[derive(Debug, Clone, Copy, PartialEq, Eq, Structural)]
pub struct BlockHeader {
    pub is_last: bool,
    pub block_type: BlockType,
}

/// The block kind that the two type bits `b1` (low) and `b2` (high) select.
pub open spec fn block_type_of(b1: bool, b2: bool) -> BlockType {
    if !b1 && !b2 {
        BlockType::Stored
    } else if b1 && !b2 {
        BlockType::FixedHuffman
    } else if !b1 && b2 {
        BlockType::DynamicHuffman
    } else {
        BlockType::Reserved
    }
}

/// Decodes a Deflate block header from the byte where the block starts: bit 0
/// marks the final block, bits 1 and 2 give its kind.
pub fn block_header(first: u8) -> (r: BlockHeader)
    ensures
        r.is_last == bit(first, 0),
        r.block_type == block_type_of(bit(first, 1), bit(first, 2)),
{
    let is_last = is_bit_set(first, 1);
    let b1 = is_bit_set(first, 2);
    let b2 = is_bit_set(first, 3);
    let block_type = if !b1 && !b2 {
        BlockType::Stored
    } else if b1 && !b2 {
        BlockType::FixedHuffman
    } else if !b1 && b2 {
        BlockType::DynamicHuffman
    } else {
        BlockType::Reserved
    };
    BlockHeader { is_last, block_type }
}

/// What Store produces from the `n` payload bytes at `s` of `d`: the bytes
/// themselves.
pub open spec fn store_output(d: Seq<u8>, s: int, n: int) -> Result<Seq<u8>, ZipError> {
    if n == 0 {
        Ok(Seq::empty())
    } else if s + n <= d.len() {
        Ok(d.subrange(s, s + n))
    } else {
        Err(ZipError::Truncated)
    }
}

/// `a` followed by the output of `r`, or the error of `r`.
pub open spec fn then_output(a: Seq<u8>, r: Result<Seq<u8>, ZipError>) -> Result<Seq<u8>, ZipError> {
    match r {
        Ok(b) => Ok(a + b),
        Err(e) => Err(e),
    }
}

/// Inflates the Deflate blocks of `d` from offset `i` up to `end`. Blocks
/// stored without compression are copied out; a block of the reserved kind,
/// or whose length and its complement disagree, is malformed; a Huffman-coded
/// block is not decoded. Bytes after the final block are ignored.
pub open spec fn inflate(d: Seq<u8>, i: int, end: int) -> Result<Seq<u8>, ZipError>
    decreases end - i,
{
    if i >= end {
        Err(ZipError::Truncated)
    } else {
        let h = d[i];
        let kind = block_type_of(bit(h, 1), bit(h, 2));
        if kind == BlockType::Reserved {
            Err(ZipError::InvalidDeflateBlock)
        } else if kind != BlockType::Stored {
            Err(ZipError::UnsupportedCompressionMethod(DEFLATE))
        } else if i + 5 > end {
            Err(ZipError::Truncated)
        } else if field(d, i + 1, 2) + field(d, i + 3, 2) != 0xffff {
            Err(ZipError::InvalidDeflateBlock)
        } else if i + 5 + field(d, i + 1, 2) > end {
            Err(ZipError::Truncated)
        } else {
            let next = i + 5 + field(d, i + 1, 2);
            let block = d.subrange(i + 5, next);
            if bit(h, 0) {
                Ok(block)
            } else {
                then_output(block, inflate(d, next, end))
            }
        }
    }
}

/// What Deflate produces from the `n` payload bytes at `s` of `d`: the
/// payload must be present in full.
pub open spec fn deflate_output(d: Seq<u8>, s: int, n: int) -> Result<Seq<u8>, ZipError> {
    if s + n > d.len() {
        Err(ZipError::Truncated)
    } else {
        inflate(d, s, s + n)
    }
}

proof fn lemma_then_output_assoc(a: Seq<u8>, b: Seq<u8>, r: Result<Seq<u8>, ZipError>)
    ensures
        then_output(a, then_output(b, r)) == then_output(a + b, r),
{
    if let Ok(c) = r {
        assert(a + (b + c) =~= (a + b) + c);
    }
}

/// The Store method: the payload is the content.
pub struct StoreDecompressor;

impl StoreDecompressor {
    /// Seeks to `data_pos` and appends the `data_len` bytes there to `writer`,
    /// reading at most `CHUNK_SIZE` bytes at a time. A zero-length payload
    /// reads nothing. A payload that runs past the end fails before anything
    /// is read or written, with the cursor at `data_pos`.
    pub fn decompress(
        &self,
        reader: &mut ByteStream,
        writer: &mut Vec<u8>,
        data_pos: u64,
        data_len: u64,
    ) -> (r: Result<(), ZipError>)
        requires
            old(reader).wf(),
        ensures
            final(reader).wf(),
            final(reader)@.data == old(reader)@.data,
            match store_output(old(reader)@.data, data_pos as int, data_len as int) {
                Ok(out) => r is Ok && final(writer)@ == old(writer)@ + out && final(reader)@.pos
                    == data_pos + data_len,
                Err(e) => r == Err::<(), ZipError>(e) && final(writer)@ == old(writer)@
                    && final(reader)@.pos == data_pos,
            },
    {
        let ghost d = reader@.data;
        let ghost w0 = writer@;
        proof {
            reader.lemma_wf();
        }
        let len = length(reader);
        if data_len > 0 && (data_pos > len || len - data_pos < data_len) {
            reader.seek_start(data_pos);
            return Err(ZipError::Truncated);
        }
        reader.seek_start(data_pos);
        let mut bytes_left: u64 = data_len;
        while bytes_left > 0
            invariant
                reader.wf(),
                reader@.data == d,
                d == old(reader)@.data,
                w0 == old(writer)@,
                data_len > 0 ==> data_pos + data_len <= d.len(),
                bytes_left <= data_len,
                reader@.pos == data_pos + (data_len - bytes_left),
                bytes_left == data_len ==> writer@ == w0,
                bytes_left < data_len ==> writer@ == w0 + d.subrange(
                    data_pos as int,
                    reader@.pos as int,
                ),
            decreases bytes_left,
        {
            let next: u64 = if bytes_left < CHUNK_SIZE as u64 {
                bytes_left
            } else {
                CHUNK_SIZE as u64
            };
            let ghost pos = reader@.pos;
            let mut chunk = reader.read_exact(next as usize)?;
            writer.append(&mut chunk);
            proof {
                if bytes_left < data_len {
                    assert(d.subrange(data_pos as int, reader@.pos as int) =~= d.subrange(
                        data_pos as int,
                        pos as int,
                    ) + d.subrange(pos as int, reader@.pos as int));
                } else {
                    assert(d.subrange(data_pos as int, pos as int) =~= Seq::<u8>::empty());
                }
            }
            bytes_left = bytes_left - next;
        }
        proof {
            if data_len == 0 {
                assert(w0 + Seq::<u8>::empty() =~= w0);
            }
        }
        Ok(())
    }
}

/// The Deflate method.
pub struct DeflateDecompressor;

/// Inflates the blocks of `reader` from its cursor up to `end`, block by block.
fn inflate_blocks(reader: &mut ByteStream, end: u64) -> (r: Result<Vec<u8>, ZipError>)
    requires
        old(reader).wf(),
        old(reader)@.pos <= end <= old(reader)@.data.len(),
    ensures
        final(reader).wf(),
        final(reader)@.data == old(reader)@.data,
        match inflate(old(reader)@.data, old(reader)@.pos as int, end as int) {
            Ok(out) => r matches Ok(v) && v@ == out,
            Err(e) => r == Err::<Vec<u8>, ZipError>(e),
        },
{
    let ghost d = reader@.data;
    let ghost start = reader@.pos as int;
    let mut inflated: Vec<u8> = Vec::new();
    proof {
        if let Ok(c) = inflate(d, start, end as int) {
            assert(Seq::<u8>::empty() + c =~= c);
        }
    }
    loop
        invariant
            reader.wf(),
            reader@.data == d,
            d == old(reader)@.data,
            start == old(reader)@.pos,
            end <= d.len(),
            start <= reader@.pos <= end,
            inflate(d, start, end as int) == then_output(
                inflated@,
                inflate(d, reader@.pos as int, end as int),
            ),
        decreases end - reader@.pos,
    {
        let ghost i = reader@.pos as int;
        let ghost out = inflated@;
        let pos = current_position(reader);
        if pos >= end {
            return Err(ZipError::Truncated);
        }
        let first = reader.read_exact(1)?;
        let header = block_header(first[0]);
        if header.block_type == BlockType::Reserved {
            return Err(ZipError::InvalidDeflateBlock);
        }
        if header.block_type != BlockType::Stored {
            return Err(ZipError::UnsupportedCompressionMethod(DEFLATE));
        }
        if end - pos < 5 {
            return Err(ZipError::Truncated);
        }
        let lengths = reader.read_exact(4)?;
        let mut offset: usize = 0;
        let n = read_to::<u16>(lengths.as_slice(), &mut offset)?;
        let complement = read_to::<u16>(lengths.as_slice(), &mut offset)?;
        assert(lengths@.subrange(0, 2) =~= d.subrange(i + 1, i + 3));
        assert(lengths@.subrange(2, 4) =~= d.subrange(i + 3, i + 5));
        if n as u32 + complement as u32 != 0xffff {
            return Err(ZipError::InvalidDeflateBlock);
        }
        if end - pos - 5 < n as u64 {
            return Err(ZipError::Truncated);
        }
        let mut block = reader.read_exact(n as usize)?;
        let ghost b = block@;
        inflated.append(&mut block);
        proof {
            lemma_then_output_assoc(out, b, inflate(d, reader@.pos as int, end as int));
        }
        if header.is_last {
            return Ok(inflated);
        }
    }
}

impl DeflateDecompressor {
    /// Seeks to `data_pos` and inflates the `data_len` payload bytes there,
    /// appending the output to `writer` once the whole stream has decoded;
    /// on success the cursor stands right after the payload, on failure at
    /// `data_pos` with the writer unchanged.
    pub fn decompress(
        &self,
        reader: &mut ByteStream,
        writer: &mut Vec<u8>,
        data_pos: u64,
        data_len: u64,
    ) -> (r: Result<(), ZipError>)
        requires
            old(reader).wf(),
        ensures
            final(reader).wf(),
            final(reader)@.data == old(reader)@.data,
            match deflate_output(old(reader)@.data, data_pos as int, data_len as int) {
                Ok(out) => r is Ok && final(writer)@ == old(writer)@ + out && final(reader)@.pos
                    == data_pos + data_len,
                Err(e) => r == Err::<(), ZipError>(e) && final(writer)@ == old(writer)@
                    && final(reader)@.pos == data_pos,
            },
    {
        proof {
            reader.lemma_wf();
        }
        let len = length(reader);
        if data_pos > len || len - data_pos < data_len {
            reader.seek_start(data_pos);
            return Err(ZipError::Truncated);
        }
        let end: u64 = data_pos + data_len;
        reader.seek_start(data_pos);
        match inflate_blocks(reader, end) {
            Ok(mut inflated) => {
                writer.append(&mut inflated);
                reader.seek_start(end);
                Ok(())
            },
            Err(e) => {
                reader.seek_start(data_pos);
                Err(e)
            },
        }
    }
}

/// The strategy for one compression method.
pub enum Decompressor {
    Store(StoreDecompressor),
    Deflate(DeflateDecompressor),
}

impl Decompressor {
    /// What this strategy produces from the `n` payload bytes at `s` of `d`.
    pub open spec fn output(&self, d: Seq<u8>, s: int, n: int) -> Result<Seq<u8>, ZipError> {
        match self {
            Decompressor::Store(_) => store_output(d, s, n),
            Decompressor::Deflate(_) => deflate_output(d, s, n),
        }
    }

    /// Seeks to `data_pos`, decompresses the `data_len` payload bytes there
    /// and appends the result to `writer`; on failure the writer is unchanged
    /// and the cursor stands at `data_pos`, wherever the caller had left it.
    pub fn decompress(
        &self,
        reader: &mut ByteStream,
        writer: &mut Vec<u8>,
        data_pos: u64,
        data_len: u64,
    ) -> (r: Result<(), ZipError>)
        requires
            old(reader).wf(),
        ensures
            final(reader).wf(),
            final(reader)@.data == old(reader)@.data,
            match self.output(old(reader)@.data, data_pos as int, data_len as int) {
                Ok(out) => r is Ok && final(writer)@ == old(writer)@ + out && final(reader)@.pos
                    == data_pos + data_len,
                Err(e) => r == Err::<(), ZipError>(e) && final(writer)@ == old(writer)@
                    && final(reader)@.pos == data_pos,
            },
    {
        match self {
            Decompressor::Store(s) => s.decompress(reader, writer, data_pos, data_len),
            Decompressor::Deflate(f) => f.decompress(reader, writer, data_pos, data_len),
        }
    }
}

/// The strategy for a compression method code; unknown codes are refused,
/// never treated as Store.
pub fn decompressor(compression_method: &u16) -> (r: Result<Decompressor, ZipError>)
    ensures
        *compression_method == STORE <==> r matches Ok(Decompressor::Store(_)),
        *compression_method == DEFLATE <==> r matches Ok(Decompressor::Deflate(_)),
        *compression_method != STORE && *compression_method != DEFLATE ==> r == Err::<
            Decompressor,
            ZipError,
        >(ZipError::UnknownCompressionMethod(*compression_method)),
{
    if *compression_method == STORE {
        Ok(Decompressor::Store(StoreDecompressor))
    } else if *compression_method == DEFLATE {
        Ok(Decompressor::Deflate(DeflateDecompressor))
    } else {
        Err(ZipError::UnknownCompressionMethod(*compression_method))
    }
}

} // verus!
