//! Decoders of the ZIP records. Each reads a fixed first chunk in one read,
//! decodes its fields left to right, then reads the variable-length fields
//! whose lengths the chunk declared. Offsets in the specifications are
//! relative to the byte after the record's signature.

use vstd::prelude::*;
use vstd::utf8::{decode_utf8, valid_utf8};

use crate::byte_readers::{le_bytes, le_value, lemma_le_bytes_of_value, read_to};
use crate::stream_nav::{after_short_read, ByteStream};
use crate::structs::{
    CentralDirFileHeader, EndOfCentralDir, LocalFileHeader, DIR_OR_DEFLATE, STORE, ZIP64,
};
use crate::zip_error::ZipError;

verus! {

/// Bytes of the local file header's first chunk, sized for 8-byte size fields.
pub const LOCAL_HEADER_CHUNK: usize = 34;

/// Bytes of the central directory file header's first chunk, sized for 8-byte size fields.
pub const CENTRAL_DIR_HEADER_CHUNK: usize = 50;

/// Bytes of the end of central directory record's fixed part.
pub const CENTRAL_DIR_END_CHUNK: usize = 18;

/// The little-endian field of `width` bytes at `at` in `c`.
pub open spec fn field(c: Seq<u8>, at: int, width: int) -> nat {
    le_value(c.subrange(at, at + width))
}

/// Relies on `String::from_utf8`: it succeeds exactly on valid UTF-8, and the
/// string then holds the characters that the bytes encode.
#[verifier::external_body]
fn utf8_string(bytes: Vec<u8>) -> (r: Option<String>)
    ensures
        r is Some <==> valid_utf8(bytes@),
        r matches Some(s) ==> s@ == decode_utf8(bytes@),
{
    String::from_utf8(bytes).ok()
}

/// Reads the 4-byte signature that opens a record.
pub fn read_signature(reader: &mut ByteStream) -> (r: Result<u32, ZipError>)
    requires
        old(reader).wf(),
    ensures
        final(reader).wf(),
        final(reader)@.data == old(reader)@.data,
        r is Ok <==> old(reader)@.pos + 4 <= old(reader)@.data.len(),
        r matches Ok(s) ==> s as nat == field(old(reader)@.data, old(reader)@.pos as int, 4)
            && final(reader)@.pos == old(reader)@.pos + 4,
        r matches Err(e) ==> e == ZipError::Truncated && final(reader)@.pos == after_short_read(
            old(reader)@.data,
            old(reader)@.pos as int,
        ),
{
    let bytes = reader.read_exact(4)?;
    let mut offset: usize = 0;
    let signature = read_to::<u32>(bytes.as_slice(), &mut offset)?;
    assert(bytes@.subrange(0, 4) =~= bytes@);
    Ok(signature)
}

// ---------------------------------------------------------------------------
// Local file header, over its first chunk `c`.

/// The width of the size fields: 8 from `ZIP64` on, else 4.
pub open spec fn local_size_width(c: Seq<u8>) -> int {
    if field(c, 0, 2) >= ZIP64 as nat {
        8
    } else {
        4
    }
}

/// Where the file name starts: 26, or 34 with 8-byte size fields.
pub open spec fn local_name_offset(c: Seq<u8>) -> int {
    18 + 2 * local_size_width(c)
}

pub open spec fn local_name_len(c: Seq<u8>) -> nat {
    field(c, 14 + 2 * local_size_width(c), 2)
}

pub open spec fn local_extra_len(c: Seq<u8>) -> nat {
    field(c, 16 + 2 * local_size_width(c), 2)
}

/// Below `ZIP64` the two size fields take 8 bytes fewer, and the file name
/// starts 8 bytes earlier: right after the 26 fixed bytes.
pub proof fn lemma_local_name_offset(c: Seq<u8>)
    ensures
        field(c, 0, 2) < ZIP64 as nat ==> local_name_offset(c) == 26,
        field(c, 0, 2) >= ZIP64 as nat ==> local_name_offset(c) == 34,
{
}

pub open spec fn local_chunk(d: Seq<u8>, p: int) -> Seq<u8> {
    d.subrange(p, p + LOCAL_HEADER_CHUNK)
}

pub open spec fn local_name_start(d: Seq<u8>, p: int) -> int {
    p + local_name_offset(local_chunk(d, p))
}

pub open spec fn local_name_end(d: Seq<u8>, p: int) -> int {
    local_name_start(d, p) + local_name_len(local_chunk(d, p))
}

pub open spec fn local_name_bytes(d: Seq<u8>, p: int) -> Seq<u8> {
    d.subrange(local_name_start(d, p), local_name_end(d, p))
}

/// A local file header at `p` decodes.
pub open spec fn local_header_ok(d: Seq<u8>, p: int) -> bool {
    &&& p + LOCAL_HEADER_CHUNK <= d.len()
    &&& local_name_end(d, p) <= d.len()
    &&& valid_utf8(local_name_bytes(d, p))
}

/// Where the cursor stands after decoding a local file header at `p`, whether
/// or not it decoded: past the extra field on success, at the end of the data
/// after a short read.
pub open spec fn local_header_end(d: Seq<u8>, p: int) -> int {
    if p + LOCAL_HEADER_CHUNK > d.len() {
        after_short_read(d, p)
    } else if local_name_end(d, p) > d.len() {
        after_short_read(d, local_name_start(d, p))
    } else if !valid_utf8(local_name_bytes(d, p)) {
        local_name_end(d, p)
    } else {
        local_name_end(d, p) + local_extra_len(local_chunk(d, p))
    }
}

pub open spec fn local_header_error(d: Seq<u8>, p: int) -> ZipError {
    if p + LOCAL_HEADER_CHUNK <= d.len() && local_name_end(d, p) <= d.len() {
        ZipError::InvalidText
    } else {
        ZipError::Truncated
    }
}

/// `h` holds the fields of first chunk `c` and the file name `name`.
pub open spec fn local_header_matches(h: LocalFileHeader, c: Seq<u8>, name: Seq<u8>) -> bool {
    let w = local_size_width(c);
    &&& h.version_to_extract as nat == field(c, 0, 2)
    &&& h.general_bit_flag as nat == field(c, 2, 2)
    &&& h.compression_method as nat == field(c, 4, 2)
    &&& h.last_mod_file_time as nat == field(c, 6, 2)
    &&& h.last_mod_file_date as nat == field(c, 8, 2)
    &&& h.crc_32 as nat == field(c, 10, 4)
    &&& h.compressed_size as nat == field(c, 14, w)
    &&& h.uncompressed_size as nat == field(c, 14 + w, w)
    &&& h.file_name_length as nat == local_name_len(c)
    &&& h.extra_field_length as nat == local_extra_len(c)
    &&& h.file_name@ == decode_utf8(name)
}

/// Decodes a local file header whose signature was just read. On success the
/// cursor stands on the first byte of the entry's data.
pub fn read_local_file_header(reader: &mut ByteStream) -> (r: Result<LocalFileHeader, ZipError>)
    requires
        old(reader).wf(),
    ensures
        final(reader).wf(),
        final(reader)@.data == old(reader)@.data,
        final(reader)@.pos == local_header_end(old(reader)@.data, old(reader)@.pos as int),
        r is Ok <==> local_header_ok(old(reader)@.data, old(reader)@.pos as int),
        r matches Ok(h) ==> local_header_matches(
            h,
            local_chunk(old(reader)@.data, old(reader)@.pos as int),
            local_name_bytes(old(reader)@.data, old(reader)@.pos as int),
        ),
        r matches Err(e) ==> e == local_header_error(old(reader)@.data, old(reader)@.pos as int),
{
    let ghost d = reader@.data;
    let ghost p = reader@.pos as int;
    proof {
        reader.lemma_wf();
    }
    let bytes = reader.read_exact(LOCAL_HEADER_CHUNK)?;
    let chunk = bytes.as_slice();
    let mut offset: usize = 0;
    let version_to_extract = read_to::<u16>(chunk, &mut offset)?;
    let general_bit_flag = read_to::<u16>(chunk, &mut offset)?;
    let compression_method = read_to::<u16>(chunk, &mut offset)?;
    let last_mod_file_time = read_to::<u16>(chunk, &mut offset)?;
    let last_mod_file_date = read_to::<u16>(chunk, &mut offset)?;
    let crc_32 = read_to::<u32>(chunk, &mut offset)?;
    let compressed_size: u64;
    let uncompressed_size: u64;
    if version_to_extract >= ZIP64 {
        compressed_size = read_to::<u64>(chunk, &mut offset)?;
        uncompressed_size = read_to::<u64>(chunk, &mut offset)?;
    } else {
        compressed_size = read_to::<u32>(chunk, &mut offset)? as u64;
        uncompressed_size = read_to::<u32>(chunk, &mut offset)? as u64;
    }
    let file_name_length = read_to::<u16>(chunk, &mut offset)?;
    let extra_field_length = read_to::<u16>(chunk, &mut offset)?;
    assert(bytes@ == local_chunk(d, p));
    if version_to_extract < ZIP64 {
        // The chunk was sized for 8-byte size fields: give back what the
        // narrower ones left unread.
        reader.seek_relative(-8)?;
    }
    assert(reader@.pos == local_name_start(d, p));
    let name_bytes = reader.read_exact(file_name_length as usize)?;
    let file_name = match utf8_string(name_bytes) {
        Some(s) => s,
        None => {
            return Err(ZipError::InvalidText);
        },
    };
    proof {
        reader.lemma_wf();
    }
    reader.seek_relative(extra_field_length as i64)?;
    Ok(
        LocalFileHeader {
            version_to_extract,
            general_bit_flag,
            compression_method,
            last_mod_file_time,
            last_mod_file_date,
            crc_32,
            compressed_size,
            uncompressed_size,
            file_name_length,
            extra_field_length,
            file_name,
        },
    )
}

/// The fixed part of a local file header holding the fields of `h`: size
/// fields 8 bytes wide from `ZIP64` on, else 4.
pub open spec fn local_header_fixed_bytes(h: LocalFileHeader) -> Seq<u8> {
    let w: nat = if h.version_to_extract >= ZIP64 {
        8
    } else {
        4
    };
    le_bytes(h.version_to_extract as nat, 2) + le_bytes(h.general_bit_flag as nat, 2) + le_bytes(
        h.compression_method as nat,
        2,
    ) + le_bytes(h.last_mod_file_time as nat, 2) + le_bytes(h.last_mod_file_date as nat, 2)
        + le_bytes(h.crc_32 as nat, 4) + le_bytes(h.compressed_size as nat, w) + le_bytes(
        h.uncompressed_size as nat,
        w,
    ) + le_bytes(h.file_name_length as nat, 2) + le_bytes(h.extra_field_length as nat, 2)
}

proof fn lemma_field_round_trip(c: Seq<u8>, at: int, width: nat, v: nat)
    requires
        0 <= at,
        at + width <= c.len(),
        v == field(c, at, width as int),
    ensures
        le_bytes(v, width) == c.subrange(at, at + width),
{
    lemma_le_bytes_of_value(c.subrange(at, at + width));
}

/// Encoding the fixed fields that a local file header decoded to gives back
/// the bytes they came from, with 4-byte and with 8-byte size fields alike.
pub proof fn lemma_local_header_round_trip(h: LocalFileHeader, c: Seq<u8>, name: Seq<u8>)
    requires
        c.len() == LOCAL_HEADER_CHUNK,
        local_header_matches(h, c, name),
    ensures
        local_header_fixed_bytes(h) == c.subrange(0, local_name_offset(c)),
{
    let w = local_size_width(c);
    lemma_field_round_trip(c, 0, 2, h.version_to_extract as nat);
    lemma_field_round_trip(c, 2, 2, h.general_bit_flag as nat);
    lemma_field_round_trip(c, 4, 2, h.compression_method as nat);
    lemma_field_round_trip(c, 6, 2, h.last_mod_file_time as nat);
    lemma_field_round_trip(c, 8, 2, h.last_mod_file_date as nat);
    lemma_field_round_trip(c, 10, 4, h.crc_32 as nat);
    lemma_field_round_trip(c, 14, w as nat, h.compressed_size as nat);
    lemma_field_round_trip(c, 14 + w, w as nat, h.uncompressed_size as nat);
    lemma_field_round_trip(c, 14 + 2 * w, 2, h.file_name_length as nat);
    lemma_field_round_trip(c, 16 + 2 * w, 2, h.extra_field_length as nat);
    assert(local_header_fixed_bytes(h) =~= c.subrange(0, local_name_offset(c)));
}

// ---------------------------------------------------------------------------
// Central directory file header, over its first chunk `c`.

pub open spec fn central_size_width(c: Seq<u8>) -> int {
    if field(c, 2, 2) >= ZIP64 as nat {
        8
    } else {
        4
    }
}

pub open spec fn central_name_len(c: Seq<u8>) -> nat {
    field(c, 16 + 2 * central_size_width(c), 2)
}

pub open spec fn central_extra_len(c: Seq<u8>) -> nat {
    field(c, 18 + 2 * central_size_width(c), 2)
}

pub open spec fn central_comment_len(c: Seq<u8>) -> nat {
    field(c, 20 + 2 * central_size_width(c), 2)
}

pub open spec fn central_chunk(d: Seq<u8>, p: int) -> Seq<u8> {
    d.subrange(p, p + CENTRAL_DIR_HEADER_CHUNK)
}

/// Where the file name starts: 42, or 50 with 8-byte size fields.
pub open spec fn central_name_start(d: Seq<u8>, p: int) -> int {
    p + 34 + 2 * central_size_width(central_chunk(d, p))
}

/// Below `ZIP64` the central directory file header's name starts 8 bytes
/// earlier: 42 bytes after the signature rather than 50.
pub proof fn lemma_central_name_start(d: Seq<u8>, p: int)
    requires
        0 <= p,
        p + CENTRAL_DIR_HEADER_CHUNK <= d.len(),
    ensures
        field(d, p + 2, 2) < ZIP64 as nat ==> central_name_start(d, p) == p + 42,
        field(d, p + 2, 2) >= ZIP64 as nat ==> central_name_start(d, p) == p + 50,
{
    assert(central_chunk(d, p).subrange(2, 4) =~= d.subrange(p + 2, p + 4));
}

pub open spec fn central_name_end(d: Seq<u8>, p: int) -> int {
    central_name_start(d, p) + central_name_len(central_chunk(d, p))
}

pub open spec fn central_name_bytes(d: Seq<u8>, p: int) -> Seq<u8> {
    d.subrange(central_name_start(d, p), central_name_end(d, p))
}

/// The comment follows the skipped extra field.
pub open spec fn central_comment_start(d: Seq<u8>, p: int) -> int {
    central_name_end(d, p) + central_extra_len(central_chunk(d, p))
}

pub open spec fn central_comment_end(d: Seq<u8>, p: int) -> int {
    central_comment_start(d, p) + central_comment_len(central_chunk(d, p))
}

pub open spec fn central_comment_bytes(d: Seq<u8>, p: int) -> Seq<u8> {
    d.subrange(central_comment_start(d, p), central_comment_end(d, p))
}

/// A central directory file header at `p` decodes.
pub open spec fn central_header_ok(d: Seq<u8>, p: int) -> bool {
    &&& p + CENTRAL_DIR_HEADER_CHUNK <= d.len()
    &&& central_name_end(d, p) <= d.len()
    &&& valid_utf8(central_name_bytes(d, p))
    &&& central_comment_end(d, p) <= d.len()
    &&& valid_utf8(central_comment_bytes(d, p))
}

/// Where the cursor stands after decoding a central directory file header at
/// `p`, whether or not it decoded: at the end of the data after a short read.
pub open spec fn central_header_end(d: Seq<u8>, p: int) -> int {
    if p + CENTRAL_DIR_HEADER_CHUNK > d.len() {
        after_short_read(d, p)
    } else if central_name_end(d, p) > d.len() {
        after_short_read(d, central_name_start(d, p))
    } else if !valid_utf8(central_name_bytes(d, p)) {
        central_comment_start(d, p)
    } else if central_comment_end(d, p) > d.len() {
        after_short_read(d, central_comment_start(d, p))
    } else {
        central_comment_end(d, p)
    }
}

pub open spec fn central_header_error(d: Seq<u8>, p: int) -> ZipError {
    if p + CENTRAL_DIR_HEADER_CHUNK > d.len() || central_name_end(d, p) > d.len() {
        ZipError::Truncated
    } else if !valid_utf8(central_name_bytes(d, p)) {
        ZipError::InvalidText
    } else if central_comment_end(d, p) > d.len() {
        ZipError::Truncated
    } else {
        ZipError::InvalidText
    }
}

/// `h` holds the fields of first chunk `c`, the file name `name` and the
/// comment `comment`.
pub open spec fn central_header_matches(
    h: CentralDirFileHeader,
    c: Seq<u8>,
    name: Seq<u8>,
    comment: Seq<u8>,
) -> bool {
    let w = central_size_width(c);
    &&& h.version_made_by as nat == field(c, 0, 2)
    &&& h.version_to_extract as nat == field(c, 2, 2)
    &&& h.general_bit_flag as nat == field(c, 4, 2)
    &&& h.compression_method as nat == field(c, 6, 2)
    &&& h.last_mod_file_time as nat == field(c, 8, 2)
    &&& h.last_mod_file_date as nat == field(c, 10, 2)
    &&& h.crc_32 as nat == field(c, 12, 4)
    &&& h.compressed_size as nat == field(c, 16, w)
    &&& h.uncompressed_size as nat == field(c, 16 + w, w)
    &&& h.file_name_length as nat == central_name_len(c)
    &&& h.extra_field_length as nat == central_extra_len(c)
    &&& h.file_comment_length as nat == central_comment_len(c)
    &&& h.disk_number_start as nat == field(c, 22 + 2 * w, 2)
    &&& h.internal_file_attribs as nat == field(c, 24 + 2 * w, 2)
    &&& h.external_file_attribs as nat == field(c, 26 + 2 * w, 4)
    &&& h.local_header_rel_offset as nat == field(c, 30 + 2 * w, 4)
    &&& h.file_name@ == decode_utf8(name)
    &&& h.file_comment@ == decode_utf8(comment)
}

/// Decodes a central directory file header whose signature was just read;
/// its extra field is skipped.
pub fn read_central_dir_file_header(reader: &mut ByteStream) -> (r: Result<
    CentralDirFileHeader,
    ZipError,
>)
    requires
        old(reader).wf(),
    ensures
        final(reader).wf(),
        final(reader)@.data == old(reader)@.data,
        final(reader)@.pos == central_header_end(old(reader)@.data, old(reader)@.pos as int),
        r is Ok <==> central_header_ok(old(reader)@.data, old(reader)@.pos as int),
        r matches Ok(h) ==> central_header_matches(
            h,
            central_chunk(old(reader)@.data, old(reader)@.pos as int),
            central_name_bytes(old(reader)@.data, old(reader)@.pos as int),
            central_comment_bytes(old(reader)@.data, old(reader)@.pos as int),
        ),
        r matches Err(e) ==> e == central_header_error(old(reader)@.data, old(reader)@.pos as int),
{
    let ghost d = reader@.data;
    let ghost p = reader@.pos as int;
    proof {
        reader.lemma_wf();
    }
    let bytes = reader.read_exact(CENTRAL_DIR_HEADER_CHUNK)?;
    let chunk = bytes.as_slice();
    let mut offset: usize = 0;
    let version_made_by = read_to::<u16>(chunk, &mut offset)?;
    let version_to_extract = read_to::<u16>(chunk, &mut offset)?;
    let general_bit_flag = read_to::<u16>(chunk, &mut offset)?;
    let compression_method = read_to::<u16>(chunk, &mut offset)?;
    let last_mod_file_time = read_to::<u16>(chunk, &mut offset)?;
    let last_mod_file_date = read_to::<u16>(chunk, &mut offset)?;
    let crc_32 = read_to::<u32>(chunk, &mut offset)?;
    let compressed_size: u64;
    let uncompressed_size: u64;
    if version_to_extract >= ZIP64 {
        compressed_size = read_to::<u64>(chunk, &mut offset)?;
        uncompressed_size = read_to::<u64>(chunk, &mut offset)?;
    } else {
        compressed_size = read_to::<u32>(chunk, &mut offset)? as u64;
        uncompressed_size = read_to::<u32>(chunk, &mut offset)? as u64;
    }
    if version_to_extract < ZIP64 {
        // The chunk was sized for 8-byte size fields: give back what the
        // narrower ones left unread.
        reader.seek_relative(-8)?;
    }
    let file_name_length = read_to::<u16>(chunk, &mut offset)?;
    let extra_field_length = read_to::<u16>(chunk, &mut offset)?;
    let file_comment_length = read_to::<u16>(chunk, &mut offset)?;
    let disk_number_start = read_to::<u16>(chunk, &mut offset)?;
    let internal_file_attribs = read_to::<u16>(chunk, &mut offset)?;
    let external_file_attribs = read_to::<u32>(chunk, &mut offset)?;
    let local_header_rel_offset = read_to::<u32>(chunk, &mut offset)?;
    assert(bytes@ == central_chunk(d, p));
    assert(reader@.pos == central_name_start(d, p));
    let name_bytes = reader.read_exact(file_name_length as usize)?;
    proof {
        reader.lemma_wf();
    }
    reader.seek_relative(extra_field_length as i64)?;
    let file_name = match utf8_string(name_bytes) {
        Some(s) => s,
        None => {
            return Err(ZipError::InvalidText);
        },
    };
    let comment_bytes = reader.read_exact(file_comment_length as usize)?;
    let file_comment = match utf8_string(comment_bytes) {
        Some(s) => s,
        None => {
            return Err(ZipError::InvalidText);
        },
    };
    Ok(
        CentralDirFileHeader {
            version_made_by,
            version_to_extract,
            general_bit_flag,
            compression_method,
            last_mod_file_time,
            last_mod_file_date,
            crc_32,
            compressed_size,
            uncompressed_size,
            file_name_length,
            extra_field_length,
            file_comment_length,
            disk_number_start,
            internal_file_attribs,
            external_file_attribs,
            local_header_rel_offset,
            file_name,
            file_comment,
        },
    )
}

// ---------------------------------------------------------------------------
// End of central directory, over its fixed part `c`.

pub open spec fn end_chunk(d: Seq<u8>, p: int) -> Seq<u8> {
    d.subrange(p, p + CENTRAL_DIR_END_CHUNK)
}

pub open spec fn end_comment_len(c: Seq<u8>) -> nat {
    field(c, 16, 2)
}

pub open spec fn end_comment_end(d: Seq<u8>, p: int) -> int {
    p + CENTRAL_DIR_END_CHUNK + end_comment_len(end_chunk(d, p))
}

pub open spec fn end_comment_bytes(d: Seq<u8>, p: int) -> Seq<u8> {
    d.subrange(p + CENTRAL_DIR_END_CHUNK, end_comment_end(d, p))
}

/// An end of central directory record at `p` decodes.
pub open spec fn end_record_ok(d: Seq<u8>, p: int) -> bool {
    &&& p + CENTRAL_DIR_END_CHUNK <= d.len()
    &&& end_comment_end(d, p) <= d.len()
    &&& valid_utf8(end_comment_bytes(d, p))
}

/// Where the cursor stands after decoding an end of central directory record
/// at `p`, whether or not it decoded: at the end of the data after a short
/// read.
pub open spec fn end_record_end(d: Seq<u8>, p: int) -> int {
    if p + CENTRAL_DIR_END_CHUNK > d.len() {
        after_short_read(d, p)
    } else if end_comment_end(d, p) > d.len() {
        after_short_read(d, p + CENTRAL_DIR_END_CHUNK)
    } else {
        end_comment_end(d, p)
    }
}

pub open spec fn end_record_error(d: Seq<u8>, p: int) -> ZipError {
    if p + CENTRAL_DIR_END_CHUNK <= d.len() && end_comment_end(d, p) <= d.len() {
        ZipError::InvalidText
    } else {
        ZipError::Truncated
    }
}

/// `e` holds the fields of fixed part `c` and the comment `comment`.
pub open spec fn end_record_matches(e: EndOfCentralDir, c: Seq<u8>, comment: Seq<u8>) -> bool {
    &&& e.number_of_this_disk as nat == field(c, 0, 2)
    &&& e.number_of_disk_with_start_central_dir as nat == field(c, 2, 2)
    &&& e.total_entries_in_central_dir_on_this_disk as nat == field(c, 4, 2)
    &&& e.total_entries_in_central_dir as nat == field(c, 6, 2)
    &&& e.central_dir_size as nat == field(c, 8, 4)
    &&& e.central_dir_offset_from_starting_disk_num as nat == field(c, 12, 4)
    &&& e.zip_file_comment_length as nat == end_comment_len(c)
    &&& e.zip_file_comment@ == decode_utf8(comment)
}

/// Decodes an end of central directory record whose signature was just read.
pub fn read_end_of_central_dir(reader: &mut ByteStream) -> (r: Result<EndOfCentralDir, ZipError>)
    requires
        old(reader).wf(),
    ensures
        final(reader).wf(),
        final(reader)@.data == old(reader)@.data,
        final(reader)@.pos == end_record_end(old(reader)@.data, old(reader)@.pos as int),
        r is Ok <==> end_record_ok(old(reader)@.data, old(reader)@.pos as int),
        r matches Ok(e) ==> end_record_matches(
            e,
            end_chunk(old(reader)@.data, old(reader)@.pos as int),
            end_comment_bytes(old(reader)@.data, old(reader)@.pos as int),
        ),
        r matches Err(e) ==> e == end_record_error(old(reader)@.data, old(reader)@.pos as int),
{
    let ghost d = reader@.data;
    let ghost p = reader@.pos as int;
    let bytes = reader.read_exact(CENTRAL_DIR_END_CHUNK)?;
    let chunk = bytes.as_slice();
    let mut offset: usize = 0;
    let number_of_this_disk = read_to::<u16>(chunk, &mut offset)?;
    let number_of_disk_with_start_central_dir = read_to::<u16>(chunk, &mut offset)?;
    let total_entries_in_central_dir_on_this_disk = read_to::<u16>(chunk, &mut offset)?;
    let total_entries_in_central_dir = read_to::<u16>(chunk, &mut offset)?;
    let central_dir_size = read_to::<u32>(chunk, &mut offset)?;
    let central_dir_offset_from_starting_disk_num = read_to::<u32>(chunk, &mut offset)?;
    let zip_file_comment_length = read_to::<u16>(chunk, &mut offset)?;
    assert(bytes@ == end_chunk(d, p));
    let comment_bytes = reader.read_exact(zip_file_comment_length as usize)?;
    let zip_file_comment = match utf8_string(comment_bytes) {
        Some(s) => s,
        None => {
            return Err(ZipError::InvalidText);
        },
    };
    Ok(
        EndOfCentralDir {
            number_of_this_disk,
            number_of_disk_with_start_central_dir,
            total_entries_in_central_dir_on_this_disk,
            total_entries_in_central_dir,
            central_dir_size,
            central_dir_offset_from_starting_disk_num,
            zip_file_comment_length,
            zip_file_comment,
        },
    )
}

/// The "Store with the default version" sentinel that marks a directory.
pub fn is_folder(local_file_header: &LocalFileHeader) -> (r: bool)
    ensures
        r == (local_file_header.compression_method == STORE
            && local_file_header.version_to_extract == DIR_OR_DEFLATE),
{
    local_file_header.compression_method == STORE && local_file_header.version_to_extract
        == DIR_OR_DEFLATE
}

} // verus!
