//! The three ZIP records and the format's constants.

use vstd::prelude::*;

verus! {

/// Signature of a local file header.
pub const SIGNATURE_FILE_HEADER: u32 = 0x0403_4b50;

/// Signature of a central directory file header.
pub const SIGNATURE_CENTRAL_DIR_HEADER: u32 = 0x0201_4b50;

/// Signature of the end of central directory record.
pub const SIGNATURE_CENTRAL_DIR_END: u32 = 0x0605_4b50;

/// Compression method code of Store (no compression).
pub const STORE: u16 = 0;

/// Compression method code of Deflate.
pub const DEFLATE: u16 = 8;

/// Version to extract from which size fields are 8 bytes wide.
pub const ZIP64: u16 = 45;

/// Version to extract that, with Store, marks a directory entry.
pub const DIR_OR_DEFLATE: u16 = 20;

/// The header that precedes each entry's data.
#[derive(Debug)]
pub struct LocalFileHeader {
    pub version_to_extract: u16,
    pub general_bit_flag: u16,
    pub compression_method: u16,
    pub last_mod_file_time: u16,
    pub last_mod_file_date: u16,
    pub crc_32: u32,
    /// 4 bytes wide in the record below `ZIP64`, else 8.
    pub compressed_size: u64,
    /// 4 bytes wide in the record below `ZIP64`, else 8.
    pub uncompressed_size: u64,
    pub file_name_length: u16,
    pub extra_field_length: u16,
    pub file_name: String,
}

/// One entry of the central directory.
#[derive(Debug)]
pub struct CentralDirFileHeader {
    pub version_made_by: u16,
    pub version_to_extract: u16,
    pub general_bit_flag: u16,
    pub compression_method: u16,
    pub last_mod_file_time: u16,
    pub last_mod_file_date: u16,
    pub crc_32: u32,
    /// 4 bytes wide in the record below `ZIP64`, else 8.
    pub compressed_size: u64,
    /// 4 bytes wide in the record below `ZIP64`, else 8.
    pub uncompressed_size: u64,
    pub file_name_length: u16,
    pub extra_field_length: u16,
    pub file_comment_length: u16,
    pub disk_number_start: u16,
    pub internal_file_attribs: u16,
    pub external_file_attribs: u32,
    pub local_header_rel_offset: u32,
    pub file_name: String,
    pub file_comment: String,
}

/// The record that closes a single-disk archive.
#[derive(Debug)]
pub struct EndOfCentralDir {
    pub number_of_this_disk: u16,
    pub number_of_disk_with_start_central_dir: u16,
    pub total_entries_in_central_dir_on_this_disk: u16,
    pub total_entries_in_central_dir: u16,
    pub central_dir_size: u32,
    pub central_dir_offset_from_starting_disk_num: u32,
    pub zip_file_comment_length: u16,
    pub zip_file_comment: String,
}

} // verus!
