use zip_unpacker::algorithms::{decompressor, block_header, is_bit_set, BlockType, Decompressor};
use zip_unpacker::records::{read_central_dir_file_header, read_end_of_central_dir, read_local_file_header};
use zip_unpacker::stream_nav::{current_position, length, ByteStream};
use zip_unpacker::structs::{DEFLATE, DIR_OR_DEFLATE, STORE};
use zip_unpacker::unpacker::{unpack, Entry, RecordKind};
use zip_unpacker::zip_error::ZipError;

fn local_body(version: u16, method: u16, name: &str, size: u64, extra: &[u8]) -> Vec<u8> {
    let mut v = Vec::new();
    v.extend_from_slice(&version.to_le_bytes());
    v.extend_from_slice(&0x0800u16.to_le_bytes());
    v.extend_from_slice(&method.to_le_bytes());
    v.extend_from_slice(&0x6c2bu16.to_le_bytes());
    v.extend_from_slice(&0x5a21u16.to_le_bytes());
    v.extend_from_slice(&0xdeadbeefu32.to_le_bytes());
    if version >= 45 {
        v.extend_from_slice(&size.to_le_bytes());
        v.extend_from_slice(&size.to_le_bytes());
    } else {
        v.extend_from_slice(&(size as u32).to_le_bytes());
        v.extend_from_slice(&(size as u32).to_le_bytes());
    }
    v.extend_from_slice(&(name.len() as u16).to_le_bytes());
    v.extend_from_slice(&(extra.len() as u16).to_le_bytes());
    v.extend_from_slice(name.as_bytes());
    v.extend_from_slice(extra);
    v
}

fn local_entry(version: u16, method: u16, name: &str, data: &[u8]) -> Vec<u8> {
    let mut v = 0x04034b50u32.to_le_bytes().to_vec();
    v.extend(local_body(version, method, name, data.len() as u64, &[]));
    v.extend_from_slice(data);
    v
}

fn central_entry(version: u16, method: u16, name: &str, size: u32, offset: u32) -> Vec<u8> {
    let mut v = 0x02014b50u32.to_le_bytes().to_vec();
    v.extend_from_slice(&20u16.to_le_bytes());
    v.extend_from_slice(&version.to_le_bytes());
    v.extend_from_slice(&0u16.to_le_bytes());
    v.extend_from_slice(&method.to_le_bytes());
    v.extend_from_slice(&0u16.to_le_bytes());
    v.extend_from_slice(&0u16.to_le_bytes());
    v.extend_from_slice(&0u32.to_le_bytes());
    if version >= 45 {
        v.extend_from_slice(&(size as u64).to_le_bytes());
        v.extend_from_slice(&(size as u64).to_le_bytes());
    } else {
        v.extend_from_slice(&size.to_le_bytes());
        v.extend_from_slice(&size.to_le_bytes());
    }
    v.extend_from_slice(&(name.len() as u16).to_le_bytes());
    v.extend_from_slice(&3u16.to_le_bytes());
    v.extend_from_slice(&2u16.to_le_bytes());
    v.extend_from_slice(&0u16.to_le_bytes());
    v.extend_from_slice(&1u16.to_le_bytes());
    v.extend_from_slice(&0x81a40000u32.to_le_bytes());
    v.extend_from_slice(&offset.to_le_bytes());
    v.extend_from_slice(name.as_bytes());
    v.extend_from_slice(&[1, 0, 0]);
    v.extend_from_slice(b"ok");
    v
}

fn end_record(entries: u16, cd_size: u32, cd_offset: u32) -> Vec<u8> {
    let mut v = 0x06054b50u32.to_le_bytes().to_vec();
    v.extend_from_slice(&0u16.to_le_bytes());
    v.extend_from_slice(&0u16.to_le_bytes());
    v.extend_from_slice(&entries.to_le_bytes());
    v.extend_from_slice(&entries.to_le_bytes());
    v.extend_from_slice(&cd_size.to_le_bytes());
    v.extend_from_slice(&cd_offset.to_le_bytes());
    v.extend_from_slice(&0u16.to_le_bytes());
    v
}

/// A whole archive of the given (version, method, name, data) entries.
fn archive(entries: &[(u16, u16, &str, &[u8])]) -> Vec<u8> {
    let mut out = Vec::new();
    let mut offsets = Vec::new();
    for (version, method, name, data) in entries {
        offsets.push(out.len() as u32);
        out.extend(local_entry(*version, *method, name, data));
    }
    let cd_start = out.len();
    for (i, (version, method, name, data)) in entries.iter().enumerate() {
        out.extend(central_entry(*version, *method, name, data.len() as u32, offsets[i]));
    }
    let cd_size = (out.len() - cd_start) as u32;
    out.extend(end_record(entries.len() as u16, cd_size, cd_start as u32));
    out
}

#[test]
fn unpack_hello_txt() {
    let zip = archive(&[(10, STORE, "hello.txt", b"hi")]);
    let total = zip.len() as u64;
    let x = unpack(zip, true).unwrap();
    assert_eq!(x.entries.len(), 1);
    match &x.entries[0] {
        Entry::File { name, offset, contents } => {
            assert_eq!(name, "hello.txt");
            assert_eq!(*offset, 0);
            assert_eq!(contents, b"hi");
        }
        other => panic!("unexpected entry {:?}", other),
    }
    assert_eq!(x.position, total);
    assert_eq!(x.length, total);
}

#[test]
fn unpack_store_entries_copy_payloads() {
    let big: Vec<u8> = (0..3000u32).map(|i| (i * 7 % 251) as u8).collect();
    let zip = archive(&[
        (10, STORE, "a.txt", b"first"),
        (DIR_OR_DEFLATE, STORE, "dir/", b""),
        (10, STORE, "dir/b.bin", &big),
        (45, STORE, "wide.bin", b"64-bit sizes"),
    ]);
    let x = unpack(zip, true).unwrap();
    assert_eq!(x.entries.len(), 4);
    match &x.entries[0] {
        Entry::File { name, contents, .. } => {
            assert_eq!(name, "a.txt");
            assert_eq!(contents, b"first");
        }
        other => panic!("unexpected entry {:?}", other),
    }
    match &x.entries[1] {
        Entry::Directory { name } => assert_eq!(name, "dir/"),
        other => panic!("unexpected entry {:?}", other),
    }
    match &x.entries[2] {
        Entry::File { name, contents, .. } => {
            assert_eq!(name, "dir/b.bin");
            assert_eq!(contents, &big);
        }
        other => panic!("unexpected entry {:?}", other),
    }
    match &x.entries[3] {
        Entry::File { name, contents, .. } => {
            assert_eq!(name, "wide.bin");
            assert_eq!(contents, b"64-bit sizes");
        }
        other => panic!("unexpected entry {:?}", other),
    }
    assert_eq!(x.position, x.length);
}

#[test]
fn unpack_zero_length_entry_gives_empty_file() {
    let zip = archive(&[(10, STORE, "empty", b""), (10, STORE, "next", b"x")]);
    let x = unpack(zip, true).unwrap();
    assert_eq!(x.entries.len(), 2);
    match &x.entries[0] {
        Entry::File { name, contents, .. } => {
            assert_eq!(name, "empty");
            assert!(contents.is_empty());
        }
        other => panic!("unexpected entry {:?}", other),
    }
}

#[test]
fn unpack_unknown_method_fails_without_entries() {
    let zip = archive(&[(10, STORE, "ok.txt", b"fine"), (10, 14, "lzma.bin", b"????")]);
    assert_eq!(unpack(zip, true).unwrap_err(), ZipError::UnknownCompressionMethod(14));
}

#[test]
fn unpack_deflate_normal_dict32kb_word32() {
    // A final block with fixed Huffman codes: the method is reported as unsupported.
    let zip = archive(&[(DIR_OR_DEFLATE, DEFLATE, "words.txt", &[0x03, 0x00])]);
    assert_eq!(
        unpack(zip, true).unwrap_err(),
        ZipError::UnsupportedCompressionMethod(DEFLATE)
    );
}

#[test]
fn unpack_deflate_reserved_block_is_invalid() {
    let zip = archive(&[(DIR_OR_DEFLATE, DEFLATE, "bad", &[0x07])]);
    assert_eq!(unpack(zip, true).unwrap_err(), ZipError::InvalidDeflateBlock);
}

#[test]
fn unpack_into_non_empty_dir_fails() {
    let zip = archive(&[(10, STORE, "hello.txt", b"hi")]);
    assert_eq!(unpack(zip, false).unwrap_err(), ZipError::OutputDirNotEmpty);
}

#[test]
fn unpack_reports_unreadable_record_and_goes_on() {
    let mut zip = 0x04034b50u32.to_le_bytes().to_vec();
    // A local header whose name is not UTF-8.
    let mut bad = local_body(10, STORE, "xx", 0, &[]);
    let n = bad.len();
    bad[n - 2] = 0xff;
    bad[n - 1] = 0xfe;
    zip.extend(bad);
    zip.extend(local_entry(10, STORE, "good", b"data"));
    zip.extend(end_record(1, 0, 0));
    let x = unpack(zip, true).unwrap();
    assert_eq!(x.entries.len(), 2);
    match &x.entries[0] {
        Entry::Unreadable { kind, error } => {
            assert_eq!(*kind, RecordKind::LocalFile);
            assert_eq!(*error, ZipError::InvalidText);
        }
        other => panic!("unexpected entry {:?}", other),
    }
    match &x.entries[1] {
        Entry::File { name, contents, .. } => {
            assert_eq!(name, "good");
            assert_eq!(contents, b"data");
        }
        other => panic!("unexpected entry {:?}", other),
    }
}

#[test]
fn unpack_truncated_payload_fails() {
    let mut zip = local_entry(10, STORE, "cut", b"0123456789");
    zip.truncate(zip.len() - 3);
    assert_eq!(unpack(zip, true).unwrap_err(), ZipError::Truncated);
}

#[test]
fn unpack_skips_unknown_signature() {
    let mut zip = vec![1, 2, 3, 4];
    zip.extend(archive(&[(10, STORE, "f", b"z")]));
    let x = unpack(zip, true).unwrap();
    assert_eq!(x.entries.len(), 1);
    assert_eq!(x.position, x.length);
}

#[test]
fn unpack_empty_archive() {
    let x = unpack(Vec::new(), true).unwrap();
    assert!(x.entries.is_empty());
    assert_eq!(x.position, 0);
    assert_eq!(x.length, 0);
}

#[test]
fn local_header_round_trip_narrow_and_wide() {
    for version in [20u16, 45u16] {
        let body = local_body(version, STORE, "name.txt", 0x1234_5678, &[9, 9, 9]);
        let mut data = body.clone();
        data.extend_from_slice(&[0u8; 8]);
        let mut reader = ByteStream::new(data);
        let h = read_local_file_header(&mut reader).unwrap();
        let mut again = Vec::new();
        again.extend_from_slice(&h.version_to_extract.to_le_bytes());
        again.extend_from_slice(&h.general_bit_flag.to_le_bytes());
        again.extend_from_slice(&h.compression_method.to_le_bytes());
        again.extend_from_slice(&h.last_mod_file_time.to_le_bytes());
        again.extend_from_slice(&h.last_mod_file_date.to_le_bytes());
        again.extend_from_slice(&h.crc_32.to_le_bytes());
        if version >= 45 {
            again.extend_from_slice(&h.compressed_size.to_le_bytes());
            again.extend_from_slice(&h.uncompressed_size.to_le_bytes());
        } else {
            again.extend_from_slice(&(h.compressed_size as u32).to_le_bytes());
            again.extend_from_slice(&(h.uncompressed_size as u32).to_le_bytes());
        }
        again.extend_from_slice(&h.file_name_length.to_le_bytes());
        again.extend_from_slice(&h.extra_field_length.to_le_bytes());
        let fixed = if version >= 45 { 34 } else { 26 };
        assert_eq!(&again[..], &body[..fixed]);
        assert_eq!(h.file_name, "name.txt");
        assert_eq!(h.compressed_size, 0x1234_5678);
        assert_eq!(h.crc_32, 0xdeadbeef);
    }
}

#[test]
fn local_header_cursor_lands_on_name_then_data() {
    // Narrow size fields: the name starts 26 bytes in, 8 fewer than with wide ones.
    for (version, name_at) in [(10u16, 26u64), (45u16, 34u64)] {
        let mut data = local_body(version, STORE, "abc", 0, &[7, 7]);
        data.extend_from_slice(&[0u8; 8]);
        let mut reader = ByteStream::new(data);
        let h = read_local_file_header(&mut reader).unwrap();
        assert_eq!(h.file_name_length, 3);
        assert_eq!(h.extra_field_length, 2);
        assert_eq!(current_position(&reader), name_at + 3 + 2);
    }
}

#[test]
fn local_header_short_chunk_is_truncated() {
    let mut reader = ByteStream::new(vec![0u8; 33]);
    assert_eq!(read_local_file_header(&mut reader).unwrap_err(), ZipError::Truncated);
    assert_eq!(current_position(&reader), 33);
}

#[test]
fn central_header_fields() {
    let entry = central_entry(10, STORE, "n.txt", 77, 1234);
    let mut data = entry[4..].to_vec();
    data.extend_from_slice(&[0u8; 8]);
    let mut reader = ByteStream::new(data);
    let h = read_central_dir_file_header(&mut reader).unwrap();
    assert_eq!(h.version_made_by, 20);
    assert_eq!(h.compressed_size, 77);
    assert_eq!(h.file_name, "n.txt");
    assert_eq!(h.file_comment, "ok");
    assert_eq!(h.disk_number_start, 0);
    assert_eq!(h.internal_file_attribs, 1);
    assert_eq!(h.external_file_attribs, 0x81a40000);
    assert_eq!(h.local_header_rel_offset, 1234);
    assert_eq!(current_position(&reader), (entry.len() - 4) as u64);
}

#[test]
fn end_record_fields() {
    let mut data = end_record(3, 200, 1000)[4..].to_vec();
    data[16] = 5;
    data.extend_from_slice(b"hello");
    let mut reader = ByteStream::new(data);
    let e = read_end_of_central_dir(&mut reader).unwrap();
    assert_eq!(e.total_entries_in_central_dir, 3);
    assert_eq!(e.total_entries_in_central_dir_on_this_disk, 3);
    assert_eq!(e.central_dir_size, 200);
    assert_eq!(e.central_dir_offset_from_starting_disk_num, 1000);
    assert_eq!(e.zip_file_comment_length, 5);
    assert_eq!(e.zip_file_comment, "hello");
    assert_eq!(current_position(&reader), 23);
}

#[test]
fn end_record_missing_comment_is_truncated() {
    let mut data = end_record(0, 0, 0)[4..].to_vec();
    data[16] = 4;
    let mut reader = ByteStream::new(data);
    assert_eq!(read_end_of_central_dir(&mut reader).unwrap_err(), ZipError::Truncated);
    assert_eq!(current_position(&reader), 18);
}

#[test]
fn stream_navigation_in_memory() {
    let mut reader = ByteStream::new(b"01234567".to_vec());
    assert_eq!(length(&mut reader), 8);
    assert_eq!(current_position(&reader), 0);
    reader.read_exact(4).unwrap();
    assert_eq!(length(&mut reader), 8);
    assert_eq!(current_position(&reader), 4);
    assert_eq!(reader.seek_relative(-5), Err(ZipError::InvalidSeek));
    assert_eq!(current_position(&reader), 4);
    assert_eq!(reader.read_exact(4).unwrap(), b"4567".to_vec());
    reader.seek_relative(-2).unwrap();
    assert_eq!(reader.read_exact(5), Err(ZipError::Truncated));
    assert_eq!(current_position(&reader), 8);
}

#[test]
fn selects_strategy_by_method_code() {
    assert!(matches!(decompressor(&STORE), Ok(Decompressor::Store(_))));
    assert!(matches!(decompressor(&DEFLATE), Ok(Decompressor::Deflate(_))));
    assert!(matches!(decompressor(&1), Err(ZipError::UnknownCompressionMethod(1))));
}

#[test]
fn store_strategy_copies_bytes() {
    let mut reader = ByteStream::new(b"abcdefgh".to_vec());
    let mut out = b">".to_vec();
    let store = decompressor(&STORE).unwrap();
    store.decompress(&mut reader, &mut out, 2, 3).unwrap();
    assert_eq!(out, b">cde".to_vec());
    assert_eq!(current_position(&reader), 5);
    assert_eq!(store.decompress(&mut reader, &mut out, 6, 3), Err(ZipError::Truncated));
    assert_eq!(out, b">cde".to_vec());
    assert_eq!(current_position(&reader), 6);
    reader.seek_start(1);
    assert_eq!(store.decompress(&mut reader, &mut out, 6, 3), Err(ZipError::Truncated));
    assert_eq!(current_position(&reader), 6);
    store.decompress(&mut reader, &mut out, 7, 0).unwrap();
    assert_eq!(out, b">cde".to_vec());
    assert_eq!(current_position(&reader), 7);
}

#[test]
fn deflate_block_headers() {
    assert!(is_bit_set(0b0000_0001, 1));
    assert!(!is_bit_set(0b0000_0001, 2));
    assert!(is_bit_set(0b1000_0000, 8));
    let h = block_header(0b0000_0001);
    assert!(h.is_last);
    assert_eq!(h.block_type, BlockType::Stored);
    let h = block_header(0b0000_0010);
    assert!(!h.is_last);
    assert_eq!(h.block_type, BlockType::FixedHuffman);
    assert_eq!(block_header(0b0000_0101).block_type, BlockType::DynamicHuffman);
    assert_eq!(block_header(0b0000_0110).block_type, BlockType::Reserved);
}

fn stored_block(last: bool, data: &[u8]) -> Vec<u8> {
    let mut v = vec![if last { 1u8 } else { 0u8 }];
    let n = data.len() as u16;
    v.extend_from_slice(&n.to_le_bytes());
    v.extend_from_slice(&(!n).to_le_bytes());
    v.extend_from_slice(data);
    v
}

#[test]
fn unpack_deflate_stored_blocks() {
    let mut payload = stored_block(false, b"hello, ");
    payload.extend(stored_block(true, b"world"));
    payload.extend_from_slice(&[0xaa, 0xbb]);
    let zip = archive(&[(DIR_OR_DEFLATE, DEFLATE, "greeting.txt", &payload), (10, STORE, "s", b"!")]);
    let x = unpack(zip, true).unwrap();
    assert_eq!(x.entries.len(), 2);
    match &x.entries[0] {
        Entry::File { name, contents, .. } => {
            assert_eq!(name, "greeting.txt");
            assert_eq!(contents, b"hello, world");
        }
        other => panic!("unexpected entry {:?}", other),
    }
    match &x.entries[1] {
        Entry::File { contents, .. } => assert_eq!(contents, b"!"),
        other => panic!("unexpected entry {:?}", other),
    }
    assert_eq!(x.position, x.length);
}

#[test]
fn deflate_stored_block_with_bad_complement_is_invalid() {
    let mut payload = stored_block(true, b"abc");
    payload[3] ^= 1;
    let zip = archive(&[(DIR_OR_DEFLATE, DEFLATE, "bad.txt", &payload)]);
    assert_eq!(unpack(zip, true).unwrap_err(), ZipError::InvalidDeflateBlock);
}

#[test]
fn deflate_without_final_block_is_truncated() {
    let zip = archive(&[(DIR_OR_DEFLATE, DEFLATE, "open.txt", &stored_block(false, b"abc"))]);
    assert_eq!(unpack(zip, true).unwrap_err(), ZipError::Truncated);
}

#[test]
fn deflate_strategy_appends_inflated_bytes() {
    let mut data = b"xx".to_vec();
    data.extend(stored_block(true, b"deflated"));
    let len = data.len() as u64;
    let mut reader = ByteStream::new(data);
    let mut out = Vec::new();
    let deflate = decompressor(&DEFLATE).unwrap();
    deflate.decompress(&mut reader, &mut out, 2, len - 2).unwrap();
    assert_eq!(out, b"deflated".to_vec());
    assert_eq!(current_position(&reader), len);
}

#[test]
fn unpack_truncated_final_record_is_reported() {
    let mut zip = archive(&[(10, STORE, "hello.txt", b"hi")]);
    let n = zip.len();
    zip[n - 2] = 5;
    zip.extend_from_slice(b"ab");
    let total = zip.len() as u64;
    let x = unpack(zip, true).unwrap();
    assert_eq!(x.entries.len(), 2);
    match &x.entries[0] {
        Entry::File { name, contents, .. } => {
            assert_eq!(name, "hello.txt");
            assert_eq!(contents, b"hi");
        }
        other => panic!("unexpected entry {:?}", other),
    }
    match &x.entries[1] {
        Entry::Unreadable { kind, error } => {
            assert_eq!(*kind, RecordKind::CentralDirEnd);
            assert_eq!(*error, ZipError::Truncated);
        }
        other => panic!("unexpected entry {:?}", other),
    }
    assert_eq!(x.position, total);
}

#[test]
fn unpack_truncated_local_header_is_reported() {
    let mut zip = archive(&[(10, STORE, "a", b"x")]);
    zip.extend_from_slice(&0x04034b50u32.to_le_bytes());
    zip.extend_from_slice(&[0u8; 10]);
    let total = zip.len() as u64;
    let x = unpack(zip, true).unwrap();
    assert_eq!(x.entries.len(), 2);
    assert!(matches!(
        x.entries[1],
        Entry::Unreadable { kind: RecordKind::LocalFile, error: ZipError::Truncated }
    ));
    assert_eq!(x.position, total);
}

#[test]
fn deflate_failure_leaves_writer_and_cursor_unchanged() {
    let mut data = stored_block(false, b"kept?");
    data.extend_from_slice(&[0x03, 0x00]);
    let len = data.len() as u64;
    let mut reader = ByteStream::new(data);
    reader.seek_relative(3).unwrap();
    let mut out = b"w".to_vec();
    let deflate = decompressor(&DEFLATE).unwrap();
    assert_eq!(
        deflate.decompress(&mut reader, &mut out, 0, len),
        Err(ZipError::UnsupportedCompressionMethod(DEFLATE))
    );
    assert_eq!(out, b"w".to_vec());
    assert_eq!(current_position(&reader), 0);
}

#[test]
fn deflate_single_stored_block_gives_hi() {
    let data = vec![0x01, 0x02, 0x00, 0xfd, 0xff, 0x68, 0x69];
    let mut reader = ByteStream::new(data);
    let mut out = b"W".to_vec();
    decompressor(&DEFLATE).unwrap().decompress(&mut reader, &mut out, 0, 7).unwrap();
    assert_eq!(out, b"Whi".to_vec());
    assert_eq!(current_position(&reader), 7);
}
