//! The archive walker: scans the stream signature by signature, decodes each
//! record, and turns each local file entry into a directory or a file with
//! its decompressed content.

use vstd::prelude::*;
use vstd::utf8::decode_utf8;

use crate::algorithms::{decompressor, deflate_output, store_output, Decompressor};
use crate::records::{
    central_header_end, central_header_error, central_header_ok, end_record_end, end_record_error,
    end_record_ok, field, is_folder, local_chunk, local_header_end, local_header_error,
    local_header_ok, local_name_bytes, local_size_width, read_central_dir_file_header,
    read_end_of_central_dir, read_local_file_header, read_signature,
};
use crate::stream_nav::{current_position, length, ByteStream, MAX_STREAM_LEN};
use crate::structs::{
    DEFLATE, DIR_OR_DEFLATE, SIGNATURE_CENTRAL_DIR_END, SIGNATURE_CENTRAL_DIR_HEADER,
    SIGNATURE_FILE_HEADER, STORE,
};
use crate::zip_error::ZipError;

verus! {

/// The kind of a record.
#[derive(Debug, Clone, Copy, PartialEq, Eq, Structural)]
pub enum RecordKind {
    LocalFile,
    CentralDirFile,
    CentralDirEnd,
}

/// What the walk makes of one record.
#[derive(Debug)]
pub enum Entry {
    /// A directory to create.
    Directory { name: String },
    /// A file to create; `offset` is where its local header's signature starts.
    File { name: String, offset: u64, contents: Vec<u8> },
    /// A record that did not decode; the walk went on past it.
    Unreadable { kind: RecordKind, error: ZipError },
}

pub enum EntryView {
    Directory { name: Seq<char> },
    File { name: Seq<char>, offset: int, contents: Seq<u8> },
    Unreadable { kind: RecordKind, error: ZipError },
}

impl View for Entry {
    type V = EntryView;

    open spec fn view(&self) -> EntryView {
        match self {
            Entry::Directory { name } => EntryView::Directory { name: name@ },
            Entry::File { name, offset, contents } => EntryView::File {
                name: name@,
                offset: *offset as int,
                contents: contents@,
            },
            Entry::Unreadable { kind, error } => EntryView::Unreadable {
                kind: *kind,
                error: *error,
            },
        }
    }
}

pub open spec fn entries_view(v: Seq<Entry>) -> Seq<EntryView> {
    v.map_values(|e: Entry| e@)
}

/// The outcome of walking an archive from some offset.
pub enum Walk {
    /// The walk reached the end; `end` is where the cursor then stands.
    Done { entries: Seq<EntryView>, end: int },
    /// The walk stopped on `error`.
    Failed { error: ZipError },
}

pub open spec fn prepend(e: Seq<EntryView>, w: Walk) -> Walk {
    match w {
        Walk::Done { entries, end } => Walk::Done { entries: e + entries, end },
        Walk::Failed { error } => Walk::Failed { error },
    }
}

/// The compression method of the local file header at `p`.
pub open spec fn local_method(d: Seq<u8>, p: int) -> nat {
    field(local_chunk(d, p), 4, 2)
}

/// The declared compressed size of the local file header at `p`.
pub open spec fn local_compressed_size(d: Seq<u8>, p: int) -> nat {
    field(local_chunk(d, p), 14, local_size_width(local_chunk(d, p)))
}

/// The local file header at `p` marks a directory.
pub open spec fn local_is_folder(d: Seq<u8>, p: int) -> bool {
    local_method(d, p) == STORE as nat && field(local_chunk(d, p), 0, 2) == DIR_OR_DEFLATE as nat
}

/// What walking `d` from `pos` gives. A signature that cannot be read stops
/// the walk; a record that does not decode is reported and the walk goes on
/// from where the decoder left the cursor; an unknown compression method and
/// a failing strategy stop the walk; an unknown signature is passed over.
pub open spec fn walk(d: Seq<u8>, pos: int) -> Walk
    decreases
            (if pos < d.len() {
                d.len() - pos
            } else {
                0
            }),
{
    if pos >= d.len() {
        Walk::Done { entries: Seq::empty(), end: pos }
    } else if pos + 4 > d.len() {
        Walk::Failed { error: ZipError::Truncated }
    } else {
        let sig = field(d, pos, 4);
        let p = pos + 4;
        if sig == SIGNATURE_FILE_HEADER as nat {
            let q = local_header_end(d, p);
            if !local_header_ok(d, p) {
                prepend(
                    seq![EntryView::Unreadable { kind: RecordKind::LocalFile, error: local_header_error(d, p) }],
                    walk(d, q),
                )
            } else {
                let name = decode_utf8(local_name_bytes(d, p));
                let method = local_method(d, p);
                let n = local_compressed_size(d, p) as int;
                if local_is_folder(d, p) {
                    prepend(seq![EntryView::Directory { name }], walk(d, q))
                } else if method != STORE as nat && method != DEFLATE as nat {
                    Walk::Failed { error: ZipError::UnknownCompressionMethod(method as u16) }
                } else {
                    let out = if method == STORE as nat {
                        store_output(d, q, n)
                    } else {
                        deflate_output(d, q, n)
                    };
                    match out {
                        Ok(contents) => prepend(
                            seq![EntryView::File { name, offset: pos, contents }],
                            walk(d, q + n),
                        ),
                        Err(error) => Walk::Failed { error },
                    }
                }
            }
        } else if sig == SIGNATURE_CENTRAL_DIR_HEADER as nat {
            let q = central_header_end(d, p);
            if central_header_ok(d, p) {
                walk(d, q)
            } else {
                prepend(
                    seq![EntryView::Unreadable { kind: RecordKind::CentralDirFile, error: central_header_error(d, p) }],
                    walk(d, q),
                )
            }
        } else if sig == SIGNATURE_CENTRAL_DIR_END as nat {
            let q = end_record_end(d, p);
            if end_record_ok(d, p) {
                walk(d, q)
            } else {
                prepend(
                    seq![EntryView::Unreadable { kind: RecordKind::CentralDirEnd, error: end_record_error(d, p) }],
                    walk(d, q),
                )
            }
        } else {
            walk(d, p)
        }
    }
}

/// The outcome of a completed walk.
#[derive(Debug)]
pub struct Extraction {
    pub entries: Vec<Entry>,
    /// Where the cursor stood when the walk ended.
    pub position: u64,
    /// The archive's length.
    pub length: u64,
}

pub proof fn lemma_prepend_assoc(a: Seq<EntryView>, b: Seq<EntryView>, w: Walk)
    ensures
        prepend(a, prepend(b, w)) == prepend(a + b, w),
{
    match w {
        Walk::Done { entries, end } => {
            assert(a + (b + entries) =~= (a + b) + entries);
        },
        Walk::Failed { error } => {},
    }
}

pub proof fn lemma_prepend_empty(w: Walk)
    ensures
        prepend(Seq::empty(), w) == w,
{
    if let Walk::Done { entries, end } = w {
        assert(Seq::<EntryView>::empty() + entries =~= entries);
    }
}

/// Walks `archive` from its start. Fails before anything else where the
/// output directory is not empty; otherwise the result is `walk(archive, 0)`.
pub fn unpack(archive: Vec<u8>, out_dir_is_empty: bool) -> (r: Result<Extraction, ZipError>)
    requires
        archive@.len() <= MAX_STREAM_LEN,
    ensures
        !out_dir_is_empty ==> r == Err::<Extraction, ZipError>(ZipError::OutputDirNotEmpty),
        out_dir_is_empty ==> match walk(archive@, 0) {
            Walk::Done { entries, end } => r matches Ok(x) && entries_view(x.entries@) == entries
                && x.position == end && x.length == archive@.len(),
            Walk::Failed { error } => r == Err::<Extraction, ZipError>(error),
        },
{
    if !out_dir_is_empty {
        return Err(ZipError::OutputDirNotEmpty);
    }
    let ghost d = archive@;
    let mut reader = ByteStream::new(archive);
    let stream_len = length(&mut reader);
    let mut entries: Vec<Entry> = Vec::new();
    assert(prepend(entries_view(entries@), walk(d, 0)) == walk(d, 0)) by {
        assert(entries_view(entries@) =~= Seq::<EntryView>::empty());
        match walk(d, 0) {
            Walk::Done { entries: es, end } => {
                assert(Seq::<EntryView>::empty() + es =~= es);
            },
            Walk::Failed { error } => {},
        }
    }
    while current_position(&reader) < stream_len
        invariant
            reader.wf(),
            reader@.data == d,
            d == archive@,
            out_dir_is_empty,
            stream_len == d.len(),
            walk(d, 0) == prepend(entries_view(entries@), walk(d, reader@.pos as int)),
        decreases
                (if reader@.pos < d.len() {
                    d.len() - reader@.pos
                } else {
                    0
                }),
    {
        let start = current_position(&reader);
        let ghost pos = reader@.pos as int;
        let ghost before = entries@;
        let signature = read_signature(&mut reader)?;
        let ghost mut added: Seq<EntryView> = Seq::empty();
        if signature == SIGNATURE_FILE_HEADER {
            match read_local_file_header(&mut reader) {
                Ok(h) => {
                    if is_folder(&h) {
                        entries.push(Entry::Directory { name: h.file_name });
                        proof {
                            added = seq![entries@.last()@];
                        }
                    } else {
                        let strategy = decompressor(&h.compression_method)?;
                        let data_pos = current_position(&reader);
                        let mut contents: Vec<u8> = Vec::new();
                        strategy.decompress(&mut reader, &mut contents, data_pos, h.compressed_size)?;
                        proof {
                            assert(contents@.subrange(0, contents@.len() as int) =~= contents@);
                        }
                        entries.push(Entry::File { name: h.file_name, offset: start, contents });
                        proof {
                            added = seq![entries@.last()@];
                        }
                    }
                },
                Err(e) => {
                    entries.push(Entry::Unreadable { kind: RecordKind::LocalFile, error: e });
                    proof {
                        added = seq![entries@.last()@];
                    }
                },
            }
        } else if signature == SIGNATURE_CENTRAL_DIR_HEADER {
            match read_central_dir_file_header(&mut reader) {
                Ok(_) => {},
                Err(e) => {
                    entries.push(Entry::Unreadable { kind: RecordKind::CentralDirFile, error: e });
                    proof {
                        added = seq![entries@.last()@];
                    }
                },
            }
        } else if signature == SIGNATURE_CENTRAL_DIR_END {
            match read_end_of_central_dir(&mut reader) {
                Ok(_) => {},
                Err(e) => {
                    entries.push(Entry::Unreadable { kind: RecordKind::CentralDirEnd, error: e });
                    proof {
                        added = seq![entries@.last()@];
                    }
                },
            }
        }
        proof {
            assert(entries_view(entries@) =~= entries_view(before) + added);
            if added.len() == 0 {
                lemma_prepend_empty(walk(d, reader@.pos as int));
            }
            assert(walk(d, pos) == prepend(added, walk(d, reader@.pos as int)));
            lemma_prepend_assoc(entries_view(before), added, walk(d, reader@.pos as int));
        }
    }
    proof {
        assert(entries_view(entries@) + Seq::<EntryView>::empty() =~= entries_view(entries@));
    }
    let position = current_position(&reader);
    Ok(Extraction { entries, position, length: stream_len })
}


/// The file entry `contents`, produced for the local file header whose
/// signature starts at `offset`, holds what the entry's method makes of its
/// data: with Store, exactly the bytes that follow the header, as many as it
/// declares; with Deflate, their inflated form.
pub open spec fn file_from_payload(d: Seq<u8>, offset: int, contents: Seq<u8>) -> bool {
    let p = offset + 4;
    let q = local_header_end(d, p);
    let n = local_compressed_size(d, p) as int;
    &&& local_header_ok(d, p)
    &&& !local_is_folder(d, p)
    &&& local_method(d, p) == STORE as nat ==> {
        &&& contents.len() == n
        &&& n > 0 ==> q + n <= d.len() && contents == d.subrange(q, q + n)
    }
    &&& local_method(d, p) == DEFLATE as nat ==> deflate_output(d, q, n) == Ok::<
        Seq<u8>,
        ZipError,
    >(contents)
}

pub open spec fn all_files_from_payloads(d: Seq<u8>, entries: Seq<EntryView>) -> bool {
    forall|i: int|
        0 <= i < entries.len() ==> (#[trigger] entries[i] matches EntryView::File {
            offset,
            contents,
            ..
        } ==> file_from_payload(d, offset, contents))
}

/// Extraction copies Store entries verbatim: every file that a walk produces
/// comes from a local file header of the archive, and with Store its content
/// is the data that follows that header, exactly as many bytes as it declares.
pub proof fn lemma_files_hold_their_payloads(d: Seq<u8>, pos: int)
    requires
        0 <= pos,
    ensures
        walk(d, pos) matches Walk::Done { entries, .. } ==> all_files_from_payloads(d, entries),
    decreases
            (if pos < d.len() {
                d.len() - pos
            } else {
                0
            }),
{
    if pos < d.len() && pos + 4 <= d.len() {
        let p = pos + 4;
        let sig = field(d, pos, 4);
        if sig == SIGNATURE_FILE_HEADER as nat {
            let q = local_header_end(d, p);
            lemma_files_hold_their_payloads(d, q);
            let n = local_compressed_size(d, p) as int;
            if local_header_ok(d, p) && !local_is_folder(d, p) && (local_method(d, p)
                == STORE as nat || local_method(d, p) == DEFLATE as nat) {
                lemma_files_hold_their_payloads(d, q + n);
                lemma_file_entry(d, pos);
            } else {
                lemma_skipped_local_entry(d, pos);
            }
        } else if sig == SIGNATURE_CENTRAL_DIR_HEADER as nat {
            let q = central_header_end(d, p);
            lemma_files_hold_their_payloads(d, q);
            if let Walk::Done { entries, .. } = walk(d, q) {
                let e = EntryView::Unreadable {
                    kind: RecordKind::CentralDirFile,
                    error: central_header_error(d, p),
                };
                lemma_all_files_from_payloads_concat(d, seq![e], entries);
            }
        } else if sig == SIGNATURE_CENTRAL_DIR_END as nat {
            let q = end_record_end(d, p);
            lemma_files_hold_their_payloads(d, q);
            if let Walk::Done { entries, .. } = walk(d, q) {
                let e = EntryView::Unreadable {
                    kind: RecordKind::CentralDirEnd,
                    error: end_record_error(d, p),
                };
                lemma_all_files_from_payloads_concat(d, seq![e], entries);
            }
        } else {
            lemma_files_hold_their_payloads(d, p);
        }
    }
}

/// The step of the walk at a local file header that becomes a file.
proof fn lemma_file_entry(d: Seq<u8>, pos: int)
    requires
        0 <= pos,
        pos < d.len(),
        pos + 4 <= d.len(),
        field(d, pos, 4) == SIGNATURE_FILE_HEADER as nat,
        local_header_ok(d, pos + 4),
        !local_is_folder(d, pos + 4),
        local_method(d, pos + 4) == STORE as nat || local_method(d, pos + 4) == DEFLATE as nat,
        walk(
            d,
            local_header_end(d, pos + 4) + local_compressed_size(d, pos + 4),
        ) matches Walk::Done { entries, .. } ==> all_files_from_payloads(d, entries),
    ensures
        walk(d, pos) matches Walk::Done { entries, .. } ==> all_files_from_payloads(d, entries),
{
    let p = pos + 4;
    let q = local_header_end(d, p);
    let n = local_compressed_size(d, p) as int;
    let out = if local_method(d, p) == STORE as nat {
        store_output(d, q, n)
    } else {
        deflate_output(d, q, n)
    };
    if let Ok(contents) = out {
        if let Walk::Done { entries, .. } = walk(d, q + n) {
            let e = EntryView::File {
                name: decode_utf8(local_name_bytes(d, p)),
                offset: pos,
                contents,
            };
            assert(file_from_payload(d, pos, contents));
            lemma_all_files_from_payloads_concat(d, seq![e], entries);
        }
    }
}

/// The step of the walk at a local file header that becomes no file.
proof fn lemma_skipped_local_entry(d: Seq<u8>, pos: int)
    requires
        0 <= pos,
        pos < d.len(),
        pos + 4 <= d.len(),
        field(d, pos, 4) == SIGNATURE_FILE_HEADER as nat,
        !(local_header_ok(d, pos + 4) && !local_is_folder(d, pos + 4) && (local_method(d, pos + 4)
            == STORE as nat || local_method(d, pos + 4) == DEFLATE as nat)),
        walk(d, local_header_end(d, pos + 4)) matches Walk::Done { entries, .. }
            ==> all_files_from_payloads(d, entries),
    ensures
        walk(d, pos) matches Walk::Done { entries, .. } ==> all_files_from_payloads(d, entries),
{
    let p = pos + 4;
    if let Walk::Done { entries, .. } = walk(d, local_header_end(d, p)) {
        let e = if !local_header_ok(d, p) {
            EntryView::Unreadable { kind: RecordKind::LocalFile, error: local_header_error(d, p) }
        } else {
            EntryView::Directory { name: decode_utf8(local_name_bytes(d, p)) }
        };
        lemma_all_files_from_payloads_concat(d, seq![e], entries);
    }
}

proof fn lemma_all_files_from_payloads_concat(d: Seq<u8>, a: Seq<EntryView>, b: Seq<EntryView>)
    requires
        all_files_from_payloads(d, a),
        all_files_from_payloads(d, b),
    ensures
        all_files_from_payloads(d, a + b),
{
    assert forall|i: int| 0 <= i < (a + b).len() implies ((#[trigger] (a + b)[i]) matches EntryView::File {
        offset,
        contents,
        ..
    } ==> file_from_payload(d, offset, contents)) by {
        if i < a.len() {
            assert((a + b)[i] == a[i]);
        } else {
            assert((a + b)[i] == b[i - a.len()]);
        }
    }
}

/// A zero-length Store entry becomes an empty file, and the walk goes on
/// right after its header: no payload byte is read.
pub proof fn lemma_zero_length_entry(d: Seq<u8>, pos: int)
    requires
        0 <= pos,
        pos + 4 <= d.len(),
        field(d, pos, 4) == SIGNATURE_FILE_HEADER as nat,
        local_header_ok(d, pos + 4),
        local_method(d, pos + 4) == STORE as nat,
        !local_is_folder(d, pos + 4),
        local_compressed_size(d, pos + 4) == 0,
    ensures
        walk(d, pos) == prepend(
            seq![EntryView::File { name: decode_utf8(local_name_bytes(d, pos + 4)), offset: pos, contents: Seq::empty() }],
            walk(d, local_header_end(d, pos + 4)),
        ),
{
}

/// An entry whose compression method is neither Store nor Deflate stops the
/// walk with an error naming the method, so no entry of the archive is
/// extracted.
pub proof fn lemma_unknown_method_fails(d: Seq<u8>, pos: int)
    requires
        0 <= pos,
        pos + 4 <= d.len(),
        field(d, pos, 4) == SIGNATURE_FILE_HEADER as nat,
        local_header_ok(d, pos + 4),
        local_method(d, pos + 4) != STORE as nat,
        local_method(d, pos + 4) != DEFLATE as nat,
    ensures
        walk(d, pos) == (Walk::Failed {
            error: ZipError::UnknownCompressionMethod(local_method(d, pos + 4) as u16),
        }),
{
}


/// Where the record at `pos` ends when it decodes cleanly: past the entry's
/// data for a local file entry.
pub open spec fn clean_record_end(d: Seq<u8>, pos: int) -> int {
    let p = pos + 4;
    let sig = field(d, pos, 4);
    if sig == SIGNATURE_FILE_HEADER as nat {
        local_header_end(d, p) + local_compressed_size(d, p)
    } else if sig == SIGNATURE_CENTRAL_DIR_HEADER as nat {
        central_header_end(d, p)
    } else if sig == SIGNATURE_CENTRAL_DIR_END as nat {
        end_record_end(d, p)
    } else {
        pos
    }
}

/// The record at `pos` decodes cleanly: a Store file entry whose data is all
/// there, a central directory file header, or an end of central directory
/// record.
pub open spec fn clean_record(d: Seq<u8>, pos: int) -> bool {
    let p = pos + 4;
    let sig = field(d, pos, 4);
    &&& pos + 4 <= d.len()
    &&& sig == SIGNATURE_FILE_HEADER as nat ==> {
        &&& local_header_ok(d, p)
        &&& local_method(d, p) == STORE as nat
        &&& !local_is_folder(d, p)
        &&& local_header_end(d, p) + local_compressed_size(d, p) <= d.len()
    }
    &&& sig == SIGNATURE_CENTRAL_DIR_HEADER as nat ==> central_header_ok(d, p)
    &&& sig == SIGNATURE_CENTRAL_DIR_END as nat ==> end_record_ok(d, p)
    &&& sig == SIGNATURE_FILE_HEADER as nat || sig == SIGNATURE_CENTRAL_DIR_HEADER as nat || sig
        == SIGNATURE_CENTRAL_DIR_END as nat
}

/// The records from `pos` up to `stop` follow one another and all decode
/// cleanly.
pub open spec fn clean_records(d: Seq<u8>, pos: int, stop: int) -> bool
    decreases
            (if pos < stop {
                stop - pos
            } else {
                0
            }),
{
    if pos == stop {
        true
    } else if pos > stop {
        false
    } else {
        &&& clean_record(d, pos)
        &&& clean_record_end(d, pos) > pos
        &&& clean_records(d, clean_record_end(d, pos), stop)
    }
}

/// Each entry is a file made with Store from its entry's data.
pub open spec fn all_store_files(d: Seq<u8>, entries: Seq<EntryView>) -> bool {
    forall|i: int|
        0 <= i < entries.len() ==> (#[trigger] entries[i] matches EntryView::File {
            offset,
            contents,
            ..
        } && local_method(d, offset + 4) == STORE as nat && file_from_payload(d, offset, contents))
}

proof fn lemma_all_store_files_concat(d: Seq<u8>, a: Seq<EntryView>, b: Seq<EntryView>)
    requires
        all_store_files(d, a),
        all_store_files(d, b),
    ensures
        all_store_files(d, a + b),
{
    assert forall|i: int| 0 <= i < (a + b).len() implies ((#[trigger] (a + b)[i]) matches EntryView::File {
        offset,
        contents,
        ..
    } && local_method(d, offset + 4) == STORE as nat && file_from_payload(d, offset, contents)) by {
        if i < a.len() {
            assert((a + b)[i] == a[i]);
        } else {
            assert((a + b)[i] == b[i - a.len()]);
        }
    }
}

/// A well-formed Store-only archive extracts completely: when all its records
/// decode cleanly up to its end, the walk succeeds with the cursor at the end,
/// and every entry is a file holding exactly its entry's stored data, as many
/// bytes as the entry declares (none for a zero-length entry).
pub proof fn lemma_store_archive_extracts(d: Seq<u8>, pos: int)
    requires
        0 <= pos,
        clean_records(d, pos, d.len() as int),
    ensures
        walk(d, pos) matches Walk::Done { entries, end } && end == d.len() && all_store_files(
            d,
            entries,
        ),
    decreases d.len() - pos,
{
    if pos < d.len() {
        let p = pos + 4;
        let next = clean_record_end(d, pos);
        lemma_store_archive_extracts(d, next);
        if field(d, pos, 4) == SIGNATURE_FILE_HEADER as nat {
            lemma_store_entry_step(d, pos);
        } else if let Walk::Done { entries, .. } = walk(d, next) {
            lemma_all_store_files_concat(d, Seq::empty(), entries);
            assert(Seq::<EntryView>::empty() + entries =~= entries);
        }
    } else {
        assert(all_store_files(d, Seq::<EntryView>::empty()));
    }
}

/// The step of the walk at a cleanly decoding Store file entry.
proof fn lemma_store_entry_step(d: Seq<u8>, pos: int)
    requires
        0 <= pos < d.len(),
        clean_record(d, pos),
        field(d, pos, 4) == SIGNATURE_FILE_HEADER as nat,
        walk(d, clean_record_end(d, pos)) matches Walk::Done { entries, end } && end == d.len()
            && all_store_files(d, entries),
    ensures
        walk(d, pos) matches Walk::Done { entries, end } && end == d.len() && all_store_files(
            d,
            entries,
        ),
{
    let p = pos + 4;
    let q = local_header_end(d, p);
    let n = local_compressed_size(d, p) as int;
    if let Ok(contents) = store_output(d, q, n) {
        if let Walk::Done { entries, .. } = walk(d, q + n) {
            let e = EntryView::File {
                name: decode_utf8(local_name_bytes(d, p)),
                offset: pos,
                contents,
            };
            assert(file_from_payload(d, pos, contents));
            assert(all_store_files(d, seq![e]));
            lemma_all_store_files_concat(d, seq![e], entries);
        }
    }
}

/// The record at `pos` does not stop the walk: its signature is there, and a
/// local file entry that decodes is a directory or has a method whose
/// strategy succeeds on its data. A record that does not decode passes too:
/// it is reported.
pub open spec fn passing_record(d: Seq<u8>, pos: int) -> bool {
    let p = pos + 4;
    let q = local_header_end(d, p);
    let n = local_compressed_size(d, p) as int;
    &&& pos + 4 <= d.len()
    &&& field(d, pos, 4) == SIGNATURE_FILE_HEADER as nat && local_header_ok(d, p)
        && !local_is_folder(d, p) ==> {
        ||| local_method(d, p) == STORE as nat && store_output(d, q, n) is Ok
        ||| local_method(d, p) == DEFLATE as nat && deflate_output(d, q, n) is Ok
    }
}

/// Where the walk goes on after a passing record at `pos`.
pub open spec fn passing_record_end(d: Seq<u8>, pos: int) -> int {
    let p = pos + 4;
    let sig = field(d, pos, 4);
    if sig == SIGNATURE_FILE_HEADER as nat {
        if local_header_ok(d, p) && !local_is_folder(d, p) {
            local_header_end(d, p) + local_compressed_size(d, p)
        } else {
            local_header_end(d, p)
        }
    } else if sig == SIGNATURE_CENTRAL_DIR_HEADER as nat {
        central_header_end(d, p)
    } else if sig == SIGNATURE_CENTRAL_DIR_END as nat {
        end_record_end(d, p)
    } else {
        p
    }
}

/// The records from `pos` up to `stop` follow one another and none of them
/// stops the walk.
pub open spec fn passing_records(d: Seq<u8>, pos: int, stop: int) -> bool
    decreases
            (if pos < stop {
                stop - pos
            } else {
                0
            }),
{
    if pos == stop {
        true
    } else if pos > stop || pos >= d.len() {
        false
    } else {
        &&& passing_record(d, pos)
        &&& passing_records(d, passing_record_end(d, pos), stop)
    }
}

/// `b` is what `a` ends with.
pub open spec fn ends_with(a: Seq<EntryView>, b: Seq<EntryView>) -> bool {
    b.len() <= a.len() && a.subrange(a.len() - b.len(), a.len() as int) == b
}

proof fn lemma_ends_with_prepend(x: Seq<EntryView>, b: Seq<EntryView>)
    ensures
        ends_with(x + b, b),
{
    assert((x + b).subrange(x.len() as int, (x + b).len() as int) =~= b);
}

proof fn lemma_ends_with_trans(a: Seq<EntryView>, b: Seq<EntryView>, c: Seq<EntryView>)
    requires
        ends_with(a, b),
        ends_with(b, c),
    ensures
        ends_with(a, c),
{
    assert(a.subrange(a.len() - c.len(), a.len() as int) =~= b.subrange(
        b.len() - c.len(),
        b.len() as int,
    ));
}

/// One passing record: what the walk gives from `pos` is what it gives from
/// the next record, with the entries of this one in front.
proof fn lemma_passing_step(d: Seq<u8>, pos: int)
    requires
        0 <= pos < d.len(),
        passing_record(d, pos),
    ensures
        passing_record_end(d, pos) > pos,
        walk(d, passing_record_end(d, pos)) is Failed ==> walk(d, pos) == walk(
            d,
            passing_record_end(d, pos),
        ),
        walk(d, passing_record_end(d, pos)) matches Walk::Done { entries, end } ==> walk(
            d,
            pos,
        ) matches Walk::Done { entries: all, end: e2 } && e2 == end && ends_with(all, entries),
{
    assert forall|x: Seq<EntryView>, b: Seq<EntryView>| #[trigger] ends_with(x + b, b) by {
        lemma_ends_with_prepend(x, b);
    }
    if let Walk::Done { entries, .. } = walk(d, passing_record_end(d, pos)) {
        assert(Seq::<EntryView>::empty() + entries =~= entries);
    }
}

/// Records that do not stop the walk pass on what follows them: a failure
/// from `stop` is the failure from `pos`, and a completed walk from `stop`
/// ends the completed walk from `pos`, at the same offset.
pub proof fn lemma_passing_records(d: Seq<u8>, pos: int, stop: int)
    requires
        0 <= pos,
        passing_records(d, pos, stop),
    ensures
        walk(d, stop) is Failed ==> walk(d, pos) == walk(d, stop),
        walk(d, stop) matches Walk::Done { entries, end } ==> walk(d, pos) matches Walk::Done {
            entries: all,
            end: e2,
        } && e2 == end && ends_with(all, entries),
    decreases
            (if pos < stop {
                stop - pos
            } else {
                0
            }),
{
    if pos < stop {
        let next = passing_record_end(d, pos);
        lemma_passing_step(d, pos);
        lemma_passing_records(d, next, stop);
        if let Walk::Done { entries, .. } = walk(d, stop) {
            if let Walk::Done { entries: mid, .. } = walk(d, next) {
                if let Walk::Done { entries: all, .. } = walk(d, pos) {
                    lemma_ends_with_trans(all, mid, entries);
                }
            }
        }
    } else {
        if let Walk::Done { entries, .. } = walk(d, pos) {
            assert(entries.subrange(0, entries.len() as int) =~= entries);
        }
    }
}

/// Wherever a local file entry with a method that is neither Store nor
/// Deflate stands, extraction of an archive whose records before it do not
/// stop the walk fails with an error naming that method, and yields no entry
/// at all.
pub proof fn lemma_unknown_method_stops_extraction(d: Seq<u8>, stop: int)
    requires
        passing_records(d, 0, stop),
        0 <= stop,
        stop + 4 <= d.len(),
        field(d, stop, 4) == SIGNATURE_FILE_HEADER as nat,
        local_header_ok(d, stop + 4),
        local_method(d, stop + 4) != STORE as nat,
        local_method(d, stop + 4) != DEFLATE as nat,
    ensures
        walk(d, 0) == (Walk::Failed {
            error: ZipError::UnknownCompressionMethod(local_method(d, stop + 4) as u16),
        }),
{
    lemma_unknown_method_fails(d, stop);
    lemma_passing_records(d, 0, stop);
}

/// A zero-length Store entry in an archive whose other records do not stop
/// the walk: extraction succeeds, ends at the end of the archive, and yields
/// an empty file for the entry.
pub proof fn lemma_zero_length_entry_extracts(d: Seq<u8>, stop: int)
    requires
        passing_records(d, 0, stop),
        0 <= stop,
        stop + 4 <= d.len(),
        field(d, stop, 4) == SIGNATURE_FILE_HEADER as nat,
        local_header_ok(d, stop + 4),
        local_method(d, stop + 4) == STORE as nat,
        !local_is_folder(d, stop + 4),
        local_compressed_size(d, stop + 4) == 0,
        passing_records(d, local_header_end(d, stop + 4), d.len() as int),
    ensures
        walk(d, 0) matches Walk::Done { entries, end } && end == d.len() && exists|i: int|
            0 <= i < entries.len() && #[trigger] entries[i] == (EntryView::File {
                name: decode_utf8(local_name_bytes(d, stop + 4)),
                offset: stop,
                contents: Seq::empty(),
            }),
{
    let q = local_header_end(d, stop + 4);
    let e = EntryView::File {
        name: decode_utf8(local_name_bytes(d, stop + 4)),
        offset: stop,
        contents: Seq::empty(),
    };
    lemma_zero_length_entry(d, stop);
    lemma_passing_records(d, q, d.len() as int);
    assert(walk(d, d.len() as int) == Walk::Done { entries: Seq::empty(), end: d.len() as int });
    lemma_passing_records(d, 0, stop);
    if let Walk::Done { entries: rest, .. } = walk(d, q) {
        let here = seq![e] + rest;
        if let Walk::Done { entries: all, .. } = walk(d, 0) {
            let i = all.len() - here.len();
            assert(all[i] == all.subrange(i, all.len() as int)[0]);
            assert(all[i] == e);
        }
    }
}

} // verus!
