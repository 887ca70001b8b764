//! A seekable, readable stream over the bytes of an archive, and the two
//! navigation queries the walker interleaves with its reads.

use vstd::prelude::*;

use crate::zip_error::ZipError;

verus! {

/// The largest stream length: Rust never allocates more than `isize::MAX` bytes.
pub const MAX_STREAM_LEN: u64 = 0x7fff_ffff_ffff_ffff;

/// What a stream holds and where its cursor stands. The cursor may stand past
/// the end, as a file cursor may; reads there fail.
pub struct StreamView {
    pub data: Seq<u8>,
    pub pos: nat,
}

/// Where a read that ran out of bytes leaves a cursor that stood at `pos`.
pub open spec fn after_short_read(d: Seq<u8>, pos: int) -> int {
    if pos > d.len() {
        pos
    } else {
        d.len() as int
    }
}

pub struct ByteStream {
    data: Vec<u8>,
    pos: u64,
}

impl View for ByteStream {
    type V = StreamView;

    closed spec fn view(&self) -> StreamView {
        StreamView { data: self.data@, pos: self.pos as nat }
    }
}

impl ByteStream {
    /// Holds for every stream: its length fits an allocation.
    pub closed spec fn wf(&self) -> bool {
        self.data@.len() <= MAX_STREAM_LEN
    }

    pub proof fn lemma_wf(&self)
        ensures
            self.wf() <==> self@.data.len() <= MAX_STREAM_LEN,
            self@.pos <= u64::MAX,
    {
    }

    /// A stream over `data` with the cursor at offset 0.
    pub fn new(data: Vec<u8>) -> (r: ByteStream)
        requires
            data@.len() <= MAX_STREAM_LEN,
        ensures
            r.wf(),
            r@.data == data@,
            r@.pos == 0,
    {
        ByteStream { data, pos: 0 }
    }

    /// Moves the cursor to `pos`, which may lie past the end.
    pub fn seek_start(&mut self, pos: u64)
        ensures
            final(self).wf() == old(self).wf(),
            final(self)@.data == old(self)@.data,
            final(self)@.pos == pos,
    {
        self.pos = pos;
    }

    /// Moves the cursor to its end.
    pub fn seek_end(&mut self) -> (r: u64)
        requires
            old(self).wf(),
        ensures
            final(self).wf(),
            final(self)@.data == old(self)@.data,
            final(self)@.pos == old(self)@.data.len(),
            r == old(self)@.data.len(),
    {
        self.pos = self.data.len() as u64;
        self.pos
    }

    /// Moves the cursor by `delta` bytes. Fails, leaving it in place, where the
    /// target would lie before offset 0 or past `u64::MAX`.
    pub fn seek_relative(&mut self, delta: i64) -> (r: Result<(), ZipError>)
        ensures
            final(self).wf() == old(self).wf(),
            final(self)@.data == old(self)@.data,
            r is Ok <==> 0 <= old(self)@.pos + delta <= u64::MAX,
            r is Ok ==> final(self)@.pos == old(self)@.pos + delta,
            r matches Err(e) ==> e == ZipError::InvalidSeek && final(self)@.pos == old(self)@.pos,
    {
        if delta < 0 {
            let back: u64 = if delta == i64::MIN {
                0x8000_0000_0000_0000
            } else {
                (-delta) as u64
            };
            if back > self.pos {
                return Err(ZipError::InvalidSeek);
            }
            self.pos = self.pos - back;
        } else {
            if delta as u64 > u64::MAX - self.pos {
                return Err(ZipError::InvalidSeek);
            }
            self.pos = self.pos + delta as u64;
        }
        Ok(())
    }

    /// Reads exactly `n` bytes at the cursor and moves past them. Fails where
    /// fewer than `n` bytes remain, having consumed what was left: the cursor
    /// then stands at the end, or stays where it was if already past it.
    pub fn read_exact(&mut self, n: usize) -> (r: Result<Vec<u8>, ZipError>)
        ensures
            final(self).wf() == old(self).wf(),
            final(self)@.data == old(self)@.data,
            r is Ok <==> old(self)@.pos + n <= old(self)@.data.len(),
            r matches Ok(b) ==> {
                &&& b@ == old(self)@.data.subrange(
                    old(self)@.pos as int,
                    old(self)@.pos + n,
                )
                &&& final(self)@.pos == old(self)@.pos + n
            },
            r matches Err(e) ==> e == ZipError::Truncated && final(self)@.pos == after_short_read(
                old(self)@.data,
                old(self)@.pos as int,
            ),
    {
        let len = self.data.len();
        if self.pos > len as u64 {
            return Err(ZipError::Truncated);
        }
        if ((len as u64 - self.pos) as usize) < n {
            self.pos = len as u64;
            return Err(ZipError::Truncated);
        }
        let start = self.pos as usize;
        let mut out: Vec<u8> = Vec::with_capacity(n);
        let mut i: usize = 0;
        while i < n
            invariant
                len == self.data@.len(),
                start + n <= len,
                i <= n,
                out@ == self.data@.subrange(start as int, start + i),
            decreases n - i,
        {
            out.push(self.data[start + i]);
            i = i + 1;
            assert(out@ =~= self.data@.subrange(start as int, start + i));
        }
        self.pos = self.pos + n as u64;
        Ok(out)
    }
}

/// The cursor's offset; the stream does not move.
pub fn current_position(stream: &ByteStream) -> (r: u64)
    ensures
        r == stream@.pos,
{
    stream.pos
}

/// The stream's length. Seeks to the end and back, so the cursor ends where it
/// started.
pub fn length(stream: &mut ByteStream) -> (r: u64)
    requires
        old(stream).wf(),
    ensures
        final(stream).wf(),
        final(stream)@ == old(stream)@,
        r == old(stream)@.data.len(),
{
    let old_pos = current_position(stream);
    let len = stream.seek_end();
    stream.seek_start(old_pos);
    len
}

} // verus!
