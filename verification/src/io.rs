//! Aligned I/O primitives: a seekable writer and a seekable reader over a
//! byte stream, with padding and alignment validation.
//!
//! All on-disk structures of the image are written aligned; the writer
//! refuses unaligned data.  The traits abstract over the byte sink/source so
//! that the serializer and loader can be exercised in memory, while a host
//! program performs the actual file transfers with the produced bytes.

use vstd::prelude::*;

use crate::{RafsError, RafsResult};

verus! {

/// Maximum number of padding bytes a single `write_padding` call accepts.
pub const WRITE_PADDING_MAX: usize = 64;

/// True if `n` is a power of two.
pub open spec fn pow2_spec(n: int) -> bool {
    vstd::arithmetic::power2::is_pow2(n)
}

/// `data` padded with zero bytes up to length `n` (unchanged if already as long).
pub open spec fn zero_extend(data: Seq<u8>, n: int) -> Seq<u8> {
    if data.len() >= n {
        data
    } else {
        data + Seq::new((n - data.len()) as nat, |i: int| 0u8)
    }
}

/// The result of writing `buf` at position `pos` into a seekable stream whose
/// contents are `data`: bytes before `pos` are kept (zero-filled if the
/// stream was shorter), the written range holds `buf`, bytes after it keep
/// their old values.
pub open spec fn write_at(data: Seq<u8>, pos: int, buf: Seq<u8>) -> Seq<u8> {
    let base = zero_extend(data, pos + buf.len());
    Seq::new(
        base.len(),
        |i: int|
            if pos <= i < pos + buf.len() {
                buf[i - pos]
            } else {
                base[i]
            },
    )
}

/// A sequence of `n` zero bytes.
pub open spec fn zeroes(n: int) -> Seq<u8> {
    Seq::new(n as nat, |i: int| 0u8)
}

/// A seekable sink for the bytes of a metadata or data blob.
///
/// `data` is everything written so far and `pos` the current cursor.  A
/// write at a cursor beyond the end zero-fills the gap, as a seekable file
/// does.
pub trait RafsIoWrite: Sized {
    /// The bytes of the stream.
    spec fn data(&self) -> Seq<u8>;

    /// The current cursor position.
    spec fn pos(&self) -> int;

    /// The cursor never runs outside the addressable range.
    spec fn wf(&self) -> bool;

    /// Write all of `buf` at the current position and advance the cursor.
    fn write_all(&mut self, buf: &[u8]) -> (r: RafsResult<()>)
        requires
            old(self).wf(),
            old(self).pos() + buf@.len() <= usize::MAX,
        ensures
            final(self).wf(),
            r is Ok,
            final(self).data() == write_at(old(self).data(), old(self).pos(), buf@),
            final(self).pos() == old(self).pos() + buf@.len(),
    ;

    /// Write `size` zero bytes of padding, to re-align the stream.
    /// Refuses more than `WRITE_PADDING_MAX` bytes.
    fn write_padding(&mut self, size: usize) -> (r: RafsResult<()>)
        requires
            old(self).wf(),
            old(self).pos() + size <= usize::MAX,
        ensures
            final(self).wf(),
            size > WRITE_PADDING_MAX ==> r is Err && *final(self) == *old(self),
            size <= WRITE_PADDING_MAX ==> {
                &&& r is Ok
                &&& final(self).data() == write_at(old(self).data(), old(self).pos(), zeroes(size as int))
                &&& final(self).pos() == old(self).pos() + size
            },
    ;

    /// Move the cursor to the end of the stream; returns the new position.
    fn seek_to_end(&mut self) -> (r: RafsResult<u64>)
        requires
            old(self).wf(),
        ensures
            final(self).wf(),
            final(self).data() == old(self).data(),
            final(self).pos() == old(self).data().len(),
            r matches Ok(p) && p == final(self).pos(),
    ;

    /// Move the cursor to `offset` from the start; returns the new position.
    fn seek_to_offset(&mut self, offset: u64) -> (r: RafsResult<u64>)
        requires
            old(self).wf(),
            offset <= usize::MAX,
        ensures
            final(self).wf(),
            final(self).data() == old(self).data(),
            final(self).pos() == offset,
            r matches Ok(p) && p == offset,
    ;

    /// Check that both `size` and the current cursor are multiples of
    /// `alignment`; fails with a corruption error on unaligned data.
    /// An `alignment` of zero disables the check.  Returns `size` on success.
    fn validate_alignment(&mut self, size: usize, alignment: usize) -> (r: RafsResult<usize>)
        requires
            old(self).wf(),
            alignment == 0 || pow2_spec(alignment as int),
        ensures
            *final(self) == *old(self),
            (alignment == 0 || (size % alignment == 0 && old(self).pos() % (alignment as int)
                == 0)) ==> (r matches Ok(s) && s == size),
            !(alignment == 0 || (size % alignment == 0 && old(self).pos() % (alignment as int)
                == 0)) ==> r is Err,
            r is Ok ==> (alignment == 0 || final(self).pos() % (alignment as int) == 0),
    ;
}

/// A seekable source of bootstrap bytes.
pub trait RafsIoRead: Sized {
    /// The bytes of the stream.
    spec fn data(&self) -> Seq<u8>;

    /// The current cursor position.
    spec fn pos(&self) -> int;

    /// Move the cursor forward to the next position aligned to `alignment`,
    /// assuming the last read took `last_read_len` bytes; returns the new
    /// position.
    fn seek_to_next_aligned(&mut self, last_read_len: usize, alignment: usize) -> (r: RafsResult<
        u64,
    >)
        requires
            0 < alignment,
            pow2_spec(alignment as int),
            old(self).pos() + alignment <= u64::MAX,
        ensures
            final(self).data() == old(self).data(),
            final(self).pos() == old(self).pos() + (if last_read_len % alignment == 0 {
                0int
            } else {
                (alignment - last_read_len % alignment) as int
            }),
            r matches Ok(p) && p == final(self).pos(),
    ;

    /// Move the cursor forward by `plus_offset` bytes; returns the new
    /// position.
    fn seek_plus_offset(&mut self, plus_offset: i64) -> (r: RafsResult<u64>)
        requires
            0 <= old(self).pos() + plus_offset <= u64::MAX,
        ensures
            final(self).data() == old(self).data(),
            final(self).pos() == old(self).pos() + plus_offset,
            r matches Ok(p) && p == final(self).pos(),
    ;

    /// Move the cursor to `offset` from the start; returns the new position.
    fn seek_to_offset(&mut self, offset: u64) -> (r: RafsResult<u64>)
        ensures
            final(self).data() == old(self).data(),
            final(self).pos() == offset,
            r matches Ok(p) && p == offset,
    ;

    /// Move the cursor to `offset` back from the end; returns the new
    /// position.
    fn seek_to_end(&mut self, offset: i64) -> (r: RafsResult<u64>)
        requires
            0 <= old(self).data().len() + offset <= u64::MAX,
        ensures
            final(self).data() == old(self).data(),
            final(self).pos() == old(self).data().len() + offset,
            r matches Ok(p) && p == final(self).pos(),
    ;
}

/// An in-memory seekable writer: the byte buffer plus a cursor.
pub struct MemWriter {
    buf: Vec<u8>,
    cursor: u64,
}

impl MemWriter {
    /// An empty stream with the cursor at the start.
    pub fn new() -> (w: MemWriter)
        ensures
            w.wf(),
            w.data() == Seq::<u8>::empty(),
            w.pos() == 0,
    {
        MemWriter { buf: Vec::new(), cursor: 0 }
    }

    /// Hand out the bytes written so far.
    pub fn into_inner(self) -> (r: Vec<u8>)
        ensures
            r@ == self.data(),
    {
        self.buf
    }

    /// The number of bytes in the stream.
    pub fn len(&self) -> (n: usize)
        ensures
            n == self.data().len(),
    {
        self.buf.len()
    }
}

impl RafsIoWrite for MemWriter {
    closed spec fn data(&self) -> Seq<u8> {
        self.buf@
    }

    closed spec fn pos(&self) -> int {
        self.cursor as int
    }

    closed spec fn wf(&self) -> bool {
        self.cursor <= usize::MAX
    }

    fn write_all(&mut self, buf: &[u8]) -> (r: RafsResult<()>) {
        let n = buf.len();
        let pos = self.cursor as usize;
        while self.buf.len() < pos
            invariant
                pos <= usize::MAX,
                self.cursor == old(self).cursor,
                pos == self.cursor,
                self.buf@ == zero_extend(old(self).buf@, self.buf@.len() as int),
                old(self).buf@.len() <= self.buf@.len(),
                self.buf@.len() <= vstd::math::max(old(self).buf@.len() as int, pos as int),
            decreases pos - self.buf@.len(),
        {
            self.buf.push(0u8);
            assert(self.buf@ =~= zero_extend(old(self).buf@, self.buf@.len() as int));
        }
        assert(self.buf@ =~= zero_extend(old(self).buf@, pos as int));
        assert(self.buf@ =~= write_at(old(self).buf@, pos as int, buf@.take(0)));
        let mut i: usize = 0;
        while i < n
            invariant
                i <= n,
                n == buf@.len(),
                pos + n <= usize::MAX,
                self.cursor == old(self).cursor,
                pos == self.cursor,
                self.buf@ == write_at(old(self).buf@, pos as int, buf@.take(i as int)),
                self.buf@.len() == vstd::math::max(old(self).buf@.len() as int, pos + i),
            decreases n - i,
        {
            let off = pos + i;
            if off < self.buf.len() {
                self.buf.set(off, buf[i]);
            } else {
                self.buf.push(buf[i]);
            }
            assert(self.buf@ =~= write_at(old(self).buf@, pos as int, buf@.take(i + 1)));
            i = i + 1;
        }
        assert(buf@.take(n as int) =~= buf@);
        self.cursor = self.cursor + n as u64;
        Ok(())
    }

    fn write_padding(&mut self, size: usize) -> (r: RafsResult<()>) {
        if size > WRITE_PADDING_MAX {
            return Err(RafsError::Io("invalid padding size".to_string()));
        }
        let mut pad: Vec<u8> = Vec::new();
        while pad.len() < size
            invariant
                size <= 64,
                pad@.len() <= size,
                pad@ == zeroes(pad@.len() as int),
            decreases size - pad@.len(),
        {
            pad.push(0u8);
            assert(pad@ =~= zeroes(pad@.len() as int));
        }
        assert(pad@ =~= zeroes(size as int));
        self.write_all(pad.as_slice())
    }

    fn seek_to_end(&mut self) -> (r: RafsResult<u64>) {
        self.cursor = self.buf.len() as u64;
        Ok(self.cursor)
    }

    fn seek_to_offset(&mut self, offset: u64) -> (r: RafsResult<u64>) {
        self.cursor = offset;
        Ok(offset)
    }

    fn validate_alignment(&mut self, size: usize, alignment: usize) -> (r: RafsResult<usize>) {
        if alignment != 0 {
            let cur = self.cursor as usize;
            if size % alignment != 0 || cur % alignment != 0 {
                return Err(RafsError::Corruption("unaligned data".to_string()));
            }
        }
        Ok(size)
    }
}

/// An in-memory seekable reader: the byte buffer plus a cursor.
pub struct MemReader {
    buf: Vec<u8>,
    cursor: u64,
}

impl MemReader {
    /// A stream over `bytes` with the cursor at the start.
    pub fn new(bytes: Vec<u8>) -> (rd: MemReader)
        ensures
            rd.data() == bytes@,
            rd.pos() == 0,
    {
        MemReader { buf: bytes, cursor: 0 }
    }
}

impl RafsIoRead for MemReader {
    closed spec fn data(&self) -> Seq<u8> {
        self.buf@
    }

    closed spec fn pos(&self) -> int {
        self.cursor as int
    }

    fn seek_to_next_aligned(&mut self, last_read_len: usize, alignment: usize) -> (r: RafsResult<
        u64,
    >) {
        let suffix = last_read_len % alignment;
        let offset = if suffix == 0 {
            0
        } else {
            alignment - suffix
        };
        self.cursor = self.cursor + offset as u64;
        Ok(self.cursor)
    }

    fn seek_plus_offset(&mut self, plus_offset: i64) -> (r: RafsResult<u64>) {
        if plus_offset >= 0 {
            self.cursor = self.cursor + plus_offset as u64;
        } else {
            let back = (-(plus_offset as i128)) as u64;
            self.cursor = self.cursor - back;
        }
        Ok(self.cursor)
    }

    fn seek_to_offset(&mut self, offset: u64) -> (r: RafsResult<u64>) {
        self.cursor = offset;
        Ok(offset)
    }

    fn seek_to_end(&mut self, offset: i64) -> (r: RafsResult<u64>) {
        let end = self.buf.len() as u64;
        if offset >= 0 {
            self.cursor = end + offset as u64;
        } else {
            let back = (-(offset as i128)) as u64;
            self.cursor = end - back;
        }
        Ok(self.cursor)
    }
}

} // verus!
