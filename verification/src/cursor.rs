//! A stream in memory: a vector of bytes and an offset into it. It shows
//! that the contracts of the stream traits can be met, and gives a slice
//! something to stand on where no file or device is at hand.

use crate::io::{
    read_step, seek_step, seek_target, stored, write_step, Error, ErrorKind, Read, Seek, SeekFrom,
    Stream, Write,
};
use crate::stream_slice::StreamSlice;
use crate::window::clamped;
use vstd::prelude::*;

verus! {

/// `bytes` with `data` written over it from index `at` on. Where `at` lies
/// beyond the end of `bytes`, zeros fill the gap; where `data` reaches
/// beyond the end, the result is longer than `bytes`.
pub open spec fn overwritten(bytes: Seq<u8>, at: int, data: Seq<u8>) -> Seq<u8>
    recommends
        0 <= at,
{
    let padded = if at <= bytes.len() {
        bytes
    } else {
        bytes + Seq::new((at - bytes.len()) as nat, |i: int| 0u8)
    };
    let rest = if at + data.len() <= padded.len() {
        padded.skip(at + data.len())
    } else {
        Seq::empty()
    };
    padded.take(at) + data + rest
}

/// Writing over a sequence is a store in the sense of the stream model.
pub proof fn lemma_overwritten_is_stored(bytes: Seq<u8>, at: int, data: Seq<u8>)
    requires
        0 <= at,
        data.len() > 0 || at <= bytes.len(),
    ensures
        stored(bytes, at, data, overwritten(bytes, at, data)),
{
    let after = overwritten(bytes, at, data);
    assert forall|i: int| 0 <= i < bytes.len() && !(at <= i < at + data.len()) implies #[trigger] after[i]
        == bytes[i] by {}
    assert forall|i: int| 0 <= i < data.len() implies #[trigger] after[at + i] == data[i] by {}
}

/// A vector of bytes with an offset, as a stream that can be positioned,
/// read and written. Writing past the end makes the vector longer; a gap
/// between the old end and the place of the write is filled with zeros.
#[derive(Debug)]
pub struct Cursor {
    bytes: Vec<u8>,
    offset: u64,
}

impl Cursor {
    /// The stream over `bytes`, at offset 0.
    pub fn new(bytes: Vec<u8>) -> (c: Cursor)
        ensures
            c.bytes() == bytes@,
            c.offset() == 0,
    {
        Cursor { bytes, offset: 0 }
    }

    /// The bytes of the stream.
    pub fn into_inner(self) -> (bytes: Vec<u8>)
        ensures
            bytes@ == self.bytes(),
    {
        self.bytes
    }

    /// The offset at which the next transfer starts.
    pub fn position(&self) -> (offset: u64)
        ensures
            offset == self.offset(),
    {
        self.offset
    }

    /// The number of bytes that a read at offset `at` finds in a stream of
    /// `len` bytes for a buffer with room for `room`.
    pub open spec fn readable(len: nat, at: nat, room: nat) -> nat {
        let left = if at <= len { (len - at) as nat } else { 0 };
        if room <= left { room } else { left }
    }

    /// The number of bytes of a buffer of `len` bytes that a write at offset
    /// `at` stores: all of them, unless the vector would outgrow `usize`.
    pub open spec fn writable(at: nat, len: nat) -> nat
        recommends
            at <= usize::MAX,
    {
        if at + len <= usize::MAX { len } else { (usize::MAX - at) as nat }
    }
}

impl Clone for Cursor {
    /// A cursor of its own with the same bytes at the same offset.
    fn clone(&self) -> (c: Cursor)
        ensures
            c.bytes() == self.bytes(),
            c.offset() == self.offset(),
    {
        Cursor { bytes: self.bytes.clone(), offset: self.offset }
    }
}

impl Stream for Cursor {
    closed spec fn bytes(&self) -> Seq<u8> {
        self.bytes@
    }

    closed spec fn offset(&self) -> nat {
        self.offset as nat
    }

    /// No operation of a cursor leaves it anywhere but where it says.
    open spec fn settled(&self) -> bool {
        true
    }
}

impl Seek for Cursor {
    /// Any offset that a `u64` can hold is accepted, beyond the end too,
    /// with the length of the vector as the end. A target below zero or
    /// above `u64::MAX` is refused, and the cursor stays.
    open spec fn seek_outcome(pre: Self, pos: SeekFrom, r: Result<u64, Error>, post: Self) -> bool {
        let target = seek_target(pos, pre.offset() as int, pre.bytes().len() as int);
        &&& post.bytes() == pre.bytes()
        &&& if 0 <= target <= u64::MAX {
            r == Ok::<u64, Error>(target as u64) && post.offset() == target
        } else {
            &&& r matches Err(e) && e.kind == ErrorKind::InvalidInput && e.message@
                == "invalid seek to a negative or overflowing position"@
            &&& post.offset() == pre.offset()
        }
    }

    fn seek(&mut self, pos: SeekFrom) -> (r: Result<u64, Error>)
        ensures
            Self::seek_outcome(*old(self), pos, r, *final(self)),
    {
        let target: i128 = match pos {
            SeekFrom::Start(n) => n as i128,
            SeekFrom::End(d) => self.bytes.len() as i128 + d as i128,
            SeekFrom::Current(d) => self.offset as i128 + d as i128,
        };
        if target < 0 || target > u64::MAX as i128 {
            Err(Error::new(ErrorKind::InvalidInput, "invalid seek to a negative or overflowing position"))
        } else {
            self.offset = target as u64;
            Ok(target as u64)
        }
    }
}

impl Read for Cursor {
    /// A read never fails. It copies to the front of the buffer the bytes
    /// from the offset on, as many as the buffer has room for and the
    /// vector holds, and moves past them. The rest of the buffer stays.
    open spec fn read_outcome(
        pre: Self,
        buf: Seq<u8>,
        r: Result<usize, Error>,
        post: Self,
        filled: Seq<u8>,
    ) -> bool {
        let n = Cursor::readable(pre.bytes().len(), pre.offset(), buf.len());
        &&& r == Ok::<usize, Error>(n as usize)
        &&& post.bytes() == pre.bytes()
        &&& post.offset() == pre.offset() + n
        &&& filled.len() == buf.len()
        &&& forall|i: int| 0 <= i < n ==> #[trigger] filled[i] == pre.bytes()[pre.offset() + i]
        &&& forall|i: int| n <= i < buf.len() ==> #[trigger] filled[i] == buf[i]
    }

    fn read(&mut self, buf: &mut [u8]) -> (r: Result<usize, Error>)
        ensures
            Self::read_outcome(*old(self), old(buf)@, r, *final(self), final(buf)@),
    {
        let len: usize = self.bytes.len();
        if self.offset >= len as u64 {
            return Ok(0);
        }
        let at: usize = self.offset as usize;
        let left: usize = len - at;
        let n: usize = if buf.len() <= left { buf.len() } else { left };
        let mut i: usize = 0;
        while i < n
            invariant
                i <= n,
                n <= buf@.len(),
                at + n <= len,
                len == self.bytes@.len(),
                buf@.len() == old(buf)@.len(),
                *self == *old(self),
                forall|k: int| 0 <= k < i ==> buf@[k] == self.bytes@[at + k],
                forall|k: int| i <= k < buf@.len() ==> buf@[k] == old(buf)@[k],
            decreases n - i,
        {
            buf[i] = self.bytes[at + i];
            i += 1;
        }
        self.offset = self.offset + n as u64;
        assert(buf@.subrange(0, n as int) == old(self).bytes().subrange(at as int, at + n));
        Ok(n)
    }
}

impl Write for Cursor {
    /// A write stores the buffer in the vector from the offset on, over
    /// what is there and beyond the end, and moves past it. All of the
    /// buffer is stored unless the vector would outgrow `usize`: then as
    /// much as fits. A write of nothing changes nothing. A cursor at an
    /// offset that no vector can reach refuses to write, and stays.
    open spec fn write_outcome(pre: Self, buf: Seq<u8>, r: Result<usize, Error>, post: Self) -> bool {
        if pre.offset() <= usize::MAX {
            let n = Cursor::writable(pre.offset(), buf.len());
            &&& r == Ok::<usize, Error>(n as usize)
            &&& post.offset() == pre.offset() + n
            &&& post.bytes() == if n > 0 {
                overwritten(pre.bytes(), pre.offset() as int, buf.take(n as int))
            } else {
                pre.bytes()
            }
        } else {
            &&& r matches Err(e) && e.kind == ErrorKind::InvalidInput && e.message@
                == "cursor offset exceeds the greatest length of a vector"@
            &&& post.bytes() == pre.bytes()
            &&& post.offset() == pre.offset()
        }
    }

    /// A flush does nothing and never fails: a cursor holds nothing back.
    open spec fn flush_outcome(pre: Self, r: Result<(), Error>, post: Self) -> bool {
        &&& r is Ok
        &&& post.bytes() == pre.bytes()
        &&& post.offset() == pre.offset()
    }

    fn write(&mut self, buf: &[u8]) -> (r: Result<usize, Error>)
        ensures
            Self::write_outcome(*old(self), buf@, r, *final(self)),
    {
        if self.offset > usize::MAX as u64 {
            return Err(
                Error::new(
                    ErrorKind::InvalidInput,
                    "cursor offset exceeds the greatest length of a vector",
                ),
            );
        }
        let at: usize = self.offset as usize;
        let room: usize = usize::MAX - at;
        let n: usize = if buf.len() <= room { buf.len() } else { room };
        if n == 0 {
            return Ok(0);
        }
        while self.bytes.len() < at
            invariant
                self.offset == old(self).offset,
                old(self).bytes@.len() <= self.bytes@.len(),
                self.bytes@.len() <= old(self).bytes@.len() || self.bytes@.len() <= at,
                self.bytes@.subrange(0, old(self).bytes@.len() as int) == old(self).bytes@,
                forall|k: int| old(self).bytes@.len() <= k < self.bytes@.len() ==> self.bytes@[k] == 0,
            decreases at - self.bytes@.len(),
        {
            self.bytes.push(0);
        }
        let ghost filled = self.bytes@;
        let mut i: usize = 0;
        while i < n
            invariant
                i <= n,
                n <= buf@.len(),
                at + n <= usize::MAX,
                at <= filled.len(),
                self.offset == old(self).offset,
                old(self).bytes@.len() <= filled.len(),
                filled.len() <= old(self).bytes@.len() || filled.len() <= at,
                filled.subrange(0, old(self).bytes@.len() as int) == old(self).bytes@,
                forall|k: int| old(self).bytes@.len() <= k < at ==> filled[k] == 0,
                filled.len() <= self.bytes@.len(),
                self.bytes@.len() <= filled.len() || self.bytes@.len() <= at + i,
                at + i <= self.bytes@.len(),
                forall|k: int|
                    0 <= k < filled.len() && !(at <= k < at + i) ==> self.bytes@[k] == filled[k],
                forall|k: int| 0 <= k < i ==> self.bytes@[at + k] == buf@[k],
            decreases n - i,
        {
            if at + i < self.bytes.len() {
                self.bytes[at + i] = buf[i];
            } else {
                self.bytes.push(buf[i]);
            }
            i += 1;
        }
        self.offset = self.offset + n as u64;
        proof {
            let before = old(self).bytes();
            let data = buf@.take(n as int);
            let padded = if at <= before.len() {
                before
            } else {
                before + Seq::new((at - before.len()) as nat, |i: int| 0u8)
            };
            assert forall|k: int| 0 <= k < filled.len() implies filled[k] == padded[k] by {
                if k < before.len() {
                    assert(filled.subrange(0, before.len() as int)[k] == before[k]);
                }
            }
            assert(filled =~= padded);
            let expected = overwritten(before, at as int, data);
            assert(expected.len() == self.bytes@.len());
            assert forall|k: int| 0 <= k < expected.len() implies self.bytes@[k] == expected[k] by {
                if at <= k < at + n {
                    assert(self.bytes@[at + (k - at)] == buf@[k - at]);
                }
            }
            assert(self.bytes@ =~= expected);
            lemma_overwritten_is_stored(before, at as int, data);
        }
        Ok(n)
    }

    fn flush(&mut self) -> (r: Result<(), Error>)
        ensures
            Self::flush_outcome(*old(self), r, *final(self)),
    {
        Ok(())
    }
}

/// A seek of a slice of a cursor succeeds for every target in the window,
/// the end of the window too, and leaves the slice settled there. For any
/// other target it fails and nothing moves.
pub proof fn lemma_slice_of_cursor_seek(
    pre: StreamSlice<Cursor>,
    pos: SeekFrom,
    r: Result<u64, Error>,
    post: StreamSlice<Cursor>,
)
    requires
        pre.wf(),
        seek_step(pre, pos, r, post),
    ensures
        ({
            let target = seek_target(pos, pre.position() as int, pre.size() as int);
            if 0 <= target <= pre.size() {
                &&& r == Ok::<u64, Error>(target as u64)
                &&& post.position() == target
                &&& post.settled()
            } else {
                &&& r matches Err(e) && e.kind == ErrorKind::InvalidInput
                &&& post.stays(pre)
            }
        }),
{
}

/// A read of a slice of a cursor never fails. On a slice that stands in
/// step with its cursor it returns the bytes of the cursor from the place
/// of the position on: as many as the buffer has room for, the window has
/// left and the cursor holds.
pub proof fn lemma_slice_of_cursor_read(
    pre: StreamSlice<Cursor>,
    buf: Seq<u8>,
    r: Result<usize, Error>,
    post: StreamSlice<Cursor>,
    filled: Seq<u8>,
)
    requires
        pre.wf(),
        pre.settled(),
        read_step(pre, buf, r, post, filled),
    ensures
        ({
            let n = Cursor::readable(
                pre.inner().bytes().len(),
                pre.inner_offset(),
                clamped(pre.remaining(), buf.len()),
            );
            &&& r == Ok::<usize, Error>(n as usize)
            &&& post.position() == pre.position() + n
            &&& post.settled()
            &&& filled.len() == buf.len()
            &&& forall|i: int|
                0 <= i < n ==> #[trigger] filled[i] == pre.inner().bytes()[pre.inner_offset() + i]
            &&& forall|i: int| n <= i < buf.len() ==> #[trigger] filled[i] == buf[i]
        }),
{
    let limit = clamped(pre.remaining(), buf.len()) as int;
    let n = Cursor::readable(pre.inner().bytes().len(), pre.inner_offset(), limit as nat);
    if pre.remaining() > 0 {
        let at = pre.inner_offset() as int;
        assert forall|i: int| 0 <= i < n implies #[trigger] filled[i] == pre.inner().bytes()[at + i] by {
            assert(filled.take(limit)[i] == filled[i]);
        }
        assert forall|i: int| n <= i < buf.len() implies #[trigger] filled[i] == buf[i] by {
            if i < limit {
                assert(filled.take(limit)[i] == filled[i]);
            } else {
                assert(buf.skip(limit)[i - limit] == buf[i]);
            }
        }
    }
}

/// A write of a slice of a cursor never fails, where the window is one
/// that a vector can reach. On a slice that stands in step with its cursor
/// it stores the front of the buffer and reports how much: all of the
/// buffer, or as much as the window has left where the buffer is longer.
pub proof fn lemma_slice_of_cursor_write(
    pre: StreamSlice<Cursor>,
    buf: Seq<u8>,
    r: Result<usize, Error>,
    post: StreamSlice<Cursor>,
)
    requires
        pre.wf(),
        pre.settled(),
        pre.start_offset() + pre.size() <= usize::MAX,
        write_step(pre, buf, r, post),
    ensures
        ({
            let n = clamped(pre.remaining(), buf.len());
            &&& r == Ok::<usize, Error>(n as usize)
            &&& post.position() == pre.position() + n
            &&& post.settled()
            &&& post.inner().bytes() == if n > 0 {
                overwritten(pre.inner().bytes(), pre.inner_offset() as int, buf.take(n as int))
            } else {
                pre.inner().bytes()
            }
        }),
{
}

/// A slice of a cursor gives back exactly what was written through it. Take
/// a slice that stands in step with its cursor at position `at`, with a
/// window that a vector can reach, and data that fits between `at` and the
/// end of the window. Then writing the data stores all of it, seeking back
/// to `at` succeeds, and reading into a buffer as long as the data fills it
/// with the data.
pub proof fn lemma_slice_of_cursor_round_trip(
    s0: StreamSlice<Cursor>,
    data: Seq<u8>,
    written: Result<usize, Error>,
    s1: StreamSlice<Cursor>,
    at: u64,
    sought: Result<u64, Error>,
    s2: StreamSlice<Cursor>,
    buf: Seq<u8>,
    read: Result<usize, Error>,
    s3: StreamSlice<Cursor>,
    filled: Seq<u8>,
)
    requires
        s0.wf(),
        s0.settled(),
        s0.position() == at,
        at + data.len() <= s0.size(),
        s0.start_offset() + s0.size() <= usize::MAX,
        buf.len() == data.len(),
        write_step(s0, data, written, s1),
        seek_step(s1, SeekFrom::Start(at), sought, s2),
        read_step(s2, buf, read, s3, filled),
    ensures
        written == Ok::<usize, Error>(data.len() as usize),
        sought == Ok::<u64, Error>(at),
        read == Ok::<usize, Error>(data.len() as usize),
        filled == data,
{
    assert(filled.take(data.len() as int) == filled);
}

} // verus!
