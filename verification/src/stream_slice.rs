//! A stream that is a window of another: the bytes of a wrapped stream
//! between two offsets, with positions counted from the first of them.

use crate::io::{
    fetched, flush_step, read_step, seek_step, seek_target, stored, write_step, Error, ErrorKind,
    Read, Seek, SeekFrom, Stream, Write,
};
use crate::window::{clamped, Window};
use vstd::prelude::*;

verus! {

/// The part of `bytes` that a window of `size` bytes from index `start` on
/// covers. It is shorter than `size` where `bytes` ends inside the window,
/// and empty where `bytes` ends before it.
pub open spec fn window_bytes(bytes: Seq<u8>, start: int, size: int) -> Seq<u8> {
    let len = bytes.len() as int;
    bytes.subrange(
        if start <= len { start } else { len },
        if start + size <= len { start + size } else { len },
    )
}

/// Stream wrapper for accessing a limited segment of data from an underlying
/// file or device.
#[derive(Debug)]
pub struct StreamSlice<T: Seek> {
    inner: T,
    window: Window,
}

impl<T: Seek> StreamSlice<T> {
    /// The position never leaves the window, and the window ends at an
    /// offset that a `u64` can hold. Every slice that this module hands out
    /// is of this kind.
    pub open spec fn wf(&self) -> bool {
        &&& self.position() <= self.size()
        &&& self.start_offset() + self.size() <= u64::MAX
    }

    /// The wrapped stream.
    pub closed spec fn inner(&self) -> T {
        self.inner
    }

    /// The offset in the wrapped stream of the first byte of the window.
    pub closed spec fn start_offset(&self) -> nat {
        self.window.start() as nat
    }

    /// The number of bytes in the window.
    pub closed spec fn size(&self) -> nat {
        self.window.size() as nat
    }

    /// The position in the window at which the next transfer starts.
    pub closed spec fn position(&self) -> nat {
        self.window.position() as nat
    }

    /// The number of bytes between the position and the end of the window.
    pub open spec fn remaining(&self) -> nat {
        (self.size() - self.position()) as nat
    }

    /// The offset in the wrapped stream that the position corresponds to.
    pub open spec fn inner_offset(&self) -> nat {
        self.start_offset() + self.position()
    }

    /// Whether `self` is a well-formed slice with the window of `pre`.
    pub open spec fn keeps_window(&self, pre: Self) -> bool {
        &&& self.wf()
        &&& self.start_offset() == pre.start_offset()
        &&& self.size() == pre.size()
    }

    /// Whether `self` is `pre` with nothing moved: the same window, the
    /// same position, the same wrapped stream.
    pub open spec fn stays(&self, pre: Self) -> bool {
        &&& self.keeps_window(pre)
        &&& self.position() == pre.position()
        &&& self.inner() == pre.inner()
    }

    /// Creates new `StreamSlice` from inner stream and offset range.
    ///
    /// `start_offset` is inclusive offset of the first accessible byte.
    /// `end_offset` is exclusive offset of the first non-accessible byte.
    /// `start_offset` must be lower or equal to `end_offset`.
    ///
    /// The inner stream is moved to `start_offset`. The construction
    /// succeeds where that seek does, with the slice at position 0 around
    /// the stream as the seek left it, and fails where it fails, with the
    /// error of the seek.
    pub fn new(inner: T, start_offset: u64, end_offset: u64) -> (r: Result<Self, Error>)
        requires
            start_offset <= end_offset,
        ensures
            match r {
                Ok(s) => {
                    &&& s.wf()
                    &&& s.start_offset() == start_offset
                    &&& s.size() == end_offset - start_offset
                    &&& s.position() == 0
                    &&& seek_step(inner, SeekFrom::Start(start_offset), Ok(start_offset), s.inner())
                    &&& s.inner().bytes() == inner.bytes()
                    &&& s.settled()
                },
                Err(e) => exists|left: T|
                    seek_step(inner, SeekFrom::Start(start_offset), Err(e), left),
            },
    {
        let mut inner = inner;
        let ghost given = inner;
        match inner.seek(SeekFrom::Start(start_offset)) {
            Ok(_) => Ok(StreamSlice { inner, window: Window::new(start_offset, end_offset) }),
            Err(e) => {
                assert(seek_step(given, SeekFrom::Start(start_offset), Err(e), inner));
                Err(e)
            },
        }
    }

    /// Returns inner object
    pub fn into_inner(self) -> (inner: T)
        ensures
            inner == self.inner(),
    {
        self.inner
    }
}

impl<T: Seek + Clone> Clone for StreamSlice<T> {
    /// A slice with the same window and position around a clone of the
    /// inner stream.
    fn clone(&self) -> (r: Self)
        ensures
            r.keeps_window(*self),
            r.position() == self.position(),
            cloned(self.inner(), r.inner()),
    {
        proof {
            use_type_invariant(&self.window);
        }
        StreamSlice { inner: self.inner.clone(), window: self.window.clone() }
    }
}

impl<T: Seek> Stream for StreamSlice<T> {
    /// The bytes of the inner stream that lie in the window.
    open spec fn bytes(&self) -> Seq<u8> {
        window_bytes(self.inner().bytes(), self.start_offset() as int, self.size() as int)
    }

    /// The position in the window.
    open spec fn offset(&self) -> nat {
        self.position()
    }

    /// The inner stream is settled and stands at the position, counted
    /// from the start of the window.
    open spec fn settled(&self) -> bool {
        &&& self.inner().settled()
        &&& self.inner().offset() == self.inner_offset()
    }
}

impl<T: Seek> Seek for StreamSlice<T> {
    /// The target is measured with the end of the window as the end of the
    /// stream. A target before the window or beyond its end is refused, and
    /// nothing moves. Otherwise the inner stream is moved to the target,
    /// counted from its own start. Where that succeeds, the target is the
    /// new position and is returned; where it fails, the position stays and
    /// the error is handed on.
    open spec fn seek_outcome(pre: Self, pos: SeekFrom, r: Result<u64, Error>, post: Self) -> bool {
        let target = seek_target(pos, pre.position() as int, pre.size() as int);
        if 0 <= target <= pre.size() {
            let there = (pre.start_offset() + target) as u64;
            &&& post.keeps_window(pre)
            &&& match r {
                Ok(p) => {
                    &&& p == target
                    &&& post.position() == target
                    &&& seek_step(pre.inner(), SeekFrom::Start(there), Ok(there), post.inner())
                },
                Err(e) => {
                    &&& post.position() == pre.position()
                    &&& seek_step(pre.inner(), SeekFrom::Start(there), Err(e), post.inner())
                },
            }
        } else {
            &&& r matches Err(e) && e.kind == ErrorKind::InvalidInput && e.message@
                == "invalid seek"@
            &&& post.stays(pre)
        }
    }

    fn seek(&mut self, pos: SeekFrom) -> (r: Result<u64, Error>)
        ensures
            Self::seek_outcome(*old(self), pos, r, *final(self)),
    {
        proof {
            use_type_invariant(&self.window);
        }
        match self.window.resolve(pos) {
            Ok(target) => {
                let sought = self.inner.seek(SeekFrom::Start(self.window.absolute(target)));
                self.window.arrive(target, sought)
            },
            Err(e) => Err(e),
        }
    }
}

impl<T: Seek + Read> Read for StreamSlice<T> {
    /// At the end of the window nothing is read, and nothing moves.
    /// Elsewhere the inner stream reads into the front of the buffer, as far
    /// as the window reaches: into all of it, or into its first `remaining`
    /// bytes where it is longer than that; the rest of the buffer stays as
    /// it is. What the inner stream returns is returned, and the position
    /// moves past the bytes read, or stays where the read failed.
    open spec fn read_outcome(
        pre: Self,
        buf: Seq<u8>,
        r: Result<usize, Error>,
        post: Self,
        filled: Seq<u8>,
    ) -> bool {
        let limit = clamped(pre.remaining(), buf.len()) as int;
        if pre.remaining() == 0 {
            &&& r == Ok::<usize, Error>(0)
            &&& post.stays(pre)
            &&& filled == buf
        } else {
            &&& post.keeps_window(pre)
            &&& post.position() == pre.position() + match r {
                Ok(n) => n as int,
                Err(_) => 0,
            }
            &&& read_step(pre.inner(), buf.take(limit), r, post.inner(), filled.take(limit))
            &&& filled.len() == buf.len()
            &&& filled.skip(limit) == buf.skip(limit)
        }
    }

    fn read(&mut self, buf: &mut [u8]) -> (r: Result<usize, Error>)
        ensures
            Self::read_outcome(*old(self), old(buf)@, r, *final(self), final(buf)@),
    {
        proof {
            use_type_invariant(&self.window);
        }
        if self.window.at_end() {
            return Ok(0);
        }
        let limit: usize = self.window.clamp(buf.len());
        let (head, tail) = buf.split_at_mut(limit);
        let moved = self.inner.read(head);
        let ghost front = head@;
        let ghost back = tail@;
        let r = self.window.advance(moved);
        proof {
            assert(buf@.skip(limit as int) == back);
            assert(buf@.take(limit as int) == front);
            if let Ok(n) = r {
                assert(buf@.subrange(0, n as int) == front.subrange(0, n as int));
                if n > 0 && old(self).settled() {
                    let bytes = old(self).inner().bytes();
                    let at = old(self).inner_offset() as int;
                    assert(old(self).bytes().subrange(
                        old(self).position() as int,
                        old(self).position() + n,
                    ) == bytes.subrange(at, at + n));
                }
            }
        }
        r
    }
}

impl<T: Seek + Write> Write for StreamSlice<T> {
    /// At the end of the window nothing is written, and nothing moves.
    /// Elsewhere the inner stream writes the front of the buffer, as far as
    /// the window reaches: all of it, or its first `remaining` bytes where
    /// it is longer than that. What the inner stream returns is returned,
    /// and the position moves past the bytes written, or stays where the
    /// write failed.
    open spec fn write_outcome(pre: Self, buf: Seq<u8>, r: Result<usize, Error>, post: Self) -> bool {
        let limit = clamped(pre.remaining(), buf.len()) as int;
        if pre.remaining() == 0 {
            &&& r == Ok::<usize, Error>(0)
            &&& post.stays(pre)
        } else {
            &&& post.keeps_window(pre)
            &&& post.position() == pre.position() + match r {
                Ok(n) => n as int,
                Err(_) => 0,
            }
            &&& write_step(pre.inner(), buf.take(limit), r, post.inner())
        }
    }

    /// The inner stream is flushed, and what it returns is returned. The
    /// slice holds nothing back itself, and its position stays.
    open spec fn flush_outcome(pre: Self, r: Result<(), Error>, post: Self) -> bool {
        &&& post.keeps_window(pre)
        &&& post.position() == pre.position()
        &&& flush_step(pre.inner(), r, post.inner())
    }

    fn write(&mut self, buf: &[u8]) -> (r: Result<usize, Error>)
        ensures
            Self::write_outcome(*old(self), buf@, r, *final(self)),
    {
        proof {
            use_type_invariant(&self.window);
        }
        if self.window.at_end() {
            return Ok(0);
        }
        let limit: usize = self.window.clamp(buf.len());
        let moved = self.inner.write(&buf[0..limit]);
        let r = self.window.advance(moved);
        proof {
            if let Ok(n) = r {
                if old(self).settled() {
                    lemma_store_in_window(
                        old(self).inner().bytes(),
                        old(self).start_offset() as int,
                        old(self).size() as int,
                        old(self).position() as int,
                        buf@.subrange(0, n as int),
                        self.inner().bytes(),
                    );
                }
            }
        }
        r
    }

    fn flush(&mut self) -> (r: Result<(), Error>)
        ensures
            Self::flush_outcome(*old(self), r, *final(self)),
    {
        proof {
            use_type_invariant(&self.window);
        }
        self.inner.flush()
    }
}

/// A store that lies inside a window is a store on the window, and it leaves
/// the bytes outside the window as they are: none of them changes, and the
/// sequence grows no further than to the end of the window.
pub proof fn lemma_store_in_window(
    before: Seq<u8>,
    start: int,
    size: int,
    position: int,
    data: Seq<u8>,
    after: Seq<u8>,
)
    requires
        0 <= start,
        0 <= position,
        position + data.len() <= size,
        stored(before, start + position, data, after),
    ensures
        stored(window_bytes(before, start, size), position, data, window_bytes(after, start, size)),
        forall|j: int|
            0 <= j < before.len() && !(start <= j < start + size) ==> #[trigger] after[j]
                == before[j],
        after.len() <= before.len() || after.len() <= start + size,
{
    let w = window_bytes(before, start, size);
    let v = window_bytes(after, start, size);
    assert forall|i: int| 0 <= i < w.len() && !(position <= i < position + data.len()) implies
        #[trigger] v[i] == w[i] by {}
    assert forall|i: int| 0 <= i < data.len() implies #[trigger] v[position + i] == data[i] by {
        assert(after[start + position + i] == data[i]);
    }
}

/// A seek to a target in the window asks the inner stream, and where it
/// succeeds the slice stands at the target and the inner stream at the
/// target counted from its own start, so that the next transfer takes place
/// there. The bytes of the inner stream are as they were.
pub proof fn lemma_seek_inside<T: Seek>(
    pre: StreamSlice<T>,
    pos: SeekFrom,
    r: Result<u64, Error>,
    post: StreamSlice<T>,
)
    requires
        pre.wf(),
        0 <= seek_target(pos, pre.position() as int, pre.size() as int) <= pre.size(),
        seek_step(pre, pos, r, post),
    ensures
        post.keeps_window(pre),
        post.inner().bytes() == pre.inner().bytes(),
        match r {
            Ok(p) => {
                &&& p == seek_target(pos, pre.position() as int, pre.size() as int)
                &&& post.position() == p
                &&& post.settled()
                &&& post.inner().offset() == pre.start_offset() + p
            },
            Err(_) => post.position() == pre.position(),
        },
{
}

/// A seek to a target before the window or beyond its end fails as an
/// invalid seek, whatever the inner stream is, and leaves the slice and
/// the inner stream as they were.
pub proof fn lemma_seek_outside<T: Seek>(
    pre: StreamSlice<T>,
    pos: SeekFrom,
    r: Result<u64, Error>,
    post: StreamSlice<T>,
)
    requires
        pre.wf(),
        !(0 <= seek_target(pos, pre.position() as int, pre.size() as int) <= pre.size()),
        seek_step(pre, pos, r, post),
    ensures
        r matches Err(e) && e.kind == ErrorKind::InvalidInput && e.message@ == "invalid seek"@,
        post.stays(pre),
{
}

/// A read never takes a slice past the end of its window, and it changes
/// no byte of the inner stream. At the end of the window it returns 0 and
/// leaves everything as it was, the buffer too. On a settled slice the
/// bytes read are those of the inner stream from the place of the position
/// on. Of the buffer, what lies beyond the reach of the window stays as it
/// was.
pub proof fn lemma_read_in_window<T: Seek + Read>(
    pre: StreamSlice<T>,
    buf: Seq<u8>,
    r: Result<usize, Error>,
    post: StreamSlice<T>,
    filled: Seq<u8>,
)
    requires
        pre.wf(),
        read_step(pre, buf, r, post, filled),
    ensures
        post.keeps_window(pre),
        post.position() <= post.size(),
        post.inner().bytes() == pre.inner().bytes(),
        pre.remaining() == 0 ==> r == Ok::<usize, Error>(0) && post.stays(pre) && filled == buf,
        filled.skip(clamped(pre.remaining(), buf.len()) as int) == buf.skip(
            clamped(pre.remaining(), buf.len()) as int,
        ),
        match r {
            Ok(n) => {
                &&& n <= clamped(pre.remaining(), buf.len())
                &&& post.position() == pre.position() + n
                &&& pre.settled() ==> post.settled() && fetched(
                    pre.inner().bytes(),
                    pre.inner_offset() as int,
                    n as int,
                    filled,
                )
            },
            Err(_) => post.position() == pre.position(),
        },
{
    let limit = clamped(pre.remaining(), buf.len()) as int;
    if let Ok(n) = r {
        if pre.remaining() > 0 && n > 0 && pre.settled() {
            assert(filled.subrange(0, n as int) == filled.take(limit).subrange(0, n as int));
        }
    }
}

/// The number of bytes that reads with the results `results` returned in
/// all. A read that failed returned none.
pub open spec fn bytes_returned(results: Seq<Result<usize, Error>>) -> nat
    decreases results.len(),
{
    if results.len() == 0 {
        0
    } else {
        bytes_returned(results.drop_last()) + match results.last() {
            Ok(n) => n as nat,
            Err(_) => 0,
        }
    }
}

/// However many reads follow one another, and whether they succeed or
/// fail, the slice ends at the position where it began plus the number of
/// bytes that the reads returned, and that is never beyond the end of the
/// window. `slices` holds the slice before the first read and after each
/// read; `bufs`, `results` and `filled` hold, for each read, the buffer
/// before it, what it returned and the buffer after it.
pub proof fn lemma_reads_stay_in_window<T: Seek + Read>(
    slices: Seq<StreamSlice<T>>,
    bufs: Seq<Seq<u8>>,
    results: Seq<Result<usize, Error>>,
    filled: Seq<Seq<u8>>,
)
    requires
        slices.len() == results.len() + 1,
        bufs.len() == results.len(),
        filled.len() == results.len(),
        slices[0].wf(),
        forall|i: int|
            0 <= i < results.len() ==> read_step(
                slices[i],
                bufs[i],
                #[trigger] results[i],
                slices[i + 1],
                filled[i],
            ),
    ensures
        slices.last().keeps_window(slices[0]),
        slices.last().position() == slices[0].position() + bytes_returned(results),
        slices[0].position() + bytes_returned(results) <= slices[0].size(),
    decreases results.len(),
{
    if results.len() > 0 {
        let k = results.len() - 1;
        assert forall|i: int| 0 <= i < k implies read_step(
            slices.drop_last()[i],
            bufs.drop_last()[i],
            #[trigger] results.drop_last()[i],
            slices.drop_last()[i + 1],
            filled.drop_last()[i],
        ) by {}
        lemma_reads_stay_in_window(
            slices.drop_last(),
            bufs.drop_last(),
            results.drop_last(),
            filled.drop_last(),
        );
        lemma_read_in_window(slices[k], bufs[k], results[k], slices[k + 1], filled[k]);
    }
}

/// A write never takes a slice past the end of its window. At the end of
/// the window it returns 0 and leaves everything as it was. Elsewhere the
/// inner stream is handed the front of the buffer as far as the window
/// reaches, so no more than that is written. On a settled slice the bytes
/// written are stored in the inner stream at the place of the position, and
/// the inner stream is otherwise as it was: no byte outside the window
/// changes, and it grows no further than to the end of the window.
pub proof fn lemma_write_in_window<T: Seek + Write>(
    pre: StreamSlice<T>,
    buf: Seq<u8>,
    r: Result<usize, Error>,
    post: StreamSlice<T>,
)
    requires
        pre.wf(),
        write_step(pre, buf, r, post),
    ensures
        post.keeps_window(pre),
        post.position() <= post.size(),
        pre.remaining() == 0 ==> r == Ok::<usize, Error>(0) && post.stays(pre),
        pre.remaining() > 0 ==> write_step(
            pre.inner(),
            buf.take(clamped(pre.remaining(), buf.len()) as int),
            r,
            post.inner(),
        ),
        match r {
            Ok(n) => {
                &&& n <= clamped(pre.remaining(), buf.len())
                &&& post.position() == pre.position() + n
                &&& pre.settled() ==> {
                    &&& post.settled()
                    &&& stored(
                        pre.inner().bytes(),
                        pre.inner_offset() as int,
                        buf.take(n as int),
                        post.inner().bytes(),
                    )
                    &&& forall|j: int|
                        0 <= j < pre.inner().bytes().len() && !(pre.start_offset() <= j
                            < pre.start_offset() + pre.size()) ==> #[trigger] post.inner().bytes()[j]
                            == pre.inner().bytes()[j]
                    &&& post.inner().bytes().len() <= pre.inner().bytes().len()
                        || post.inner().bytes().len() <= pre.start_offset() + pre.size()
                }
            },
            Err(_) => post.position() == pre.position(),
        },
{
    if let Ok(n) = r {
        if pre.settled() {
            lemma_store_in_window(
                pre.inner().bytes(),
                pre.start_offset() as int,
                pre.size() as int,
                pre.position() as int,
                buf.take(n as int),
                post.inner().bytes(),
            );
        }
    }
}

/// A slice gives back what was written through it. Take a settled slice at
/// position `at` and data that fits between `at` and the end of the window.
/// Write the data, seek back to `at`, and read into a buffer as long as the
/// data. Then the bytes read are the bytes written, as far as both
/// transfers went, and where every byte was written and read, the buffer
/// holds the data. And the slice has cut nothing off: unless it stood at
/// the end of the window, where it leaves the inner stream alone, the inner
/// stream was handed all of the data and all of the buffer.
pub proof fn lemma_round_trip<T: Seek + Read + Write>(
    s0: StreamSlice<T>,
    data: Seq<u8>,
    written: usize,
    s1: StreamSlice<T>,
    at: u64,
    s2: StreamSlice<T>,
    buf: Seq<u8>,
    read: usize,
    s3: StreamSlice<T>,
    filled: Seq<u8>,
)
    requires
        s0.wf(),
        s0.settled(),
        s0.position() == at,
        at + data.len() <= s0.size(),
        buf.len() == data.len(),
        write_step(s0, data, Ok(written), s1),
        seek_step(s1, SeekFrom::Start(at), Ok(at), s2),
        read_step(s2, buf, Ok(read), s3, filled),
    ensures
        forall|i: int| 0 <= i < written && i < read ==> filled[i] == data[i],
        written == data.len() && read == data.len() ==> filled == data,
        at < s0.size() ==> write_step(s0.inner(), data, Ok(written), s1.inner()),
        at < s0.size() ==> read_step(s2.inner(), buf, Ok(read), s3.inner(), filled),
{
    crate::io::lemma_read_back(s0, data, written, s1, at, s2, buf, read, s3, filled);
    assert(data.take(data.len() as int) == data);
    assert(buf.take(buf.len() as int) == buf);
    assert(filled.take(filled.len() as int) == filled);
}

} // verus!
