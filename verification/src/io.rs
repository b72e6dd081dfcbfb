//! The stream capabilities that a slice is built on and offers in turn:
//! positioning, reading and writing, each a trait of its own, over one
//! common model of a stream as a sequence of bytes and an offset into it.

use vstd::prelude::*;

verus! {

/// The category of an [`Error`].
#[derive(Clone, Copy, Debug, PartialEq, Eq, Structural)]
pub enum ErrorKind {
    /// An argument was not acceptable, such as a seek outside the stream.
    InvalidInput,
    /// The data met was not what the operation can work with.
    InvalidData,
    /// The operation lacked the permission it needs.
    PermissionDenied,
    /// The operation would have had to wait and was asked not to.
    WouldBlock,
    /// The operation ran out of time.
    TimedOut,
    /// The operation was interrupted and can be tried again.
    Interrupted,
    /// A write that had to make progress transferred nothing.
    WriteZero,
    /// The stream ended before the operation had what it needed.
    UnexpectedEof,
    /// The stream does not offer the operation.
    Unsupported,
    /// Any other failure.
    Other,
}

/// A failed stream operation: its category and a message for people.
#[derive(Debug, PartialEq, Eq)]
pub struct Error {
    /// What went wrong, in broad terms.
    pub kind: ErrorKind,
    /// What went wrong, in words.
    pub message: String,
}

impl Error {
    /// An error of the given kind with the given message.
    pub fn new(kind: ErrorKind, message: &str) -> (e: Error)
        ensures
            e.kind == kind,
            e.message@ == message@,
    {
        Error { kind, message: message.to_owned() }
    }
}

impl Clone for Error {
    fn clone(&self) -> (e: Error)
        ensures
            e == *self,
    {
        Error { kind: self.kind, message: self.message.clone() }
    }
}

/// The origin of a seek and the distance from it.
#[derive(Clone, Copy, Debug, PartialEq, Eq, Structural)]
pub enum SeekFrom {
    /// So many bytes after the first byte of the stream.
    Start(u64),
    /// So many bytes after the end of the stream; a negative distance is
    /// inside the stream.
    End(i64),
    /// So many bytes after the current offset, or before it when negative.
    Current(i64),
}

/// The offset that `pos` denotes in a stream that stands at `offset` and
/// ends at `end`. It is an `int`: a target below zero is a number like any
/// other here, to be rejected by whoever seeks.
pub open spec fn seek_target(pos: SeekFrom, offset: int, end: int) -> int {
    match pos {
        SeekFrom::Start(n) => n as int,
        SeekFrom::End(d) => end + d,
        SeekFrom::Current(d) => offset + d,
    }
}

/// `after` is `before` with `data` stored from index `at` on. Bytes of
/// `before` elsewhere are kept. The sequence grows as far as the data
/// reaches and no further; where `at` lies beyond the end of `before`, what
/// fills the gap is left open.
pub open spec fn stored(before: Seq<u8>, at: int, data: Seq<u8>, after: Seq<u8>) -> bool {
    &&& before.len() <= after.len()
    &&& after.len() <= before.len() || after.len() <= at + data.len()
    &&& data.len() > 0 ==> at + data.len() <= after.len()
    &&& forall|i: int|
        0 <= i < before.len() && !(at <= i < at + data.len()) ==> #[trigger] after[i] == before[i]
    &&& forall|i: int| 0 <= i < data.len() ==> #[trigger] after[at + i] == data[i]
}

/// `n` bytes were fetched from index `at` of `bytes` into the front of a
/// buffer that now holds `buf`.
pub open spec fn fetched(bytes: Seq<u8>, at: int, n: int, buf: Seq<u8>) -> bool {
    n > 0 ==> {
        &&& at + n <= bytes.len()
        &&& n <= buf.len()
        &&& buf.subrange(0, n) == bytes.subrange(at, at + n)
    }
}

/// The model of a stream: the bytes it holds and the offset at which the
/// next transfer takes place.
///
/// A failed operation may leave a stream somewhere else than `offset` says.
/// `settled` tells whether `offset` can be relied on; a successful seek
/// makes it so again.
pub trait Stream: Sized {
    /// The bytes that the stream holds, from its first byte on.
    spec fn bytes(&self) -> Seq<u8>;

    /// The index in `bytes` at which the next read or write starts.
    spec fn offset(&self) -> nat;

    /// Whether the stream stands where `offset` says.
    spec fn settled(&self) -> bool;
}

/// What every seek keeps to, whatever the stream: the bytes stay, and on
/// success the stream is settled at the offset returned. That offset is the
/// one asked for where the seek is measured from the start, or from the
/// current offset of a settled stream. Which offset `SeekFrom::End` is
/// measured from is the stream's own affair.
pub open spec fn seek_model<S: Stream>(pre: S, pos: SeekFrom, r: Result<u64, Error>, post: S) -> bool {
    &&& post.bytes() == pre.bytes()
    &&& r matches Ok(p) ==> {
        &&& post.settled()
        &&& post.offset() == p
        &&& pos matches SeekFrom::Start(n) ==> p == n
        &&& pos matches SeekFrom::Current(d) ==> pre.settled() ==> p == pre.offset() + d
    }
}

/// What every read keeps to, whatever the stream: the bytes of the stream
/// stay, the buffer keeps its length, and no more is read than the buffer
/// has room for. On a settled stream the bytes read are those at the
/// offset, and the offset moves past them.
pub open spec fn read_model<S: Stream>(
    pre: S,
    buf: Seq<u8>,
    r: Result<usize, Error>,
    post: S,
    filled: Seq<u8>,
) -> bool {
    &&& post.bytes() == pre.bytes()
    &&& filled.len() == buf.len()
    &&& r matches Ok(n) ==> {
        &&& n <= buf.len()
        &&& pre.settled() ==> {
            &&& post.settled()
            &&& post.offset() == pre.offset() + n
            &&& fetched(pre.bytes(), pre.offset() as int, n as int, filled)
        }
    }
}

/// What every write keeps to, whatever the stream: no more is written than
/// the buffer holds. On a settled stream the bytes written are stored at
/// the offset, and the offset moves past them.
pub open spec fn write_model<S: Stream>(pre: S, buf: Seq<u8>, r: Result<usize, Error>, post: S) -> bool {
    r matches Ok(n) ==> {
        &&& n <= buf.len()
        &&& pre.settled() ==> {
            &&& post.settled()
            &&& post.offset() == pre.offset() + n
            &&& stored(pre.bytes(), pre.offset() as int, buf.subrange(0, n as int), post.bytes())
        }
    }
}

/// What every flush keeps to, whatever the stream: the bytes stay, and on
/// success the stream stands where it stood.
pub open spec fn flush_model<S: Stream>(pre: S, r: Result<(), Error>, post: S) -> bool {
    &&& post.bytes() == pre.bytes()
    &&& r is Ok ==> post.offset() == pre.offset() && post.settled() == pre.settled()
}

/// What a settled stream has stored it gives back: after a write at some
/// offset, a seek to that offset and a read, the bytes read are the bytes
/// written, as far as both transfers went. Where all of `data` was written
/// and as much read, the front of the buffer is `data`.
pub proof fn lemma_read_back<S: Stream>(
    s0: S,
    data: Seq<u8>,
    written: usize,
    s1: S,
    at: u64,
    s2: S,
    buf: Seq<u8>,
    read: usize,
    s3: S,
    filled: Seq<u8>,
)
    requires
        s0.settled(),
        s0.offset() == at,
        write_model(s0, data, Ok(written), s1),
        seek_model(s1, SeekFrom::Start(at), Ok(at), s2),
        read_model(s2, buf, Ok(read), s3, filled),
    ensures
        forall|i: int| 0 <= i < written && i < read ==> filled[i] == data[i],
        written == data.len() && read == data.len() ==> filled.take(read as int) == data,
        s3.settled(),
        s3.offset() == at + read,
{
    let kept = s1.bytes();
    assert forall|i: int| 0 <= i < written && i < read implies filled[i] == data[i] by {
        assert(filled.subrange(0, read as int)[i] == kept.subrange(at as int, at + read)[i]);
        assert(kept[at + i] == data.subrange(0, written as int)[i]);
    }
}

/// A stream that can be positioned.
///
/// Each of the three traits pairs an operation with a relation that says
/// what the operation does on the streams of one kind. A stream that is
/// exact about itself, such as one in memory, lets its callers work out
/// each result; a stream that can promise nothing of its own, such as a
/// device that may fail at any time, says `true`. Whatever the relation,
/// the operation also keeps to the model that all streams share.
pub trait Seek: Stream {
    /// What a seek does on this kind of stream: whether a seek to `pos` on
    /// the stream `pre` can return `r` and leave the stream `post`.
    spec fn seek_outcome(pre: Self, pos: SeekFrom, r: Result<u64, Error>, post: Self) -> bool;

    /// Moves to the offset that `pos` denotes and returns it, counted from
    /// the start of the stream.
    fn seek(&mut self, pos: SeekFrom) -> (r: Result<u64, Error>)
        ensures
            Self::seek_outcome(*old(self), pos, r, *final(self)),
            seek_model(*old(self), pos, r, *final(self)),
    ;
}

/// A stream that can be read.
pub trait Read: Stream {
    /// What a read does on this kind of stream: whether a read on the
    /// stream `pre` into a buffer that holds `buf` can return `r` and leave
    /// the stream `post` and `filled` in the buffer.
    spec fn read_outcome(
        pre: Self,
        buf: Seq<u8>,
        r: Result<usize, Error>,
        post: Self,
        filled: Seq<u8>,
    ) -> bool;

    /// Fetches bytes from the current offset into the front of `buf` and
    /// returns how many, which may be fewer than `buf` has room for; none at
    /// the end of the stream. The offset moves past the bytes fetched.
    fn read(&mut self, buf: &mut [u8]) -> (r: Result<usize, Error>)
        ensures
            Self::read_outcome(*old(self), old(buf)@, r, *final(self), final(buf)@),
            read_model(*old(self), old(buf)@, r, *final(self), final(buf)@),
    ;
}

/// A stream that can be written.
pub trait Write: Stream {
    /// What a write does on this kind of stream: whether a write of `buf`
    /// on the stream `pre` can return `r` and leave the stream `post`.
    spec fn write_outcome(pre: Self, buf: Seq<u8>, r: Result<usize, Error>, post: Self) -> bool;

    /// What a flush does on this kind of stream: whether a flush of the
    /// stream `pre` can return `r` and leave the stream `post`.
    spec fn flush_outcome(pre: Self, r: Result<(), Error>, post: Self) -> bool;

    /// Stores bytes from the front of `buf` at the current offset and
    /// returns how many, which may be fewer than `buf` holds. The offset
    /// moves past the bytes stored.
    fn write(&mut self, buf: &[u8]) -> (r: Result<usize, Error>)
        ensures
            Self::write_outcome(*old(self), buf@, r, *final(self)),
            write_model(*old(self), buf@, r, *final(self)),
    ;

    /// Hands on whatever the stream holds back.
    fn flush(&mut self) -> (r: Result<(), Error>)
        ensures
            Self::flush_outcome(*old(self), r, *final(self)),
            flush_model(*old(self), r, *final(self)),
    ;
}

/// All that `Seek::seek` ensures: what this kind of stream does, and what
/// every stream keeps to.
pub open spec fn seek_step<S: Seek>(pre: S, pos: SeekFrom, r: Result<u64, Error>, post: S) -> bool {
    &&& S::seek_outcome(pre, pos, r, post)
    &&& seek_model(pre, pos, r, post)
}

/// All that `Read::read` ensures: what this kind of stream does, and what
/// every stream keeps to.
pub open spec fn read_step<S: Read>(
    pre: S,
    buf: Seq<u8>,
    r: Result<usize, Error>,
    post: S,
    filled: Seq<u8>,
) -> bool {
    &&& S::read_outcome(pre, buf, r, post, filled)
    &&& read_model(pre, buf, r, post, filled)
}

/// All that `Write::write` ensures: what this kind of stream does, and what
/// every stream keeps to.
pub open spec fn write_step<S: Write>(pre: S, buf: Seq<u8>, r: Result<usize, Error>, post: S) -> bool {
    &&& S::write_outcome(pre, buf, r, post)
    &&& write_model(pre, buf, r, post)
}

/// All that `Write::flush` ensures: what this kind of stream does, and what
/// every stream keeps to.
pub open spec fn flush_step<S: Write>(pre: S, r: Result<(), Error>, post: S) -> bool {
    &&& S::flush_outcome(pre, r, post)
    &&& flush_model(pre, r, post)
}

} // verus!
