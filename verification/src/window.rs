//! The arithmetic of a slice, apart from any stream: a range of offsets and
//! a position in it.

use crate::io::{seek_target, Error, ErrorKind, SeekFrom};
use vstd::prelude::*;

verus! {

/// The number of bytes of a buffer of `len` bytes that a transfer may use
/// when `remaining` bytes are left in the window: the smaller of the two.
pub open spec fn clamped(remaining: nat, len: nat) -> nat {
    if len <= remaining { len } else { remaining }
}

/// Where the window of a slice lies in the inner stream, and where in the
/// window the slice stands. It touches no stream: each step that follows an
/// operation of the inner stream takes the outcome of that operation as an
/// argument.
#[derive(Debug)]
pub struct Window {
    start: u64,
    size: u64,
    position: u64,
}

impl Clone for Window {
    fn clone(&self) -> (w: Window)
        ensures
            w == *self,
    {
        proof {
            use_type_invariant(self);
        }
        Window { start: self.start, size: self.size, position: self.position }
    }
}

impl Window {
    /// The position never leaves the window, and the window ends at an
    /// offset that a `u64` can hold. Every window is of this kind.
    #[verifier::type_invariant]
    pub open spec fn wf(&self) -> bool {
        &&& self.position() <= self.size()
        &&& self.start() + self.size() <= u64::MAX
    }

    /// What `start` returns.
    pub closed spec fn spec_start(&self) -> u64 {
        self.start
    }

    /// What `size` returns.
    pub closed spec fn spec_size(&self) -> u64 {
        self.size
    }

    /// What `position` returns.
    pub closed spec fn spec_position(&self) -> u64 {
        self.position
    }

    /// The offset in the inner stream of the first byte of the window.
    #[verifier::when_used_as_spec(spec_start)]
    pub fn start(&self) -> (offset: u64)
        ensures
            offset == self.start(),
    {
        self.start
    }

    /// The number of bytes in the window.
    #[verifier::when_used_as_spec(spec_size)]
    pub fn size(&self) -> (size: u64)
        ensures
            size == self.size(),
    {
        self.size
    }

    /// The position in the window at which the next transfer starts.
    #[verifier::when_used_as_spec(spec_position)]
    pub fn position(&self) -> (position: u64)
        ensures
            position == self.position(),
    {
        self.position
    }

    /// The number of bytes between the position and the end of the window.
    pub open spec fn remaining(&self) -> nat {
        (self.size() - self.position()) as nat
    }

    /// The window from `start_offset` up to, not including, `end_offset`,
    /// at position 0.
    pub fn new(start_offset: u64, end_offset: u64) -> (w: Window)
        requires
            start_offset <= end_offset,
        ensures
            w.wf(),
            w.start() == start_offset,
            w.size() == end_offset - start_offset,
            w.position() == 0,
    {
        Window { start: start_offset, size: end_offset - start_offset, position: 0 }
    }

    /// Whether the position is the end of the window, where nothing is left
    /// to transfer.
    pub fn at_end(&self) -> (b: bool)
        ensures
            b == (self.remaining() == 0),
    {
        proof {
            use_type_invariant(self);
        }
        self.position == self.size
    }

    /// The number of bytes of a buffer of `len` bytes that a transfer at the
    /// current position may use: all of them, or as many as the window has
    /// left.
    pub fn clamp(&self, len: usize) -> (n: usize)
        ensures
            n == clamped(self.remaining(), len as nat),
    {
        proof {
            use_type_invariant(self);
        }
        let remaining: u64 = self.size - self.position;
        if len as u64 <= remaining {
            len
        } else {
            remaining as usize
        }
    }

    /// What a read or a write makes of the outcome `moved` of the transfer
    /// on the inner stream: the position moves past the bytes transferred,
    /// or stays where the transfer failed. The outcome is handed on as it
    /// is.
    pub fn advance(&mut self, moved: Result<usize, Error>) -> (r: Result<usize, Error>)
        requires
            moved matches Ok(n) ==> n <= old(self).remaining(),
        ensures
            r == moved,
            final(self).wf(),
            final(self).start() == old(self).start(),
            final(self).size() == old(self).size(),
            final(self).position() == match moved {
                Ok(n) => old(self).position() + n,
                Err(_) => old(self).position() as int,
            },
    {
        proof {
            use_type_invariant(&*self);
        }
        match moved {
            Ok(n) => {
                self.position += n as u64;
                Ok(n)
            },
            Err(e) => Err(e),
        }
    }

    /// The position that `pos` denotes, with the end of the window as the
    /// end of the stream, or the error for a target before the window or
    /// beyond its end. The end of the window is a position like the others.
    pub fn resolve(&self, pos: SeekFrom) -> (r: Result<u64, Error>)
        ensures
            ({
                let target = seek_target(pos, self.position() as int, self.size() as int);
                match r {
                    Ok(p) => 0 <= target <= self.size() && p == target,
                    Err(e) => {
                        &&& target < 0 || target > self.size()
                        &&& e.kind == ErrorKind::InvalidInput
                        &&& e.message@ == "invalid seek"@
                    },
                }
            }),
    {
        let target: i128 = match pos {
            SeekFrom::Start(n) => n as i128,
            SeekFrom::End(d) => self.size as i128 + d as i128,
            SeekFrom::Current(d) => self.position as i128 + d as i128,
        };
        if target < 0 || target > self.size as i128 {
            Err(Error::new(ErrorKind::InvalidInput, "invalid seek"))
        } else {
            Ok(target as u64)
        }
    }

    /// The offset in the inner stream of the position `target`.
    pub fn absolute(&self, target: u64) -> (offset: u64)
        requires
            target <= self.size(),
        ensures
            offset == self.start() + target,
    {
        proof {
            use_type_invariant(self);
        }
        self.start + target
    }

    /// What a seek to `target` makes of the outcome `sought` of moving the
    /// inner stream there: the position becomes `target`, which is returned,
    /// or stays where the move failed, with the error of the move.
    pub fn arrive(&mut self, target: u64, sought: Result<u64, Error>) -> (r: Result<u64, Error>)
        requires
            target <= old(self).size(),
        ensures
            r == match sought {
                Ok(_) => Ok::<u64, Error>(target),
                Err(e) => Err::<u64, Error>(e),
            },
            final(self).wf(),
            final(self).start() == old(self).start(),
            final(self).size() == old(self).size(),
            final(self).position() == match sought {
                Ok(_) => target,
                Err(_) => old(self).position(),
            },
    {
        proof {
            use_type_invariant(&*self);
        }
        match sought {
            Ok(_) => {
                self.position = target;
                Ok(target)
            },
            Err(e) => Err(e),
        }
    }
}

} // verus!
