//! A positional cursor over a raw file descriptor, shared by many logical
//! streams: each stream keeps its own offset and decides, from what a
//! `pread`/`pwrite`-style call returned, whether it read data, hit the end,
//! must be retried once the descriptor is ready, or failed for good.
//!
//! The descriptor calls themselves happen outside the verified core and
//! hand their raw return value (and errno) in.
use crate::mmap_file::{seek_target, SeekFrom};
use crate::AccessError;
use vstd::prelude::*;

verus! {

/// What one positional read attempt yielded.
#[derive(Clone, Copy, Debug, PartialEq, Eq, Structural)]
pub enum ReadStep {
    /// This many bytes were read; the cursor advanced by them.
    Data(usize),
    /// A zero-byte read: end of file.
    Eof,
    /// The descriptor was not ready; retry once the host scheduler signals
    /// readiness — not an error.
    NotReady,
    /// A terminal failure, with its raw errno; it propagates immediately.
    Fail(i32),
}

/// What one positional write attempt yielded.
#[derive(Clone, Copy, Debug, PartialEq, Eq, Structural)]
pub enum WriteStep {
    /// This many bytes were written; the cursor advanced by them.
    Written(usize),
    /// The descriptor was not ready (or the call was interrupted); retry
    /// once the host scheduler signals readiness — not an error.
    NotReady,
    /// A terminal failure, with its raw errno; it propagates immediately.
    Fail(i32),
}

/// Relies on nix::errno::Errno::last_raw: the calling thread's current
/// errno. The value depends on whatever call came before, so nothing is
/// promised of it.
#[verifier::external_body]
fn last_errno() -> (r: i32) {
    nix::errno::Errno::last_raw()
}

/// Converts the raw return value of a descriptor call: -1 signals failure
/// and the error is the thread's errno; anything else is a byte count.
/// Descriptor calls return nothing below -1.
pub fn cvt(t: isize) -> (r: Result<usize, i32>)
    requires
        t >= -1,
    ensures
        (t == -1) == (r is Err),
        t >= 0 ==> r == Ok::<usize, i32>(t as usize),
{
    if t == -1 {
        Err(last_errno())
    } else {
        Ok(t as usize)
    }
}

/// The positional cursor of one logical stream over a shared descriptor.
pub struct RawStream {
    offset: usize,
}

impl RawStream {
    /// The stream's current position.
    pub closed spec fn pos(&self) -> int {
        self.offset as int
    }

    /// A stream positioned at the start.
    pub fn new() -> (r: RawStream)
        ensures
            r.pos() == 0,
    {
        RawStream { offset: 0 }
    }

    pub fn position(&self) -> (r: usize)
        ensures
            r == self.pos(),
    {
        self.offset
    }

    /// Applies the outcome of one positional read at this stream's offset:
    /// data advances the cursor, a zero-byte read is end-of-file, the
    /// would-block errno means "not ready yet, retry", and any other errno
    /// is terminal. The cursor only ever moves by the bytes actually read.
    pub fn apply_read(&mut self, res: Result<usize, i32>, would_block: i32) -> (r: ReadStep)
        requires
            res matches Ok(n) ==> old(self).pos() + n <= usize::MAX,
        ensures
            match res {
                Ok(n) => {
                    &&& final(self).pos() == old(self).pos() + n
                    &&& r == if n == 0 {
                        ReadStep::Eof
                    } else {
                        ReadStep::Data(n)
                    }
                },
                Err(e) => {
                    &&& final(self).pos() == old(self).pos()
                    &&& r == if e == would_block {
                        ReadStep::NotReady
                    } else {
                        ReadStep::Fail(e)
                    }
                },
            },
    {
        match res {
            Ok(n) => {
                if n == 0 {
                    ReadStep::Eof
                } else {
                    self.offset = self.offset + n;
                    ReadStep::Data(n)
                }
            },
            Err(e) => {
                if e == would_block {
                    ReadStep::NotReady
                } else {
                    ReadStep::Fail(e)
                }
            },
        }
    }

    /// Applies the outcome of one positional write at this stream's offset:
    /// a byte count advances the cursor, the would-block and interrupted
    /// errnos mean "not ready yet, retry", and any other errno is terminal.
    pub fn apply_write(
        &mut self,
        res: Result<usize, i32>,
        would_block: i32,
        interrupted: i32,
    ) -> (r: WriteStep)
        requires
            res matches Ok(n) ==> old(self).pos() + n <= usize::MAX,
        ensures
            match res {
                Ok(n) => {
                    &&& final(self).pos() == old(self).pos() + n
                    &&& r == WriteStep::Written(n)
                },
                Err(e) => {
                    &&& final(self).pos() == old(self).pos()
                    &&& r == if e == would_block || e == interrupted {
                        WriteStep::NotReady
                    } else {
                        WriteStep::Fail(e)
                    }
                },
            },
    {
        match res {
            Ok(n) => {
                self.offset = self.offset + n;
                WriteStep::Written(n)
            },
            Err(e) => {
                if e == would_block || e == interrupted {
                    WriteStep::NotReady
                } else {
                    WriteStep::Fail(e)
                }
            },
        }
    }

    /// Moves the cursor; `file_len` is the descriptor's current length, for
    /// seeks from the end. Unlike a mapped snapshot, a raw stream may seek
    /// past the end of the file (a later write extends it), so only a
    /// negative or unrepresentable target fails, with `InvalidInput`.
    pub fn seek(&mut self, pos: SeekFrom, file_len: u64) -> (r: Result<usize, AccessError>)
        requires
            file_len <= usize::MAX,
        ensures
            match r {
                Ok(n) => {
                    &&& 0 <= seek_target(pos, file_len as int, old(self).pos()) <= usize::MAX
                    &&& n == seek_target(pos, file_len as int, old(self).pos())
                    &&& final(self).pos() == n
                },
                Err(e) => {
                    &&& e == AccessError::InvalidInput
                    &&& !(0 <= seek_target(pos, file_len as int, old(self).pos()) <= usize::MAX)
                    &&& final(self).pos() == old(self).pos()
                },
            },
    {
        let target: i128 = match pos {
            SeekFrom::Start(n) => n as i128,
            SeekFrom::End(d) => file_len as i128 + d as i128,
            SeekFrom::Current(d) => self.offset as i128 + d as i128,
        };
        if target < 0 || target > usize::MAX as i128 {
            return Err(AccessError::InvalidInput);
        }
        self.offset = target as usize;
        Ok(self.offset)
    }
}

} // verus!
