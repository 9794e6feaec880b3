//! A handle over one memory-mapped file, modelled by plain bytes: the
//! snapshot taken at the last (re)map, the current contents of the backing
//! file, a read cursor, and a read-only/read-write mode flag.
//!
//! The operating-system mapping itself is made outside the verified core;
//! it hands the snapshot in as bytes and carries writes back out.
use crate::AccessError;
use vstd::prelude::*;

verus! {

/// Reads are capped at one page per call, to bound per-call latency and
/// interleave fairly with concurrent readers.
pub const PAGE_SIZE: usize = 4096;

/// A seek position: from the start, from the end, or from the cursor.
#[derive(Clone, Copy, Debug, PartialEq, Eq, Structural)]
pub enum SeekFrom {
    Start(u64),
    End(i64),
    Current(i64),
}

/// The bytes of `f` after `data` is written at `off`: the write overlays the
/// old contents, extends them if it runs past the end, and any gap between
/// the old end and `off` reads as zero.
pub open spec fn overwrite(f: Seq<u8>, off: int, data: Seq<u8>) -> Seq<u8> {
    Seq::new(
        if f.len() >= off + data.len() {
            f.len()
        } else {
            (off + data.len()) as nat
        },
        |i: int|
            if off <= i < off + data.len() {
                data[i - off]
            } else if i < f.len() {
                f[i]
            } else {
                0u8
            },
    )
}

/// The cursor position that a seek request names, before bounds checking.
pub open spec fn seek_target(pos: SeekFrom, len: int, cur: int) -> int {
    match pos {
        SeekFrom::Start(n) => n as int,
        SeekFrom::End(d) => len + d,
        SeekFrom::Current(d) => cur + d,
    }
}

/// How many bytes one `read` call copies: what was asked for, capped by the
/// bytes left in the mapping and by one page.
pub open spec fn read_len(want: int, remaining: int) -> int {
    let n = if want <= remaining {
        want
    } else {
        remaining
    };
    if n <= PAGE_SIZE as int {
        n
    } else {
        PAGE_SIZE as int
    }
}

/// The state of a mapped-file handle, as contracts speak of it.
#[verifier::ext_equal]
pub ghost struct MmapView {
    /// Contents of the backing file, as this handle has written it.
    pub file: Seq<u8>,
    /// The immutable snapshot taken at the last (re)map; reads come from here.
    pub map: Seq<u8>,
    /// The read cursor into the snapshot.
    pub offset: int,
    /// Whether writes through this handle are permitted.
    pub writable: bool,
}

/// A handle over one memory-mapped file.
///
/// The snapshot reflects the file's contents as of the last (re)map; after a
/// write through this handle the snapshot is stale until `flush` recreates it.
pub struct MmapFile {
    file: Vec<u8>,
    map: Vec<u8>,
    offset: usize,
    writable: bool,
}

impl View for MmapFile {
    type V = MmapView;

    closed spec fn view(&self) -> MmapView {
        MmapView {
            file: self.file@,
            map: self.map@,
            offset: self.offset as int,
            writable: self.writable,
        }
    }
}

impl Clone for MmapFile {
    /// A clone is O(the model's copy): it sees the same snapshot bytes and
    /// pending file image at the same cursor, and the two handles' cursors
    /// are independent from here on.
    fn clone(&self) -> (res: Self)
        ensures
            res@ == self@,
    {
        let res = MmapFile {
            file: clone_bytes(&self.file),
            map: clone_bytes(&self.map),
            offset: self.offset,
            writable: self.writable,
        };
        proof {
            assert(res@ =~= self@);
        }
        res
    }
}

impl MmapFile {
    /// The cursor never leaves the mapping.
    pub open spec fn inv(&self) -> bool {
        0 <= self@.offset <= self@.map.len()
    }

    /// A read-only handle over a freshly mapped snapshot, cursor at zero.
    pub fn open(bytes: Vec<u8>) -> (r: MmapFile)
        ensures
            r.inv(),
            r@.file == bytes@,
            r@.map == bytes@,
            r@.offset == 0,
            !r@.writable,
    {
        let map = clone_bytes(&bytes);
        MmapFile { file: bytes, map, offset: 0, writable: false }
    }

    /// A write-capable handle over a freshly mapped snapshot, cursor at zero.
    pub fn open_rw(bytes: Vec<u8>) -> (r: MmapFile)
        ensures
            r.inv(),
            r@.file == bytes@,
            r@.map == bytes@,
            r@.offset == 0,
            r@.writable,
    {
        let map = clone_bytes(&bytes);
        MmapFile { file: bytes, map, offset: 0, writable: true }
    }

    /// The length of the mapped snapshot.
    pub fn len(&self) -> (r: usize)
        ensures
            r == self@.map.len(),
    {
        self.map.len()
    }

    /// The current read cursor.
    pub fn position(&self) -> (r: usize)
        ensures
            r == self@.offset,
    {
        self.offset
    }

    pub fn is_writable(&self) -> (r: bool)
        ensures
            r == self@.writable,
    {
        self.writable
    }

    /// Copies up to `min(want, bytes left, one page)` bytes from the snapshot
    /// at the cursor and advances the cursor; an empty result means the cursor
    /// is at the end of the mapping.
    pub fn read(&mut self, want: usize) -> (out: Vec<u8>)
        requires
            old(self).inv(),
        ensures
            final(self).inv(),
            final(self)@.file == old(self)@.file,
            final(self)@.map == old(self)@.map,
            final(self)@.writable == old(self)@.writable,
            out@.len() == read_len(want as int, old(self)@.map.len() - old(self)@.offset),
            final(self)@.offset == old(self)@.offset + out@.len(),
            out@ == old(self)@.map.subrange(old(self)@.offset, old(self)@.offset + out@.len()),
    {
        let remaining = self.map.len() - self.offset;
        let mut n = if want <= remaining {
            want
        } else {
            remaining
        };
        if n > PAGE_SIZE {
            n = PAGE_SIZE;
        }
        let mut out: Vec<u8> = Vec::new();
        let mut i: usize = 0;
        while i < n
            invariant
                i <= n,
                n == read_len(want as int, self.map@.len() - self.offset),
                self.offset + n <= self.map@.len(),
                self.map@.len() <= usize::MAX,
                out@.len() == i,
                out@ == self.map@.subrange(self.offset as int, self.offset + i),
            decreases n - i,
        {
            out.push(self.map[self.offset + i]);
            proof {
                assert(out@ =~= self.map@.subrange(self.offset as int, self.offset + i + 1));
            }
            i = i + 1;
        }
        self.offset = self.offset + n;
        out
    }

    /// A read at an explicit offset: equivalent to seeking there, reading,
    /// and restoring the cursor. Fails with `InvalidInput` exactly when the
    /// offset lies outside the mapping.
    pub fn read_at(&mut self, want: usize, at: usize) -> (r: Result<Vec<u8>, AccessError>)
        requires
            old(self).inv(),
        ensures
            final(self).inv(),
            final(self)@ == old(self)@,
            at > old(self)@.map.len() ==> r == Err::<Vec<u8>, AccessError>(
                AccessError::InvalidInput,
            ),
            at <= old(self)@.map.len() ==> match r {
                Ok(out) => {
                    &&& out@.len() == read_len(want as int, old(self)@.map.len() - at)
                    &&& out@ == old(self)@.map.subrange(at as int, at + out@.len())
                },
                Err(_) => false,
            },
    {
        if at > self.map.len() {
            return Err(AccessError::InvalidInput);
        }
        let cur = self.offset;
        self.offset = at;
        let out = self.read(want);
        self.offset = cur;
        Ok(out)
    }

    /// Moves the cursor; fails with `InvalidInput` exactly when the requested
    /// position would be negative or past the end of the mapping. Returns the
    /// new cursor position.
    pub fn seek(&mut self, pos: SeekFrom) -> (r: Result<usize, AccessError>)
        requires
            old(self).inv(),
        ensures
            final(self).inv(),
            final(self)@.file == old(self)@.file,
            final(self)@.map == old(self)@.map,
            final(self)@.writable == old(self)@.writable,
            match r {
                Ok(n) => {
                    &&& 0 <= seek_target(pos, old(self)@.map.len() as int, old(self)@.offset)
                        <= old(self)@.map.len()
                    &&& n == seek_target(pos, old(self)@.map.len() as int, old(self)@.offset)
                    &&& final(self)@.offset == n
                },
                Err(e) => {
                    &&& e == AccessError::InvalidInput
                    &&& !(0 <= seek_target(pos, old(self)@.map.len() as int, old(self)@.offset)
                        <= old(self)@.map.len())
                    &&& final(self)@.offset == old(self)@.offset
                },
            },
    {
        let len = self.map.len();
        let target: i128 = match pos {
            SeekFrom::Start(n) => n as i128,
            SeekFrom::End(d) => len as i128 + d as i128,
            SeekFrom::Current(d) => self.offset as i128 + d as i128,
        };
        if target < 0 || target > len as i128 {
            return Err(AccessError::InvalidInput);
        }
        self.offset = target as usize;
        Ok(self.offset)
    }

    /// Writes `data` through the underlying descriptor at `at`, without
    /// touching the snapshot or the cursor: the snapshot is stale until
    /// `flush`. Fails with `Permission` exactly when the handle is read-only.
    /// Returns the number of bytes written.
    pub fn write_at(&mut self, data: &Vec<u8>, at: usize) -> (r: Result<usize, AccessError>)
        requires
            old(self).inv(),
            at + data@.len() <= usize::MAX,
        ensures
            final(self).inv(),
            final(self)@.map == old(self)@.map,
            final(self)@.offset == old(self)@.offset,
            final(self)@.writable == old(self)@.writable,
            !old(self)@.writable ==> r == Err::<usize, AccessError>(AccessError::Permission)
                && final(self)@.file == old(self)@.file,
            old(self)@.writable ==> r == Ok::<usize, AccessError>(data@.len() as usize)
                && final(self)@.file == overwrite(old(self)@.file, at as int, data@),
    {
        if !self.writable {
            return Err(AccessError::Permission);
        }
        let old_len = self.file.len();
        let new_len = if old_len >= at + data.len() {
            old_len
        } else {
            at + data.len()
        };
        let mut nf: Vec<u8> = Vec::new();
        let mut i: usize = 0;
        while i < new_len
            invariant
                i <= new_len,
                at + data@.len() <= usize::MAX,
                old_len == self.file@.len(),
                new_len == overwrite(self.file@, at as int, data@).len(),
                at + data@.len() <= new_len,
                old_len <= new_len,
                nf@ == overwrite(self.file@, at as int, data@).subrange(0, i as int),
            decreases new_len - i,
        {
            let b: u8 = if at <= i && i < at + data.len() {
                data[i - at]
            } else if i < old_len {
                self.file[i]
            } else {
                0
            };
            nf.push(b);
            proof {
                assert(nf@ =~= overwrite(self.file@, at as int, data@).subrange(0, i + 1));
            }
            i = i + 1;
        }
        proof {
            assert(nf@ =~= overwrite(self.file@, at as int, data@));
        }
        self.file = nf;
        Ok(data.len())
    }

    /// Syncs and recreates the mapping, so reads observe what was written:
    /// afterwards the snapshot equals the file contents. The cursor is kept,
    /// clamped to the new end. Fails with `Permission` exactly when the
    /// handle is read-only.
    pub fn flush(&mut self) -> (r: Result<(), AccessError>)
        requires
            old(self).inv(),
        ensures
            final(self).inv(),
            final(self)@.file == old(self)@.file,
            final(self)@.writable == old(self)@.writable,
            !old(self)@.writable ==> r == Err::<(), AccessError>(AccessError::Permission)
                && final(self)@ == old(self)@,
            old(self)@.writable ==> {
                &&& r == Ok::<(), AccessError>(())
                &&& final(self)@.map == old(self)@.file
                &&& final(self)@.offset == if old(self)@.offset <= old(self)@.file.len() {
                    old(self)@.offset
                } else {
                    old(self)@.file.len() as int
                }
            },
    {
        if !self.writable {
            return Err(AccessError::Permission);
        }
        self.map = clone_bytes(&self.file);
        if self.offset > self.map.len() {
            self.offset = self.map.len();
        }
        Ok(())
    }

    /// Drains the whole snapshot, from offset zero to the end, and leaves the
    /// cursor at zero; the caller hands the bytes to an external sink. The
    /// result's length is the total drained.
    pub fn write_to(&mut self) -> (out: Vec<u8>)
        requires
            old(self).inv(),
        ensures
            final(self).inv(),
            final(self)@.file == old(self)@.file,
            final(self)@.map == old(self)@.map,
            final(self)@.writable == old(self)@.writable,
            final(self)@.offset == 0,
            out@ == old(self)@.map,
    {
        self.offset = 0;
        let mut out: Vec<u8> = Vec::new();
        loop
            invariant
                self.inv(),
                self@.map == old(self)@.map,
                self@.file == old(self)@.file,
                self@.writable == old(self)@.writable,
                out@ == self@.map.subrange(0, self@.offset),
            ensures
                self@.map == old(self)@.map,
                self@.file == old(self)@.file,
                self@.writable == old(self)@.writable,
                out@ == self@.map,
                self@.offset == self@.map.len(),
            decreases self@.map.len() - self@.offset,
        {
            let mut chunk = self.read(PAGE_SIZE);
            if chunk.len() == 0 {
                proof {
                    assert(out@ =~= self@.map);
                }
                break ;
            }
            let ghost pre = out@;
            out.append(&mut chunk);
            proof {
                assert(out@ =~= self@.map.subrange(0, self@.offset));
            }
        }
        self.offset = 0;
        out
    }
}

/// A verified byte copy: the clone's view equals the source's.
pub(crate) fn clone_bytes(v: &Vec<u8>) -> (r: Vec<u8>)
    ensures
        r@ == v@,
{
    let mut r: Vec<u8> = Vec::new();
    let mut i: usize = 0;
    while i < v.len()
        invariant
            i <= v@.len(),
            r@ == v@.subrange(0, i as int),
        decreases v@.len() - i,
    {
        r.push(v[i]);
        proof {
            assert(r@ =~= v@.subrange(0, i + 1));
        }
        i = i + 1;
    }
    proof {
        assert(r@ =~= v@);
    }
    r
}

/// Law: a round trip through a write-capable handle returns what was
/// written. Writing `data` at offset zero over an empty file image yields
/// exactly `data`; after a `flush` the snapshot equals that image, and
/// `write_to` or a full read drains the snapshot unchanged.
pub proof fn lemma_round_trip(data: Seq<u8>)
    ensures
        overwrite(Seq::<u8>::empty(), 0, data) == data,
{
    assert(overwrite(Seq::<u8>::empty(), 0, data) =~= data);
}

/// Law: a write overlays exactly its own range. Bytes inside the written
/// range read back from `data`; bytes of the old image outside it are kept;
/// a gap between the old end and the write reads as zero.
pub proof fn lemma_overwrite_ranges(f: Seq<u8>, off: int, data: Seq<u8>, i: int)
    requires
        0 <= off,
        0 <= i < overwrite(f, off, data).len(),
    ensures
        off <= i < off + data.len() ==> overwrite(f, off, data)[i] == data[i - off],
        i < off && i < f.len() ==> overwrite(f, off, data)[i] == f[i],
        i >= off + data.len() && i < f.len() ==> overwrite(f, off, data)[i] == f[i],
        i >= f.len() && !(off <= i < off + data.len()) ==> overwrite(f, off, data)[i] == 0u8,
{
}

} // verus!
