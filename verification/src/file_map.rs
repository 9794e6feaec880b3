//! The path-keyed registry: a cache of at most one mapped snapshot per path
//! and a writer-active marker per path, the authority for the
//! single-writer/multiple-reader invariant.
//!
//! Opening and mapping the file itself happens outside the verified core:
//! `get` reports a miss, the caller loads the bytes and hands them to
//! `install`. Every arbitration decision — who may read, who may write, when
//! a mapping is evicted, when the readers of an evicted mapping have drained
//! — is made and verified here.
use crate::key_map::KeyMap;
use crate::mmap_file::MmapFile;
use crate::AccessError;
use vstd::prelude::*;

verus! {

/// One cached mapping: its version token and the snapshot bytes.
#[verifier::ext_equal]
pub ghost struct MappingInfo {
    /// The version token: fresh for each (re)mapping of a path.
    pub version: int,
    /// The snapshot bytes of the mapping.
    pub bytes: Seq<u8>,
}

/// The registry's abstract state, as contracts speak of it.
#[verifier::ext_equal]
pub ghost struct RegistryState {
    /// Paths with an outstanding writer handle.
    pub writers: Set<Seq<char>>,
    /// The cached mapping of each cached path.
    pub cache: Map<Seq<char>, MappingInfo>,
    /// `counts[v]` is the number of live handles of mapping version `v`,
    /// the registry's own cached copy included.
    pub counts: Seq<int>,
}

impl RegistryState {
    /// The version the next installed mapping will carry.
    pub open spec fn next_version(self) -> int {
        self.counts.len() as int
    }

    /// Live handles of version `v` (zero for versions never issued).
    pub open spec fn count(self, v: int) -> int {
        if 0 <= v < self.counts.len() {
            self.counts[v]
        } else {
            0
        }
    }

    pub open spec fn cached(self, p: Seq<char>) -> bool {
        self.cache.contains_key(p)
    }

    /// Read access is granted exactly when no writer is active for the path.
    pub open spec fn can_read(self, p: Seq<char>) -> bool {
        !self.writers.contains(p)
    }

    /// A writer may be granted exactly when no writer is active and no
    /// reader besides the registry's own cached copy holds the mapping.
    pub open spec fn can_write(self, p: Seq<char>) -> bool {
        &&& !self.writers.contains(p)
        &&& (self.cached(p) ==> self.count(self.cache[p].version) <= 1)
    }

    /// The handle count of the path's mapping has room for one more; a
    /// machine limit, trivially true until `usize::MAX` handles are live.
    pub open spec fn can_count(self, p: Seq<char>) -> bool {
        self.cached(p) ==> self.count(self.cache[p].version) < usize::MAX
    }

    /// A handle of version `v` is genuinely outstanding: it is counted, over
    /// and above the registry's own cached copy if the version is still
    /// cached. Handles are moved into `release`, so each is released once.
    pub open spec fn handle_live(self, v: int) -> bool {
        &&& self.count(v) >= 1
        &&& forall|p: Seq<char>|
            #[trigger] self.cache.contains_key(p) && self.cache[p].version == v ==> self.count(v)
                >= 2
    }

    /// The drain condition of an evicted mapping: no handle besides the one
    /// the caller took is left.
    pub open spec fn drained(self, v: int) -> bool {
        self.count(v) <= 1
    }

    /// A reader was handed a clone of the cached mapping.
    pub open spec fn read_hit(self, p: Seq<char>) -> RegistryState {
        let v = self.cache[p].version;
        RegistryState { counts: self.counts.update(v, self.counts[v] + 1), ..self }
    }

    /// A writer was granted: the cached mapping (if any) is evicted and the
    /// writer-active marker set.
    pub open spec fn grant_writer(self, p: Seq<char>) -> RegistryState {
        let counts = if self.cached(p) {
            let v = self.cache[p].version;
            self.counts.update(v, self.counts[v] - 1)
        } else {
            self.counts
        };
        RegistryState { writers: self.writers.insert(p), cache: self.cache.remove(p), counts }
    }

    /// The writer handle was dropped (or the grant rolled back after a
    /// failed open): only the marker is cleared, never the cache.
    pub open spec fn release_writer(self, p: Seq<char>) -> RegistryState {
        RegistryState { writers: self.writers.remove(p), ..self }
    }

    /// A freshly loaded mapping was installed for an uncached path: it gets
    /// the next version, counted twice — the cache's copy and the caller's.
    pub open spec fn install_new(self, p: Seq<char>, bytes: Seq<u8>) -> RegistryState {
        RegistryState {
            cache: self.cache.insert(p, MappingInfo { version: self.next_version(), bytes }),
            counts: self.counts.push(2),
            ..self
        }
    }

    /// The cached mapping was evicted and its cache copy dropped.
    pub open spec fn evict(self, p: Seq<char>) -> RegistryState {
        if self.cached(p) {
            let v = self.cache[p].version;
            RegistryState {
                cache: self.cache.remove(p),
                counts: self.counts.update(v, self.counts[v] - 1),
                ..self
            }
        } else {
            self
        }
    }

    /// The cached mapping was evicted and its cache copy handed to the
    /// caller: the count carries over to the returned handle.
    pub open spec fn evict_take(self, p: Seq<char>) -> RegistryState {
        RegistryState { cache: self.cache.remove(p), ..self }
    }

    /// A handle of version `v` was dropped.
    pub open spec fn release_handle(self, v: int) -> RegistryState {
        if 0 <= v < self.counts.len() && self.counts[v] >= 1 {
            RegistryState { counts: self.counts.update(v, self.counts[v] - 1), ..self }
        } else {
            self
        }
    }

    /// Well-formedness: cached versions are issued, counted at least once
    /// (the cache's own copy), pairwise distinct across paths, and never
    /// cached while a writer is active; counts fit the machine.
    pub open spec fn wf(self) -> bool {
        &&& forall|p: Seq<char>| #[trigger]
            self.cache.contains_key(p) ==> {
                &&& 0 <= self.cache[p].version < self.counts.len()
                &&& self.counts[self.cache[p].version] >= 1
                &&& !self.writers.contains(p)
            }
        &&& forall|p1: Seq<char>, p2: Seq<char>|
            #![trigger self.cache[p1], self.cache[p2]]
            self.cache.contains_key(p1) && self.cache.contains_key(p2) && p1 != p2
                ==> self.cache[p1].version != self.cache[p2].version
        &&& forall|i: int| 0 <= i < self.counts.len() ==> 0 <= #[trigger] self.counts[i] <= usize::MAX
    }
}

/// One cached mapping as the executable registry stores it.
struct CacheEntry {
    version: usize,
    bytes: Vec<u8>,
}

/// A shared read handle issued by the registry: a mapped-file handle
/// carrying the version token of the mapping it was cloned from.
pub struct CachedFile {
    /// The version token of the mapping this handle shares.
    pub version: usize,
    /// The mapped-file handle; reads go through it.
    pub file: MmapFile,
}

impl CachedFile {
    /// The version token, as contracts speak of it.
    pub open spec fn ver(&self) -> int {
        self.version as int
    }
}

/// A map of memory-mapped files: at most one mapping and one active writer
/// per path.
pub struct FileMap {
    cache: KeyMap<CacheEntry>,
    writers: KeyMap<bool>,
    counts: Vec<usize>,
}

impl View for FileMap {
    type V = RegistryState;

    closed spec fn view(&self) -> RegistryState {
        RegistryState {
            writers: self.writers@.dom(),
            cache: Map::new(
                |p: Seq<char>| self.cache@.contains_key(p),
                |p: Seq<char>|
                    MappingInfo {
                        version: self.cache@[p].version as int,
                        bytes: self.cache@[p].bytes@,
                    },
            ),
            counts: Seq::new(self.counts@.len(), |i: int| self.counts@[i] as int),
        }
    }
}

impl FileMap {
    /// The registry's invariant: its tables are well formed and so is its
    /// abstract state.
    pub closed spec fn inv(&self) -> bool {
        &&& self.cache.inv()
        &&& self.writers.inv()
        &&& self@.wf()
    }

    /// The invariant gives the abstract state's well-formedness: callers
    /// may lean on `wf` of the view of any registry these operations hand
    /// out.
    pub proof fn lemma_inv_wf(&self)
        requires
            self.inv(),
        ensures
            self@.wf(),
    {
    }

    pub fn new() -> (r: FileMap)
        ensures
            r.inv(),
            r@.writers == Set::<Seq<char>>::empty(),
            r@.cache == Map::<Seq<char>, MappingInfo>::empty(),
            r@.counts == Seq::<int>::empty(),
    {
        let r = FileMap { cache: KeyMap::new(), writers: KeyMap::new(), counts: Vec::new() };
        proof {
            assert(r@.writers =~= Set::<Seq<char>>::empty());
            assert(r@.cache =~= Map::<Seq<char>, MappingInfo>::empty());
            assert(r@.counts =~= Seq::<int>::empty());
        }
        r
    }

    /// Whether a writer handle is outstanding for `path`.
    pub fn writer_active(&self, path: &str) -> (r: bool)
        ensures
            r == self@.writers.contains(path@),
    {
        self.writers.contains(path)
    }

    /// Whether a mapping is cached for `path`.
    pub fn is_cached(&self, path: &str) -> (r: bool)
        ensures
            r == self@.cached(path@),
    {
        self.cache.contains(path)
    }

    /// Live handles of the mapping `f` shares, this registry's cached copy
    /// included.
    pub fn reader_count(&self, f: &CachedFile) -> (r: usize)
        requires
            self.inv(),
        ensures
            r == self@.count(f.ver()),
    {
        if f.version < self.counts.len() {
            self.counts[f.version]
        } else {
            0
        }
    }

    /// Shared read access to the cached mapping of `path`.
    ///
    /// Fails with `Contention` exactly when a writer is active for `path`.
    /// Otherwise a cache hit hands out one more clone of the cached mapping
    /// — concurrent readers of one path converge on the same mapping — and a
    /// miss returns nothing and changes nothing: the caller loads the file's
    /// bytes and offers them to `install`.
    pub fn get(&mut self, path: &str) -> (r: Result<Option<CachedFile>, AccessError>)
        requires
            old(self).inv(),
            old(self)@.can_count(path@),
        ensures
            final(self).inv(),
            match r {
                Err(e) => {
                    &&& e == AccessError::Contention
                    &&& !old(self)@.can_read(path@)
                    &&& final(self)@ == old(self)@
                },
                Ok(Some(f)) => {
                    &&& old(self)@.can_read(path@)
                    &&& old(self)@.cached(path@)
                    &&& final(self)@ == old(self)@.read_hit(path@)
                    &&& f.ver() == old(self)@.cache[path@].version
                    &&& f.file@.map == old(self)@.cache[path@].bytes
                    &&& f.file@.file == old(self)@.cache[path@].bytes
                    &&& f.file@.offset == 0
                    &&& !f.file@.writable
                    &&& f.file.inv()
                },
                Ok(None) => {
                    &&& old(self)@.can_read(path@)
                    &&& !old(self)@.cached(path@)
                    &&& final(self)@ == old(self)@
                },
            },
    {
        if self.writers.contains(path) {
            return Err(AccessError::Contention);
        }
        let (version, bytes) = match self.cache.get(path) {
            Some(entry) => (entry.version, crate::mmap_file::clone_bytes(&entry.bytes)),
            None => {
                return Ok(None);
            },
        };
        proof {
            assert(self@.cache.contains_key(path@));
            assert(self@.cache[path@].version == version as int);
            assert(version < self.counts@.len());
        }
        let c = self.counts[version];
        let slot: &mut usize = &mut self.counts[version];
        *slot = c + 1;
        proof {
            assert(self@.counts =~= old(self)@.counts.update(version as int, c + 1));
            assert(self@.cache =~= old(self)@.cache);
            assert(self@ =~= old(self)@.read_hit(path@));
            assert(self@.wf());
        }
        Ok(Some(CachedFile { version, file: MmapFile::open(bytes) }))
    }

    /// Installs a freshly loaded mapping for `path` after `get` reported a
    /// miss, and hands out a read handle of it.
    ///
    /// Fails with `Contention` exactly when a writer became active for
    /// `path` in the meantime. If another reader installed a mapping first,
    /// that mapping wins and is handed out — concurrent installs converge on
    /// one instance — and `bytes` is discarded.
    pub fn install(&mut self, path: &str, bytes: Vec<u8>) -> (r: Result<CachedFile, AccessError>)
        requires
            old(self).inv(),
            old(self)@.can_count(path@),
        ensures
            final(self).inv(),
            match r {
                Err(e) => {
                    &&& e == AccessError::Contention
                    &&& !old(self)@.can_read(path@)
                    &&& final(self)@ == old(self)@
                },
                Ok(f) => {
                    &&& old(self)@.can_read(path@)
                    &&& f.file@.offset == 0
                    &&& !f.file@.writable
                    &&& f.file.inv()
                    &&& f.file@.file == f.file@.map
                    &&& if old(self)@.cached(path@) {
                        &&& final(self)@ == old(self)@.read_hit(path@)
                        &&& f.ver() == old(self)@.cache[path@].version
                        &&& f.file@.map == old(self)@.cache[path@].bytes
                    } else {
                        &&& final(self)@ == old(self)@.install_new(path@, bytes@)
                        &&& f.ver() == old(self)@.next_version()
                        &&& f.file@.map == bytes@
                    }
                },
            },
    {
        if self.writers.contains(path) {
            return Err(AccessError::Contention);
        }
        let hit = match self.cache.get(path) {
            Some(entry) => Some((entry.version, crate::mmap_file::clone_bytes(&entry.bytes))),
            None => None,
        };
        match hit {
            Some((version, cached_bytes)) => {
                proof {
                    assert(self@.cache.contains_key(path@));
                    assert(self@.cache[path@].version == version as int);
                    assert(version < self.counts@.len());
                }
                let c = self.counts[version];
                let slot: &mut usize = &mut self.counts[version];
                *slot = c + 1;
                proof {
                    assert(self@.counts =~= old(self)@.counts.update(version as int, c + 1));
                    assert(self@.cache =~= old(self)@.cache);
                    assert(self@ =~= old(self)@.read_hit(path@));
                    assert(self@.wf());
                }
                Ok(CachedFile { version, file: MmapFile::open(cached_bytes) })
            },
            None => {
                let version = self.counts.len();
                let stored = crate::mmap_file::clone_bytes(&bytes);
                self.counts.push(2);
                self.cache.insert(path, CacheEntry { version, bytes: stored });
                proof {
                    assert(self@.counts =~= old(self)@.counts.push(2));
                    assert(self@.cache =~= old(self)@.cache.insert(
                        path@,
                        MappingInfo { version: old(self)@.next_version(), bytes: bytes@ },
                    ));
                    assert(self@ =~= old(self)@.install_new(path@, bytes@));
                    assert forall|p: Seq<char>| #[trigger] self@.cache.contains_key(p) implies {
                        &&& 0 <= self@.cache[p].version < self@.counts.len()
                        &&& self@.counts[self@.cache[p].version] >= 1
                        &&& !self@.writers.contains(p)
                    } by {
                        if p != path@ {
                            assert(old(self)@.cache.contains_key(p));
                        }
                    }
                    assert(self@.wf());
                }
                Ok(CachedFile { version, file: MmapFile::open(bytes) })
            },
        }
    }

    /// Attempts to acquire the writer for `path`.
    ///
    /// Fails with `Contention` exactly when a writer is already active or a
    /// reader besides the registry's cached copy holds the path's mapping —
    /// one atomically checked condition. On success the cached mapping is
    /// evicted and the writer-active marker set; the caller opens the
    /// underlying file and, if that open fails, rolls the grant back with
    /// `release_writer`.
    pub fn try_writer(&mut self, path: &str) -> (r: Result<(), AccessError>)
        requires
            old(self).inv(),
        ensures
            final(self).inv(),
            match r {
                Ok(()) => {
                    &&& old(self)@.can_write(path@)
                    &&& final(self)@ == old(self)@.grant_writer(path@)
                },
                Err(e) => {
                    &&& e == AccessError::Contention
                    &&& !old(self)@.can_write(path@)
                    &&& final(self)@ == old(self)@
                },
            },
    {
        if self.writers.contains(path) {
            return Err(AccessError::Contention);
        }
        let cached = match self.cache.get(path) {
            Some(entry) => Some(entry.version),
            None => None,
        };
        match cached {
            Some(version) => {
                proof {
                    assert(self@.cache.contains_key(path@));
                    assert(self@.cache[path@].version == version as int);
                    assert(version < self.counts@.len());
                }
                let c = self.counts[version];
                if c > 1 {
                    return Err(AccessError::Contention);
                }
                let slot: &mut usize = &mut self.counts[version];
                *slot = c - 1;
                self.cache.remove(path);
                self.writers.insert(path, true);
                proof {
                    assert(self@.counts =~= old(self)@.counts.update(version as int, c - 1));
                    assert(self@.cache =~= old(self)@.cache.remove(path@));
                    assert(self@.writers =~= old(self)@.writers.insert(path@));
                    assert(self@ =~= old(self)@.grant_writer(path@));
                    assert forall|p: Seq<char>| #[trigger] self@.cache.contains_key(p) implies {
                        &&& 0 <= self@.cache[p].version < self@.counts.len()
                        &&& self@.counts[self@.cache[p].version] >= 1
                        &&& !self@.writers.contains(p)
                    } by {
                        assert(old(self)@.cache.contains_key(p) && p != path@);
                        assert(old(self)@.cache[p].version != version as int);
                    }
                    assert(self@.wf());
                }
                Ok(())
            },
            None => {
                self.writers.insert(path, true);
                proof {
                    assert(self@.cache =~= old(self)@.cache);
                    assert(self@.writers =~= old(self)@.writers.insert(path@));
                    assert(self@ =~= old(self)@.grant_writer(path@));
                    assert(self@.wf());
                }
                Ok(())
            },
        }
    }

    /// Clears the writer-active marker for `path`: the writer handle was
    /// dropped, or a grant is rolled back after a failed open. The cache is
    /// never touched — the next `get` re-opens and re-maps the file.
    pub fn release_writer(&mut self, path: &str)
        requires
            old(self).inv(),
        ensures
            final(self).inv(),
            final(self)@ == old(self)@.release_writer(path@),
    {
        self.writers.remove(path);
        proof {
            assert(self@.writers =~= old(self)@.writers.remove(path@));
            assert(self@.cache =~= old(self)@.cache);
            assert(self@ =~= old(self)@.release_writer(path@));
            assert(self@.wf());
        }
    }

    /// Evicts the cached mapping of `path` unconditionally and drops the
    /// registry's copy; handles already held by readers are unaffected.
    pub fn remove(&mut self, path: &str)
        requires
            old(self).inv(),
        ensures
            final(self).inv(),
            final(self)@ == old(self)@.evict(path@),
    {
        let cached = match self.cache.get(path) {
            Some(entry) => Some(entry.version),
            None => None,
        };
        match cached {
            Some(version) => {
                proof {
                    assert(self@.cache.contains_key(path@));
                    assert(self@.cache[path@].version == version as int);
                    assert(version < self.counts@.len());
                }
                let c = self.counts[version];
                let slot: &mut usize = &mut self.counts[version];
                *slot = c - 1;
                self.cache.remove(path);
                proof {
                    assert(self@.counts =~= old(self)@.counts.update(version as int, c - 1));
                    assert(self@.cache =~= old(self)@.cache.remove(path@));
                    assert(self@ =~= old(self)@.evict(path@));
                    assert forall|p: Seq<char>| #[trigger] self@.cache.contains_key(p) implies {
                        &&& 0 <= self@.cache[p].version < self@.counts.len()
                        &&& self@.counts[self@.cache[p].version] >= 1
                        &&& !self@.writers.contains(p)
                    } by {
                        assert(old(self)@.cache.contains_key(p) && p != path@);
                        assert(old(self)@.cache[p].version != version as int);
                    }
                    assert(self@.wf());
                }
            },
            None => {
                proof {
                    assert(self@ =~= old(self)@.evict(path@));
                }
            },
        }
    }

    /// Evicts the cached mapping of `path` and hands the registry's copy to
    /// the caller, who can then poll `reader_count` until every other handle
    /// is dropped: the count carries over to the returned handle.
    pub fn remove_take(&mut self, path: &str) -> (r: Option<CachedFile>)
        requires
            old(self).inv(),
        ensures
            final(self).inv(),
            match r {
                Some(f) => {
                    &&& old(self)@.cached(path@)
                    &&& final(self)@ == old(self)@.evict_take(path@)
                    &&& f.ver() == old(self)@.cache[path@].version
                    &&& f.file@.map == old(self)@.cache[path@].bytes
                    &&& f.file@.offset == 0
                    &&& !f.file@.writable
                    &&& f.file.inv()
                },
                None => {
                    &&& !old(self)@.cached(path@)
                    &&& final(self)@ == old(self)@
                },
            },
    {
        let taken = match self.cache.get(path) {
            Some(entry) => Some((entry.version, crate::mmap_file::clone_bytes(&entry.bytes))),
            None => None,
        };
        match taken {
            Some((version, bytes)) => {
                self.cache.remove(path);
                proof {
                    assert(self@.cache =~= old(self)@.cache.remove(path@));
                    assert(self@ =~= old(self)@.evict_take(path@));
                    assert(self@.wf());
                }
                Some(CachedFile { version, file: MmapFile::open(bytes) })
            },
            None => {
                proof {
                    assert(self@ =~= old(self)@);
                }
                None
            },
        }
    }

    /// Drops a read handle: one fewer live handle of its mapping version.
    /// The handle is moved in, so each handle is released exactly once.
    pub fn release(&mut self, f: CachedFile)
        requires
            old(self).inv(),
            old(self)@.handle_live(f.ver()),
        ensures
            final(self).inv(),
            final(self)@ == old(self)@.release_handle(f.ver()),
    {
        let version = f.version;
        proof {
            assert(old(self)@.count(f.ver()) >= 1);
            assert(version < self.counts@.len());
        }
        let c = self.counts[version];
        let slot: &mut usize = &mut self.counts[version];
        *slot = c - 1;
        proof {
            assert(self@.counts =~= old(self)@.counts.update(version as int, c - 1));
            assert(self@.cache =~= old(self)@.cache);
            assert(self@ =~= old(self)@.release_handle(version as int));
            assert forall|p: Seq<char>| #[trigger] self@.cache.contains_key(p) implies {
                &&& 0 <= self@.cache[p].version < self@.counts.len()
                &&& self@.counts[self@.cache[p].version] >= 1
                &&& !self@.writers.contains(p)
            } by {
                if old(self)@.cache[p].version == version as int {
                    assert(old(self)@.count(version as int) >= 2);
                }
            }
            assert(self@.wf());
        }
    }
}

/// Law: while a writer handle for a path is outstanding, neither read
/// access nor a second writer can be granted for that path; a concurrent
/// `get` or `try_writer` must fail with `Contention`.
pub proof fn lemma_writer_blocks_access(s: RegistryState, p: Seq<char>)
    requires
        s.writers.contains(p),
    ensures
        !s.can_read(p),
        !s.can_write(p),
{
}

/// Law: at most one writer per path. Granting a writer makes any further
/// grant for the same path impossible until the first is released, and a
/// release restores the possibility.
pub proof fn lemma_single_writer(s: RegistryState, p: Seq<char>)
    requires
        s.wf(),
        s.can_write(p),
    ensures
        !s.grant_writer(p).can_write(p),
        !s.grant_writer(p).can_read(p),
        s.grant_writer(p).release_writer(p).can_write(p),
{
    assert(!s.grant_writer(p).release_writer(p).cached(p)) by {
        assert(!s.grant_writer(p).cache.contains_key(p));
    }
}

/// Law: cache eviction around a write. Granting a writer evicts the path's
/// mapping, so no stale snapshot is served concurrently with the write;
/// after the writer is released and a fresh mapping is installed, readers
/// get exactly the freshly loaded bytes.
pub proof fn lemma_write_then_fresh_read(s: RegistryState, p: Seq<char>, bytes: Seq<u8>)
    requires
        s.wf(),
        s.can_write(p),
    ensures
        !s.grant_writer(p).cached(p),
        !s.grant_writer(p).can_read(p),
        s.grant_writer(p).release_writer(p).can_read(p),
        !s.grant_writer(p).release_writer(p).cached(p),
        ({
            let s2 = s.grant_writer(p).release_writer(p).install_new(p, bytes);
            &&& s2.cached(p)
            &&& s2.cache[p].bytes == bytes
        }),
{
}

/// `k` releases of version `v` in sequence.
pub open spec fn release_n(s: RegistryState, v: int, k: int) -> RegistryState
    decreases k,
{
    if k <= 0 {
        s
    } else {
        release_n(s, v, k - 1).release_handle(v)
    }
}

proof fn lemma_release_n_count(s: RegistryState, v: int, k: int)
    requires
        0 <= k <= s.count(v) - 1,
    ensures
        release_n(s, v, k).count(v) == s.count(v) - k,
        release_n(s, v, k).counts.len() == s.counts.len(),
    decreases k,
{
    if k > 0 {
        lemma_release_n_count(s, v, k - 1);
    }
}

/// Law: reader drain. With a mapping taken out of the cache and `k` other
/// handles of it still live, the drain condition fails until each of the
/// `k` handles is released, and holds as soon as the last one is: a drain
/// that polls `reader_count` neither returns early nor hangs once the
/// readers are gone.
pub proof fn lemma_reader_drain(s: RegistryState, v: int, k: int)
    requires
        0 <= k,
        s.count(v) == k + 1,
    ensures
        forall|j: int| 0 <= j < k ==> !#[trigger] release_n(s, v, j).drained(v),
        release_n(s, v, k).drained(v),
{
    assert forall|j: int| 0 <= j < k implies !#[trigger] release_n(s, v, j).drained(v) by {
        lemma_release_n_count(s, v, j);
    }
    lemma_release_n_count(s, v, k);
}

} // verus!
