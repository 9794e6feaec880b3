//! The hierarchical bucket namespace: named child buckets created lazily,
//! at most one instance per name, and a table of per-key shared/exclusive
//! locks that scope raw-stream access by logical key.
//!
//! Creating the backing directory and opening files happen outside the
//! verified core; every namespace and lock decision is made here.
use crate::key_map::{
    assoc_map, distinct_keys, lemma_assoc_push, lemma_assoc_update, lemma_entry_value, KeyMap,
};
use crate::AccessError;
use vstd::prelude::*;

verus! {

/// The state of one key's lock, as contracts speak of it: how many shared
/// readers hold it and whether the exclusive writer does.
#[verifier::ext_equal]
pub ghost struct LockInfo {
    pub readers: int,
    pub writer: bool,
}

impl LockInfo {
    /// Many concurrent readers, or exactly one writer, never both.
    pub open spec fn wf(self) -> bool {
        self.writer ==> self.readers == 0
    }

    /// A free lock: nobody holds it.
    pub open spec fn free() -> LockInfo {
        LockInfo { readers: 0, writer: false }
    }
}

/// The lock table after the entry for `k` is created if absent: a key's
/// lock object, once created, is shared by all accessors of that key.
pub open spec fn ensure_lock(m: Map<Seq<char>, LockInfo>, k: Seq<char>) -> Map<
    Seq<char>,
    LockInfo,
> {
    if m.contains_key(k) {
        m
    } else {
        m.insert(k, LockInfo::free())
    }
}

/// The child table after a child named `name` is created if absent:
/// the first caller's instance wins, later callers observe it.
pub open spec fn ensure_child(
    m: Map<Seq<char>, Bucket>,
    name: Seq<char>,
    fresh: Bucket,
) -> Map<Seq<char>, Bucket> {
    if m.contains_key(name) {
        m
    } else {
        m.insert(name, fresh)
    }
}

/// One key's lock as the bucket stores it.
#[derive(Clone, Copy)]
struct LockState {
    readers: usize,
    writer: bool,
}

/// A non-creating lookup of a namespace's already-created children.
pub trait BucketT: Sized {
    /// The namespace's well-formedness.
    spec fn wf(&self) -> bool;

    /// The names of the children created so far.
    spec fn child_names(&self) -> Set<Seq<char>>;

    /// The child instance stored under a name.
    spec fn child_at(&self, name: Seq<char>) -> Self;

    /// Looks up an already-created child; nothing is created.
    fn bucket(&self, name: &str) -> (r: Option<&Self>)
        requires
            self.wf(),
        ensures
            match r {
                Some(b) => {
                    &&& self.child_names().contains(name@)
                    &&& *b == self.child_at(name@)
                    &&& b.wf()
                },
                None => !self.child_names().contains(name@),
            },
    ;
}

/// A directory-backed namespace node: its name under the parent, its child
/// buckets, and the per-key lock table.
pub struct Bucket {
    name: String,
    children: Vec<(String, Bucket)>,
    locks: KeyMap<LockState>,
}

impl Bucket {
    /// This bucket's name under its parent (the root keeps the name it was
    /// created with).
    pub closed spec fn name_spec(&self) -> Seq<char> {
        self.name@
    }

    /// The children created so far, by name.
    pub closed spec fn children_map(&self) -> Map<Seq<char>, Bucket> {
        assoc_map(self.children@)
    }

    /// The per-key lock table.
    pub closed spec fn locks_map(&self) -> Map<Seq<char>, LockInfo> {
        Map::new(
            |k: Seq<char>| self.locks@.contains_key(k),
            |k: Seq<char>|
                LockInfo {
                    readers: self.locks@[k].readers as int,
                    writer: self.locks@[k].writer,
                },
        )
    }

    /// Sibling names are unique, every lock is well formed, and so is every
    /// child, recursively.
    pub closed spec fn inv(&self) -> bool
        decreases self,
    {
        &&& distinct_keys(self.children@)
        &&& self.locks.inv()
        &&& (forall|k: Seq<char>| #[trigger]
            self.locks@.contains_key(k) ==> (self.locks@[k].writer ==> self.locks@[k].readers
                == 0))
        &&& (forall|i: int|
            #![trigger self.children@[i]]
            0 <= i < self.children@.len() ==> self.children@[i].1.inv())
    }

    /// A bucket just created: named, with no children and no locks.
    pub open spec fn is_fresh(b: &Bucket, name: Seq<char>) -> bool {
        &&& b.name_spec() == name
        &&& b.children_map() == Map::<Seq<char>, Bucket>::empty()
        &&& b.locks_map() == Map::<Seq<char>, LockInfo>::empty()
    }

    /// The key's lock has room for one more reader; a machine limit,
    /// trivially true until `usize::MAX` readers hold it.
    pub open spec fn lock_can_count(&self, k: Seq<char>) -> bool {
        self.locks_map().contains_key(k) ==> self.locks_map()[k].readers < usize::MAX
    }

    /// A new namespace node; the caller creates the backing directory.
    pub fn new(name: &str) -> (r: Bucket)
        ensures
            r.inv(),
            Bucket::is_fresh(&r, name@),
    {
        let r = Bucket { name: name.to_owned(), children: Vec::new(), locks: KeyMap::new() };
        proof {
            assert(r.children_map() =~= Map::<Seq<char>, Bucket>::empty());
            assert(r.locks_map() =~= Map::<Seq<char>, LockInfo>::empty());
        }
        r
    }

    pub fn name(&self) -> (r: &String)
        ensures
            r@ == self.name_spec(),
    {
        &self.name
    }

    /// The position of `name` among the children, if it is one.
    fn child_index(&self, name: &str) -> (r: Option<usize>)
        ensures
            match r {
                Some(i) => i < self.children@.len() && self.children@[i as int].0@ == name@,
                None => !self.children_map().contains_key(name@),
            },
    {
        let key: String = name.to_owned();
        let n = self.children.len();
        let mut i: usize = 0;
        while i < n
            invariant
                n == self.children@.len(),
                i <= n,
                key@ == name@,
                forall|j: int| 0 <= j < i ==> self.children@[j].0@ != name@,
            decreases n - i,
        {
            if self.children[i].0 == key {
                return Some(i);
            }
            i = i + 1;
        }
        None
    }

    /// Borrows an already-created child for further (mutating) operations;
    /// the namespace afterwards holds whatever state the caller left the
    /// child in, and is well formed again as soon as the child is.
    pub fn bucket_mut(&mut self, name: &str) -> (r: &mut Bucket)
        requires
            old(self).inv(),
            old(self).children_map().contains_key(name@),
        ensures
            *r == old(self).children_map()[name@],
            r.inv(),
            final(self).name_spec() == old(self).name_spec(),
            final(self).locks_map() == old(self).locks_map(),
            final(self).children_map() == old(self).children_map().insert(name@, *final(r)),
            final(r).inv() ==> final(self).inv(),
    {
        let i = match self.child_index(name) {
            Some(i) => i,
            None => {
                proof {
                    assert(false);
                }
                0
            },
        };
        proof {
            lemma_entry_value(self.children@, i as int);
            assert(self.children@[i as int].1.inv());
        }
        let ghost old_children = self.children@;
        let entry: &mut (String, Bucket) = &mut self.children[i];
        let r: &mut Bucket = &mut entry.1;
        proof {
            lemma_assoc_update(old_children, i as int, (old_children[i as int].0, *final(r)));
            assert forall|j: int|
                0 <= j < old_children.update(
                    i as int,
                    (old_children[i as int].0, *final(r)),
                ).len() && final(r).inv() implies #[trigger] old_children.update(
                i as int,
                (old_children[i as int].0, *final(r)),
            )[j].1.inv() by {
                if j != i {
                    assert(old(self).children@[j].1.inv());
                    assert(old_children.update(
                        i as int,
                        (old_children[i as int].0, *final(r)),
                    )[j] == old_children[j]);
                }
            }
        }
        r
    }

    /// Gets or creates the child named `name`: the first caller creates it
    /// (and then creates the backing directory); concurrent callers converge
    /// on that one instance. Returns whether this call created it.
    pub fn bucket_or_create(&mut self, name: &str) -> (created: bool)
        requires
            old(self).inv(),
        ensures
            final(self).inv(),
            final(self).name_spec() == old(self).name_spec(),
            final(self).locks_map() == old(self).locks_map(),
            created == !old(self).children_map().contains_key(name@),
            final(self).children_map().contains_key(name@),
            final(self).children_map() == ensure_child(
                old(self).children_map(),
                name@,
                final(self).children_map()[name@],
            ),
            created ==> Bucket::is_fresh(&final(self).children_map()[name@], name@),
            !created ==> final(self).children_map() == old(self).children_map(),
    {
        match self.child_index(name) {
            Some(i) => {
                proof {
                    lemma_entry_value(self.children@, i as int);
                }
                false
            },
            None => {
                let ghost old_children = self.children@;
                let key: String = name.to_owned();
                let child = Bucket::new(name);
                proof {
                    lemma_assoc_push(old_children, (key, child));
                }
                self.children.push((key, child));
                proof {
                    lemma_entry_value(self.children@, old_children.len() as int);
                    assert forall|j: int| 0 <= j < self.children@.len() implies #[trigger] self
                        .children@[j].1.inv() by {
                        if j < old_children.len() {
                            assert(old(self).children@[j].1.inv());
                            assert(self.children@[j] == old_children[j]);
                        }
                    }
                }
                true
            },
        }
    }

    /// Whether a lock entry exists for `key`: whether the key has ever been
    /// written through this bucket.
    pub fn has_key(&self, key: &str) -> (r: bool)
        ensures
            r == self.locks_map().contains_key(key@),
    {
        self.locks.contains(key)
    }

    /// Acquires the key's shared lock for a read, without creating a lock
    /// entry: fails with `NotFound` exactly when the key has never been
    /// written through this bucket, and with `Contention` exactly when the
    /// exclusive writer holds the lock.
    pub fn acquire_read(&mut self, key: &str) -> (r: Result<(), AccessError>)
        requires
            old(self).inv(),
            old(self).lock_can_count(key@),
        ensures
            final(self).inv(),
            final(self).name_spec() == old(self).name_spec(),
            final(self).children_map() == old(self).children_map(),
            match r {
                Ok(()) => {
                    &&& old(self).locks_map().contains_key(key@)
                    &&& !old(self).locks_map()[key@].writer
                    &&& final(self).locks_map() == old(self).locks_map().insert(
                        key@,
                        LockInfo {
                            readers: old(self).locks_map()[key@].readers + 1,
                            writer: false,
                        },
                    )
                },
                Err(AccessError::NotFound) => {
                    &&& !old(self).locks_map().contains_key(key@)
                    &&& final(self).locks_map() == old(self).locks_map()
                },
                Err(AccessError::Contention) => {
                    &&& old(self).locks_map().contains_key(key@)
                    &&& old(self).locks_map()[key@].writer
                    &&& final(self).locks_map() == old(self).locks_map()
                },
                Err(_) => false,
            },
    {
        let st = match self.locks.get(key) {
            Some(l) => *l,
            None => {
                return Err(AccessError::NotFound);
            },
        };
        if st.writer {
            return Err(AccessError::Contention);
        }
        self.locks.insert(key, LockState { readers: st.readers + 1, writer: false });
        proof {
            assert(self.locks_map() =~= old(self).locks_map().insert(
                key@,
                LockInfo { readers: old(self).locks_map()[key@].readers + 1, writer: false },
            ));
            assert(self.children_map() =~= old(self).children_map());
        }
        Ok(())
    }

    /// Acquires the key's shared lock for a raw positional reader, creating
    /// the lock entry if the key is new: fails with `Contention` exactly
    /// when the exclusive writer holds the lock.
    pub fn acquire_read_or_create(&mut self, key: &str) -> (r: Result<(), AccessError>)
        requires
            old(self).inv(),
            old(self).lock_can_count(key@),
        ensures
            final(self).inv(),
            final(self).name_spec() == old(self).name_spec(),
            final(self).children_map() == old(self).children_map(),
            match r {
                Ok(()) => {
                    &&& !ensure_lock(old(self).locks_map(), key@)[key@].writer
                    &&& final(self).locks_map() == ensure_lock(
                        old(self).locks_map(),
                        key@,
                    ).insert(
                        key@,
                        LockInfo {
                            readers: ensure_lock(old(self).locks_map(), key@)[key@].readers + 1,
                            writer: false,
                        },
                    )
                },
                Err(e) => {
                    &&& e == AccessError::Contention
                    &&& old(self).locks_map().contains_key(key@)
                    &&& old(self).locks_map()[key@].writer
                    &&& final(self).locks_map() == old(self).locks_map()
                },
            },
    {
        let st = match self.locks.get(key) {
            Some(l) => *l,
            None => LockState { readers: 0, writer: false },
        };
        if st.writer {
            return Err(AccessError::Contention);
        }
        self.locks.insert(key, LockState { readers: st.readers + 1, writer: false });
        proof {
            assert(self.locks_map() =~= ensure_lock(old(self).locks_map(), key@).insert(
                key@,
                LockInfo {
                    readers: ensure_lock(old(self).locks_map(), key@)[key@].readers + 1,
                    writer: false,
                },
            ));
            assert(self.children_map() =~= old(self).children_map());
        }
        Ok(())
    }

    /// Acquires the key's exclusive lock for a write, creating the lock
    /// entry if the key is new: fails with `Contention` exactly when any
    /// reader or the writer holds the lock. The entry stays created either
    /// way.
    pub fn acquire_write(&mut self, key: &str) -> (r: Result<(), AccessError>)
        requires
            old(self).inv(),
        ensures
            final(self).inv(),
            final(self).name_spec() == old(self).name_spec(),
            final(self).children_map() == old(self).children_map(),
            match r {
                Ok(()) => {
                    &&& ensure_lock(old(self).locks_map(), key@)[key@] == LockInfo::free()
                    &&& final(self).locks_map() == ensure_lock(
                        old(self).locks_map(),
                        key@,
                    ).insert(key@, (LockInfo { readers: 0, writer: true }))
                },
                Err(e) => {
                    &&& e == AccessError::Contention
                    &&& ensure_lock(old(self).locks_map(), key@)[key@] != LockInfo::free()
                    &&& final(self).locks_map() == ensure_lock(old(self).locks_map(), key@)
                },
            },
    {
        let st = match self.locks.get(key) {
            Some(l) => *l,
            None => {
                self.locks.insert(key, LockState { readers: 0, writer: false });
                LockState { readers: 0, writer: false }
            },
        };
        proof {
            assert(self.locks_map() =~= ensure_lock(old(self).locks_map(), key@));
        }
        if st.readers > 0 || st.writer {
            proof {
                assert(self.children_map() =~= old(self).children_map());
            }
            return Err(AccessError::Contention);
        }
        let ghost mid = self.locks_map();
        self.locks.insert(key, LockState { readers: 0, writer: true });
        proof {
            assert(self.locks_map() =~= mid.insert(
                key@,
                (LockInfo { readers: 0, writer: true }),
            ));
            assert(self.children_map() =~= old(self).children_map());
        }
        Ok(())
    }

    /// Releases one shared hold of the key's lock; holds that were never
    /// acquired are not owed, so a free or writer-held lock is untouched.
    pub fn release_read(&mut self, key: &str)
        requires
            old(self).inv(),
        ensures
            final(self).inv(),
            final(self).name_spec() == old(self).name_spec(),
            final(self).children_map() == old(self).children_map(),
            final(self).locks_map() == if old(self).locks_map().contains_key(key@) && old(
                self,
            ).locks_map()[key@].readers >= 1 {
                old(self).locks_map().insert(
                    key@,
                    LockInfo {
                        readers: old(self).locks_map()[key@].readers - 1,
                        writer: old(self).locks_map()[key@].writer,
                    },
                )
            } else {
                old(self).locks_map()
            },
    {
        let st = match self.locks.get(key) {
            Some(l) => *l,
            None => {
                proof {
                    assert(self.locks_map() =~= old(self).locks_map());
                }
                return ;
            },
        };
        if st.readers >= 1 {
            self.locks.insert(key, LockState { readers: st.readers - 1, writer: st.writer });
            proof {
                assert(self.locks_map() =~= old(self).locks_map().insert(
                    key@,
                    LockInfo {
                        readers: old(self).locks_map()[key@].readers - 1,
                        writer: old(self).locks_map()[key@].writer,
                    },
                ));
                assert(self.children_map() =~= old(self).children_map());
            }
        } else {
            proof {
                assert(self.locks_map() =~= old(self).locks_map());
            }
        }
    }

    /// Releases the exclusive hold of the key's lock; a lock the writer does
    /// not hold is untouched.
    pub fn release_write(&mut self, key: &str)
        requires
            old(self).inv(),
        ensures
            final(self).inv(),
            final(self).name_spec() == old(self).name_spec(),
            final(self).children_map() == old(self).children_map(),
            final(self).locks_map() == if old(self).locks_map().contains_key(key@) && old(
                self,
            ).locks_map()[key@].writer {
                old(self).locks_map().insert(key@, LockInfo::free())
            } else {
                old(self).locks_map()
            },
    {
        let st = match self.locks.get(key) {
            Some(l) => *l,
            None => {
                proof {
                    assert(self.locks_map() =~= old(self).locks_map());
                }
                return ;
            },
        };
        if st.writer {
            self.locks.insert(key, LockState { readers: 0, writer: false });
            proof {
                assert(self.locks_map() =~= old(self).locks_map().insert(
                    key@,
                    LockInfo::free(),
                ));
                assert(self.children_map() =~= old(self).children_map());
            }
        } else {
            proof {
                assert(self.locks_map() =~= old(self).locks_map());
            }
        }
    }
}

impl BucketT for Bucket {
    open spec fn wf(&self) -> bool {
        self.inv()
    }

    open spec fn child_names(&self) -> Set<Seq<char>> {
        self.children_map().dom()
    }

    open spec fn child_at(&self, name: Seq<char>) -> Bucket {
        self.children_map()[name]
    }

    fn bucket(&self, name: &str) -> (r: Option<&Bucket>) {
        match self.child_index(name) {
            Some(i) => {
                proof {
                    lemma_entry_value(self.children@, i as int);
                    assert(self.children@[i as int].1.inv());
                }
                Some(&self.children[i].1)
            },
            None => None,
        }
    }
}

/// Law: creating a child bucket is idempotent. However many callers race to
/// create the same name, the first creation wins; every later call changes
/// nothing and observes the winner's instance, so exactly one child (and one
/// backing directory) ever exists per name.
pub proof fn lemma_child_create_idempotent(
    m: Map<Seq<char>, Bucket>,
    name: Seq<char>,
    first: Bucket,
    later: Bucket,
)
    ensures
        ensure_child(m, name, first).contains_key(name),
        ensure_child(ensure_child(m, name, first), name, later) == ensure_child(m, name, first),
        !m.contains_key(name) ==> ensure_child(m, name, first)[name] == first,
        m.contains_key(name) ==> ensure_child(m, name, first)[name] == m[name],
{
}

/// Law: a key's lock is exclusive against its writer. While the exclusive
/// writer holds it, no shared or exclusive acquisition can succeed; while
/// any reader holds it, the writer cannot acquire it; and the lock entry,
/// once created, is never duplicated — later acquisitions go through the
/// same entry.
pub proof fn lemma_key_lock_exclusive(m: Map<Seq<char>, LockInfo>, k: Seq<char>)
    requires
        ensure_lock(m, k)[k].wf(),
    ensures
        ensure_lock(m, k).contains_key(k),
        ensure_lock(ensure_lock(m, k), k) == ensure_lock(m, k),
        ensure_lock(m, k)[k].writer ==> ensure_lock(m, k)[k] != LockInfo::free(),
        ensure_lock(m, k)[k].readers > 0 ==> ensure_lock(m, k)[k] != LockInfo::free(),
        ensure_lock(m, k).insert(k, (LockInfo { readers: 0, writer: true }))[k].writer,
{
}

} // verus!
