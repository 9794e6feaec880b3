//! The bucket namespace: lazy child creation that converges on one
//! instance, and the per-key shared/exclusive locks.
use bucketfs::bucket::{Bucket, BucketT};
use bucketfs::mmap_file::MmapFile;
use bucketfs::AccessError;

#[test]
fn test_bucket() {
    let mut root = Bucket::new("tmp");
    assert_eq!(root.name().as_str(), "tmp");

    // A lookup before creation finds nothing.
    assert!(root.bucket("test1").is_none());

    // The first creation wins; the second call converges on it.
    assert!(root.bucket_or_create("test1"));
    assert!(!root.bucket_or_create("test1"));
    assert!(root.bucket("test1").is_some());

    // Write then read a key in the child bucket.
    let child = root.bucket_mut("test1");
    child.acquire_write("test").expect("exclusive lock");
    child.release_write("test");
    child.acquire_read("test").expect("shared lock");
    child.release_read("test");
}

#[test]
fn create_is_idempotent_across_many_callers() {
    let mut root = Bucket::new("r");
    let mut created = 0;
    for _ in 0..100 {
        if root.bucket_or_create("users") {
            created += 1;
        }
    }
    // Exactly one creation (one backing directory), all callers converge.
    assert_eq!(created, 1);
    assert!(root.bucket("users").is_some());
}

#[test]
fn read_of_an_unwritten_key_is_not_found() {
    let mut b = Bucket::new("b");
    assert_eq!(b.acquire_read("nope"), Err(AccessError::NotFound));
    // The raw-reader path creates the entry instead.
    assert_eq!(b.acquire_read_or_create("nope"), Ok(()));
    assert!(b.has_key("nope"));
    b.release_read("nope");
    // Now the buffered-read path finds it too.
    assert_eq!(b.acquire_read("nope"), Ok(()));
}

#[test]
fn key_locks_are_shared_exclusive() {
    let mut b = Bucket::new("b");
    b.acquire_write("k").expect("first writer");
    // Writer excludes readers and a second writer.
    assert_eq!(b.acquire_read_or_create("k"), Err(AccessError::Contention));
    assert_eq!(b.acquire_write("k"), Err(AccessError::Contention));
    b.release_write("k");
    // Readers share.
    assert_eq!(b.acquire_read("k"), Ok(()));
    assert_eq!(b.acquire_read("k"), Ok(()));
    // Any reader excludes the writer.
    assert_eq!(b.acquire_write("k"), Err(AccessError::Contention));
    b.release_read("k");
    assert_eq!(b.acquire_write("k"), Err(AccessError::Contention));
    b.release_read("k");
    assert_eq!(b.acquire_write("k"), Ok(()));
}

#[test]
fn locks_of_different_keys_are_independent() {
    let mut b = Bucket::new("b");
    b.acquire_write("k1").unwrap();
    assert_eq!(b.acquire_write("k2"), Ok(()));
    b.release_write("k1");
    b.release_write("k2");
}

/// Scenario: open a bucket at a root, create the child "users", write the
/// key "alice" = b"hello", read it back, and hold the write guard while a
/// second writer tries.
#[test]
fn users_alice_scenario() {
    let mut root = Bucket::new("root");
    assert!(root.bucket_or_create("users"));
    let users = root.bucket_mut("users");

    // Write "alice" = b"hello" under the exclusive key lock.
    users.acquire_write("alice").expect("write lock");
    let mut file = MmapFile::open_rw(Vec::new());
    file.write_at(&b"hello".to_vec(), 0).unwrap();
    file.flush().unwrap();

    // A second writer while the first guard is held: contention.
    assert_eq!(users.acquire_write("alice"), Err(AccessError::Contention));

    users.release_write("alice");

    // Read "alice" back under the shared lock.
    users.acquire_read("alice").expect("read lock");
    assert_eq!(file.write_to(), b"hello".to_vec());
    users.release_read("alice");
}
