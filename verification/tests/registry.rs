//! The registry's arbitration: single writer, shared readers, eviction,
//! and reader drain.
use bucketfs::file_map::FileMap;
use bucketfs::AccessError;

#[test]
fn test_file_map() {
    let mut fm = FileMap::new();

    // A writer on a path nobody reads is granted; dropping it clears the flag.
    assert!(fm.try_writer("/tmp/y").is_ok());
    assert!(fm.writer_active("/tmp/y"));
    fm.release_writer("/tmp/y");
    assert!(!fm.writer_active("/tmp/y"));

    // Nothing cached yet: a get is a miss, and the loaded bytes install.
    assert_eq!(fm.get("/tmp/y").unwrap().is_none(), true);
    let f = fm.install("/tmp/y", b"abc".to_vec()).expect("reader failed");
    assert_eq!(fm.reader_count(&f), 2);

    // A live external reader blocks the writer.
    assert_eq!(fm.try_writer("/tmp/y"), Err(AccessError::Contention));
    fm.release(f);

    // With only the cache's own copy left, the writer is granted and the
    // cached mapping is evicted.
    fm.try_writer("/tmp/y").expect("writer failed");
    assert!(!fm.is_cached("/tmp/y"));

    // While the writer is active, readers fail with contention.
    assert!(matches!(fm.get("/tmp/y"), Err(AccessError::Contention)));
    assert!(matches!(fm.install("/tmp/y", b"zzz".to_vec()), Err(AccessError::Contention)));

    // After the writer drops, the next get misses and re-maps fresh content.
    fm.release_writer("/tmp/y");
    assert!(fm.get("/tmp/y").expect("reader failed").is_none());
}

#[test]
fn exactly_one_writer_per_contention_window() {
    let mut fm = FileMap::new();
    // Many acquisition attempts race for one path: exactly one succeeds
    // until the winner releases.
    let mut granted = 0;
    for _ in 0..100 {
        if fm.try_writer("shared").is_ok() {
            granted += 1;
        }
    }
    assert_eq!(granted, 1);
    fm.release_writer("shared");
    assert!(fm.try_writer("shared").is_ok());
}

#[test]
fn second_writer_fails_per_path_only() {
    let mut fm = FileMap::new();
    assert!(fm.try_writer("a").is_ok());
    assert_eq!(fm.try_writer("a"), Err(AccessError::Contention));
    // Another path is independent.
    assert!(fm.try_writer("b").is_ok());
    fm.release_writer("a");
    assert!(fm.try_writer("a").is_ok());
}

#[test]
fn readers_converge_on_one_mapping() {
    let mut fm = FileMap::new();
    let f1 = fm.install("p", b"one".to_vec()).unwrap();
    // A concurrent install with different bytes observes the winner.
    let f2 = fm.install("p", b"two".to_vec()).unwrap();
    assert_eq!(f1.version, f2.version);
    let mut m2 = f2.file;
    assert_eq!(m2.write_to(), b"one".to_vec());
    // A get hit shares the same mapping again.
    let f3 = fm.get("p").unwrap().expect("cached");
    assert_eq!(f3.version, f1.version);
    assert_eq!(fm.reader_count(&f3), 4);
}

#[test]
fn eviction_and_fresh_content_after_write() {
    let mut fm = FileMap::new();
    let f = fm.install("k", b"old".to_vec()).unwrap();
    fm.release(f);
    fm.try_writer("k").expect("no readers left");
    // The write happens on disk; after release, readers re-map new bytes.
    fm.release_writer("k");
    assert!(fm.get("k").unwrap().is_none());
    let mut f = fm.install("k", b"new".to_vec()).unwrap();
    assert_eq!(f.file.write_to(), b"new".to_vec());
}

#[test]
fn remove_is_unconditional_and_spares_live_readers() {
    let mut fm = FileMap::new();
    let mut f = fm.install("k", b"data".to_vec()).unwrap();
    fm.remove("k");
    assert!(!fm.is_cached("k"));
    // The in-flight reader still reads its snapshot.
    assert_eq!(f.file.write_to(), b"data".to_vec());
    // With the cache gone, a writer is granted even while f is live: the
    // registry only arbitrates what it still tracks.
    assert!(fm.try_writer("k").is_ok());
}

#[test]
fn reader_drain_condition() {
    let mut fm = FileMap::new();
    let f1 = fm.install("k", b"x".to_vec()).unwrap();
    let f2 = fm.get("k").unwrap().expect("cached");
    // Take the mapping out of the cache; the count carries to the taken copy.
    let taken = fm.remove_take("k").expect("was cached");
    assert!(!fm.is_cached("k"));
    assert_eq!(fm.reader_count(&taken), 3);
    // The drain condition fails while the external clones are live...
    assert!(fm.reader_count(&taken) > 1);
    fm.release(f1);
    assert!(fm.reader_count(&taken) > 1);
    fm.release(f2);
    // ...and holds as soon as the last one is dropped.
    assert!(fm.reader_count(&taken) <= 1);
}

#[test]
fn failed_open_rolls_the_grant_back() {
    let mut fm = FileMap::new();
    fm.try_writer("k").unwrap();
    // The caller's open failed: the grant must be rolled back so no stuck
    // writer flag is leaked.
    fm.release_writer("k");
    assert!(!fm.writer_active("k"));
    assert!(fm.try_writer("k").is_ok());
}
