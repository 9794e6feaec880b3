//! The mapped-file handle: cursor semantics, page-capped reads, seeks,
//! writes through the descriptor, and the write/read round trip.
use bucketfs::mmap_file::{MmapFile, SeekFrom, PAGE_SIZE};
use bucketfs::AccessError;

fn round_trip(n: usize) {
    let data: Vec<u8> = (0..n).map(|i| (i % 251) as u8).collect();
    let mut f = MmapFile::open_rw(Vec::new());
    assert_eq!(f.write_at(&data, 0), Ok(n));
    assert_eq!(f.flush(), Ok(()));
    assert_eq!(f.len(), n);
    assert_eq!(f.write_to(), data);
    assert_eq!(f.position(), 0);
}

#[test]
fn test_mmap_round_trip_sizes() {
    round_trip(0);
    round_trip(1);
    round_trip(PAGE_SIZE - 1);
    round_trip(PAGE_SIZE);
    round_trip(10 * PAGE_SIZE);
}

#[test]
fn reads_are_page_capped_and_advance_the_cursor() {
    let data = vec![7u8; 3 * PAGE_SIZE + 5];
    let mut f = MmapFile::open(data.clone());
    // However much is asked for, one call never copies more than a page.
    let chunk = f.read(usize::MAX);
    assert_eq!(chunk.len(), PAGE_SIZE);
    assert_eq!(f.position(), PAGE_SIZE);
    // A short ask copies exactly what was asked.
    let chunk = f.read(3);
    assert_eq!(chunk, vec![7u8; 3]);
    assert_eq!(f.position(), PAGE_SIZE + 3);
    // Callers needing "read to end" loop; the tail call is short.
    let mut total = chunk.len() + PAGE_SIZE;
    loop {
        let c = f.read(PAGE_SIZE);
        if c.is_empty() {
            break;
        }
        total += c.len();
    }
    assert_eq!(total, data.len());
    // At end-of-mapping, reads return zero bytes.
    assert_eq!(f.read(1), Vec::<u8>::new());
}

#[test]
fn read_at_leaves_the_cursor_alone() {
    let data: Vec<u8> = (0u8..100).collect();
    let mut f = MmapFile::open(data);
    f.seek(SeekFrom::Start(40)).unwrap();
    let out = f.read_at(5, 10).unwrap();
    assert_eq!(out, vec![10, 11, 12, 13, 14]);
    assert_eq!(f.position(), 40);
    // An offset past the end is an invalid input, like the seek it stands for.
    assert_eq!(f.read_at(5, 101), Err(AccessError::InvalidInput));
    // An offset at the end reads zero bytes.
    assert_eq!(f.read_at(5, 100).unwrap(), Vec::<u8>::new());
}

#[test]
fn seek_bounds() {
    let mut f = MmapFile::open(vec![0u8; 10]);
    assert_eq!(f.seek(SeekFrom::Start(10)), Ok(10));
    assert_eq!(f.seek(SeekFrom::Start(11)), Err(AccessError::InvalidInput));
    assert_eq!(f.position(), 10);
    assert_eq!(f.seek(SeekFrom::End(-4)), Ok(6));
    assert_eq!(f.seek(SeekFrom::End(1)), Err(AccessError::InvalidInput));
    assert_eq!(f.seek(SeekFrom::Current(-6)), Ok(0));
    assert_eq!(f.seek(SeekFrom::Current(-1)), Err(AccessError::InvalidInput));
    assert_eq!(f.seek(SeekFrom::Current(10)), Ok(10));
}

#[test]
fn clones_share_bytes_with_independent_cursors() {
    let data: Vec<u8> = (0u8..10).collect();
    let mut a = MmapFile::open(data);
    a.seek(SeekFrom::Start(4)).unwrap();
    let mut b = a.clone();
    assert_eq!(b.position(), 4);
    // The clone sees the same mapping bytes...
    assert_eq!(b.read(2), vec![4, 5]);
    // ...and moving its cursor does not perturb the original's.
    assert_eq!(a.position(), 4);
    assert_eq!(b.position(), 6);
}

#[test]
fn write_through_a_read_only_handle_is_denied() {
    let mut f = MmapFile::open(vec![1, 2, 3]);
    assert_eq!(f.write_at(&vec![9], 0), Err(AccessError::Permission));
    assert_eq!(f.flush(), Err(AccessError::Permission));
    // Nothing changed.
    assert_eq!(f.write_to(), vec![1, 2, 3]);
}

#[test]
fn stale_snapshot_until_flush() {
    let mut f = MmapFile::open_rw(vec![1, 2, 3]);
    f.write_at(&vec![9, 9], 1).unwrap();
    // The mapping reflects contents as of the last (re)map: still stale.
    assert_eq!(f.write_to(), vec![1, 2, 3]);
    f.flush().unwrap();
    assert_eq!(f.write_to(), vec![1, 9, 9]);
}

#[test]
fn write_past_the_end_zero_fills_the_gap() {
    let mut f = MmapFile::open_rw(vec![5, 5]);
    f.write_at(&vec![8, 8], 4).unwrap();
    f.flush().unwrap();
    assert_eq!(f.write_to(), vec![5, 5, 0, 0, 8, 8]);
}

#[test]
fn flush_clamps_a_cursor_past_the_new_end() {
    let mut f = MmapFile::open_rw(vec![0u8; 8]);
    f.seek(SeekFrom::End(0)).unwrap();
    assert_eq!(f.position(), 8);
    // Remapping a file that shrank... the model never shrinks, but a cursor
    // past the new end is clamped when the write extended nothing.
    f.write_at(&vec![1], 0).unwrap();
    f.flush().unwrap();
    assert_eq!(f.position(), 8);
    f.write_at(&vec![2, 2, 2, 2], 8).unwrap();
    f.flush().unwrap();
    assert_eq!(f.len(), 12);
    assert_eq!(f.position(), 8);
}
