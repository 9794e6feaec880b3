//! The raw positional stream: return-value conversion and the read/write
//! step decisions, with Linux's would-block and interrupted errnos.
use bucketfs::mmap_file::SeekFrom;
use bucketfs::raw_stream::{cvt, RawStream, ReadStep, WriteStep};
use bucketfs::AccessError;

const EAGAIN: i32 = libc::EAGAIN;
const EINTR: i32 = libc::EINTR;

#[test]
fn cvt_maps_the_sentinel_to_errno() {
    assert_eq!(cvt(0), Ok(0));
    assert_eq!(cvt(4096), Ok(4096));
    assert!(cvt(-1).is_err());
}

#[test]
fn read_steps() {
    let mut s = RawStream::new();
    // Data advances the cursor by the bytes actually read.
    assert_eq!(s.apply_read(Ok(10), EAGAIN), ReadStep::Data(10));
    assert_eq!(s.position(), 10);
    assert_eq!(s.apply_read(Ok(3), EAGAIN), ReadStep::Data(3));
    assert_eq!(s.position(), 13);
    // A zero-byte read signals end of file and does not move the cursor.
    assert_eq!(s.apply_read(Ok(0), EAGAIN), ReadStep::Eof);
    assert_eq!(s.position(), 13);
    // Would-block is "not ready yet", to be retried, not an error.
    assert_eq!(s.apply_read(Err(EAGAIN), EAGAIN), ReadStep::NotReady);
    assert_eq!(s.position(), 13);
    // Any other errno is terminal.
    assert_eq!(s.apply_read(Err(libc::EBADF), EAGAIN), ReadStep::Fail(libc::EBADF));
    assert_eq!(s.position(), 13);
}

#[test]
fn write_steps() {
    let mut s = RawStream::new();
    assert_eq!(s.apply_write(Ok(5), EAGAIN, EINTR), WriteStep::Written(5));
    assert_eq!(s.position(), 5);
    assert_eq!(s.apply_write(Err(EAGAIN), EAGAIN, EINTR), WriteStep::NotReady);
    assert_eq!(s.apply_write(Err(EINTR), EAGAIN, EINTR), WriteStep::NotReady);
    assert_eq!(s.position(), 5);
    assert_eq!(s.apply_write(Err(libc::ENOSPC), EAGAIN, EINTR), WriteStep::Fail(libc::ENOSPC));
    assert_eq!(s.position(), 5);
}

#[test]
fn raw_seek_may_pass_the_end_but_not_zero() {
    let mut s = RawStream::new();
    // Past the end is fine for a raw stream: a later write extends the file.
    assert_eq!(s.seek(SeekFrom::Start(100), 10), Ok(100));
    assert_eq!(s.seek(SeekFrom::End(5), 10), Ok(15));
    assert_eq!(s.seek(SeekFrom::Current(-15), 10), Ok(0));
    // Negative targets are invalid input.
    assert_eq!(s.seek(SeekFrom::Current(-1), 10), Err(AccessError::InvalidInput));
    assert_eq!(s.seek(SeekFrom::End(-11), 10), Err(AccessError::InvalidInput));
    assert_eq!(s.position(), 0);
}
