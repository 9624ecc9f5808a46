use uring_fs::adapter::FileStore;
use uring_fs::adapter::OpenOptions;
use uring_fs::error::FsError;

#[test]
fn test_open_errors_by_options() {
    let mut fs = FileStore::new();
    assert!(fs.add_file(1, vec![1, 2, 3], true));

    // Missing file without create: NotFound.
    assert_eq!(fs.open(2, OpenOptions::for_read()).err(), Some(FsError::NotFound));
    // Exclusive creation of an existing file: AlreadyExists.
    let excl = OpenOptions { read: false, write: true, create: false, create_new: true, truncate: false };
    assert_eq!(fs.open(1, excl).err(), Some(FsError::AlreadyExists));
    // Writing a read-only file: PermissionDenied.
    assert!(fs.add_file(3, vec![9], false));
    assert_eq!(fs.open(3, OpenOptions::for_create()).err(), Some(FsError::PermissionDenied));
    // Reading an existing file succeeds.
    let h = fs.open(1, OpenOptions::for_read()).ok().unwrap();
    assert_eq!(h.path(), 1);
    h.close();
}

#[test]
fn test_create_truncates_and_stat_reports() {
    let mut fs = FileStore::new();
    assert!(fs.add_file(7, vec![5; 40], true));
    let meta = fs.stat(7).ok().unwrap();
    assert_eq!(meta.size, 40);
    assert!(!meta.is_dir);
    assert_eq!(meta.permissions, 0o644);

    let h = fs.open(7, OpenOptions::for_create()).ok().unwrap();
    let meta2 = fs.stat(7).ok().unwrap();
    assert_eq!(meta2.size, 0);
    h.close();

    assert_eq!(fs.stat(99).err(), Some(FsError::NotFound));

    let mut fs2 = FileStore::new();
    assert!(fs2.add_file(8, vec![1], false));
    assert_eq!(fs2.stat(8).ok().unwrap().permissions, 0o444);
}

#[test]
fn test_short_transfer_is_success() {
    let mut fs = FileStore::new();
    assert!(fs.add_file(1, (0u8..100).collect(), true));

    // A buffer shorter than the file transfers exactly the buffer's length.
    let (buf, n) = fs.read_at(1, vec![0; 10], 0).ok().unwrap();
    assert_eq!(n, 10);
    assert_eq!(buf, (0u8..10).collect::<Vec<u8>>());

    // A read past the data transfers what is there, still as success.
    let (buf2, n2) = fs.read_at(1, vec![0; 10], 95).ok().unwrap();
    assert_eq!(n2, 5);
    assert_eq!(&buf2[..5], &[95, 96, 97, 98, 99]);
    assert_eq!(buf2.len(), 10);

    // A read at or past the end transfers zero bytes, still as success.
    let (_, n3) = fs.read_at(1, vec![0; 10], 100).ok().unwrap();
    assert_eq!(n3, 0);
}

#[test]
fn test_write_round_trip() {
    // Writing N bytes at offset 0 then reading N bytes at offset 0 on the
    // same handle returns the identical byte sequence.
    for n in [1024usize, 4096, 1048576] {
        let mut fs = FileStore::new();
        let h = fs.open(1, OpenOptions::for_create()).ok().unwrap();
        let data: Vec<u8> = (0..n).map(|i| (i % 251) as u8).collect();
        let (_, written) = fs.write_at(h.path(), data.clone(), 0).ok().unwrap();
        assert_eq!(written, n);
        let (buf, got) = fs.read_at(h.path(), vec![0; n], 0).ok().unwrap();
        assert_eq!(got, n);
        assert_eq!(buf, data);
        h.close();
    }
}

#[test]
fn test_write_extends_and_zero_fills() {
    let mut fs = FileStore::new();
    assert!(fs.add_file(1, vec![1, 2], true));
    let (_, n) = fs.write_at(1, vec![9, 9], 4).ok().unwrap();
    assert_eq!(n, 2);
    let (buf, got) = fs.read_at(1, vec![0; 6], 0).ok().unwrap();
    assert_eq!(got, 6);
    assert_eq!(buf, vec![1, 2, 0, 0, 9, 9]);
}

#[test]
fn test_write_errors() {
    let mut fs = FileStore::new();
    assert!(fs.add_file(1, vec![0], false));
    assert_eq!(fs.write_at(1, vec![1], 0).err(), Some(FsError::PermissionDenied));
    assert_eq!(fs.write_at(2, vec![1], 0).err(), Some(FsError::IoError));
    assert_eq!(fs.read_at(2, vec![0; 4], 0).err(), Some(FsError::IoError));
}

#[test]
fn test_fsync_surfaces_device_failure() {
    let mut fs = FileStore::new();
    assert!(fs.add_file(1, vec![1], true));
    assert!(fs.fsync(1).is_ok());
    // A flush failure the device reports is surfaced, never swallowed.
    assert!(fs.set_flush_error(1, true));
    assert_eq!(fs.fsync(1).err(), Some(FsError::IoError));
    assert!(fs.set_flush_error(1, false));
    assert!(fs.fsync(1).is_ok());
    assert_eq!(fs.fsync(42).err(), Some(FsError::IoError));
}
