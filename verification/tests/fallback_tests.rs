use uring_fs::adapter::OpResult;
use uring_fs::adapter::OpenOptions;
use uring_fs::adapter::Operation;
use uring_fs::capability::CapabilityFlag;
use uring_fs::error::FsError;
use uring_fs::fallback::Dispatcher;

/// A completion reduced to plain comparable values.
#[derive(Debug, PartialEq, Eq)]
enum Seen {
    Opened(u64),
    Read(Vec<u8>, usize),
    Wrote(usize),
    Synced,
    Statted(u64, bool, u32),
    Closed,
    Failed(FsError),
}

fn observe(r: Result<OpResult, FsError>) -> Seen {
    match r {
        Ok(OpResult::Opened { handle }) => Seen::Opened(handle.path()),
        Ok(OpResult::Read { buf, bytes_read }) => Seen::Read(buf, bytes_read),
        Ok(OpResult::Wrote { bytes_written, .. }) => Seen::Wrote(bytes_written),
        Ok(OpResult::Synced) => Seen::Synced,
        Ok(OpResult::Statted { meta }) => Seen::Statted(meta.size, meta.is_dir, meta.permissions),
        Ok(OpResult::Closed) => Seen::Closed,
        Err(e) => Seen::Failed(e),
    }
}

/// The same logical operations, issued to a dispatcher routing by `flag`.
fn run_script(flag: CapabilityFlag) -> Vec<Seen> {
    let mut d = Dispatcher::new(flag, 8);
    assert!(d.add_file(5, vec![3; 10], false));
    let mut seen = Vec::new();
    let ops = |path: u64| -> Vec<Operation> {
        vec![
            Operation::Open { path, opts: OpenOptions::for_create() },
            Operation::WriteAt { path, buf: vec![1, 2, 3, 4], offset: 0 },
            Operation::ReadAt { path, buf: vec![0; 4], offset: 0 },
            Operation::ReadAt { path, buf: vec![0; 2], offset: 1 },
            Operation::Fsync { path },
            Operation::Stat { path },
            Operation::Open { path: 99, opts: OpenOptions::for_read() },
            Operation::Stat { path: 99 },
            Operation::WriteAt { path: 5, buf: vec![0], offset: 0 },
            Operation::Open { path: 5, opts: OpenOptions::for_create() },
        ]
    };
    for op in ops(1) {
        seen.push(observe(d.execute(op)));
    }
    seen
}

#[test]
fn test_paths_are_observably_equivalent() {
    // When the probe reports unavailable every operation still succeeds or
    // fails exactly as on the ring path: same results, same errors.
    let ring_path = run_script(CapabilityFlag::Available);
    let blocking_path = run_script(CapabilityFlag::Unavailable);
    assert_eq!(ring_path, blocking_path);

    // And the script's own expectations hold on both.
    assert_eq!(ring_path[0], Seen::Opened(1));
    assert_eq!(ring_path[1], Seen::Wrote(4));
    assert_eq!(ring_path[2], Seen::Read(vec![1, 2, 3, 4], 4));
    assert_eq!(ring_path[3], Seen::Read(vec![2, 3], 2));
    assert_eq!(ring_path[4], Seen::Synced);
    assert_eq!(ring_path[5], Seen::Statted(4, false, 0o644));
    assert_eq!(ring_path[6], Seen::Failed(FsError::NotFound));
    assert_eq!(ring_path[7], Seen::Failed(FsError::NotFound));
    assert_eq!(ring_path[8], Seen::Failed(FsError::PermissionDenied));
    assert_eq!(ring_path[9], Seen::Failed(FsError::PermissionDenied));
}

#[test]
fn test_round_trip_through_dispatcher() {
    for n in [1024usize, 4096, 1048576] {
        for flag in [CapabilityFlag::Available, CapabilityFlag::Unavailable] {
            let mut d = Dispatcher::new(flag, 4);
            let data: Vec<u8> = (0..n).map(|i| (i % 239) as u8).collect();
            let opened = d.execute(Operation::Open { path: 1, opts: OpenOptions::for_create() });
            let handle = match opened.unwrap() {
                OpResult::Opened { handle } => handle,
                _ => panic!("expected a handle"),
            };
            let wrote = d.execute(Operation::WriteAt {
                path: handle.path(),
                buf: data.clone(),
                offset: 0,
            });
            assert!(matches!(wrote.unwrap(), OpResult::Wrote { bytes_written, .. } if bytes_written == n));
            let read = d.execute(Operation::ReadAt {
                path: handle.path(),
                buf: vec![0; n],
                offset: 0,
            });
            match read.unwrap() {
                OpResult::Read { buf, bytes_read } => {
                    assert_eq!(bytes_read, n);
                    assert_eq!(buf, data);
                }
                _ => panic!("expected a read completion"),
            }
            let closed = d.execute(Operation::Close { handle });
            assert!(matches!(closed.unwrap(), OpResult::Closed));
        }
    }
}
