use uring_fs::adapter::FileStore;
use uring_fs::adapter::OpResult;
use uring_fs::adapter::Operation;
use uring_fs::error::FsError;
use uring_fs::ring::CancelOutcome;
use uring_fs::ring::Ring;

#[test]
fn test_concurrent_reads_keep_attribution() {
    // K independent reads against K distinct files, completed in an order
    // other than submission order, each return their own file's content.
    let mut fs = FileStore::new();
    assert!(fs.add_file(10, vec![b'a'; 8], true));
    assert!(fs.add_file(20, vec![b'b'; 8], true));
    assert!(fs.add_file(30, vec![b'c'; 8], true));

    let mut ring = Ring::new(8);
    let id0 = ring.submit(Operation::ReadAt { path: 10, buf: vec![0; 8], offset: 0 }).unwrap();
    let id1 = ring.submit(Operation::ReadAt { path: 20, buf: vec![0; 8], offset: 0 }).unwrap();
    let id2 = ring.submit(Operation::ReadAt { path: 30, buf: vec![0; 8], offset: 0 }).unwrap();
    assert_eq!(ring.pending_count(), 3);

    // Completions arrive out of submission order: last, first, middle.
    let c2 = ring.complete_at(&mut fs, 2);
    let c0 = ring.complete_at(&mut fs, 0);
    let c1 = ring.complete_at(&mut fs, 0);
    assert_eq!(ring.pending_count(), 0);

    assert_eq!(c2.id, id2);
    assert_eq!(c0.id, id0);
    assert_eq!(c1.id, id1);
    match c2.result.unwrap() {
        OpResult::Read { buf, bytes_read } => {
            assert_eq!(bytes_read, 8);
            assert_eq!(buf, vec![b'c'; 8]);
        }
        _ => panic!("expected a read completion"),
    }
    match c0.result.unwrap() {
        OpResult::Read { buf, .. } => assert_eq!(buf, vec![b'a'; 8]),
        _ => panic!("expected a read completion"),
    }
    match c1.result.unwrap() {
        OpResult::Read { buf, .. } => assert_eq!(buf, vec![b'b'; 8]),
        _ => panic!("expected a read completion"),
    }
}

#[test]
fn test_full_ring_is_saturated_not_dropped() {
    let mut ring = Ring::new(2);
    ring.submit(Operation::Stat { path: 1 }).unwrap();
    ring.submit(Operation::Stat { path: 2 }).unwrap();
    let r = ring.submit(Operation::Stat { path: 3 });
    assert_eq!(r.err(), Some(FsError::RingSaturated));
    // The refused submission cost nothing: both pending survive.
    assert_eq!(ring.pending_count(), 2);
}

#[test]
fn test_cancel_resolves_race_deterministically() {
    let mut fs = FileStore::new();
    assert!(fs.add_file(1, vec![7; 4], true));
    let mut ring = Ring::new(4);
    let id = ring.submit(Operation::ReadAt { path: 1, buf: vec![0; 4], offset: 0 }).unwrap();

    // Still pending: cancellation wins and the buffer comes back.
    match ring.cancel(id) {
        CancelOutcome::BeforeCompletion { completion, buffer } => {
            assert_eq!(completion.id, id);
            assert_eq!(completion.result.err(), Some(FsError::Cancelled));
            assert_eq!(buffer.unwrap().len(), 4);
        }
        CancelOutcome::AlreadyCompleted => panic!("operation was still pending"),
    }
    assert_eq!(ring.pending_count(), 0);

    // Already completed: the delivered result stands.
    let id2 = ring.submit(Operation::Stat { path: 1 }).unwrap();
    let c = ring.complete_at(&mut fs, 0);
    assert_eq!(c.id, id2);
    assert!(matches!(ring.cancel(id2), CancelOutcome::AlreadyCompleted));
}

#[test]
fn test_shutdown_surfaces_outstanding_operations() {
    let ring = Ring::new(2);
    assert!(ring.shutdown().is_ok());

    let mut ring2 = Ring::new(2);
    ring2.submit(Operation::Stat { path: 1 }).unwrap();
    match ring2.shutdown() {
        Ok(()) => panic!("an outstanding operation must be surfaced"),
        Err(leaked) => assert_eq!(leaked.len(), 1),
    }
}
