use uring_fs::capability::probe;
use uring_fs::capability::CapabilityCell;
use uring_fs::capability::CapabilityFlag;
use uring_fs::capability::ProbeEnv;
use uring_fs::init_io_uring;
use uring_fs::is_io_uring_available;

fn env_with(release: Option<&str>) -> ProbeEnv {
    ProbeEnv {
        on_linux: true,
        ring_compiled: true,
        os_release: release.map(|s| s.to_string()),
    }
}

#[test]
fn test_probe_available_on_new_enough_kernel() {
    assert_eq!(probe(&env_with(Some("5.10.0-1-amd64"))), CapabilityFlag::Available);
    assert_eq!(probe(&env_with(Some("6.1.0"))), CapabilityFlag::Available);
    assert_eq!(probe(&env_with(Some("5.6.0"))), CapabilityFlag::Available);
    assert!(is_io_uring_available(&env_with(Some("5.6.0"))));
    assert!(init_io_uring(&env_with(Some("5.6.0"))));
}

#[test]
fn test_probe_unavailable_on_old_kernel() {
    assert_eq!(probe(&env_with(Some("5.4.0"))), CapabilityFlag::Unavailable);
    assert_eq!(probe(&env_with(Some("4.19.0"))), CapabilityFlag::Unavailable);
    assert!(!is_io_uring_available(&env_with(Some("5.5.0"))));
}

#[test]
fn test_unparseable_release_fails_closed() {
    // Unparseable maps to unavailable, never to an error and never open.
    assert_eq!(probe(&env_with(Some("invalid"))), CapabilityFlag::Unavailable);
    assert_eq!(probe(&env_with(Some("5"))), CapabilityFlag::Unavailable);
    assert_eq!(probe(&env_with(Some(""))), CapabilityFlag::Unavailable);
    assert_eq!(probe(&env_with(None)), CapabilityFlag::Unavailable);
}

#[test]
fn test_probe_needs_os_and_build() {
    let mut e = env_with(Some("6.1.0"));
    e.on_linux = false;
    assert_eq!(probe(&e), CapabilityFlag::Unavailable);
    let mut e2 = env_with(Some("6.1.0"));
    e2.ring_compiled = false;
    assert_eq!(probe(&e2), CapabilityFlag::Unavailable);
}

#[test]
fn test_capability_cell_decides_once() {
    let mut cell = CapabilityCell::new();
    assert_eq!(cell.current(), CapabilityFlag::Unknown);
    assert!(cell.get_or_init(&env_with(Some("6.1.0"))));
    assert_eq!(cell.current(), CapabilityFlag::Available);
    // A later call with a different environment never recomputes the flag.
    assert!(cell.get_or_init(&env_with(Some("4.19.0"))));
    assert_eq!(cell.current(), CapabilityFlag::Available);

    let mut cell2 = CapabilityCell::new();
    assert!(!cell2.get_or_init(&env_with(None)));
    assert_eq!(cell2.current(), CapabilityFlag::Unavailable);
    assert!(!cell2.get_or_init(&env_with(Some("6.1.0"))));
    assert_eq!(cell2.current(), CapabilityFlag::Unavailable);
}
