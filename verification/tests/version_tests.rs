use uring_fs::kernel_version_at_least;
use uring_fs::parse_kernel_version;
use uring_fs::version::MIN_KERNEL_MAJOR;
use uring_fs::version::MIN_KERNEL_MINOR;

#[test]
fn test_parse_kernel_version() {
    assert_eq!(parse_kernel_version("5.10.0"), Some((5, 10)));
    assert_eq!(parse_kernel_version("5.6.0-1-amd64"), Some((5, 6)));
    assert_eq!(parse_kernel_version("6.1.0"), Some((6, 1)));
    assert_eq!(parse_kernel_version("5.4.0"), Some((5, 4)));
    assert_eq!(parse_kernel_version("4.19.0"), Some((4, 19)));

    // Edge cases
    assert_eq!(parse_kernel_version("5.10.0\n"), Some((5, 10)));
    assert_eq!(parse_kernel_version("  5.10.0  "), Some((5, 10)));

    // Invalid cases
    assert_eq!(parse_kernel_version("invalid"), None);
    assert_eq!(parse_kernel_version("5"), None);
    assert_eq!(parse_kernel_version(""), None);
}

#[test]
fn test_version_comparison() {
    assert!(kernel_version_at_least(5, 6, MIN_KERNEL_MAJOR, MIN_KERNEL_MINOR));
    assert!(kernel_version_at_least(5, 10, MIN_KERNEL_MAJOR, MIN_KERNEL_MINOR));
    assert!(kernel_version_at_least(6, 0, MIN_KERNEL_MAJOR, MIN_KERNEL_MINOR));
    assert!(!kernel_version_at_least(5, 5, MIN_KERNEL_MAJOR, MIN_KERNEL_MINOR));
    assert!(!kernel_version_at_least(4, 19, MIN_KERNEL_MAJOR, MIN_KERNEL_MINOR));
}

#[test]
fn test_parse_minor_with_suffix_before_patch() {
    // The suffix may begin inside the minor field, before any patch field:
    // the minor is read up to its first non-digit boundary.
    assert_eq!(parse_kernel_version("5.10-1-amd64"), Some((5, 10)));
    assert_eq!(parse_kernel_version("5.6-rc1.2"), Some((5, 6)));
    assert_eq!(parse_kernel_version("5.10rc1"), Some((5, 10)));
    assert_eq!(parse_kernel_version("5.10a.0"), Some((5, 10)));
}

#[test]
fn test_parse_plus_sign_and_range() {
    // The major field is parsed as str::parse::<u32>, with one optional
    // leading '+'; the minor is a digit run, so a sign ends it at once.
    // Values over u32 range are rejected in either field.
    assert_eq!(parse_kernel_version("+5.6.0"), Some((5, 6)));
    assert_eq!(parse_kernel_version("5.+6.0"), None);
    assert_eq!(parse_kernel_version("4294967295.0"), Some((4294967295, 0)));
    assert_eq!(parse_kernel_version("4294967296.0"), None);
    assert_eq!(parse_kernel_version("5.4294967296.0"), None);
}

#[test]
fn test_parse_missing_or_empty_fields() {
    assert_eq!(parse_kernel_version("5."), None);
    assert_eq!(parse_kernel_version(".5"), None);
    assert_eq!(parse_kernel_version("5.-1"), None);
    assert_eq!(parse_kernel_version("a.b"), None);
    assert_eq!(parse_kernel_version("   "), None);
}
