//! A minimal asynchronous file I/O layer in the style of io_uring, with a
//! verified core: a kernel capability probe (version-string parsing and
//! comparison), a ring manager that pairs submissions with completions, an
//! operation adapter giving exact semantics to open/read/write/fsync/stat/
//! close, and a fallback coordinator that routes the same operations to a
//! blocking path with identical observable behaviour.

pub mod adapter;
pub mod capability;
pub mod error;
pub mod fallback;
pub mod ring;
pub mod version;

pub use capability::init_io_uring;
pub use capability::is_io_uring_available;
pub use version::check_kernel_version;
pub use version::kernel_version_at_least;
pub use version::parse_kernel_version;

