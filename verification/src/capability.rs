//! The kernel capability probe: from what the environment reports — the OS
//! family, whether the ring facility was compiled in, and the kernel release
//! string — decide once whether the asynchronous path is usable. The flag is
//! tri-state and, once decided, never recomputed.

use crate::version::check_kernel_version;
use crate::version::version_ok_spec;
use vstd::prelude::*;

verus! {

/// Whether the asynchronous ring facility is usable: decided at most once
/// for the lifetime of a process.
#[derive(Clone, Copy, Debug, PartialEq, Eq, Structural)]
pub enum CapabilityFlag {
    /// Not yet determined.
    Unknown,
    /// The ring facility may be used.
    Available,
    /// Every operation must take the blocking fallback path.
    Unavailable,
}

/// What the environment reports to the probe. The caller reads these at its
/// edge: `os_release` is the kernel release string, or nothing if reading
/// it failed.
pub struct ProbeEnv {
    /// Whether the process runs on the OS family with the ring facility.
    pub on_linux: bool,
    /// Whether the ring facility was included in the build.
    pub ring_compiled: bool,
    /// The OS-reported kernel release string, if it could be read.
    pub os_release: Option<String>,
}

/// The probe's decision: available exactly when the OS family matches, the
/// facility was compiled in, the release string was readable, and it parses
/// to a version at least the minimum. Everything else fails closed.
pub open spec fn probe_spec(env: ProbeEnv) -> CapabilityFlag {
    if !env.on_linux || !env.ring_compiled {
        CapabilityFlag::Unavailable
    } else {
        match env.os_release {
            Option::None => CapabilityFlag::Unavailable,
            Option::Some(s) => if version_ok_spec(vstd::utf8::encode_utf8(s@)) {
                CapabilityFlag::Available
            } else {
                CapabilityFlag::Unavailable
            },
        }
    }
}

/// Computes the capability flag from what the environment reports. A read
/// failure or an unparseable release string yields unavailable, never an
/// error.
pub fn probe(env: &ProbeEnv) -> (f: CapabilityFlag)
    ensures
        f == probe_spec(*env),
{
    if !env.on_linux || !env.ring_compiled {
        return CapabilityFlag::Unavailable;
    }
    match &env.os_release {
        Option::None => CapabilityFlag::Unavailable,
        Option::Some(s) => {
            if check_kernel_version(s.as_str()) {
                CapabilityFlag::Available
            } else {
                CapabilityFlag::Unavailable
            }
        },
    }
}

/// A release string that does not parse can never make the probe report
/// available: the probe fails closed.
pub proof fn lemma_unparseable_fails_closed(env: ProbeEnv)
    requires
        match env.os_release {
            Option::Some(s) => crate::version::parse_kernel_version_spec(
                vstd::utf8::encode_utf8(s@),
            ) is None,
            Option::None => true,
        },
    ensures
        probe_spec(env) == CapabilityFlag::Unavailable,
{
}

/// Whether io_uring is usable in this environment: on the supporting OS
/// family, with the facility compiled in, on a kernel of at least the
/// minimum version.
pub fn is_io_uring_available(env: &ProbeEnv) -> (r: bool)
    ensures
        r == (probe_spec(*env) == CapabilityFlag::Available),
{
    let f = probe(env);
    match f {
        CapabilityFlag::Available => true,
        _ => false,
    }
}

/// Initialize ring support if the environment offers it; to be called early
/// in runtime initialization. Reports whether the asynchronous path is on.
pub fn init_io_uring(env: &ProbeEnv) -> (r: bool)
    ensures
        r == (probe_spec(*env) == CapabilityFlag::Available),
{
    is_io_uring_available(env)
}

/// The process-wide capability flag: a cell that is written at most once.
/// Once the flag is decided it is never recomputed, whatever environment a
/// later call hands in.
pub struct CapabilityCell {
    flag: CapabilityFlag,
}

impl CapabilityCell {
    /// The flag as currently stored.
    pub closed spec fn spec_flag(self) -> CapabilityFlag {
        self.flag
    }

    /// A fresh cell, not yet decided.
    pub fn new() -> (c: CapabilityCell)
        ensures
            c.spec_flag() == CapabilityFlag::Unknown,
    {
        CapabilityCell { flag: CapabilityFlag::Unknown }
    }

    /// The probe, memoized: the first call decides the flag from the
    /// environment; every later call returns the stored decision unchanged.
    pub fn get_or_init(&mut self, env: &ProbeEnv) -> (r: bool)
        ensures
            old(self).spec_flag() == CapabilityFlag::Unknown ==> final(self).spec_flag()
                == probe_spec(*env),
            old(self).spec_flag() != CapabilityFlag::Unknown ==> final(self).spec_flag() == old(
                self,
            ).spec_flag(),
            final(self).spec_flag() != CapabilityFlag::Unknown,
            r == (final(self).spec_flag() == CapabilityFlag::Available),
    {
        match self.flag {
            CapabilityFlag::Unknown => {
                let f = probe(env);
                self.flag = f;
            },
            _ => {},
        }
        match self.flag {
            CapabilityFlag::Available => true,
            _ => false,
        }
    }

    /// The stored flag, without deciding it.
    pub fn current(&self) -> (f: CapabilityFlag)
        ensures
            f == self.spec_flag(),
    {
        self.flag
    }
}

} // verus!
