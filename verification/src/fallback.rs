//! The fallback coordinator: routes every logical operation either through
//! the ring or through the blocking path, as the capability flag decided
//! once at startup says. The postcondition of `execute` does not mention
//! the flag: both paths are proved against the one `op_outcome` relation,
//! so callers observe the same successes, the same errors and the same
//! short-transfer policy whichever path carried the operation.

use crate::adapter::frame_except;
use crate::adapter::op_outcome;
use crate::adapter::op_wf;
use crate::adapter::perform;
use crate::adapter::tick;
use crate::adapter::FileModel;
use crate::adapter::FileStore;
use crate::adapter::OpResult;
use crate::adapter::Operation;
use crate::capability::CapabilityFlag;
use crate::error::FsError;
use crate::ring::Ring;
use vstd::prelude::*;

verus! {

/// One store behind two interchangeable execution paths, selected once by
/// the capability flag.
pub struct Dispatcher {
    flag: CapabilityFlag,
    ring: Ring,
    store: FileStore,
}

impl Dispatcher {
    /// The capability decision this dispatcher routes by.
    pub closed spec fn spec_flag(self) -> CapabilityFlag {
        self.flag
    }

    /// The store the operations act on.
    pub closed spec fn spec_store(self) -> FileStore {
        self.store
    }

    /// How many identifiers the ring has handed out.
    pub closed spec fn spec_submitted(self) -> u64 {
        self.ring.spec_next_id()
    }

    /// The ring between calls: well-formed, with nothing left in flight.
    pub closed spec fn ring_idle(self) -> bool {
        self.ring.wf() && self.ring.spec_pending().len() == 0
    }

    /// Well-formed: the flag is decided, the store is well-formed, and the
    /// ring is well-formed with nothing left in flight between calls.
    pub open spec fn wf(self) -> bool {
        &&& self.spec_flag() != CapabilityFlag::Unknown
        &&& self.spec_store().wf()
        &&& self.ring_idle()
    }

    /// A dispatcher over an empty store, routing by a decided flag.
    pub fn new(flag: CapabilityFlag, depth: usize) -> (d: Dispatcher)
        requires
            flag != CapabilityFlag::Unknown,
            depth >= 1,
        ensures
            d.wf(),
            d.spec_flag() == flag,
            d.spec_store().entries().len() == 0,
            forall|q: u64| !d.spec_store().has_path(q),
            d.spec_submitted() == 0,
    {
        Dispatcher { flag, ring: Ring::new(depth), store: FileStore::new() }
    }

    /// Which path operations take.
    pub fn flag(&self) -> (f: CapabilityFlag)
        ensures
            f == self.spec_flag(),
    {
        self.flag
    }

    /// Pre-populates the store with a file, exactly as the store itself
    /// does; refused if the path is taken.
    pub fn add_file(&mut self, path: u64, data: Vec<u8>, writable: bool) -> (r: bool)
        requires
            old(self).wf(),
        ensures
            final(self).wf(),
            final(self).spec_flag() == old(self).spec_flag(),
            final(self).spec_submitted() == old(self).spec_submitted(),
            r == !old(self).spec_store().has_path(path),
            !r ==> final(self).spec_store() == old(self).spec_store(),
            r ==> final(self).spec_store().has_path(path) && final(self).spec_store().model_of(
                path,
            ) == (FileModel {
                data: data@,
                writable: writable,
                flush_error: false,
                modified_time: old(self).spec_store().spec_clock(),
            }) && frame_except(old(self).spec_store(), final(self).spec_store(), path)
                && final(self).spec_store().spec_clock() == tick(old(self).spec_store().spec_clock()),
    {
        self.store.add_file(path, data, writable)
    }

    /// Carries out one logical operation, on whichever path the flag
    /// selected. The outcome relation is the same for both paths: a
    /// caller cannot tell from results which one executed.
    pub fn execute(&mut self, op: Operation) -> (r: Result<OpResult, FsError>)
        requires
            old(self).wf(),
            op_wf(op),
            old(self).spec_submitted() < u64::MAX,
        ensures
            final(self).wf(),
            final(self).spec_flag() == old(self).spec_flag(),
            old(self).spec_submitted() <= final(self).spec_submitted() <= old(self).spec_submitted()
                + 1,
            op_outcome(old(self).spec_store(), op, final(self).spec_store(), r),
    {
        match self.flag {
            CapabilityFlag::Available => {
                let submitted = self.ring.submit(op);
                match submitted {
                    Result::Ok(_) => {
                        let c = self.ring.complete_at(&mut self.store, 0);
                        c.result
                    },
                    Result::Err(_) => vstd::pervasive::unreached(),
                }
            },
            _ => perform(&mut self.store, op),
        }
    }
}

} // verus!
