//! The ring manager: tracks in-flight operations between submission and
//! completion. Each submission is assigned a fresh identifier; completion
//! delivery pairs a result with the submission carrying its identifier, so
//! results keep their attribution however completions are reordered. While
//! an operation is pending the ring owns it, buffer included; ownership
//! returns to the caller only attached to the completion, or through a
//! cancellation that won the race.

use crate::adapter::op_outcome;
use crate::adapter::op_wf;
use crate::adapter::perform;
use crate::adapter::FileStore;
use crate::adapter::OpResult;
use crate::adapter::Operation;
use crate::error::FsError;
use vstd::prelude::*;

verus! {

/// One in-flight operation, owned by the ring until completed or
/// cancelled.
pub struct Pending {
    /// The identifier handed out at submission.
    pub id: u64,
    /// The operation, holding its buffer or handle.
    pub op: Operation,
}

/// A delivered completion: the identifier of the submission it answers,
/// and that operation's result.
pub struct Completion {
    /// The identifier of the submission this answers.
    pub id: u64,
    /// The operation's result, buffers attached.
    pub result: Result<OpResult, FsError>,
}

/// The buffer an operation owns while in flight, if any.
pub open spec fn op_buffer(op: Operation) -> Option<Seq<u8>> {
    match op {
        Operation::ReadAt { path, buf, offset } => Option::Some(buf@),
        Operation::WriteAt { path, buf, offset } => Option::Some(buf@),
        _ => Option::None,
    }
}

/// How a cancellation request resolved. The race against completion is
/// settled deterministically: an identifier still pending is cancelled,
/// and one no longer pending had already completed, so its result must be
/// taken from the completion that delivered it.
pub enum CancelOutcome {
    /// The operation had not completed; it is withdrawn, its result is
    /// Cancelled, and its buffer comes back here.
    BeforeCompletion { completion: Completion, buffer: Option<Vec<u8>> },
    /// The operation had already completed; its delivered result stands.
    AlreadyCompleted,
}

/// The submission/completion queue pair: pending operations up to a fixed
/// depth, and a monotone identifier counter.
pub struct Ring {
    depth: usize,
    next_id: u64,
    pending: Vec<Pending>,
}

impl Ring {
    /// The in-flight operations, in submission order.
    pub closed spec fn spec_pending(self) -> Seq<Pending> {
        self.pending@
    }

    /// The queue depth: how many operations may be in flight at once.
    pub closed spec fn spec_depth(self) -> int {
        self.depth as int
    }

    /// The identifier the next submission will get.
    pub closed spec fn spec_next_id(self) -> u64 {
        self.next_id
    }

    /// Well-formed: no more pending than the depth, identifiers distinct
    /// and below the counter, and every pending operation within machine
    /// limits.
    pub open spec fn wf(self) -> bool {
        &&& 1 <= self.spec_depth()
        &&& self.spec_pending().len() <= self.spec_depth()
        &&& forall|i: int, j: int|
            0 <= i < j < self.spec_pending().len() ==> self.spec_pending()[i].id
                != self.spec_pending()[j].id
        &&& forall|i: int|
            0 <= i < self.spec_pending().len() ==> self.spec_pending()[i].id
                < self.spec_next_id()
        &&& forall|i: int| 0 <= i < self.spec_pending().len() ==> op_wf(self.spec_pending()[i].op)
    }

    /// A fresh ring of the given depth with nothing in flight.
    pub fn new(depth: usize) -> (r: Ring)
        requires
            depth >= 1,
        ensures
            r.wf(),
            r.spec_pending().len() == 0,
            r.spec_depth() == depth,
            r.spec_next_id() == 0,
    {
        Ring { depth, next_id: 0, pending: Vec::new() }
    }

    /// How many operations are in flight.
    pub fn pending_count(&self) -> (n: usize)
        ensures
            n == self.spec_pending().len(),
    {
        self.pending.len()
    }

    /// The queue depth.
    pub fn depth(&self) -> (d: usize)
        ensures
            d == self.spec_depth(),
    {
        self.depth
    }

    /// Enqueues an operation. A full ring refuses it with the retryable
    /// RingSaturated, never dropping it silently; otherwise the operation
    /// is pending under the returned fresh identifier.
    pub fn submit(&mut self, op: Operation) -> (r: Result<u64, FsError>)
        requires
            old(self).wf(),
            op_wf(op),
            old(self).spec_next_id() < u64::MAX,
        ensures
            final(self).wf(),
            final(self).spec_depth() == old(self).spec_depth(),
            if old(self).spec_pending().len() < old(self).spec_depth() {
                r == Result::<u64, FsError>::Ok(old(self).spec_next_id())
                    && final(self).spec_pending() == old(self).spec_pending().push(
                    Pending { id: old(self).spec_next_id(), op: op },
                ) && final(self).spec_next_id() == old(self).spec_next_id() + 1
            } else {
                r == Result::<u64, FsError>::Err(FsError::RingSaturated)
                    && *final(self) == *old(self)
            },
    {
        if self.pending.len() >= self.depth {
            return Result::Err(FsError::RingSaturated);
        }
        let id = self.next_id;
        self.pending.push(Pending { id, op });
        self.next_id = self.next_id + 1;
        Result::Ok(id)
    }

    /// Delivers the completion of the pending operation at position `k` —
    /// the kernel, not the submitter, picks which completes next. The
    /// completion carries that submission's identifier and exactly that
    /// operation's result, so attribution survives any completion order;
    /// the other pending operations are untouched.
    pub fn complete_at(&mut self, store: &mut FileStore, k: usize) -> (c: Completion)
        requires
            old(self).wf(),
            old(store).wf(),
            k < old(self).spec_pending().len(),
        ensures
            final(self).wf(),
            final(store).wf(),
            final(self).spec_depth() == old(self).spec_depth(),
            final(self).spec_next_id() == old(self).spec_next_id(),
            final(self).spec_pending() == old(self).spec_pending().remove(k as int),
            c.id == old(self).spec_pending()[k as int].id,
            op_outcome(*old(store), old(self).spec_pending()[k as int].op, *final(store), c.result),
    {
        let entry = self.pending.remove(k);
        let result = perform(store, entry.op);
        Completion { id: entry.id, result }
    }

    /// Requests cancellation of a submission by identifier, resolving the
    /// cancel/completion race: if the operation is still pending it is
    /// withdrawn — its result is Cancelled and its buffer comes back —
    /// and if it is not, it had already completed and nothing changes.
    pub fn cancel(&mut self, id: u64) -> (r: CancelOutcome)
        requires
            old(self).wf(),
        ensures
            final(self).wf(),
            final(self).spec_depth() == old(self).spec_depth(),
            final(self).spec_next_id() == old(self).spec_next_id(),
            if exists|i: int|
                0 <= i < old(self).spec_pending().len() && old(self).spec_pending()[i].id == id {
                r matches CancelOutcome::BeforeCompletion { completion, buffer } && {
                    let i = choose|i: int|
                        0 <= i < old(self).spec_pending().len() && old(self).spec_pending()[i].id
                            == id;
                    &&& completion.id == id
                    &&& completion.result == Result::<OpResult, FsError>::Err(FsError::Cancelled)
                    &&& final(self).spec_pending() == old(self).spec_pending().remove(i)
                    &&& match (buffer, op_buffer(old(self).spec_pending()[i].op)) {
                        (Option::Some(b), Option::Some(s)) => b@ == s,
                        (Option::None, Option::None) => true,
                        _ => false,
                    }
                }
            } else {
                r == CancelOutcome::AlreadyCompleted && *final(self) == *old(self)
            },
    {
        let mut i: usize = 0;
        while i < self.pending.len()
            invariant
                old(self).wf(),
                *self == *old(self),
                i <= self.spec_pending().len(),
                forall|j: int| 0 <= j < i ==> self.spec_pending()[j].id != id,
            decreases self.spec_pending().len() - i,
        {
            if self.pending[i].id == id {
                proof {
                    let w = choose|w: int|
                        0 <= w < old(self).spec_pending().len() && old(self).spec_pending()[w].id
                            == id;
                    if w != i {
                        if w < i {
                            assert(old(self).spec_pending()[w].id != old(
                                self,
                            ).spec_pending()[i as int].id);
                        } else {
                            assert(old(self).spec_pending()[i as int].id != old(
                                self,
                            ).spec_pending()[w].id);
                        }
                    }
                }
                let entry = self.pending.remove(i);
                let buffer: Option<Vec<u8>> = match entry.op {
                    Operation::ReadAt { path: _, buf, offset: _ } => Option::Some(buf),
                    Operation::WriteAt { path: _, buf, offset: _ } => Option::Some(buf),
                    Operation::Close { handle } => {
                        handle.close();
                        Option::None
                    },
                    _ => Option::None,
                };
                let completion = Completion { id, result: Result::Err(FsError::Cancelled) };
                return CancelOutcome::BeforeCompletion { completion, buffer };
            }
            i = i + 1;
        }
        CancelOutcome::AlreadyCompleted
    }

    /// Retires the ring. Nothing in flight is the orderly end; operations
    /// still outstanding are an error, surfaced by handing every one of
    /// them back rather than dropping them silently.
    pub fn shutdown(self) -> (r: Result<(), Vec<Pending>>)
        ensures
            match r {
                Result::Ok(u) => self.spec_pending().len() == 0,
                Result::Err(v) => v@ == self.spec_pending() && v@.len() > 0,
            },
    {
        if self.pending.len() == 0 {
            Result::Ok(())
        } else {
            Result::Err(self.pending)
        }
    }
}

} // verus!
