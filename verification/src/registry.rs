//! Single-slot registry for the cancellation handle of the one in-flight
//! streaming exchange.
//!
//! The registry holds at most one handle at a time together with the
//! monotonically increasing id under which it was stored. Registering a new
//! handle hands the superseded one back to the caller, who is responsible for
//! signalling it; clearing is gated on the id so that a late cleanup task of a
//! superseded session can never clobber a newer one. Callers that share a
//! registry across tasks must wrap it in a mutual-exclusion primitive; each
//! operation here is one atomic step of the state machine.

use vstd::prelude::*;

verus! {

/// A stored cancellation handle together with the id of its registration.
pub struct TrackedHandle<H> {
    pub id: u64,
    pub handle: H,
}

/// The single slot plus the counter that produces registration ids.
pub struct StreamState<H> {
    slot: Option<TrackedHandle<H>>,
    counter: u64,
}

impl<H> StreamState<H> {
    /// The stored registration, as an (id, handle) pair.
    pub closed spec fn slot_model(self) -> Option<(u64, H)> {
        match self.slot {
            Some(t) => Some((t.id, t.handle)),
            None => None,
        }
    }

    /// How many registrations have ever been made.
    pub closed spec fn count(self) -> u64 {
        self.counter
    }

    /// The stored id never runs ahead of the counter, so a future
    /// registration can never reuse it.
    pub open spec fn wf(self) -> bool {
        match self.slot_model() {
            Some((id, _)) => 1 <= id <= self.count(),
            None => true,
        }
    }

    /// What `register` does: the new handle is stored under the next id and
    /// the previous handle, if any, is handed back.
    pub open spec fn register_rel(pre: Self, h: H, post: Self, id: u64, prev: Option<H>) -> bool {
        &&& post.count() == pre.count() + 1
        &&& id == post.count()
        &&& post.slot_model() == Some((id, h))
        &&& prev == match pre.slot_model() {
            Some((_, old_h)) => Some(old_h),
            None => None::<H>,
        }
    }

    /// What `take` does: the slot is emptied and its handle returned.
    pub open spec fn take_rel(pre: Self, post: Self, r: Option<H>) -> bool {
        &&& post.count() == pre.count()
        &&& post.slot_model() is None
        &&& r == match pre.slot_model() {
            Some((_, old_h)) => Some(old_h),
            None => None::<H>,
        }
    }

    /// What `clear_if` does: the slot is emptied only when the stored id
    /// matches, and is untouched otherwise.
    pub open spec fn clear_if_rel(pre: Self, id: u64, post: Self) -> bool {
        &&& post.count() == pre.count()
        &&& post.slot_model() == match pre.slot_model() {
            Some((stored, _)) if stored == id => None::<(u64, H)>,
            other => other,
        }
    }

    /// An empty registry whose first registration will get id 1.
    pub fn new() -> (r: Self)
        ensures
            r.slot_model() is None,
            r.count() == 0,
            r.wf(),
    {
        StreamState { slot: None, counter: 0 }
    }

    /// How many registrations have been made so far, so a caller can test
    /// that the next id cannot wrap before registering.
    pub fn registrations(&self) -> (r: u64)
        ensures
            r == self.count(),
    {
        self.counter
    }

    /// Store `handle` under a fresh id and hand back whatever handle was
    /// stored before, so the caller can signal it.
    pub fn register(&mut self, handle: H) -> (r: (u64, Option<H>))
        requires
            old(self).count() < u64::MAX,
            old(self).wf(),
        ensures
            Self::register_rel(*old(self), handle, *final(self), r.0, r.1),
            final(self).wf(),
    {
        self.counter = self.counter + 1;
        let id = self.counter;
        let previous = self.slot.take();
        self.slot = Some(TrackedHandle { id, handle });
        (id, match previous {
            Some(t) => Some(t.handle),
            None => None,
        })
    }

    /// Remove and return the current handle, leaving the slot empty.
    /// A second call yields nothing.
    pub fn take(&mut self) -> (r: Option<H>)
        requires
            old(self).wf(),
        ensures
            Self::take_rel(*old(self), *final(self), r),
            final(self).wf(),
    {
        match self.slot.take() {
            Some(t) => Some(t.handle),
            None => None,
        }
    }

    /// Empty the slot only if the stored id still equals `id`; a stale id is
    /// a no-op, so a superseded session's cleanup cannot clobber a newer one.
    pub fn clear_if(&mut self, id: u64)
        requires
            old(self).wf(),
        ensures
            Self::clear_if_rel(*old(self), id, *final(self)),
            final(self).wf(),
    {
        let matches_current = match &self.slot {
            Some(t) => t.id == id,
            None => false,
        };
        if matches_current {
            self.slot = None;
        }
    }
}

/// Registering twice hands exactly the first handle over at the second
/// registration, under distinct ids, and a `take` after both returns the
/// second handle only, emptying the slot.
pub proof fn lemma_register_supersedes<H>(
    s0: StreamState<H>,
    s1: StreamState<H>,
    s2: StreamState<H>,
    s3: StreamState<H>,
    h1: H,
    h2: H,
    id1: u64,
    id2: u64,
    prev1: Option<H>,
    prev2: Option<H>,
    taken: Option<H>,
)
    requires
        StreamState::register_rel(s0, h1, s1, id1, prev1),
        StreamState::register_rel(s1, h2, s2, id2, prev2),
        StreamState::take_rel(s2, s3, taken),
    ensures
        prev2 == Some(h1),
        id1 != id2,
        taken == Some(h2),
        s3.slot_model() is None,
{
}

/// Registration ids are never reused: whatever `take` and `clear_if`
/// operations run in between (none of them moves the counter), a later
/// registration always gets a strictly larger id.
pub proof fn lemma_ids_never_reuse<H>(
    s0: StreamState<H>,
    s1: StreamState<H>,
    s2: StreamState<H>,
    s3: StreamState<H>,
    h1: H,
    h2: H,
    id1: u64,
    id2: u64,
    prev1: Option<H>,
    prev2: Option<H>,
)
    requires
        StreamState::register_rel(s0, h1, s1, id1, prev1),
        s2.count() >= s1.count(),
        StreamState::register_rel(s2, h2, s3, id2, prev2),
    ensures
        id2 > id1,
{
}

/// A `clear_if` with a stale id changes nothing; with the current id it
/// empties the slot; and run twice with the same id, the second run finds the
/// slot already cleared (or still mismatched) and is a no-op.
pub proof fn lemma_clear_if_gated<H>(
    s0: StreamState<H>,
    s1: StreamState<H>,
    s2: StreamState<H>,
    id: u64,
)
    requires
        StreamState::clear_if_rel(s0, id, s1),
        StreamState::clear_if_rel(s1, id, s2),
    ensures
        (match s0.slot_model() {
            Some((stored, _)) => stored != id,
            None => true,
        }) ==> s1.slot_model() == s0.slot_model(),
        (match s0.slot_model() {
            Some((stored, _)) => stored == id,
            None => false,
        }) ==> s1.slot_model() is None,
        s2.slot_model() == s1.slot_model(),
{
}

} // verus!
