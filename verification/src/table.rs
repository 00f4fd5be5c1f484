use vstd::prelude::*;
use crate::errors::BoundaryError;

verus! {

/// Host-side state of an output byte stream. The concrete transport that
/// eventually drains `data` (a terminal, a pipe) is an external collaborator;
/// the host empties the buffer through `drain_output`.
pub struct OutputState {
    /// Bytes accepted so far and not yet drained by the host.
    pub data: Vec<u8>,
    /// Most bytes the stream may hold at once; bounds `check_write`.
    pub capacity: u64,
    /// Once true, every further operation fails with `Closed`.
    pub closed: bool,
    /// Handle of the error object describing a transport failure the host
    /// recorded, or the sentinel when none is pending. The next stream
    /// operation reports it once as `LastOperationFailed`.
    pub last_fail: u32,
}

/// Host-side state of an input byte stream; the host refills `data` from the
/// concrete transport.
pub struct InputState {
    /// Bytes available to the guest, front first.
    pub data: Vec<u8>,
    /// Once true, every further operation fails with `Closed`.
    pub closed: bool,
    /// Handle of the error object describing a transport failure the host
    /// recorded, or the sentinel when none is pending. The next stream
    /// operation reports it once as `LastOperationFailed`.
    pub last_fail: u32,
}

/// Host-side state of a cancellable readiness primitive. Readiness changes
/// only when the host observes an external event and records it.
pub struct PollState {
    pub ready: bool,
}

/// Host-side state of an opaque error object: the guest can read a textual
/// description and nothing else.
pub struct ErrorState {
    pub message: String,
}

/// One capability instance: a type-tagged union of the closed set of
/// host-implemented objects that can be exposed through a handle.
pub enum Capability {
    Output(OutputState),
    Input(InputState),
    Poll(PollState),
    ErrorCap(ErrorState),
}

/// Host-side registry mapping opaque integer handles to live capability
/// objects. A handle is an index into `entries`; a released entry is `None`.
/// Slots are never reused, so a released handle never becomes live again.
pub struct ResourceTable {
    entries: Vec<Option<Capability>>,
}

impl ResourceTable {
    /// All slots, in registration order; `None` marks a released entry.
    pub closed spec fn slots(self) -> Seq<Option<Capability>> {
        self.entries@
    }

    /// A handle resolves as long as it was registered and not yet released.
    pub open spec fn live(self, h: u32) -> bool {
        h < self.slots().len() && self.slots()[h as int] is Some
    }

    /// The capability a live handle refers to.
    pub open spec fn cap_of(self, h: u32) -> Capability
        recommends
            self.live(h),
    {
        match self.slots()[h as int] {
            Some(c) => c,
            None => vstd::pervasive::arbitrary(),
        }
    }

    /// What `resolve` returns: the capability of a live handle, and
    /// `InvalidHandle` for a handle that was never registered or was
    /// already taken or dropped.
    pub open spec fn spec_resolve(self, h: u32) -> Result<Capability, BoundaryError> {
        if self.live(h) {
            Ok(self.cap_of(h))
        } else {
            Err(BoundaryError::InvalidHandle)
        }
    }

    pub fn new() -> (t: Self)
        ensures
            t.slots() == Seq::<Option<Capability>>::empty(),
    {
        ResourceTable { entries: Vec::new() }
    }

    /// Registers a capability and returns a fresh handle; never fails.
    /// The handle is fresh: it did not resolve before this call.
    pub fn register(&mut self, cap: Capability) -> (h: u32)
        requires
            old(self).slots().len() < u32::MAX,
        ensures
            h == old(self).slots().len(),
            final(self).slots() == old(self).slots().push(Some(cap)),
            !old(self).live(h),
            final(self).live(h),
            final(self).cap_of(h) == cap,
            forall|h2: u32| h2 != h ==> final(self).live(h2) == old(self).live(h2),
    {
        let h = self.entries.len();
        self.entries.push(Some(cap));
        h as u32
    }

    /// Borrows the capability a handle refers to; fails with `InvalidHandle`
    /// exactly when the handle is not live.
    pub fn resolve(&self, h: u32) -> (r: Result<&Capability, BoundaryError>)
        ensures
            match r {
                Ok(c) => self.spec_resolve(h) == Ok::<Capability, BoundaryError>(*c),
                Err(e) => self.spec_resolve(h) == Err::<Capability, BoundaryError>(e),
            },
    {
        if (h as usize) < self.entries.len() {
            match &self.entries[h as usize] {
                Some(c) => Ok(c),
                None => Err(BoundaryError::InvalidHandle),
            }
        } else {
            Err(BoundaryError::InvalidHandle)
        }
    }

    /// Borrows the capability mutably; same success condition as `resolve`.
    /// The entry stays live: only `take` and `drop_handle` release it.
    pub fn resolve_mut(&mut self, h: u32) -> (r: Result<&mut Capability, BoundaryError>)
        ensures
            old(self).live(h) <==> r is Ok,
            r matches Ok(c) ==> {
                &&& *c == old(self).cap_of(h)
                &&& final(self).slots() == old(self).slots().update(h as int, Some(*final(c)))
            },
            r matches Err(e) ==> e == BoundaryError::InvalidHandle && *final(self) == *old(self),
    {
        if (h as usize) < self.entries.len() && self.entries[h as usize].is_some() {
            let slot = &mut self.entries[h as usize];
            match slot {
                Some(c) => Ok(c),
                None => {
                    proof {
                        assert(false);
                    }
                    Err(BoundaryError::InvalidHandle)
                },
            }
        } else {
            Err(BoundaryError::InvalidHandle)
        }
    }

    /// Moves the capability out, atomically marking the handle as released:
    /// ownership transfers to the caller, and the handle never resolves
    /// again.
    pub fn take(&mut self, h: u32) -> (r: Result<Capability, BoundaryError>)
        ensures
            match r {
                Ok(c) => {
                    &&& old(self).live(h)
                    &&& c == old(self).cap_of(h)
                    &&& final(self).slots() == old(self).slots().update(h as int, None)
                },
                Err(e) => {
                    &&& !old(self).live(h)
                    &&& e == BoundaryError::InvalidHandle
                    &&& *final(self) == *old(self)
                },
            },
            !final(self).live(h),
            forall|h2: u32| !old(self).live(h2) ==> !final(self).live(h2),
    {
        if (h as usize) < self.entries.len() {
            let is_live = self.entries[h as usize].is_some();
            if is_live {
                self.entries.push(None);
                let slot = self.entries.swap_remove(h as usize);
                proof {
                    assert(self.entries@ =~= old(self).entries@.update(h as int, None));
                }
                match slot {
                    Some(c) => Ok(c),
                    None => Err(BoundaryError::InvalidHandle),
                }
            } else {
                Err(BoundaryError::InvalidHandle)
            }
        } else {
            Err(BoundaryError::InvalidHandle)
        }
    }

    /// Releases the capability exactly once: on a live handle the entry (and
    /// the capability it owns) is destroyed; on an already-released handle
    /// this is a no-op, so a release can never happen twice.
    pub fn drop_handle(&mut self, h: u32)
        ensures
            old(self).live(h) ==> final(self).slots() == old(self).slots().update(h as int, None),
            !old(self).live(h) ==> *final(self) == *old(self),
            !final(self).live(h),
            forall|h2: u32| !old(self).live(h2) ==> !final(self).live(h2),
    {
        if (h as usize) < self.entries.len() {
            let is_live = self.entries[h as usize].is_some();
            if is_live {
                self.entries.push(None);
                let _slot = self.entries.swap_remove(h as usize);
                proof {
                    assert(self.entries@ =~= old(self).entries@.update(h as int, None));
                }
            }
        }
    }
}

/// Law: a handle that is not live never resolves. After `take(h)` or
/// `drop_handle(h)` the handle is no longer live, every mutating operation
/// keeps a released handle released, and `register` hands out only slot
/// indices that were never used before — so any subsequent `resolve(h)`
/// fails with `InvalidHandle`.
pub proof fn lemma_released_handle_never_resolves(t: ResourceTable, h: u32)
    requires
        !t.live(h),
    ensures
        t.spec_resolve(h) == Err::<Capability, BoundaryError>(BoundaryError::InvalidHandle),
{
}

} // verus!
