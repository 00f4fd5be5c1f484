use vstd::prelude::*;
use crate::table::ResourceTable;

verus! {

/// Handle value reserved to mean "already released". A live resource never
/// carries this value, so swapping it in marks the transfer of ownership.
pub const INVALID_HANDLE: u32 = 0xFFFF_FFFF;

/// A capability kind the guest can hold through a handle. The single
/// operation releases the host-side entry behind the handle; the contract
/// guarantees the handle is dead afterwards and that an already-dead handle
/// stays dead, whichever capability type implements it.
pub trait WasmResource {
    fn drop(table: &mut ResourceTable, handle: u32)
        ensures
            !final(table).live(handle),
            old(table).live(handle) ==> final(table).slots() == old(table).slots().update(
                handle as int,
                None,
            ),
            !old(table).live(handle) ==> *final(table) == *old(table),
    ;
}

/// Guest-side owner of one handle. Holds the raw handle until `take_handle`
/// moves ownership out, replacing it with `INVALID_HANDLE` so the original
/// holder can observe that it no longer owns the resource.
#[derive(Debug)]
pub struct Resource {
    handle: u32,
}

impl Resource {
    /// The handle currently held; `INVALID_HANDLE` after `take_handle`.
    pub closed spec fn id(self) -> u32 {
        self.handle
    }

    /// True once ownership has been taken out of this value.
    pub open spec fn is_released(self) -> bool {
        self.id() == INVALID_HANDLE
    }

    /// Wraps a raw handle received from the host. The sentinel is not a
    /// valid handle, so it is excluded.
    pub fn from_handle(handle: u32) -> (r: Self)
        requires
            handle != INVALID_HANDLE,
        ensures
            r.id() == handle,
            !r.is_released(),
    {
        Resource { handle }
    }

    /// Takes ownership of the held handle: returns the previous value and
    /// swaps in the sentinel, so a second take yields only the sentinel and
    /// the original holder must no longer release the resource.
    pub fn take_handle(&mut self) -> (h: u32)
        ensures
            h == old(self).id(),
            final(self).is_released(),
    {
        let h = self.handle;
        self.handle = INVALID_HANDLE;
        h
    }

    /// Reads the held handle without transferring ownership.
    pub fn handle(&self) -> (h: u32)
        ensures
            h == self.id(),
    {
        self.handle
    }
}

} // verus!
