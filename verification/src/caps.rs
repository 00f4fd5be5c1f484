use vstd::prelude::*;
use vstd::bytes::{u64_from_le_bytes, spec_u64_from_le_bytes};

use crate::resource::{Resource, WasmResource, INVALID_HANDLE};
use crate::table::{
    Capability, ErrorState, InputState, OutputState, PollState, ResourceTable,
};

verus! {

/// How many bytes an output stream registered by `get_stdout` may buffer
/// before the host has to drain it.
pub const DEFAULT_STREAM_CAPACITY: u64 = 65536;

/// Both tables have the same registered slots except at `h`.
pub open spec fn same_except(a: ResourceTable, b: ResourceTable, h: u32) -> bool {
    &&& a.slots().len() == b.slots().len()
    &&& forall|i: int|
        0 <= i < a.slots().len() && i != h ==> #[trigger] a.slots()[i] == b.slots()[i]
}

/// Both tables have the same registered slots except at `h1` and `h2`.
pub open spec fn same_except2(a: ResourceTable, b: ResourceTable, h1: u32, h2: u32) -> bool {
    &&& a.slots().len() == b.slots().len()
    &&& forall|i: int|
        0 <= i < a.slots().len() && i != h1 && i != h2 ==> #[trigger] a.slots()[i]
            == b.slots()[i]
}

pub open spec fn is_input(t: ResourceTable, h: u32) -> bool {
    t.live(h) && t.cap_of(h) is Input
}

pub open spec fn input_of(t: ResourceTable, h: u32) -> InputState
    recommends
        is_input(t, h),
{
    match t.cap_of(h) {
        Capability::Input(st) => st,
        _ => vstd::pervasive::arbitrary(),
    }
}

pub open spec fn is_output(t: ResourceTable, h: u32) -> bool {
    t.live(h) && t.cap_of(h) is Output
}

pub open spec fn output_of(t: ResourceTable, h: u32) -> OutputState
    recommends
        is_output(t, h),
{
    match t.cap_of(h) {
        Capability::Output(st) => st,
        _ => vstd::pervasive::arbitrary(),
    }
}

pub open spec fn is_poll(t: ResourceTable, h: u32) -> bool {
    t.live(h) && t.cap_of(h) is Poll
}

pub open spec fn poll_of(t: ResourceTable, h: u32) -> PollState
    recommends
        is_poll(t, h),
{
    match t.cap_of(h) {
        Capability::Poll(st) => st,
        _ => vstd::pervasive::arbitrary(),
    }
}

pub open spec fn is_error_cap(t: ResourceTable, h: u32) -> bool {
    t.live(h) && t.cap_of(h) is ErrorCap
}

pub open spec fn error_of(t: ResourceTable, h: u32) -> ErrorState
    recommends
        is_error_cap(t, h),
{
    match t.cap_of(h) {
        Capability::ErrorCap(st) => st,
        _ => vstd::pervasive::arbitrary(),
    }
}

/// A transport failure is recorded on the input stream, waiting to be
/// reported once as `LastOperationFailed`.
pub open spec fn input_failed(st: InputState) -> bool {
    st.last_fail != INVALID_HANDLE
}

/// A transport failure is recorded on the output stream, waiting to be
/// reported once as `LastOperationFailed`.
pub open spec fn output_failed(st: OutputState) -> bool {
    st.last_fail != INVALID_HANDLE
}

/// How many bytes `check_write` currently permits on an open output stream.
pub open spec fn spec_budget(st: OutputState) -> int {
    if st.data@.len() >= st.capacity {
        0
    } else {
        st.capacity - st.data@.len()
    }
}

/// How many bytes a read of `want` takes from `avail` available ones.
pub open spec fn take_count(want: u64, avail: nat) -> int {
    if want <= avail {
        want as int
    } else {
        avail as int
    }
}

/// Opaque handle to a host error object: the guest can obtain a textual
/// description and nothing more.
#[derive(Debug)]
pub struct Error {
    handle: Resource,
}

impl Error {
    pub closed spec fn id(self) -> u32 {
        self.handle.id()
    }

    pub open spec fn is_released(self) -> bool {
        self.id() == INVALID_HANDLE
    }

    pub fn from_handle(handle: u32) -> (r: Self)
        requires
            handle != INVALID_HANDLE,
        ensures
            r.id() == handle,
    {
        Error { handle: Resource::from_handle(handle) }
    }

    pub fn take_handle(&mut self) -> (h: u32)
        ensures
            h == old(self).id(),
            final(self).is_released(),
    {
        self.handle.take_handle()
    }

    pub fn handle(&self) -> (h: u32)
        ensures
            h == self.id(),
    {
        self.handle.handle()
    }

    /// The textual description of the host error behind this handle.
    pub fn to_debug_string(&self, table: &ResourceTable) -> (s: String)
        requires
            is_error_cap(*table, self.id()),
        ensures
            s@ == error_of(*table, self.id()).message@,
    {
        match table.resolve(self.handle()) {
            Ok(cap) => match cap {
                Capability::ErrorCap(st) => st.message.clone(),
                _ => {
                    proof {
                        assert(false);
                    }
                    String::new()
                },
            },
            Err(_) => {
                proof {
                    assert(false);
                }
                String::new()
            },
        }
    }
}

impl WasmResource for Error {
    fn drop(table: &mut ResourceTable, handle: u32) {
        table.drop_handle(handle);
    }
}

/// Cancellable readiness primitive: the host records readiness when it
/// observes the external event the pollable stands for.
pub struct Pollable {
    handle: Resource,
}

impl Pollable {
    pub closed spec fn id(self) -> u32 {
        self.handle.id()
    }

    pub open spec fn is_released(self) -> bool {
        self.id() == INVALID_HANDLE
    }

    pub fn from_handle(handle: u32) -> (r: Self)
        requires
            handle != INVALID_HANDLE,
        ensures
            r.id() == handle,
    {
        Pollable { handle: Resource::from_handle(handle) }
    }

    pub fn take_handle(&mut self) -> (h: u32)
        ensures
            h == old(self).id(),
            final(self).is_released(),
    {
        self.handle.take_handle()
    }

    pub fn handle(&self) -> (h: u32)
        ensures
            h == self.id(),
    {
        self.handle.handle()
    }

    /// Non-blocking poll: reports the recorded readiness.
    pub fn ready(&self, table: &ResourceTable) -> (r: bool)
        requires
            is_poll(*table, self.id()),
        ensures
            r == poll_of(*table, self.id()).ready,
    {
        match table.resolve(self.handle()) {
            Ok(cap) => match cap {
                Capability::Poll(st) => st.ready,
                _ => {
                    proof {
                        assert(false);
                    }
                    false
                },
            },
            Err(_) => {
                proof {
                    assert(false);
                }
                false
            },
        }
    }

    /// Returns once the pollable is ready. Readiness changes only when the
    /// host records an external event, so within this surface the call can
    /// return at all only for a pollable that is already ready; a host that
    /// needs to wait does so around this call.
    pub fn block(&self, table: &ResourceTable)
        requires
            is_poll(*table, self.id()),
            poll_of(*table, self.id()).ready,
    {
    }
}

impl WasmResource for Pollable {
    fn drop(table: &mut ResourceTable, handle: u32) {
        table.drop_handle(handle);
    }
}

/// Waits on a set of pollables at once: returns the indices, in ascending
/// order, of exactly those that are ready.
pub fn poll(table: &ResourceTable, in_: &Vec<Pollable>) -> (r: Vec<u32>)
    requires
        forall|i: int| 0 <= i < in_@.len() ==> is_poll(*table, #[trigger] in_@[i].id()),
        in_@.len() <= u32::MAX,
    ensures
        forall|k: int|
            0 <= k < r@.len() ==> #[trigger] r@[k] < in_@.len() && poll_of(
                *table,
                in_@[r@[k] as int].id(),
            ).ready,
        forall|i: int|
            0 <= i < in_@.len() && poll_of(*table, #[trigger] in_@[i].id()).ready ==> r@.contains(
                i as u32,
            ),
        forall|k1: int, k2: int| 0 <= k1 < k2 < r@.len() ==> #[trigger] r@[k1] < #[trigger] r@[k2],
{
    let mut out: Vec<u32> = Vec::new();
    let mut i: usize = 0;
    while i < in_.len()
        invariant
            i <= in_@.len(),
            in_@.len() <= u32::MAX,
            forall|j: int| 0 <= j < in_@.len() ==> is_poll(*table, #[trigger] in_@[j].id()),
            forall|k: int|
                0 <= k < out@.len() ==> #[trigger] out@[k] < i && poll_of(
                    *table,
                    in_@[out@[k] as int].id(),
                ).ready,
            forall|j: int|
                0 <= j < i && poll_of(*table, #[trigger] in_@[j].id()).ready ==> out@.contains(
                    j as u32,
                ),
            forall|k1: int, k2: int|
                0 <= k1 < k2 < out@.len() ==> #[trigger] out@[k1] < #[trigger] out@[k2],
        decreases in_@.len() - i,
    {
        let ghost prev = out@;
        if in_[i].ready(table) {
            out.push(i as u32);
        }
        proof {
            assert forall|j: int|
                0 <= j < i + 1 && poll_of(*table, #[trigger] in_@[j].id()).ready implies out@
                .contains(j as u32) by {
                if j < i {
                    assert(prev.contains(j as u32));
                    let k = choose|k: int| 0 <= k < prev.len() && prev[k] == j as u32;
                    assert(out@[k] == j as u32);
                } else {
                    assert(out@[out@.len() - 1] == i as u32);
                }
            }
        }
        i = i + 1;
    }
    out
}

/// Records that the external event a pollable stands for has (or has not)
/// happened; this is the host-side source of readiness.
pub fn set_pollable_ready(table: &mut ResourceTable, h: u32, ready: bool)
    requires
        is_poll(*old(table), h),
    ensures
        same_except(*old(table), *final(table), h),
        is_poll(*final(table), h),
        poll_of(*final(table), h).ready == ready,
{
    match table.resolve_mut(h) {
        Ok(cap) => match cap {
            Capability::Poll(st) => {
                st.ready = ready;
            },
            _ => {
                proof {
                    assert(false);
                }
            },
        },
        Err(_) => {
            proof {
                assert(false);
            }
        },
    }
}

/// Host-supplied entropy: the pool is filled by the embedding process from
/// its platform source; the guest only ever draws from it.
pub struct RandomSource {
    pub pool: Vec<u8>,
}

/// Draws `len` bytes from the front of the entropy pool.
pub fn get_random_bytes(src: &mut RandomSource, len: u64) -> (out: Vec<u8>)
    requires
        len <= old(src).pool@.len(),
    ensures
        out@ == old(src).pool@.take(len as int),
        final(src).pool@ == old(src).pool@.skip(len as int),
{
    let avail: usize = src.pool.len();
    proof {
        assert(len <= avail);
    }
    let mut tail = src.pool.split_off(len as usize);
    core::mem::swap(&mut src.pool, &mut tail);
    tail
}

/// Draws one 64-bit value (little-endian) from the entropy pool.
pub fn get_random_u64(src: &mut RandomSource) -> (out: u64)
    requires
        old(src).pool@.len() >= 8,
    ensures
        out == spec_u64_from_le_bytes(old(src).pool@.take(8)),
        final(src).pool@ == old(src).pool@.skip(8),
{
    let bytes = get_random_bytes(src, 8);
    u64_from_le_bytes(bytes.as_slice())
}

} // verus!
