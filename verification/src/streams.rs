use vstd::prelude::*;
use vstd::slice::slice_to_vec;
use crate::caps::{
    input_failed, input_of, is_input, is_output, is_poll, output_failed, output_of, poll_of,
    same_except, same_except2, spec_budget, take_count, Error, Pollable,
};
use crate::resource::{Resource, WasmResource, INVALID_HANDLE};
use crate::table::{Capability, ErrorState, InputState, OutputState, PollState, ResourceTable};

verus! {

/// Failure of one stream operation. `Closed` is terminal: once a stream is
/// closed every later operation on it fails with `Closed` again. A
/// transport failure the host recorded is reported exactly once, as
/// `LastOperationFailed` carrying the handle of its error object; after
/// the report the stream is usable again, and the guest decides whether to
/// retry, degrade, or propagate.
#[derive(Debug)]
pub enum StreamError {
    /// The host recorded a failure; the handle gives access to its
    /// description.
    LastOperationFailed(Error),
    /// The stream is closed.
    Closed,
}

/// Guest-side handle to a host input stream.
pub struct InputStream {
    handle: Resource,
}

/// Guest-side handle to a host output stream.
pub struct OutputStream {
    handle: Resource,
}

impl WasmResource for InputStream {
    fn drop(table: &mut ResourceTable, handle: u32) {
        table.drop_handle(handle);
    }
}

impl WasmResource for OutputStream {
    fn drop(table: &mut ResourceTable, handle: u32) {
        table.drop_handle(handle);
    }
}

impl InputStream {
    pub closed spec fn id(self) -> u32 {
        self.handle.id()
    }

    pub open spec fn is_released(self) -> bool {
        self.id() == INVALID_HANDLE
    }

    pub fn from_handle(handle: u32) -> (r: Self)
        requires
            handle != INVALID_HANDLE,
        ensures
            r.id() == handle,
    {
        InputStream { handle: Resource::from_handle(handle) }
    }

    pub fn take_handle(&mut self) -> (h: u32)
        ensures
            h == old(self).id(),
            final(self).is_released(),
    {
        self.handle.take_handle()
    }

    pub fn handle(&self) -> (h: u32)
        ensures
            h == self.id(),
    {
        self.handle.handle()
    }

    /// Non-blocking read: returns immediately with up to `len` bytes from
    /// the front of the stream, possibly none. Fails with `Closed` exactly
    /// when the stream is closed, and reports a recorded transport failure
    /// once as `LastOperationFailed` before any bytes move.
    pub fn read(&self, table: &mut ResourceTable, len: u64) -> (r: Result<Vec<u8>, StreamError>)
        requires
            is_input(*old(table), self.id()),
        ensures
            same_except(*old(table), *final(table), self.id()),
            is_input(*final(table), self.id()),
            ({
                let st = input_of(*old(table), self.id());
                let stn = input_of(*final(table), self.id());
                if st.closed {
                    &&& r matches Err(e) && e is Closed
                    &&& stn == st
                } else if input_failed(st) {
                    &&& r matches Err(e) && e matches StreamError::LastOperationFailed(err)
                        && err.id() == st.last_fail
                    &&& stn.data@ == st.data@
                    &&& !stn.closed
                    &&& stn.last_fail == INVALID_HANDLE
                } else {
                    let n = take_count(len, st.data@.len());
                    &&& r matches Ok(b) && b@ == st.data@.take(n)
                    &&& stn.data@ == st.data@.skip(n)
                    &&& !stn.closed
                    &&& stn.last_fail == INVALID_HANDLE
                }
            }),
    {
        match table.resolve_mut(self.handle.handle()) {
            Ok(cap) => match cap {
                Capability::Input(st) => {
                    if st.closed {
                        Err(StreamError::Closed)
                    } else if st.last_fail != INVALID_HANDLE {
                        let eh = st.last_fail;
                        st.last_fail = INVALID_HANDLE;
                        Err(StreamError::LastOperationFailed(Error::from_handle(eh)))
                    } else {
                        let avail: usize = st.data.len();
                        let n: usize = if len <= avail as u64 {
                            len as usize
                        } else {
                            avail
                        };
                        let mut tail = st.data.split_off(n);
                        core::mem::swap(&mut st.data, &mut tail);
                        Ok(tail)
                    }
                },
                _ => {
                    proof {
                        assert(false);
                    }
                    Err(StreamError::Closed)
                },
            },
            Err(_) => {
                proof {
                    assert(false);
                }
                Err(StreamError::Closed)
            },
        }
    }

    /// Blocking read: same result as `read`, but it suspends the caller
    /// until the stream can make progress, so it may only be entered when
    /// the stream already has data, is closed, has a recorded failure to
    /// report, or nothing was asked for.
    pub fn blocking_read(&self, table: &mut ResourceTable, len: u64) -> (r: Result<
        Vec<u8>,
        StreamError,
    >)
        requires
            is_input(*old(table), self.id()),
            ({
                let st = input_of(*old(table), self.id());
                st.closed || input_failed(st) || st.data@.len() > 0 || len == 0
            }),
        ensures
            same_except(*old(table), *final(table), self.id()),
            is_input(*final(table), self.id()),
            ({
                let st = input_of(*old(table), self.id());
                let stn = input_of(*final(table), self.id());
                if st.closed {
                    &&& r matches Err(e) && e is Closed
                    &&& stn == st
                } else if input_failed(st) {
                    &&& r matches Err(e) && e matches StreamError::LastOperationFailed(err)
                        && err.id() == st.last_fail
                    &&& stn.data@ == st.data@
                    &&& !stn.closed
                    &&& stn.last_fail == INVALID_HANDLE
                } else {
                    let n = take_count(len, st.data@.len());
                    &&& r matches Ok(b) && b@ == st.data@.take(n)
                    &&& stn.data@ == st.data@.skip(n)
                    &&& !stn.closed
                    &&& stn.last_fail == INVALID_HANDLE
                }
            }),
    {
        self.read(table, len)
    }

    /// Non-blocking skip: discards up to `len` bytes from the front of the
    /// stream and reports how many; failure reporting as in `read`.
    pub fn skip(&self, table: &mut ResourceTable, len: u64) -> (r: Result<u64, StreamError>)
        requires
            is_input(*old(table), self.id()),
        ensures
            same_except(*old(table), *final(table), self.id()),
            is_input(*final(table), self.id()),
            ({
                let st = input_of(*old(table), self.id());
                let stn = input_of(*final(table), self.id());
                if st.closed {
                    &&& r matches Err(e) && e is Closed
                    &&& stn == st
                } else if input_failed(st) {
                    &&& r matches Err(e) && e matches StreamError::LastOperationFailed(err)
                        && err.id() == st.last_fail
                    &&& stn.data@ == st.data@
                    &&& !stn.closed
                    &&& stn.last_fail == INVALID_HANDLE
                } else {
                    let n = take_count(len, st.data@.len());
                    &&& r matches Ok(c) && c == n
                    &&& stn.data@ == st.data@.skip(n)
                    &&& !stn.closed
                    &&& stn.last_fail == INVALID_HANDLE
                }
            }),
    {
        match table.resolve_mut(self.handle.handle()) {
            Ok(cap) => match cap {
                Capability::Input(st) => {
                    if st.closed {
                        Err(StreamError::Closed)
                    } else if st.last_fail != INVALID_HANDLE {
                        let eh = st.last_fail;
                        st.last_fail = INVALID_HANDLE;
                        Err(StreamError::LastOperationFailed(Error::from_handle(eh)))
                    } else {
                        let avail: usize = st.data.len();
                        let n: usize = if len <= avail as u64 {
                            len as usize
                        } else {
                            avail
                        };
                        let tail = st.data.split_off(n);
                        st.data = tail;
                        Ok(n as u64)
                    }
                },
                _ => {
                    proof {
                        assert(false);
                    }
                    Err(StreamError::Closed)
                },
            },
            Err(_) => {
                proof {
                    assert(false);
                }
                Err(StreamError::Closed)
            },
        }
    }

    /// Blocking skip: as `skip`, under the same entry condition as
    /// `blocking_read`.
    pub fn blocking_skip(&self, table: &mut ResourceTable, len: u64) -> (r: Result<
        u64,
        StreamError,
    >)
        requires
            is_input(*old(table), self.id()),
            ({
                let st = input_of(*old(table), self.id());
                st.closed || input_failed(st) || st.data@.len() > 0 || len == 0
            }),
        ensures
            same_except(*old(table), *final(table), self.id()),
            is_input(*final(table), self.id()),
            ({
                let st = input_of(*old(table), self.id());
                let stn = input_of(*final(table), self.id());
                if st.closed {
                    &&& r matches Err(e) && e is Closed
                    &&& stn == st
                } else if input_failed(st) {
                    &&& r matches Err(e) && e matches StreamError::LastOperationFailed(err)
                        && err.id() == st.last_fail
                    &&& stn.data@ == st.data@
                    &&& !stn.closed
                    &&& stn.last_fail == INVALID_HANDLE
                } else {
                    let n = take_count(len, st.data@.len());
                    &&& r matches Ok(c) && c == n
                    &&& stn.data@ == st.data@.skip(n)
                    &&& !stn.closed
                    &&& stn.last_fail == INVALID_HANDLE
                }
            }),
    {
        self.skip(table, len)
    }

    /// Registers a pollable that is ready exactly when this stream can make
    /// progress now: it has buffered data, a recorded failure to report, or
    /// it is closed (so a read returns without waiting in every case).
    pub fn subscribe(&self, table: &mut ResourceTable) -> (p: Pollable)
        requires
            is_input(*old(table), self.id()),
            old(table).slots().len() < u32::MAX,
        ensures
            ({
                let st = input_of(*old(table), self.id());
                let ready = st.closed || input_failed(st) || st.data@.len() > 0;
                &&& p.id() == old(table).slots().len()
                &&& final(table).slots() == old(table).slots().push(
                    Some(Capability::Poll(PollState { ready })),
                )
            }),
    {
        let ready: bool;
        match table.resolve(self.handle.handle()) {
            Ok(cap) => match cap {
                Capability::Input(st) => {
                    ready = st.closed || st.last_fail != INVALID_HANDLE || st.data.len() > 0;
                },
                _ => {
                    proof {
                        assert(false);
                    }
                    ready = false;
                },
            },
            Err(_) => {
                proof {
                    assert(false);
                }
                ready = false;
            },
        }
        let h = table.register(Capability::Poll(PollState { ready }));
        Pollable::from_handle(h)
    }
}

impl OutputStream {
    pub closed spec fn id(self) -> u32 {
        self.handle.id()
    }

    pub open spec fn is_released(self) -> bool {
        self.id() == INVALID_HANDLE
    }

    pub fn from_handle(handle: u32) -> (r: Self)
        requires
            handle != INVALID_HANDLE,
        ensures
            r.id() == handle,
    {
        OutputStream { handle: Resource::from_handle(handle) }
    }

    pub fn take_handle(&mut self) -> (h: u32)
        ensures
            h == old(self).id(),
            final(self).is_released(),
    {
        self.handle.take_handle()
    }

    pub fn handle(&self) -> (h: u32)
        ensures
            h == self.id(),
    {
        self.handle.handle()
    }

    /// How many bytes a write may currently hand over without blocking;
    /// fails with `Closed` exactly when the stream is closed. This is a
    /// probe: a recorded transport failure is left in place and surfaces on
    /// the next data-moving or flushing operation.
    pub fn check_write(&self, table: &ResourceTable) -> (r: Result<u64, StreamError>)
        requires
            is_output(*table, self.id()),
        ensures
            ({
                let st = output_of(*table, self.id());
                if st.closed {
                    r matches Err(e) && e is Closed
                } else {
                    r matches Ok(n) && n == spec_budget(st)
                }
            }),
    {
        match table.resolve(self.handle.handle()) {
            Ok(cap) => match cap {
                Capability::Output(st) => {
                    if st.closed {
                        Err(StreamError::Closed)
                    } else {
                        let buffered = st.data.len() as u64;
                        if buffered >= st.capacity {
                            Ok(0)
                        } else {
                            Ok(st.capacity - buffered)
                        }
                    }
                },
                _ => {
                    proof {
                        assert(false);
                    }
                    Err(StreamError::Closed)
                },
            },
            Err(_) => {
                proof {
                    assert(false);
                }
                Err(StreamError::Closed)
            },
        }
    }

    /// Hands `contents` to the stream; the caller must not exceed what
    /// `check_write` permitted. Fails with `Closed` exactly when the stream
    /// is closed, and reports a recorded transport failure once as
    /// `LastOperationFailed` before any bytes are accepted.
    pub fn write(&self, table: &mut ResourceTable, contents: &[u8]) -> (r: Result<
        (),
        StreamError,
    >)
        requires
            is_output(*old(table), self.id()),
            ({
                let st = output_of(*old(table), self.id());
                st.closed || contents@.len() <= spec_budget(st)
            }),
        ensures
            same_except(*old(table), *final(table), self.id()),
            is_output(*final(table), self.id()),
            ({
                let st = output_of(*old(table), self.id());
                let stn = output_of(*final(table), self.id());
                if st.closed {
                    &&& r matches Err(e) && e is Closed
                    &&& stn == st
                } else if output_failed(st) {
                    &&& r matches Err(e) && e matches StreamError::LastOperationFailed(err)
                        && err.id() == st.last_fail
                    &&& stn.data@ == st.data@
                    &&& !stn.closed
                    &&& stn.capacity == st.capacity
                    &&& stn.last_fail == INVALID_HANDLE
                } else {
                    &&& r is Ok
                    &&& stn.data@ == st.data@ + contents@
                    &&& !stn.closed
                    &&& stn.capacity == st.capacity
                    &&& stn.last_fail == INVALID_HANDLE
                }
            }),
    {
        match table.resolve_mut(self.handle.handle()) {
            Ok(cap) => match cap {
                Capability::Output(st) => {
                    if st.closed {
                        Err(StreamError::Closed)
                    } else if st.last_fail != INVALID_HANDLE {
                        let eh = st.last_fail;
                        st.last_fail = INVALID_HANDLE;
                        Err(StreamError::LastOperationFailed(Error::from_handle(eh)))
                    } else {
                        let mut incoming = slice_to_vec(contents);
                        st.data.append(&mut incoming);
                        Ok(())
                    }
                },
                _ => {
                    proof {
                        assert(false);
                    }
                    Err(StreamError::Closed)
                },
            },
            Err(_) => {
                proof {
                    assert(false);
                }
                Err(StreamError::Closed)
            },
        }
    }

    /// Writes `contents` and flushes. Within this surface a flush has
    /// nothing left to do once the bytes are buffered (the host drains the
    /// buffer), so the result is that of `write`.
    pub fn blocking_write_and_flush(&self, table: &mut ResourceTable, contents: &[u8]) -> (r:
        Result<(), StreamError>)
        requires
            is_output(*old(table), self.id()),
            ({
                let st = output_of(*old(table), self.id());
                st.closed || contents@.len() <= spec_budget(st)
            }),
        ensures
            same_except(*old(table), *final(table), self.id()),
            is_output(*final(table), self.id()),
            ({
                let st = output_of(*old(table), self.id());
                let stn = output_of(*final(table), self.id());
                if st.closed {
                    &&& r matches Err(e) && e is Closed
                    &&& stn == st
                } else if output_failed(st) {
                    &&& r matches Err(e) && e matches StreamError::LastOperationFailed(err)
                        && err.id() == st.last_fail
                    &&& stn.data@ == st.data@
                    &&& !stn.closed
                    &&& stn.capacity == st.capacity
                    &&& stn.last_fail == INVALID_HANDLE
                } else {
                    &&& r is Ok
                    &&& stn.data@ == st.data@ + contents@
                    &&& !stn.closed
                    &&& stn.capacity == st.capacity
                    &&& stn.last_fail == INVALID_HANDLE
                }
            }),
    {
        self.write(table, contents)
    }

    /// Requests that buffered bytes reach their destination. The buffer
    /// itself is drained by the host, so the data is unchanged; fails with
    /// `Closed` exactly when the stream is closed, and reports a recorded
    /// transport failure once as `LastOperationFailed`.
    pub fn flush(&self, table: &mut ResourceTable) -> (r: Result<(), StreamError>)
        requires
            is_output(*old(table), self.id()),
        ensures
            same_except(*old(table), *final(table), self.id()),
            is_output(*final(table), self.id()),
            ({
                let st = output_of(*old(table), self.id());
                let stn = output_of(*final(table), self.id());
                if st.closed {
                    &&& r matches Err(e) && e is Closed
                    &&& stn == st
                } else if output_failed(st) {
                    &&& r matches Err(e) && e matches StreamError::LastOperationFailed(err)
                        && err.id() == st.last_fail
                    &&& stn.data@ == st.data@
                    &&& !stn.closed
                    &&& stn.capacity == st.capacity
                    &&& stn.last_fail == INVALID_HANDLE
                } else {
                    &&& r is Ok
                    &&& stn == st
                }
            }),
    {
        match table.resolve_mut(self.handle.handle()) {
            Ok(cap) => match cap {
                Capability::Output(st) => {
                    if st.closed {
                        Err(StreamError::Closed)
                    } else if st.last_fail != INVALID_HANDLE {
                        let eh = st.last_fail;
                        st.last_fail = INVALID_HANDLE;
                        Err(StreamError::LastOperationFailed(Error::from_handle(eh)))
                    } else {
                        Ok(())
                    }
                },
                _ => {
                    proof {
                        assert(false);
                    }
                    Err(StreamError::Closed)
                },
            },
            Err(_) => {
                proof {
                    assert(false);
                }
                Err(StreamError::Closed)
            },
        }
    }

    /// Blocking flush: identical to `flush` here, since completion of the
    /// drain is the host's side of the boundary.
    pub fn blocking_flush(&self, table: &mut ResourceTable) -> (r: Result<(), StreamError>)
        requires
            is_output(*old(table), self.id()),
        ensures
            same_except(*old(table), *final(table), self.id()),
            is_output(*final(table), self.id()),
            ({
                let st = output_of(*old(table), self.id());
                let stn = output_of(*final(table), self.id());
                if st.closed {
                    &&& r matches Err(e) && e is Closed
                    &&& stn == st
                } else if output_failed(st) {
                    &&& r matches Err(e) && e matches StreamError::LastOperationFailed(err)
                        && err.id() == st.last_fail
                    &&& stn.data@ == st.data@
                    &&& !stn.closed
                    &&& stn.capacity == st.capacity
                    &&& stn.last_fail == INVALID_HANDLE
                } else {
                    &&& r is Ok
                    &&& stn == st
                }
            }),
    {
        self.flush(table)
    }

    /// Registers a pollable that is ready exactly when the stream accepts
    /// bytes now, has a recorded failure to report, or is closed (so a
    /// write returns without waiting in every case).
    pub fn subscribe(&self, table: &mut ResourceTable) -> (p: Pollable)
        requires
            is_output(*old(table), self.id()),
            old(table).slots().len() < u32::MAX,
        ensures
            ({
                let st = output_of(*old(table), self.id());
                let ready = st.closed || output_failed(st) || spec_budget(st) > 0;
                &&& p.id() == old(table).slots().len()
                &&& final(table).slots() == old(table).slots().push(
                    Some(Capability::Poll(PollState { ready })),
                )
            }),
    {
        let ready: bool;
        match table.resolve(self.handle.handle()) {
            Ok(cap) => match cap {
                Capability::Output(st) => {
                    ready = st.closed || st.last_fail != INVALID_HANDLE || (st.data.len() as u64)
                        < st.capacity;
                },
                _ => {
                    proof {
                        assert(false);
                    }
                    ready = false;
                },
            },
            Err(_) => {
                proof {
                    assert(false);
                }
                ready = false;
            },
        }
        let h = table.register(Capability::Poll(PollState { ready }));
        Pollable::from_handle(h)
    }

    /// Writes `len` zero bytes, under the same budget discipline and
    /// failure reporting as `write`.
    pub fn write_zeroes(&self, table: &mut ResourceTable, len: u64) -> (r: Result<
        (),
        StreamError,
    >)
        requires
            is_output(*old(table), self.id()),
            ({
                let st = output_of(*old(table), self.id());
                st.closed || len <= spec_budget(st)
            }),
            output_of(*old(table), self.id()).data@.len() + len <= usize::MAX,
        ensures
            same_except(*old(table), *final(table), self.id()),
            is_output(*final(table), self.id()),
            ({
                let st = output_of(*old(table), self.id());
                let stn = output_of(*final(table), self.id());
                if st.closed {
                    &&& r matches Err(e) && e is Closed
                    &&& stn == st
                } else if output_failed(st) {
                    &&& r matches Err(e) && e matches StreamError::LastOperationFailed(err)
                        && err.id() == st.last_fail
                    &&& stn.data@ == st.data@
                    &&& !stn.closed
                    &&& stn.capacity == st.capacity
                    &&& stn.last_fail == INVALID_HANDLE
                } else {
                    &&& r is Ok
                    &&& stn.data@ == st.data@ + Seq::new(len as nat, |i: int| 0u8)
                    &&& !stn.closed
                    &&& stn.capacity == st.capacity
                    &&& stn.last_fail == INVALID_HANDLE
                }
            }),
    {
        match table.resolve_mut(self.handle.handle()) {
            Ok(cap) => match cap {
                Capability::Output(st) => {
                    if st.closed {
                        Err(StreamError::Closed)
                    } else if st.last_fail != INVALID_HANDLE {
                        let eh = st.last_fail;
                        st.last_fail = INVALID_HANDLE;
                        Err(StreamError::LastOperationFailed(Error::from_handle(eh)))
                    } else {
                        let target: usize = st.data.len() + len as usize;
                        let ghost before = st.data@;
                        st.data.resize(target, 0u8);
                        proof {
                            assert(st.data@ =~= before + Seq::new(len as nat, |i: int| 0u8));
                        }
                        Ok(())
                    }
                },
                _ => {
                    proof {
                        assert(false);
                    }
                    Err(StreamError::Closed)
                },
            },
            Err(_) => {
                proof {
                    assert(false);
                }
                Err(StreamError::Closed)
            },
        }
    }

    /// As `write_zeroes`, then a flush, which has nothing left to do here.
    pub fn blocking_write_zeroes_and_flush(&self, table: &mut ResourceTable, len: u64) -> (r:
        Result<(), StreamError>)
        requires
            is_output(*old(table), self.id()),
            ({
                let st = output_of(*old(table), self.id());
                st.closed || len <= spec_budget(st)
            }),
            output_of(*old(table), self.id()).data@.len() + len <= usize::MAX,
        ensures
            same_except(*old(table), *final(table), self.id()),
            is_output(*final(table), self.id()),
            ({
                let st = output_of(*old(table), self.id());
                let stn = output_of(*final(table), self.id());
                if st.closed {
                    &&& r matches Err(e) && e is Closed
                    &&& stn == st
                } else if output_failed(st) {
                    &&& r matches Err(e) && e matches StreamError::LastOperationFailed(err)
                        && err.id() == st.last_fail
                    &&& stn.data@ == st.data@
                    &&& !stn.closed
                    &&& stn.capacity == st.capacity
                    &&& stn.last_fail == INVALID_HANDLE
                } else {
                    &&& r is Ok
                    &&& stn.data@ == st.data@ + Seq::new(len as nat, |i: int| 0u8)
                    &&& !stn.closed
                    &&& stn.capacity == st.capacity
                    &&& stn.last_fail == INVALID_HANDLE
                }
            }),
    {
        self.write_zeroes(table, len)
    }

    /// Moves up to `len` bytes from the front of `src` into this stream:
    /// exactly as many as `src` has available and the write budget permits.
    /// Fails with `Closed` exactly when either stream is closed; a recorded
    /// transport failure — the destination's first — is reported once as
    /// `LastOperationFailed` before any bytes move.
    pub fn splice(&self, table: &mut ResourceTable, src: &InputStream, len: u64) -> (r: Result<
        u64,
        StreamError,
    >)
        requires
            is_output(*old(table), self.id()),
            is_input(*old(table), src.id()),
        ensures
            same_except2(*old(table), *final(table), self.id(), src.id()),
            is_output(*final(table), self.id()),
            is_input(*final(table), src.id()),
            splice_spec(
                output_of(*old(table), self.id()),
                input_of(*old(table), src.id()),
                output_of(*final(table), self.id()),
                input_of(*final(table), src.id()),
                len,
                r,
            ),
    {
        let out_h = self.handle.handle();
        let src_h = src.handle();
        let o_closed: bool;
        let o_fail: u32;
        match table.resolve(out_h) {
            Ok(cap) => match cap {
                Capability::Output(st) => {
                    o_closed = st.closed;
                    o_fail = st.last_fail;
                },
                _ => {
                    proof {
                        assert(false);
                    }
                    o_closed = false;
                    o_fail = INVALID_HANDLE;
                },
            },
            Err(_) => {
                proof {
                    assert(false);
                }
                o_closed = false;
                o_fail = INVALID_HANDLE;
            },
        }
        let i_closed: bool;
        let i_fail: u32;
        match table.resolve(src_h) {
            Ok(cap) => match cap {
                Capability::Input(st) => {
                    i_closed = st.closed;
                    i_fail = st.last_fail;
                },
                _ => {
                    proof {
                        assert(false);
                    }
                    i_closed = false;
                    i_fail = INVALID_HANDLE;
                },
            },
            Err(_) => {
                proof {
                    assert(false);
                }
                i_closed = false;
                i_fail = INVALID_HANDLE;
            },
        }
        if o_closed || i_closed {
            return Err(StreamError::Closed);
        }
        if o_fail != INVALID_HANDLE {
            match table.resolve_mut(out_h) {
                Ok(cap) => match cap {
                    Capability::Output(st) => {
                        st.last_fail = INVALID_HANDLE;
                    },
                    _ => {
                        proof {
                            assert(false);
                        }
                    },
                },
                Err(_) => {
                    proof {
                        assert(false);
                    }
                },
            }
            return Err(StreamError::LastOperationFailed(Error::from_handle(o_fail)));
        }
        if i_fail != INVALID_HANDLE {
            match table.resolve_mut(src_h) {
                Ok(cap) => match cap {
                    Capability::Input(st) => {
                        st.last_fail = INVALID_HANDLE;
                    },
                    _ => {
                        proof {
                            assert(false);
                        }
                    },
                },
                Err(_) => {
                    proof {
                        assert(false);
                    }
                },
            }
            return Err(StreamError::LastOperationFailed(Error::from_handle(i_fail)));
        }
        let budget: u64;
        match self.check_write(table) {
            Ok(n) => {
                budget = n;
            },
            Err(e) => {
                proof {
                    assert(false);
                }
                return Err(e);
            },
        }
        let want: u64 = if len <= budget {
            len
        } else {
            budget
        };
        let moved: Vec<u8>;
        match src.read(table, want) {
            Ok(b) => {
                moved = b;
            },
            Err(e) => {
                proof {
                    assert(false);
                }
                return Err(e);
            },
        }
        let count = moved.len() as u64;
        match self.write(table, moved.as_slice()) {
            Ok(_) => Ok(count),
            Err(e) => {
                proof {
                    assert(false);
                }
                Err(e)
            },
        }
    }

    /// Blocking splice: suspends the caller until bytes can move or the
    /// call can fail, so it may only be entered when either stream is
    /// closed, a failure is waiting to be reported, nothing was asked for,
    /// or there are both bytes to take and budget to put them — and then a
    /// non-trivial request never ends in an empty success.
    pub fn blocking_splice(&self, table: &mut ResourceTable, src: &InputStream, len: u64) -> (r:
        Result<u64, StreamError>)
        requires
            is_output(*old(table), self.id()),
            is_input(*old(table), src.id()),
            ({
                let ost = output_of(*old(table), self.id());
                let ist = input_of(*old(table), src.id());
                ||| ost.closed
                ||| ist.closed
                ||| output_failed(ost)
                ||| input_failed(ist)
                ||| len == 0
                ||| (spec_budget(ost) > 0 && ist.data@.len() > 0)
            }),
        ensures
            same_except2(*old(table), *final(table), self.id(), src.id()),
            is_output(*final(table), self.id()),
            is_input(*final(table), src.id()),
            splice_spec(
                output_of(*old(table), self.id()),
                input_of(*old(table), src.id()),
                output_of(*final(table), self.id()),
                input_of(*final(table), src.id()),
                len,
                r,
            ),
            len > 0 && (r matches Ok(c)) ==> (r matches Ok(c) && c > 0),
    {
        self.splice(table, src, len)
    }
}

/// What one splice does: `Closed` when either stream is closed; otherwise
/// the destination's recorded failure, then the source's, reported once;
/// otherwise exactly `min(len, budget, available)` bytes move in order.
pub open spec fn splice_spec(
    ost: OutputState,
    ist: InputState,
    ostn: OutputState,
    istn: InputState,
    len: u64,
    r: Result<u64, StreamError>,
) -> bool {
    if ost.closed || ist.closed {
        &&& r matches Err(e) && e is Closed
        &&& ostn == ost
        &&& istn == ist
    } else if output_failed(ost) {
        &&& r matches Err(e) && e matches StreamError::LastOperationFailed(err) && err.id()
            == ost.last_fail
        &&& ostn.data@ == ost.data@
        &&& !ostn.closed
        &&& ostn.capacity == ost.capacity
        &&& ostn.last_fail == INVALID_HANDLE
        &&& istn == ist
    } else if input_failed(ist) {
        &&& r matches Err(e) && e matches StreamError::LastOperationFailed(err) && err.id()
            == ist.last_fail
        &&& istn.data@ == ist.data@
        &&& !istn.closed
        &&& istn.last_fail == INVALID_HANDLE
        &&& ostn == ost
    } else {
        let want = if len as int <= spec_budget(ost) {
            len as int
        } else {
            spec_budget(ost)
        };
        let n = if want <= ist.data@.len() {
            want
        } else {
            ist.data@.len() as int
        };
        &&& r matches Ok(c) && c == n
        &&& istn.data@ == ist.data@.skip(n)
        &&& !istn.closed
        &&& istn.last_fail == INVALID_HANDLE
        &&& ostn.data@ == ost.data@ + ist.data@.take(n)
        &&& !ostn.closed
        &&& ostn.capacity == ost.capacity
        &&& ostn.last_fail == INVALID_HANDLE
    }
}

/// Registers the host's standard-output capability and returns a handle to
/// it: a fresh, open output stream with the default capacity and no
/// recorded failure.
pub fn get_stdout(table: &mut ResourceTable) -> (s: OutputStream)
    requires
        old(table).slots().len() < u32::MAX,
    ensures
        s.id() == old(table).slots().len(),
        is_output(*final(table), s.id()),
        ({
            let st = output_of(*final(table), s.id());
            &&& st.data@ == Seq::<u8>::empty()
            &&& st.capacity == crate::caps::DEFAULT_STREAM_CAPACITY
            &&& !st.closed
            &&& st.last_fail == INVALID_HANDLE
        }),
        final(table).slots().len() == old(table).slots().len() + 1,
        final(table).slots().take(old(table).slots().len() as int) == old(table).slots(),
{
    let h = table.register(
        Capability::Output(
            OutputState {
                data: Vec::new(),
                capacity: crate::caps::DEFAULT_STREAM_CAPACITY,
                closed: false,
                last_fail: INVALID_HANDLE,
            },
        ),
    );
    OutputStream::from_handle(h)
}

/// Registers a fresh, open input stream; the host feeds it from the
/// concrete transport with `feed_input`.
pub fn new_input_stream(table: &mut ResourceTable) -> (s: InputStream)
    requires
        old(table).slots().len() < u32::MAX,
    ensures
        s.id() == old(table).slots().len(),
        is_input(*final(table), s.id()),
        input_of(*final(table), s.id()).data@ == Seq::<u8>::empty(),
        !input_of(*final(table), s.id()).closed,
        input_of(*final(table), s.id()).last_fail == INVALID_HANDLE,
        final(table).slots().len() == old(table).slots().len() + 1,
        final(table).slots().take(old(table).slots().len() as int) == old(table).slots(),
{
    let h = table.register(
        Capability::Input(InputState { data: Vec::new(), closed: false, last_fail: INVALID_HANDLE }),
    );
    InputStream::from_handle(h)
}

/// Registers a host error object carrying `message` and returns the guest
/// handle for it.
pub fn new_error(table: &mut ResourceTable, message: String) -> (e: Error)
    requires
        old(table).slots().len() < u32::MAX,
    ensures
        e.id() == old(table).slots().len(),
        crate::caps::is_error_cap(*final(table), e.id()),
        crate::caps::error_of(*final(table), e.id()).message@ == message@,
        final(table).slots().len() == old(table).slots().len() + 1,
        final(table).slots().take(old(table).slots().len() as int) == old(table).slots(),
{
    let h = table.register(Capability::ErrorCap(ErrorState { message }));
    Error::from_handle(h)
}

/// Registers a pollable with the given initial readiness.
pub fn new_pollable(table: &mut ResourceTable, ready: bool) -> (p: Pollable)
    requires
        old(table).slots().len() < u32::MAX,
    ensures
        p.id() == old(table).slots().len(),
        final(table).slots() == old(table).slots().push(
            Some(Capability::Poll(PollState { ready })),
        ),
{
    let h = table.register(Capability::Poll(PollState { ready }));
    Pollable::from_handle(h)
}

/// Host side of the transport: appends bytes that arrived from outside to
/// an input stream's buffer.
pub fn feed_input(table: &mut ResourceTable, h: u32, mut bytes: Vec<u8>)
    requires
        is_input(*old(table), h),
    ensures
        same_except(*old(table), *final(table), h),
        is_input(*final(table), h),
        input_of(*final(table), h).data@ == input_of(*old(table), h).data@ + bytes@,
        input_of(*final(table), h).closed == input_of(*old(table), h).closed,
        input_of(*final(table), h).last_fail == input_of(*old(table), h).last_fail,
{
    match table.resolve_mut(h) {
        Ok(cap) => match cap {
            Capability::Input(st) => {
                st.data.append(&mut bytes);
            },
            _ => {
                proof {
                    assert(false);
                }
            },
        },
        Err(_) => {
            proof {
                assert(false);
            }
        },
    }
}

/// Host side of the transport: marks an input stream closed; every later
/// guest operation on it fails with `Closed`.
pub fn close_input(table: &mut ResourceTable, h: u32)
    requires
        is_input(*old(table), h),
    ensures
        same_except(*old(table), *final(table), h),
        is_input(*final(table), h),
        input_of(*final(table), h).closed,
        input_of(*final(table), h).data@ == input_of(*old(table), h).data@,
        input_of(*final(table), h).last_fail == input_of(*old(table), h).last_fail,
{
    match table.resolve_mut(h) {
        Ok(cap) => match cap {
            Capability::Input(st) => {
                st.closed = true;
            },
            _ => {
                proof {
                    assert(false);
                }
            },
        },
        Err(_) => {
            proof {
                assert(false);
            }
        },
    }
}

/// Host side of the transport: marks an output stream closed; every later
/// guest operation on it fails with `Closed`.
pub fn close_output(table: &mut ResourceTable, h: u32)
    requires
        is_output(*old(table), h),
    ensures
        same_except(*old(table), *final(table), h),
        is_output(*final(table), h),
        output_of(*final(table), h).closed,
        output_of(*final(table), h).data@ == output_of(*old(table), h).data@,
        output_of(*final(table), h).capacity == output_of(*old(table), h).capacity,
        output_of(*final(table), h).last_fail == output_of(*old(table), h).last_fail,
{
    match table.resolve_mut(h) {
        Ok(cap) => match cap {
            Capability::Output(st) => {
                st.closed = true;
            },
            _ => {
                proof {
                    assert(false);
                }
            },
        },
        Err(_) => {
            proof {
                assert(false);
            }
        },
    }
}

/// Host side of the transport: removes and returns everything an output
/// stream has buffered, so it can be written to the real destination.
pub fn drain_output(table: &mut ResourceTable, h: u32) -> (out: Vec<u8>)
    requires
        is_output(*old(table), h),
    ensures
        same_except(*old(table), *final(table), h),
        is_output(*final(table), h),
        out@ == output_of(*old(table), h).data@,
        output_of(*final(table), h).data@ == Seq::<u8>::empty(),
        output_of(*final(table), h).closed == output_of(*old(table), h).closed,
        output_of(*final(table), h).capacity == output_of(*old(table), h).capacity,
        output_of(*final(table), h).last_fail == output_of(*old(table), h).last_fail,
{
    match table.resolve_mut(h) {
        Ok(cap) => match cap {
            Capability::Output(st) => {
                let mut empty: Vec<u8> = Vec::new();
                core::mem::swap(&mut st.data, &mut empty);
                empty
            },
            _ => {
                proof {
                    assert(false);
                }
                Vec::new()
            },
        },
        Err(_) => {
            proof {
                assert(false);
            }
            Vec::new()
        },
    }
}

/// Host side of the transport: records that the last operation on an input
/// stream failed. An error object carrying `message` is registered, and
/// the next guest operation on the stream reports it once as
/// `LastOperationFailed` with that object's handle.
pub fn fail_input(table: &mut ResourceTable, h: u32, message: String)
    requires
        is_input(*old(table), h),
        old(table).slots().len() < u32::MAX,
    ensures
        is_input(*final(table), h),
        ({
            let st = input_of(*old(table), h);
            let stn = input_of(*final(table), h);
            &&& stn.data@ == st.data@
            &&& stn.closed == st.closed
            &&& stn.last_fail == old(table).slots().len()
            &&& input_failed(stn)
        }),
        crate::caps::is_error_cap(*final(table), old(table).slots().len() as u32),
        crate::caps::error_of(*final(table), old(table).slots().len() as u32).message@
            == message@,
        final(table).slots().len() == old(table).slots().len() + 1,
        forall|i: int|
            0 <= i < old(table).slots().len() && i != h ==> #[trigger] final(table).slots()[i]
                == old(table).slots()[i],
{
    let eh = table.register(Capability::ErrorCap(ErrorState { message }));
    match table.resolve_mut(h) {
        Ok(cap) => match cap {
            Capability::Input(st) => {
                st.last_fail = eh;
            },
            _ => {
                proof {
                    assert(false);
                }
            },
        },
        Err(_) => {
            proof {
                assert(false);
            }
        },
    }
}

/// Host side of the transport: records that the last operation on an
/// output stream failed, as `fail_input` does for input streams.
pub fn fail_output(table: &mut ResourceTable, h: u32, message: String)
    requires
        is_output(*old(table), h),
        old(table).slots().len() < u32::MAX,
    ensures
        is_output(*final(table), h),
        ({
            let st = output_of(*old(table), h);
            let stn = output_of(*final(table), h);
            &&& stn.data@ == st.data@
            &&& stn.closed == st.closed
            &&& stn.capacity == st.capacity
            &&& stn.last_fail == old(table).slots().len()
            &&& output_failed(stn)
        }),
        crate::caps::is_error_cap(*final(table), old(table).slots().len() as u32),
        crate::caps::error_of(*final(table), old(table).slots().len() as u32).message@
            == message@,
        final(table).slots().len() == old(table).slots().len() + 1,
        forall|i: int|
            0 <= i < old(table).slots().len() && i != h ==> #[trigger] final(table).slots()[i]
                == old(table).slots()[i],
{
    let eh = table.register(Capability::ErrorCap(ErrorState { message }));
    match table.resolve_mut(h) {
        Ok(cap) => match cap {
            Capability::Output(st) => {
                st.last_fail = eh;
            },
            _ => {
                proof {
                    assert(false);
                }
            },
        },
        Err(_) => {
            proof {
                assert(false);
            }
        },
    }
}

} // verus!
