use reconciler::errors::BoundaryError;
use reconciler::resource::{Resource, INVALID_HANDLE};
use reconciler::table::{Capability, ErrorState, PollState, ResourceTable};

fn poll_cap(ready: bool) -> Capability {
    Capability::Poll(PollState { ready })
}

#[test]
fn register_then_resolve() {
    let mut t = ResourceTable::new();
    let h = t.register(poll_cap(true));
    assert_eq!(h, 0);
    match t.resolve(h) {
        Ok(Capability::Poll(st)) => assert!(st.ready),
        _ => panic!("expected a live pollable"),
    }
}

#[test]
fn resolve_unknown_handle_fails() {
    let t = ResourceTable::new();
    match t.resolve(42) {
        Err(e) => assert_eq!(e, BoundaryError::InvalidHandle),
        Ok(_) => panic!("an unregistered handle must not resolve"),
    }
}

#[test]
fn resolve_after_take_fails() {
    let mut t = ResourceTable::new();
    let h = t.register(poll_cap(false));
    let taken = t.take(h);
    assert!(matches!(taken, Ok(Capability::Poll(_))));
    match t.resolve(h) {
        Err(e) => assert_eq!(e, BoundaryError::InvalidHandle),
        Ok(_) => panic!("a taken handle must not resolve"),
    }
    // a second take is also refused
    assert!(matches!(t.take(h), Err(BoundaryError::InvalidHandle)));
}

#[test]
fn resolve_after_drop_fails() {
    let mut t = ResourceTable::new();
    let h = t.register(Capability::ErrorCap(ErrorState { message: String::from("x") }));
    t.drop_handle(h);
    match t.resolve(h) {
        Err(e) => assert_eq!(e, BoundaryError::InvalidHandle),
        Ok(_) => panic!("a dropped handle must not resolve"),
    }
    // dropping again is a no-op, never a second release
    t.drop_handle(h);
    assert!(matches!(t.resolve(h), Err(BoundaryError::InvalidHandle)));
}

#[test]
fn handles_are_never_reused() {
    let mut t = ResourceTable::new();
    let h0 = t.register(poll_cap(false));
    t.drop_handle(h0);
    let h1 = t.register(poll_cap(true));
    assert_ne!(h0, h1);
    assert!(matches!(t.resolve(h0), Err(BoundaryError::InvalidHandle)));
    assert!(t.resolve(h1).is_ok());
}

#[test]
fn other_handles_survive_a_release() {
    let mut t = ResourceTable::new();
    let h0 = t.register(poll_cap(true));
    let h1 = t.register(poll_cap(false));
    let _ = t.take(h0);
    match t.resolve(h1) {
        Ok(Capability::Poll(st)) => assert!(!st.ready),
        _ => panic!("the untouched handle must still resolve"),
    }
}

#[test]
fn resource_take_handle_swaps_in_the_sentinel() {
    let mut r = Resource::from_handle(7);
    assert_eq!(r.handle(), 7);
    assert_eq!(r.take_handle(), 7);
    assert_eq!(r.handle(), INVALID_HANDLE);
    // the second take only ever sees the sentinel: ownership has moved
    assert_eq!(r.take_handle(), INVALID_HANDLE);
}
