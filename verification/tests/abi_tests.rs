use reconciler::abi::{
    dispatch_reconcile, lift_outcome, lower_outcome, outcome_wire_type, Guest, ReconcileError,
    ReconcileResult, RET_AREA_SIZE,
};
use reconciler::codec::decode;
use reconciler::errors::BoundaryError;
use reconciler::lift::{bool_lift, string_lift, string_lower};
use reconciler::num::{as_i32, as_i64};
use reconciler::wire::{WireRegion, WireValue};

#[test]
fn lower_then_lift_returns_the_success_fields() {
    let region = lower_outcome(Ok(ReconcileResult {
        requeue: true,
        requeue_after: 5,
        object: String::from("{}"),
    }))
    .unwrap();
    match lift_outcome(region).unwrap() {
        Ok(res) => {
            assert!(res.requeue);
            assert_eq!(res.requeue_after, 5);
            assert_eq!(res.object, "{}");
        },
        Err(_) => panic!("a success outcome must lift as a success"),
    }
}

#[test]
fn lower_then_lift_returns_the_error_fields() {
    let region = lower_outcome(Err(ReconcileError {
        code: 500,
        message: String::from("boom"),
    }))
    .unwrap();
    match lift_outcome(region).unwrap() {
        Err(e) => {
            assert_eq!(e.code, 500);
            assert_eq!(e.message, "boom");
        },
        Ok(_) => panic!("an error outcome must lift as an error"),
    }
}

#[test]
fn return_area_has_the_fixed_offsets() {
    let region = lower_outcome(Ok(ReconcileResult {
        requeue: true,
        requeue_after: 7,
        object: String::from("xyz"),
    }))
    .unwrap();
    let flat = &region.flat;
    assert_eq!(flat.len(), RET_AREA_SIZE);
    assert_eq!(flat[0], 0, "discriminant: success");
    assert_eq!(flat[4], 1, "requeue boolean at byte 4");
    assert_eq!(&flat[8..12], &[7, 0, 0, 0], "requeue-after at [8,12)");
    assert_eq!(&flat[12..16], &[0, 0, 0, 0], "object pointer at [12,16)");
    assert_eq!(&flat[16..20], &[3, 0, 0, 0], "object length at [16,20)");
    assert_eq!(region.allocs, vec![b"xyz".to_vec()]);

    let region = lower_outcome(Err(ReconcileError {
        code: 404,
        message: String::from("no"),
    }))
    .unwrap();
    let flat = &region.flat;
    assert_eq!(flat[0], 1, "discriminant: error");
    assert_eq!(&flat[4..8], &[0x94, 1, 0, 0], "code at [4,8)");
    assert_eq!(&flat[8..12], &[0, 0, 0, 0], "message pointer at [8,12)");
    assert_eq!(&flat[12..16], &[2, 0, 0, 0], "message length at [12,16)");
}

#[test]
fn generic_codec_reproduces_the_return_area_layout() {
    // the same outcome, lowered directly and encoded through the general
    // wire codec at the outcome's wire type, gives identical bytes
    let direct = lower_outcome(Ok(ReconcileResult {
        requeue: true,
        requeue_after: 5,
        object: String::from("{}"),
    }))
    .unwrap();
    let t = outcome_wire_type();
    let v = WireValue::Variant(
        0,
        Box::new(WireValue::Record(vec![
            WireValue::Bool(true),
            WireValue::U32(5),
            WireValue::Str(String::from("{}")),
        ])),
    );
    let generic = reconciler::codec::encode(&v, &t);
    assert_eq!(generic.flat, direct.flat);
    assert_eq!(generic.allocs, direct.allocs);
    assert_eq!(decode(&t, generic).unwrap(), v);

    let direct = lower_outcome(Err(ReconcileError {
        code: 404,
        message: String::from("no"),
    }))
    .unwrap();
    let v = WireValue::Variant(
        1,
        Box::new(WireValue::Record(vec![
            WireValue::U32(404),
            WireValue::Str(String::from("no")),
        ])),
    );
    let generic = reconciler::codec::encode(&v, &t);
    assert_eq!(generic.flat, direct.flat);
    assert_eq!(generic.allocs, direct.allocs);
    assert_eq!(decode(&t, generic).unwrap(), v);
}

#[test]
fn bad_discriminant_in_return_area_is_boundary_corruption() {
    let mut region = lower_outcome(Ok(ReconcileResult {
        requeue: false,
        requeue_after: 0,
        object: String::from("{}"),
    }))
    .unwrap();
    region.flat[0] = 2;
    assert!(matches!(lift_outcome(region), Err(BoundaryError::MalformedEncoding)));
}

#[test]
fn bad_boolean_byte_in_return_area_is_rejected() {
    let mut region = lower_outcome(Ok(ReconcileResult {
        requeue: false,
        requeue_after: 0,
        object: String::from("{}"),
    }))
    .unwrap();
    region.flat[4] = 9;
    assert!(matches!(lift_outcome(region), Err(BoundaryError::MalformedEncoding)));
}

#[test]
fn invalid_message_utf8_is_rejected() {
    let mut region = lower_outcome(Err(ReconcileError {
        code: 1,
        message: String::from("ab"),
    }))
    .unwrap();
    region.allocs[0] = vec![0xC0, 0x00];
    assert!(matches!(lift_outcome(region), Err(BoundaryError::MalformedEncoding)));
}

struct EchoGuest;

impl Guest for EchoGuest {
    fn reconcile(object: String) -> Result<ReconcileResult, ReconcileError> {
        Ok(ReconcileResult { requeue: false, requeue_after: 0, object })
    }
}

struct FailingGuest;

impl Guest for FailingGuest {
    fn reconcile(_object: String) -> Result<ReconcileResult, ReconcileError> {
        Err(ReconcileError { code: 500, message: String::from("boom") })
    }
}

#[test]
fn dispatch_lowers_whatever_the_guest_returns() {
    let region = dispatch_reconcile::<EchoGuest>(b"{\"a\":1}".to_vec()).unwrap();
    match lift_outcome(region).unwrap() {
        Ok(res) => {
            assert!(!res.requeue);
            assert_eq!(res.object, "{\"a\":1}");
        },
        Err(_) => panic!("the echo guest succeeds"),
    }
    let region = dispatch_reconcile::<FailingGuest>(b"{}".to_vec()).unwrap();
    match lift_outcome(region).unwrap() {
        Err(e) => {
            assert_eq!(e.code, 500);
            assert_eq!(e.message, "boom");
        },
        Ok(_) => panic!("the failing guest fails"),
    }
}

#[test]
fn dispatch_rejects_invalid_utf8_input() {
    assert!(matches!(
        dispatch_reconcile::<EchoGuest>(vec![0xFF, 0xFF]),
        Err(BoundaryError::MalformedEncoding)
    ));
}

#[test]
fn string_lift_rejects_invalid_utf8_and_keeps_valid_bytes() {
    assert_eq!(string_lift(b"gr\xc3\xbcn".to_vec()).unwrap(), "grün");
    assert!(matches!(
        string_lift(vec![0x80]),
        Err(BoundaryError::MalformedEncoding)
    ));
    assert_eq!(string_lower("grün"), b"gr\xc3\xbcn".to_vec());
}

#[test]
fn bool_lift_accepts_only_zero_and_one() {
    assert_eq!(bool_lift(0), Ok(false));
    assert_eq!(bool_lift(1), Ok(true));
    assert_eq!(bool_lift(2), Err(BoundaryError::MalformedEncoding));
    assert_eq!(bool_lift(255), Err(BoundaryError::MalformedEncoding));
}

#[test]
fn canonical_abi_integer_lowering() {
    assert_eq!(as_i32(7u8), 7);
    assert_eq!(as_i32(0xFFFFu16), 0xFFFF);
    assert_eq!(as_i32(0xFFFF_FFFFu32), -1);
    assert_eq!(as_i32(5u32), 5);
    assert_eq!(as_i32(-5i32), -5);
    assert_eq!(as_i32(-2i8), -2);
    assert_eq!(as_i32('A'), 65);
    assert_eq!(as_i32(3usize), 3);
    assert_eq!(as_i64(0xFFFF_FFFF_FFFF_FFFFu64), -1);
    assert_eq!(as_i64(9u64), 9);
    assert_eq!(as_i64(-9i64), -9);
}
