use reconciler::codec::{decode, encode};
use reconciler::errors::BoundaryError;
use reconciler::wire::{WireRegion, WireType, WireValue};

fn round_trip(v: WireValue, t: &WireType) {
    let region = encode(&v, t);
    let back = decode(t, region).expect("decoding an encoded value must succeed");
    assert_eq!(back, v);
}

#[test]
fn round_trip_primitives() {
    round_trip(WireValue::Bool(true), &WireType::Bool);
    round_trip(WireValue::Bool(false), &WireType::Bool);
    round_trip(WireValue::U8(0xAB), &WireType::U8);
    round_trip(WireValue::U16(0xBEEF), &WireType::U16);
    round_trip(WireValue::U32(0xDEAD_BEEF), &WireType::U32);
    round_trip(WireValue::U64(0x0123_4567_89AB_CDEF), &WireType::U64);
    round_trip(WireValue::S32(-1), &WireType::S32);
    round_trip(WireValue::S32(i32::MIN), &WireType::S32);
    round_trip(WireValue::S32(i32::MAX), &WireType::S32);
    round_trip(WireValue::S64(-1), &WireType::S64);
    round_trip(WireValue::S64(i64::MIN), &WireType::S64);
    round_trip(WireValue::S64(i64::MAX), &WireType::S64);
}

#[test]
fn round_trip_strings_and_buffers() {
    round_trip(WireValue::Str(String::new()), &WireType::Str);
    round_trip(WireValue::Str(String::from("hello")), &WireType::Str);
    round_trip(WireValue::Str(String::from("héllo wörld ✓")), &WireType::Str);
    round_trip(WireValue::Bytes(vec![]), &WireType::Bytes);
    round_trip(WireValue::Bytes(vec![0, 1, 255, 128]), &WireType::Bytes);
}

#[test]
fn round_trip_lists() {
    let t = WireType::List(Box::new(WireType::U32));
    round_trip(WireValue::List(vec![]), &t);
    round_trip(
        WireValue::List(vec![
            WireValue::U32(1),
            WireValue::U32(2),
            WireValue::U32(0xFFFF_FFFF),
        ]),
        &t,
    );
    let ts = WireType::List(Box::new(WireType::Str));
    round_trip(
        WireValue::List(vec![
            WireValue::Str(String::from("a")),
            WireValue::Str(String::from("")),
            WireValue::Str(String::from("ccc")),
        ]),
        &ts,
    );
}

#[test]
fn round_trip_records_and_variants() {
    let rec_t = WireType::Record(vec![WireType::Bool, WireType::U32, WireType::Str]);
    let rec_v = WireValue::Record(vec![
        WireValue::Bool(true),
        WireValue::U32(5),
        WireValue::Str(String::from("{}")),
    ]);
    round_trip(rec_v, &rec_t);

    let var_t = WireType::Variant(vec![WireType::Str, WireType::U32]);
    round_trip(
        WireValue::Variant(0, Box::new(WireValue::Str(String::from("ok")))),
        &var_t,
    );
    round_trip(WireValue::Variant(1, Box::new(WireValue::U32(404))), &var_t);
}

#[test]
fn round_trip_nested() {
    // list of records, each holding a string and a list of bytes values
    let inner_list_t = WireType::List(Box::new(WireType::U8));
    let rec_t = WireType::Record(vec![WireType::Str, inner_list_t]);
    let t = WireType::List(Box::new(rec_t));
    let mk = |s: &str, bs: &[u8]| {
        WireValue::Record(vec![
            WireValue::Str(String::from(s)),
            WireValue::List(bs.iter().map(|b| WireValue::U8(*b)).collect()),
        ])
    };
    round_trip(
        WireValue::List(vec![mk("first", &[1, 2]), mk("", &[]), mk("third", &[9])]),
        &t,
    );
}

#[test]
fn round_trip_option_shaped_union() {
    // an optional string: case 0 carries nothing (an empty record), case 1
    // carries the value
    let t = WireType::Variant(vec![WireType::Record(vec![]), WireType::Str]);
    round_trip(
        WireValue::Variant(0, Box::new(WireValue::Record(vec![]))),
        &t,
    );
    round_trip(
        WireValue::Variant(1, Box::new(WireValue::Str(String::from("present")))),
        &t,
    );
}

#[test]
fn record_layout_pads_fields_to_their_alignment() {
    // {bool, u32} lays out as one tag byte, three padding bytes, then the
    // integer at offset 4 — fixed offsets per type
    let t = WireType::Record(vec![WireType::Bool, WireType::U32]);
    let region = encode(
        &WireValue::Record(vec![WireValue::Bool(true), WireValue::U32(5)]),
        &t,
    );
    assert_eq!(region.flat, vec![1, 0, 0, 0, 5, 0, 0, 0]);
    assert!(region.allocs.is_empty());
}

#[test]
fn bad_discriminant_is_rejected_without_reading_payload() {
    // A two-case union whose discriminant byte is out of range. The payload
    // words are a canary: a dangling pointer and an absurd length. If the
    // decoder ever read past the discriminant it would chase them; instead
    // the region must be rejected as malformed, and only because of byte 0.
    let t = WireType::Variant(vec![WireType::Record(vec![]), WireType::Str]);
    let good = encode(
        &WireValue::Variant(1, Box::new(WireValue::Str(String::from("x")))),
        &t,
    );
    let size = good.flat.len();
    let mut flat = vec![0u8; size];
    flat[0] = 7; // out of range: only 0 and 1 exist
    flat[4] = 0xFF; // canary pointer bytes
    flat[5] = 0xFF;
    flat[6] = 0xFF;
    flat[7] = 0xFF;
    let region = WireRegion { flat, allocs: vec![vec![0xAA; 3]] };
    assert_eq!(decode(&t, region), Err(BoundaryError::MalformedEncoding));
}

#[test]
fn invalid_utf8_is_rejected() {
    let mut region = encode(&WireValue::Str(String::from("ab")), &WireType::Str);
    region.allocs[0] = vec![0xFF, 0xFE]; // same length, invalid UTF-8
    assert_eq!(decode(&WireType::Str, region), Err(BoundaryError::MalformedEncoding));
}

#[test]
fn invalid_bool_byte_is_rejected() {
    let region = WireRegion { flat: vec![2u8], allocs: vec![] };
    assert_eq!(decode(&WireType::Bool, region), Err(BoundaryError::MalformedEncoding));
}

#[test]
fn wrong_region_size_is_rejected() {
    let region = WireRegion { flat: vec![0u8; 3], allocs: vec![] };
    assert_eq!(decode(&WireType::U32, region), Err(BoundaryError::MalformedEncoding));
}

#[test]
fn dangling_buffer_reference_is_rejected() {
    // (pointer, length) words naming allocation 5 of 1.
    let mut flat = vec![0u8; 8];
    flat[0] = 5;
    flat[4] = 1;
    let region = WireRegion { flat, allocs: vec![vec![0x41]] };
    assert_eq!(decode(&WireType::Bytes, region), Err(BoundaryError::MalformedEncoding));
}

#[test]
fn mis_sized_buffer_reference_is_rejected() {
    // length word says 4, allocation has 2 bytes.
    let mut flat = vec![0u8; 8];
    flat[4] = 4;
    let region = WireRegion { flat, allocs: vec![vec![0x41, 0x42]] };
    assert_eq!(decode(&WireType::Bytes, region), Err(BoundaryError::MalformedEncoding));
}

#[test]
fn string_encoding_layout_is_pointer_then_length() {
    let region = encode(&WireValue::Str(String::from("abc")), &WireType::Str);
    assert_eq!(region.flat, vec![0, 0, 0, 0, 3, 0, 0, 0]);
    assert_eq!(region.allocs, vec![b"abc".to_vec()]);
}

#[test]
fn release_consumes_a_region() {
    let region = encode(&WireValue::U8(1), &WireType::U8);
    region.release();
}
