use vstd::prelude::*;
use vstd::bytes::{
    lemma_auto_spec_u32_to_from_le_bytes, spec_u32_from_le_bytes, spec_u32_to_le_bytes,
    u32_from_le_bytes, u32_to_le_bytes,
};
use vstd::slice::slice_subrange;
use vstd::utf8::{decode_utf8, encode_utf8, valid_utf8};
use crate::errors::BoundaryError;
use crate::lift::{bool_lift, string_lift, string_lower};
use crate::wire::{
    align_of, fields_end, max_align, max_size, payload_offset, size_of, type_ok, WireRegion,
    WireType,
};

verus! {

/// "The guest succeeded": the (possibly unchanged) object and a scheduling
/// hint.
pub struct ReconcileResult {
    /// Whether the scheduler should invoke the guest again for this object.
    pub requeue: bool,
    /// Seconds to wait before the next invocation.
    pub requeue_after: u32,
    /// The object, replacing the stored one verbatim.
    pub object: String,
}

/// A guest-reported failure; `code` is an opaque application-defined
/// classification that the scheduler surfaces but never branches on.
pub struct ReconcileError {
    pub code: u32,
    pub message: String,
}

/// What one invocation returns.
pub type ReconcileOutcome = Result<ReconcileResult, ReconcileError>;

/// The single entry point a guest module implements. The guest is
/// untrusted: nothing is assumed of the outcome, and everything built on
/// top is verified for every value it could return.
pub trait Guest {
    /// Takes a serialized object and returns the mutated object with a
    /// scheduling directive, or a typed error.
    fn reconcile(object: String) -> Result<ReconcileResult, ReconcileError>;
}

/// Total size of the reconcile return area, 4-byte aligned: byte 0 is the
/// discriminant, the active payload starts at byte 4.
pub const RET_AREA_SIZE: usize = 20;

/// The one allocation embedded in a lowered outcome: the UTF-8 bytes of the
/// `object` string for a success, of the `message` string for an error.
pub open spec fn outcome_payload(o: ReconcileOutcome) -> Seq<u8> {
    match o {
        Ok(res) => encode_utf8(res.object@),
        Err(e) => encode_utf8(e.message@),
    }
}

/// Fixed-offset layout of the 20-byte return area. Byte 0 is the
/// discriminant (0 = success, 1 = error). For a success, bytes [4,8) hold
/// the requeue boolean, [8,12) requeue-after, [12,16) the pointer to the
/// object bytes (an allocation index) and [16,20) their length. For an
/// error, [4,8) hold the code, [8,12) the pointer to the message bytes and
/// [12,16) their length. Padding and the unused tail are zero.
pub open spec fn outcome_flat(o: ReconcileOutcome) -> Seq<u8> {
    match o {
        Ok(res) => seq![0u8, 0u8, 0u8, 0u8]
            + seq![(if res.requeue { 1u8 } else { 0u8 }), 0u8, 0u8, 0u8]
            + spec_u32_to_le_bytes(res.requeue_after) + spec_u32_to_le_bytes(0u32)
            + spec_u32_to_le_bytes(encode_utf8(res.object@).len() as u32),
        Err(e) => seq![1u8, 0u8, 0u8, 0u8] + spec_u32_to_le_bytes(e.code)
            + spec_u32_to_le_bytes(0u32) + spec_u32_to_le_bytes(encode_utf8(e.message@).len() as u32)
            + seq![0u8, 0u8, 0u8, 0u8],
    }
}

/// A return region that `lift_outcome` accepts: correct size, known
/// discriminant, a valid boolean byte for a success, and a buffer reference
/// that names an allocation of exactly the stated length holding valid
/// UTF-8.
pub open spec fn wf_outcome_region(flat: Seq<u8>, allocs: Seq<Seq<u8>>) -> bool {
    &&& flat.len() == RET_AREA_SIZE
    &&& (flat[0] == 0 || flat[0] == 1)
    &&& (flat[0] == 0 ==> {
        let idx = spec_u32_from_le_bytes(flat.subrange(12, 16));
        let len = spec_u32_from_le_bytes(flat.subrange(16, 20));
        &&& (flat[4] == 0 || flat[4] == 1)
        &&& idx < allocs.len()
        &&& allocs[idx as int].len() == len
        &&& valid_utf8(allocs[idx as int])
    })
    &&& (flat[0] == 1 ==> {
        let idx = spec_u32_from_le_bytes(flat.subrange(8, 12));
        let len = spec_u32_from_le_bytes(flat.subrange(12, 16));
        &&& idx < allocs.len()
        &&& allocs[idx as int].len() == len
        &&& valid_utf8(allocs[idx as int])
    })
}

/// Lowers an invocation outcome into the fixed-offset return region,
/// performing exactly one allocation for the embedded string. Fails only
/// when that string's UTF-8 form cannot be measured by the 32-bit wire
/// length field.
pub fn lower_outcome(o: ReconcileOutcome) -> (r: Result<WireRegion, BoundaryError>)
    ensures
        outcome_payload(o).len() <= u32::MAX ==> (r matches Ok(region) && region.flat@
            == outcome_flat(o) && region.allocs@.len() == 1 && region.allocs@[0]@
            == outcome_payload(o)),
        outcome_payload(o).len() > u32::MAX ==> r == Err::<WireRegion, BoundaryError>(
            BoundaryError::MalformedEncoding,
        ),
{
    let mut flat: Vec<u8> = Vec::new();
    let payload: Vec<u8>;
    match o {
        Ok(res) => {
            payload = string_lower(res.object.as_str());
            if payload.len() as u64 > u32::MAX as u64 {
                return Err(BoundaryError::MalformedEncoding);
            }
            flat.push(0u8);
            flat.push(0u8);
            flat.push(0u8);
            flat.push(0u8);
            flat.push(if res.requeue {
                1u8
            } else {
                0u8
            });
            flat.push(0u8);
            flat.push(0u8);
            flat.push(0u8);
            let mut word = u32_to_le_bytes(res.requeue_after);
            flat.append(&mut word);
            let mut ptr = u32_to_le_bytes(0u32);
            flat.append(&mut ptr);
            let mut len = u32_to_le_bytes(payload.len() as u32);
            flat.append(&mut len);
        },
        Err(e) => {
            payload = string_lower(e.message.as_str());
            if payload.len() as u64 > u32::MAX as u64 {
                return Err(BoundaryError::MalformedEncoding);
            }
            flat.push(1u8);
            flat.push(0u8);
            flat.push(0u8);
            flat.push(0u8);
            let mut code = u32_to_le_bytes(e.code);
            flat.append(&mut code);
            let mut ptr = u32_to_le_bytes(0u32);
            flat.append(&mut ptr);
            let mut len = u32_to_le_bytes(payload.len() as u32);
            flat.append(&mut len);
            flat.push(0u8);
            flat.push(0u8);
            flat.push(0u8);
            flat.push(0u8);
        },
    }
    let mut allocs: Vec<Vec<u8>> = Vec::new();
    allocs.push(payload);
    Ok(WireRegion { flat, allocs })
}

/// Lifts a return region back into an outcome, consuming the region: this
/// is the call site's post-return cleanup — the embedded allocation is either
/// moved into the lifted value or released here, exactly once, on every
/// path. Fails with `MalformedEncoding` exactly on regions that are not
/// well-formed; an out-of-range discriminant is rejected before any payload
/// field is read.
pub fn lift_outcome(region: WireRegion) -> (r: Result<ReconcileOutcome, BoundaryError>)
    ensures
        r is Ok <==> wf_outcome_region(region.flat@, region.allocs.deep_view()),
        r matches Ok(o) ==> {
            let flat = region.flat@;
            let allocs = region.allocs.deep_view();
            if flat[0] == 0 {
                let idx = spec_u32_from_le_bytes(flat.subrange(12, 16));
                &&& o matches Ok(res)
                &&& res.requeue == (flat[4] == 1)
                &&& res.requeue_after == spec_u32_from_le_bytes(flat.subrange(8, 12))
                &&& res.object@ == decode_utf8(allocs[idx as int])
            } else {
                let idx = spec_u32_from_le_bytes(flat.subrange(8, 12));
                &&& o matches Err(e)
                &&& e.code == spec_u32_from_le_bytes(flat.subrange(4, 8))
                &&& e.message@ == decode_utf8(allocs[idx as int])
            }
        },
        r matches Err(e) ==> e == BoundaryError::MalformedEncoding,
{
    proof {
        crate::wire::lemma_allocs_deep_view(region.allocs);
    }
    let WireRegion { flat, mut allocs } = region;
    if flat.len() != RET_AREA_SIZE {
        return Err(BoundaryError::MalformedEncoding);
    }
    let disc = flat[0];
    if disc > 1 {
        return Err(BoundaryError::MalformedEncoding);
    }
    if disc == 0 {
        let requeue = match bool_lift(flat[4]) {
            Ok(b) => b,
            Err(e) => {
                return Err(e);
            },
        };
        let requeue_after = u32_from_le_bytes(slice_subrange(flat.as_slice(), 8, 12));
        let idx = u32_from_le_bytes(slice_subrange(flat.as_slice(), 12, 16));
        let len = u32_from_le_bytes(slice_subrange(flat.as_slice(), 16, 20));
        if (idx as usize) >= allocs.len() {
            return Err(BoundaryError::MalformedEncoding);
        }
        allocs.push(Vec::new());
        let payload = allocs.swap_remove(idx as usize);
        if payload.len() as u64 != len as u64 {
            return Err(BoundaryError::MalformedEncoding);
        }
        let object = match string_lift(payload) {
            Ok(s) => s,
            Err(e) => {
                return Err(e);
            },
        };
        Ok(Ok(ReconcileResult { requeue, requeue_after, object }))
    } else {
        let code = u32_from_le_bytes(slice_subrange(flat.as_slice(), 4, 8));
        let idx = u32_from_le_bytes(slice_subrange(flat.as_slice(), 8, 12));
        let len = u32_from_le_bytes(slice_subrange(flat.as_slice(), 12, 16));
        if (idx as usize) >= allocs.len() {
            return Err(BoundaryError::MalformedEncoding);
        }
        allocs.push(Vec::new());
        let payload = allocs.swap_remove(idx as usize);
        if payload.len() as u64 != len as u64 {
            return Err(BoundaryError::MalformedEncoding);
        }
        let message = match string_lift(payload) {
            Ok(s) => s,
            Err(e) => {
                return Err(e);
            },
        };
        Ok(Err(ReconcileError { code, message }))
    }
}

/// Law: lowering any outcome whose embedded string fits the wire length
/// field yields a well-formed region, and the fields `lift_outcome`
/// recovers from it are exactly the fields that went in — the round trip
/// preserves content, while the string's backing allocation has moved.
pub proof fn lemma_outcome_round_trip(o: ReconcileOutcome)
    requires
        outcome_payload(o).len() <= u32::MAX,
    ensures
        wf_outcome_region(outcome_flat(o), seq![outcome_payload(o)]),
        ({
            let flat = outcome_flat(o);
            match o {
                Ok(res) => {
                    &&& flat[0] == 0
                    &&& (flat[4] == 1) == res.requeue
                    &&& spec_u32_from_le_bytes(flat.subrange(8, 12)) == res.requeue_after
                    &&& spec_u32_from_le_bytes(flat.subrange(12, 16)) == 0
                    &&& decode_utf8(outcome_payload(o)) == res.object@
                },
                Err(e) => {
                    &&& flat[0] == 1
                    &&& spec_u32_from_le_bytes(flat.subrange(4, 8)) == e.code
                    &&& spec_u32_from_le_bytes(flat.subrange(8, 12)) == 0
                    &&& decode_utf8(outcome_payload(o)) == e.message@
                },
            }
        }),
{
    lemma_auto_spec_u32_to_from_le_bytes();
    broadcast use vstd::utf8::encode_utf8_valid_utf8;
    broadcast use vstd::utf8::encode_utf8_decode_utf8;

    let flat = outcome_flat(o);
    match o {
        Ok(res) => {
            assert(flat.subrange(8, 12) =~= spec_u32_to_le_bytes(res.requeue_after));
            assert(flat.subrange(12, 16) =~= spec_u32_to_le_bytes(0u32));
            assert(flat.subrange(16, 20) =~= spec_u32_to_le_bytes(
                encode_utf8(res.object@).len() as u32,
            ));
        },
        Err(e) => {
            assert(flat.subrange(4, 8) =~= spec_u32_to_le_bytes(e.code));
            assert(flat.subrange(8, 12) =~= spec_u32_to_le_bytes(0u32));
            assert(flat.subrange(12, 16) =~= spec_u32_to_le_bytes(
                encode_utf8(e.message@).len() as u32,
            ));
        },
    }
}

/// Builds the outcome's wire type and shows that the general fixed-offset
/// layout rules reproduce the invocation ABI's return area exactly: 20 bytes, 4-byte
/// aligned, payload at byte 4.
pub fn outcome_wire_type() -> (t: WireType)
    ensures
        type_ok(t),
        size_of(t) == RET_AREA_SIZE,
        align_of(t) == 4,
        payload_offset(outcome_cases(t)) == 4,
{
    let ok_case = WireType::Record(vec![WireType::Bool, WireType::U32, WireType::Str]);
    let err_case = WireType::Record(vec![WireType::U32, WireType::Str]);
    let t = WireType::Variant(vec![ok_case, err_case]);
    proof {
        lemma_outcome_type_layout(t);
    }
    t
}

/// The cases of a tagged-union wire type.
pub open spec fn outcome_cases(t: WireType) -> Seq<WireType> {
    match t {
        WireType::Variant(cs) => cs@,
        _ => Seq::empty(),
    }
}

proof fn lemma_outcome_type_layout(t: WireType)
    requires
        ({
            match t {
                WireType::Variant(cs) => {
                    &&& cs@.len() == 2
                    &&& (match cs@[0] {
                        WireType::Record(fs) => fs@ =~= seq![
                            WireType::Bool,
                            WireType::U32,
                            WireType::Str,
                        ],
                        _ => false,
                    })
                    &&& (match cs@[1] {
                        WireType::Record(fs) => fs@ =~= seq![WireType::U32, WireType::Str],
                        _ => false,
                    })
                },
                _ => false,
            }
        }),
    ensures
        type_ok(t),
        size_of(t) == 20,
        align_of(t) == 4,
        payload_offset(outcome_cases(t)) == 4,
{
    let cs = outcome_cases(t);
    let e: Seq<WireType> = Seq::empty();
    let f1 = seq![WireType::Bool, WireType::U32, WireType::Str];
    let f1a = seq![WireType::Bool, WireType::U32];
    let f1b = seq![WireType::Bool];
    let f2 = seq![WireType::U32, WireType::Str];
    let f2a = seq![WireType::U32];
    assert(fields_end(e) == 0 && max_align(e) == 1 && max_size(e) == 0
        && crate::wire::types_ok(e));
    assert(type_ok(WireType::Bool) && type_ok(WireType::U32) && type_ok(WireType::Str));
    assert(f1b.drop_last() =~= e && f1a.drop_last() =~= f1b && f1.drop_last() =~= f1a);
    assert(f2a.drop_last() =~= e && f2.drop_last() =~= f2a);
    assert(f1b.last() == WireType::Bool);
    assert(fields_end(f1b.drop_last()) == 0);
    assert(align_of(WireType::Bool) == 1);
    assert(size_of(WireType::Bool) == 1);
    assert(crate::wire::round_up(0, 1) == 0);
    assert(fields_end(f1b) == 1);
    assert(max_align(f1b) == 1);
    assert(crate::wire::types_ok(f1b));
    assert(f1a.last() == WireType::U32 && f1.last() == WireType::Str);
    assert(f2a.last() == WireType::U32 && f2.last() == WireType::Str);
    assert(f1a.drop_last() == f1b);
    assert(fields_end(f1a.drop_last()) == 1);
    assert(align_of(f1a.last()) == 4);
    assert(size_of(f1a.last()) == 4);
    assert(crate::wire::round_up(1, 4) == 4);
    assert(fields_end(f1a) == 8);
    assert(max_align(f1a) == 4);
    assert(crate::wire::types_ok(f1a));
    assert(f1.drop_last() == f1a);
    assert(fields_end(f1.drop_last()) == 8);
    assert(align_of(f1.last()) == 4 && size_of(f1.last()) == 8);
    assert(crate::wire::round_up(8, 4) == 8);
    assert(fields_end(f1) == 16);
    assert(max_align(f1) == 4);
    assert(crate::wire::types_ok(f1));
    assert(f2a.drop_last() == e && f2.drop_last() == f2a);
    assert(fields_end(f2a.drop_last()) == 0);
    assert(fields_end(f2a) == 4);
    assert(max_align(f2a) == 4);
    assert(crate::wire::types_ok(f2a));
    assert(fields_end(f2.drop_last()) == 4);
    assert(crate::wire::round_up(4, 4) == 4);
    assert(fields_end(f2) == 12);
    assert(max_align(f2) == 4);
    assert(crate::wire::types_ok(f2));
    assert(size_of(cs[0]) == 16 && align_of(cs[0]) == 4 && type_ok(cs[0]));
    assert(size_of(cs[1]) == 12 && align_of(cs[1]) == 4 && type_ok(cs[1]));
    let cs1 = seq![cs[0]];
    assert(cs1.drop_last() =~= e && cs.drop_last() =~= cs1 && cs.last() == cs[1]);
    assert(max_align(cs1) == 4 && max_size(cs1) == 16 && crate::wire::types_ok(cs1));
    assert(max_align(cs) == 4 && max_size(cs) == 16 && crate::wire::types_ok(cs));
    assert(payload_offset(cs) == 4);
    assert(size_of(t) == 20);
    assert(type_ok(t));
}

/// The outcome as a generic wire value: case 0 of the union carries the
/// success record, case 1 the error record.
pub open spec fn outcome_val(o: ReconcileOutcome) -> crate::wire::WireVal {
    match o {
        Ok(res) => crate::wire::WireVal::Variant(
            0,
            Box::new(
                crate::wire::WireVal::Record(
                    seq![
                        crate::wire::WireVal::Bool(res.requeue),
                        crate::wire::WireVal::U32(res.requeue_after),
                        crate::wire::WireVal::Str(res.object@),
                    ],
                ),
            ),
        ),
        Err(e) => crate::wire::WireVal::Variant(
            1,
            Box::new(
                crate::wire::WireVal::Record(
                    seq![
                        crate::wire::WireVal::U32(e.code),
                        crate::wire::WireVal::Str(e.message@),
                    ],
                ),
            ),
        ),
    }
}

/// Law: the direct lowering of an outcome is exactly the general codec's
/// encoding of the same value at the outcome's wire type — one marshaling
/// semantics, expressed twice.
pub proof fn lemma_lower_is_generic_encoding(o: ReconcileOutcome, t: WireType)
    requires
        outcome_payload(o).len() <= u32::MAX,
        ({
            match t {
                WireType::Variant(cs) => {
                    &&& cs@.len() == 2
                    &&& (match cs@[0] {
                        WireType::Record(fs) => fs@ =~= seq![
                            WireType::Bool,
                            WireType::U32,
                            WireType::Str,
                        ],
                        _ => false,
                    })
                    &&& (match cs@[1] {
                        WireType::Record(fs) => fs@ =~= seq![WireType::U32, WireType::Str],
                        _ => false,
                    })
                },
                _ => false,
            }
        }),
    ensures
        crate::wire::val_ok(outcome_val(o), t),
        crate::wire::enc(outcome_val(o), t, 0).flat == outcome_flat(o),
        crate::wire::enc(outcome_val(o), t, 0).allocs == seq![outcome_payload(o)],
{
    lemma_outcome_type_layout(t);
    lemma_auto_spec_u32_to_from_le_bytes();
    let cs = outcome_cases(t);
    let e_v: Seq<crate::wire::WireVal> = Seq::empty();
    let e_t: Seq<WireType> = Seq::empty();
    match o {
        Ok(res) => {
            let vb = crate::wire::WireVal::Bool(res.requeue);
            let vu = crate::wire::WireVal::U32(res.requeue_after);
            let vs_ = crate::wire::WireVal::Str(res.object@);
            let payload = encode_utf8(res.object@);
            let v1 = seq![vb];
            let v2 = seq![vb, vu];
            let v3 = seq![vb, vu, vs_];
            let f1 = seq![WireType::Bool];
            let f2 = seq![WireType::Bool, WireType::U32];
            let f3 = seq![WireType::Bool, WireType::U32, WireType::Str];
            assert(v1.drop_last() =~= e_v && v2.drop_last() =~= v1 && v3.drop_last() =~= v2);
            assert(f1.drop_last() =~= e_t && f2.drop_last() =~= f1 && f3.drop_last() =~= f2);
            assert(fields_end(e_t) == 0 && max_align(e_t) == 1);
            crate::wire_lemmas::lemma_fields_end_unfold(f1);
            crate::wire_lemmas::lemma_fields_end_unfold(f2);
            crate::wire_lemmas::lemma_fields_end_unfold(f3);
            assert(f1.last() == WireType::Bool && f2.last() == WireType::U32 && f3.last()
                == WireType::Str);
            assert(fields_end(f1) == 1 && max_align(f1) == 1);
            assert(fields_end(f2) == 8 && max_align(f2) == 4);
            assert(fields_end(f3) == 16 && max_align(f3) == 4);
            assert(crate::wire::fields_ok(e_v, e_t));
            assert(crate::wire::val_ok(vb, WireType::Bool));
            assert(crate::wire::val_ok(vu, WireType::U32));
            assert(crate::wire::val_ok(vs_, WireType::Str));
            assert(crate::wire::fields_ok(v1, f1));
            assert(crate::wire::fields_ok(v2, f2));
            assert(crate::wire::fields_ok(v3, f3));
            let rec = crate::wire::WireVal::Record(v3);
            assert(crate::wire::val_ok(rec, cs[0]));
            assert(crate::wire::val_ok(outcome_val(o), t));
            let bb: u8 = if res.requeue {
                1u8
            } else {
                0u8
            };
            let g0 = crate::wire::enc_fields(e_v, e_t, 0);
            assert(g0.flat =~= Seq::<u8>::empty() && g0.allocs =~= Seq::<Seq<u8>>::empty());
            let g1 = crate::wire::enc_fields(v1, f1, 0);
            assert(g1.flat =~= seq![bb] && g1.allocs =~= Seq::<Seq<u8>>::empty()) by {
                assert(crate::wire::round_up(0, 1) == 0);
                assert(crate::wire::enc(vb, WireType::Bool, 0).flat == seq![bb]);
            }
            let g2 = crate::wire::enc_fields(v2, f2, 0);
            assert(g2.flat =~= seq![bb, 0u8, 0u8, 0u8] + spec_u32_to_le_bytes(res.requeue_after)
                && g2.allocs =~= Seq::<Seq<u8>>::empty()) by {
                assert(crate::wire::round_up(1, 4) == 4);
                assert(crate::wire::zeros(3) =~= seq![0u8, 0u8, 0u8]);
                assert(g1.allocs.len() == 0);
                assert(crate::wire::enc(vu, WireType::U32, 0).flat == spec_u32_to_le_bytes(
                    res.requeue_after,
                ));
            }
            let g3 = crate::wire::enc_fields(v3, f3, 0);
            assert(g3.flat =~= seq![bb, 0u8, 0u8, 0u8] + spec_u32_to_le_bytes(res.requeue_after)
                + spec_u32_to_le_bytes(0u32) + spec_u32_to_le_bytes(payload.len() as u32)
                && g3.allocs =~= seq![payload]) by {
                assert(crate::wire::round_up(8, 4) == 8);
                assert(crate::wire::zeros(0) =~= Seq::<u8>::empty());
                assert(g2.allocs.len() == 0);
                assert(crate::wire::enc(vs_, WireType::Str, 0).flat == spec_u32_to_le_bytes(0u32)
                    + spec_u32_to_le_bytes(payload.len() as u32));
                assert(crate::wire::enc(vs_, WireType::Str, 0).allocs == seq![payload]);
            }
            let er = crate::wire::enc(rec, cs[0], 0);
            assert(er.flat =~= g3.flat && er.allocs == g3.allocs) by {
                assert(crate::wire::round_up(16, 4) == 16);
                assert(crate::wire::size_of(cs[0]) == 16);
                assert(crate::wire::zeros(0) =~= Seq::<u8>::empty());
            }
            assert(crate::wire::round_up(16, 4) == 16);
            assert(crate::wire::size_of(cs[0]) == 16);
            let ev = crate::wire::enc(outcome_val(o), t, 0);
            assert(ev.flat =~= seq![0u8] + crate::wire::zeros(3) + er.flat
                + crate::wire::zeros(0) && ev.allocs == er.allocs);
            assert(crate::wire::zeros(3) =~= seq![0u8, 0u8, 0u8]);
            assert(crate::wire::zeros(0) =~= Seq::<u8>::empty());
            assert(ev.flat =~= outcome_flat(o));
            assert(ev.allocs =~= seq![outcome_payload(o)]);
        },
        Err(err) => {
            let vu = crate::wire::WireVal::U32(err.code);
            let vs_ = crate::wire::WireVal::Str(err.message@);
            let payload = encode_utf8(err.message@);
            let v1 = seq![vu];
            let v2 = seq![vu, vs_];
            let f1 = seq![WireType::U32];
            let f2 = seq![WireType::U32, WireType::Str];
            assert(v1.drop_last() =~= e_v && v2.drop_last() =~= v1);
            assert(f1.drop_last() =~= e_t && f2.drop_last() =~= f1);
            assert(fields_end(e_t) == 0 && max_align(e_t) == 1);
            crate::wire_lemmas::lemma_fields_end_unfold(f1);
            crate::wire_lemmas::lemma_fields_end_unfold(f2);
            assert(f1.last() == WireType::U32 && f2.last() == WireType::Str);
            assert(align_of(WireType::U32) == 4 && size_of(WireType::U32) == 4);
            assert(align_of(WireType::Str) == 4 && size_of(WireType::Str) == 8);
            assert(f1.drop_last() == e_t);
            assert(fields_end(f1.drop_last()) == 0);
            assert(crate::wire::round_up(0, 4) == 0);
            assert(fields_end(f1) == 4 && max_align(f1) == 4);
            assert(fields_end(f2) == 12 && max_align(f2) == 4);
            assert(crate::wire::fields_ok(e_v, e_t));
            assert(crate::wire::val_ok(vu, WireType::U32));
            assert(crate::wire::val_ok(vs_, WireType::Str));
            assert(crate::wire::fields_ok(v1, f1));
            assert(crate::wire::fields_ok(v2, f2));
            let rec = crate::wire::WireVal::Record(v2);
            assert(crate::wire::val_ok(rec, cs[1]));
            assert(crate::wire::val_ok(outcome_val(o), t));
            let g0 = crate::wire::enc_fields(e_v, e_t, 0);
            assert(g0.flat =~= Seq::<u8>::empty() && g0.allocs =~= Seq::<Seq<u8>>::empty());
            let g1 = crate::wire::enc_fields(v1, f1, 0);
            assert(g1.flat =~= spec_u32_to_le_bytes(err.code) && g1.allocs =~= Seq::<
                Seq<u8>,
            >::empty()) by {
                assert(crate::wire::round_up(0, 4) == 0);
                assert(crate::wire::enc(vu, WireType::U32, 0).flat == spec_u32_to_le_bytes(
                    err.code,
                ));
            }
            let g2 = crate::wire::enc_fields(v2, f2, 0);
            assert(g2.flat =~= spec_u32_to_le_bytes(err.code) + spec_u32_to_le_bytes(0u32)
                + spec_u32_to_le_bytes(payload.len() as u32) && g2.allocs =~= seq![payload]) by {
                assert(crate::wire::round_up(4, 4) == 4);
                assert(crate::wire::fields_end(f1) == 4);
                assert(crate::wire::zeros(0) =~= Seq::<u8>::empty());
                assert(g1.allocs.len() == 0);
                assert(crate::wire::enc(vs_, WireType::Str, 0).flat == spec_u32_to_le_bytes(0u32)
                    + spec_u32_to_le_bytes(payload.len() as u32));
            }
            let er = crate::wire::enc(rec, cs[1], 0);
            assert(er.flat =~= g2.flat && er.allocs == g2.allocs) by {
                assert(crate::wire::round_up(12, 4) == 12);
                assert(crate::wire::size_of(cs[1]) == 12);
                assert(crate::wire::zeros(0) =~= Seq::<u8>::empty());
            }
            assert(crate::wire::round_up(12, 4) == 12);
            assert(crate::wire::size_of(cs[1]) == 12);
            let ev = crate::wire::enc(outcome_val(o), t, 0);
            assert(ev.flat =~= seq![1u8] + crate::wire::zeros(3) + er.flat + crate::wire::zeros(4)
                && ev.allocs == er.allocs);
            assert(crate::wire::zeros(3) =~= seq![0u8, 0u8, 0u8]);
            assert(crate::wire::zeros(4) =~= seq![0u8, 0u8, 0u8, 0u8]);
            assert(ev.flat =~= outcome_flat(o));
            assert(ev.allocs =~= seq![outcome_payload(o)]);
        },
    }
}

/// Runs one guest invocation against raw object bytes received across the
/// boundary: lifts the input string (rejecting invalid UTF-8), calls the
/// guest, and lowers whatever it returned into a return region. Whatever
/// the untrusted guest does, a region this returns is well-formed, so the
/// caller's `lift_outcome` succeeds on it.
pub fn dispatch_reconcile<T: Guest>(object_bytes: Vec<u8>) -> (r: Result<
    WireRegion,
    BoundaryError,
>)
    ensures
        !valid_utf8(object_bytes@) ==> r == Err::<WireRegion, BoundaryError>(
            BoundaryError::MalformedEncoding,
        ),
        r matches Ok(region) ==> valid_utf8(object_bytes@) && wf_outcome_region(
            region.flat@,
            region.allocs.deep_view(),
        ),
        r matches Err(e) ==> e == BoundaryError::MalformedEncoding,
{
    let object = match string_lift(object_bytes) {
        Ok(s) => s,
        Err(e) => {
            return Err(e);
        },
    };
    let outcome = T::reconcile(object);
    let region = match lower_outcome(outcome) {
        Ok(region) => region,
        Err(e) => {
            return Err(e);
        },
    };
    proof {
        lemma_outcome_round_trip(outcome);
        crate::wire::lemma_allocs_deep_view(region.allocs);
        assert(region.allocs.deep_view() =~= seq![outcome_payload(outcome)]);
    }
    Ok(region)
}

} // verus!
