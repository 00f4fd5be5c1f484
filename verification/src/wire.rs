use vstd::prelude::*;
use vstd::bytes::{
    spec_u16_from_le_bytes, spec_u16_to_le_bytes, spec_u32_from_le_bytes, spec_u32_to_le_bytes,
    spec_u64_from_le_bytes, spec_u64_to_le_bytes,
};
use vstd::utf8::{decode_utf8, encode_utf8, valid_utf8};

verus! {

/// Largest flat size a well-formed wire type may have. Offsets and sizes
/// then fit comfortably in 32 bits on every target.
pub const MAX_TYPE_SIZE: usize = 0x1000_0000;

/// The type of a value crossing the boundary, which fixes its flat byte
/// layout. Optional and result types are variants of two cases; a case
/// without payload is an empty record.
pub enum WireType {
    Bool,
    U8,
    U16,
    U32,
    U64,
    S32,
    S64,
    /// UTF-8 string: a (pointer, length) pair referencing one contiguous
    /// allocation, validated on decode.
    Str,
    /// Raw byte buffer: a (pointer, length) pair referencing one contiguous
    /// allocation.
    Bytes,
    /// List: a (pointer, count) pair; the allocation holds the elements'
    /// flat encodings back to back.
    List(Box<WireType>),
    /// Record with fixed fields at fixed offsets.
    Record(Vec<WireType>),
    /// Tagged union: a one-byte discriminant, then the active case's
    /// payload at a fixed offset.
    Variant(Vec<WireType>),
}

/// A wire value, executable form. `decode` validates strings, booleans and
/// discriminants, so a decoded value is always well formed.
#[derive(Debug, PartialEq)]
pub enum WireValue {
    Bool(bool),
    U8(u8),
    U16(u16),
    U32(u32),
    U64(u64),
    S32(i32),
    S64(i64),
    Str(String),
    Bytes(Vec<u8>),
    List(Vec<WireValue>),
    Record(Vec<WireValue>),
    Variant(u32, Box<WireValue>),
}

/// Mathematical model of a wire value.
pub enum WireVal {
    Bool(bool),
    U8(u8),
    U16(u16),
    U32(u32),
    U64(u64),
    S32(i32),
    S64(i64),
    Str(Seq<char>),
    Bytes(Seq<u8>),
    List(Seq<WireVal>),
    Record(Seq<WireVal>),
    Variant(nat, Box<WireVal>),
}

pub open spec fn wv_view(v: WireValue) -> WireVal
    decreases v,
{
    match v {
        WireValue::Bool(b) => WireVal::Bool(b),
        WireValue::U8(x) => WireVal::U8(x),
        WireValue::U16(x) => WireVal::U16(x),
        WireValue::U32(x) => WireVal::U32(x),
        WireValue::U64(x) => WireVal::U64(x),
        WireValue::S32(x) => WireVal::S32(x),
        WireValue::S64(x) => WireVal::S64(x),
        WireValue::Str(s) => WireVal::Str(s@),
        WireValue::Bytes(b) => WireVal::Bytes(b@),
        WireValue::List(vs) => WireVal::List(wv_view_seq(vs@)),
        WireValue::Record(vs) => WireVal::Record(wv_view_seq(vs@)),
        WireValue::Variant(d, bv) => WireVal::Variant(d as nat, Box::new(wv_view(*bv))),
    }
}

pub open spec fn wv_view_seq(vs: Seq<WireValue>) -> Seq<WireVal>
    decreases vs,
{
    if vs.len() == 0 {
        Seq::empty()
    } else {
        wv_view_seq(vs.drop_last()).push(wv_view(vs.last()))
    }
}

impl View for WireValue {
    type V = WireVal;

    open spec fn view(&self) -> WireVal {
        wv_view(*self)
    }
}

pub proof fn lemma_wv_view_seq(vs: Seq<WireValue>)
    ensures
        wv_view_seq(vs).len() == vs.len(),
        forall|i: int| 0 <= i < vs.len() ==> #[trigger] wv_view_seq(vs)[i] == wv_view(vs[i]),
    decreases vs,
{
    if vs.len() > 0 {
        lemma_wv_view_seq(vs.drop_last());
    }
}

/// The unsigned 32-bit image of a signed value, two's complement.
pub open spec fn u32_of_i32(x: i32) -> u32 {
    if x >= 0 {
        x as u32
    } else {
        (x + 0x1_0000_0000) as u32
    }
}

/// The signed reading of an unsigned 32-bit image, two's complement.
pub open spec fn i32_of_u32(x: u32) -> i32 {
    if x <= 0x7FFF_FFFF {
        x as i32
    } else {
        (x - 0x1_0000_0000) as i32
    }
}

/// The unsigned 64-bit image of a signed value, two's complement.
pub open spec fn u64_of_i64(x: i64) -> u64 {
    if x >= 0 {
        x as u64
    } else {
        (x + 0x1_0000_0000_0000_0000) as u64
    }
}

/// The signed reading of an unsigned 64-bit image, two's complement.
pub open spec fn i64_of_u64(x: u64) -> i64 {
    if x <= 0x7FFF_FFFF_FFFF_FFFF {
        x as i64
    } else {
        (x - 0x1_0000_0000_0000_0000) as i64
    }
}

/// The next multiple of `a` at or above `n`.
pub open spec fn round_up(n: nat, a: nat) -> nat
    recommends
        a >= 1,
{
    (n + ((a - n % a) % (a as int))) as nat
}

pub proof fn lemma_round_up_ge(n: nat, a: nat)
    requires
        a >= 1,
    ensures
        round_up(n, a) >= n,
        round_up(n, a) < n + a,
{
}

/// Alignment of a type's flat encoding.
pub open spec fn align_of(t: WireType) -> nat
    decreases t,
{
    match t {
        WireType::Bool => 1,
        WireType::U8 => 1,
        WireType::U16 => 2,
        WireType::U32 => 4,
        WireType::U64 => 8,
        WireType::S32 => 4,
        WireType::S64 => 8,
        WireType::Str => 4,
        WireType::Bytes => 4,
        WireType::List(_) => 4,
        WireType::Record(fs) => max_align(fs@),
        WireType::Variant(cs) => max_align(cs@),
    }
}

pub open spec fn max_align(ts: Seq<WireType>) -> nat
    decreases ts,
{
    if ts.len() == 0 {
        1
    } else {
        let a = align_of(ts.last());
        let b = max_align(ts.drop_last());
        if a >= b {
            a
        } else {
            b
        }
    }
}

pub proof fn lemma_align_bounds(t: WireType)
    ensures
        1 <= align_of(t) <= 8,
    decreases t,
{
    match t {
        WireType::Record(fs) => lemma_max_align_bounds(fs@),
        WireType::Variant(cs) => lemma_max_align_bounds(cs@),
        _ => {},
    }
}

pub proof fn lemma_max_align_bounds(ts: Seq<WireType>)
    ensures
        1 <= max_align(ts) <= 8,
        forall|i: int| 0 <= i < ts.len() ==> align_of(#[trigger] ts[i]) <= max_align(ts),
    decreases ts,
{
    if ts.len() > 0 {
        lemma_align_bounds(ts.last());
        lemma_max_align_bounds(ts.drop_last());
        assert forall|i: int| 0 <= i < ts.len() implies align_of(#[trigger] ts[i]) <= max_align(
            ts,
        ) by {
            if i < ts.len() - 1 {
                assert(ts.drop_last()[i] == ts[i]);
            }
        }
    }
}

/// Size of a type's flat encoding: every value of the type occupies exactly
/// this many bytes in the flat part, so field offsets are fixed.
pub open spec fn size_of(t: WireType) -> nat
    decreases t,
{
    match t {
        WireType::Bool => 1,
        WireType::U8 => 1,
        WireType::U16 => 2,
        WireType::U32 => 4,
        WireType::U64 => 8,
        WireType::S32 => 4,
        WireType::S64 => 8,
        WireType::Str => 8,
        WireType::Bytes => 8,
        WireType::List(_) => 8,
        WireType::Record(fs) => round_up(fields_end(fs@), max_align(fs@)),
        WireType::Variant(cs) => round_up(payload_offset(cs@) + max_size(cs@), max_align(cs@)),
    }
}

/// End of the last field in a record layout: each field sits at its
/// predecessor's end rounded up to its own alignment.
pub open spec fn fields_end(fs: Seq<WireType>) -> nat
    decreases fs,
{
    if fs.len() == 0 {
        0
    } else {
        round_up(fields_end(fs.drop_last()), align_of(fs.last())) + size_of(fs.last())
    }
}

pub open spec fn max_size(ts: Seq<WireType>) -> nat
    decreases ts,
{
    if ts.len() == 0 {
        0
    } else {
        let a = size_of(ts.last());
        let b = max_size(ts.drop_last());
        if a >= b {
            a
        } else {
            b
        }
    }
}

/// Where a variant's payload begins: after the one-byte discriminant,
/// rounded up to the payload alignment.
pub open spec fn payload_offset(cs: Seq<WireType>) -> nat {
    round_up(1, max_align(cs))
}

/// A type the codec accepts: bounded flat size everywhere, and every
/// tagged union has between 1 and 255 cases, so its discriminant is one
/// byte with no valid byte left over for "no case".
pub open spec fn type_ok(t: WireType) -> bool
    decreases t,
{
    &&& size_of(t) <= MAX_TYPE_SIZE
    &&& match t {
        WireType::List(et) => type_ok(*et),
        WireType::Record(fs) => types_ok(fs@),
        WireType::Variant(cs) => 1 <= cs@.len() <= 255 && types_ok(cs@),
        _ => true,
    }
}

pub open spec fn types_ok(ts: Seq<WireType>) -> bool
    decreases ts,
{
    if ts.len() == 0 {
        true
    } else {
        type_ok(ts.last()) && types_ok(ts.drop_last())
    }
}

/// The value has the type, and its variable-size parts are measurable by
/// the 32-bit wire fields.
pub open spec fn val_ok(v: WireVal, t: WireType) -> bool
    decreases v,
{
    match v {
        WireVal::Bool(_) => t is Bool,
        WireVal::U8(_) => t is U8,
        WireVal::U16(_) => t is U16,
        WireVal::U32(_) => t is U32,
        WireVal::U64(_) => t is U64,
        WireVal::S32(_) => t is S32,
        WireVal::S64(_) => t is S64,
        WireVal::Str(s) => t is Str && encode_utf8(s).len() <= u32::MAX,
        WireVal::Bytes(b) => t is Bytes && b.len() <= u32::MAX,
        WireVal::List(vs) => match t {
            WireType::List(et) => vs.len() <= u32::MAX && vs.len() * size_of(*et) <= u32::MAX
                && list_ok(vs, *et),
            _ => false,
        },
        WireVal::Record(vs) => match t {
            WireType::Record(fs) => vs.len() == fs@.len() && fields_ok(vs, fs@),
            _ => false,
        },
        WireVal::Variant(d, bv) => match t {
            WireType::Variant(cs) => d < cs@.len() && val_ok(*bv, cs@[d as int]),
            _ => false,
        },
    }
}

pub open spec fn list_ok(vs: Seq<WireVal>, et: WireType) -> bool
    decreases vs,
{
    if vs.len() == 0 {
        true
    } else {
        list_ok(vs.drop_last(), et) && val_ok(vs.last(), et)
    }
}

pub open spec fn fields_ok(vs: Seq<WireVal>, fs: Seq<WireType>) -> bool
    decreases vs,
{
    if vs.len() == 0 {
        true
    } else {
        fields_ok(vs.drop_last(), fs.drop_last()) && val_ok(vs.last(), fs.last())
    }
}

/// How many allocations encoding the value produces: one per string or
/// byte buffer, one per list, and whatever the children need.
pub open spec fn count_allocs(v: WireVal) -> nat
    decreases v,
{
    match v {
        WireVal::Str(_) => 1,
        WireVal::Bytes(_) => 1,
        WireVal::List(vs) => count_allocs_seq(vs) + 1,
        WireVal::Record(vs) => count_allocs_seq(vs),
        WireVal::Variant(_, bv) => count_allocs(*bv),
        _ => 0,
    }
}

pub open spec fn count_allocs_seq(vs: Seq<WireVal>) -> nat
    decreases vs,
{
    if vs.len() == 0 {
        0
    } else {
        count_allocs_seq(vs.drop_last()) + count_allocs(vs.last())
    }
}

/// What encoding one value produces: its flat bytes and the new
/// allocations, whose indices start at the `base` the encoder was given.
pub struct EncOut {
    pub flat: Seq<u8>,
    pub allocs: Seq<Seq<u8>>,
}

/// What encoding a run of list elements produces: the element bytes back
/// to back, and the allocations their contents needed.
pub struct EncElems {
    pub buf: Seq<u8>,
    pub allocs: Seq<Seq<u8>>,
}

pub open spec fn zeros(n: nat) -> Seq<u8> {
    Seq::new(n, |i: int| 0u8)
}

/// Deterministic encoding of `v` at type `t`, with `base` allocations
/// already in the region. Meaningful under `val_ok(v, t)`; total anyway.
pub open spec fn enc(v: WireVal, t: WireType, base: nat) -> EncOut
    decreases v,
{
    match v {
        WireVal::Bool(b) => EncOut {
            flat: seq![if b { 1u8 } else { 0u8 }],
            allocs: Seq::empty(),
        },
        WireVal::U8(x) => EncOut { flat: seq![x], allocs: Seq::empty() },
        WireVal::U16(x) => EncOut { flat: spec_u16_to_le_bytes(x), allocs: Seq::empty() },
        WireVal::U32(x) => EncOut { flat: spec_u32_to_le_bytes(x), allocs: Seq::empty() },
        WireVal::U64(x) => EncOut { flat: spec_u64_to_le_bytes(x), allocs: Seq::empty() },
        WireVal::S32(x) => EncOut {
            flat: spec_u32_to_le_bytes(u32_of_i32(x)),
            allocs: Seq::empty(),
        },
        WireVal::S64(x) => EncOut {
            flat: spec_u64_to_le_bytes(u64_of_i64(x)),
            allocs: Seq::empty(),
        },
        WireVal::Str(s) => EncOut {
            flat: spec_u32_to_le_bytes(base as u32) + spec_u32_to_le_bytes(
                encode_utf8(s).len() as u32,
            ),
            allocs: seq![encode_utf8(s)],
        },
        WireVal::Bytes(b) => EncOut {
            flat: spec_u32_to_le_bytes(base as u32) + spec_u32_to_le_bytes(b.len() as u32),
            allocs: seq![b],
        },
        WireVal::List(vs) => match t {
            WireType::List(et) => {
                let e = enc_elems(vs, *et, base);
                EncOut {
                    flat: spec_u32_to_le_bytes((base + e.allocs.len()) as u32)
                        + spec_u32_to_le_bytes(vs.len() as u32),
                    allocs: e.allocs.push(e.buf),
                }
            },
            _ => EncOut { flat: Seq::empty(), allocs: Seq::empty() },
        },
        WireVal::Record(vs) => match t {
            WireType::Record(fs) => {
                let e = enc_fields(vs, fs@, base);
                EncOut {
                    flat: e.flat + zeros((size_of(t) - e.flat.len()) as nat),
                    allocs: e.allocs,
                }
            },
            _ => EncOut { flat: Seq::empty(), allocs: Seq::empty() },
        },
        WireVal::Variant(d, bv) => match t {
            WireType::Variant(cs) => {
                if d < cs@.len() {
                    let pt = cs@[d as int];
                    let e = enc(*bv, pt, base);
                    EncOut {
                        flat: seq![d as u8] + zeros((payload_offset(cs@) - 1) as nat) + e.flat
                            + zeros(
                            (size_of(t) - payload_offset(cs@) - size_of(pt)) as nat,
                        ),
                        allocs: e.allocs,
                    }
                } else {
                    EncOut { flat: Seq::empty(), allocs: Seq::empty() }
                }
            },
            _ => EncOut { flat: Seq::empty(), allocs: Seq::empty() },
        },
    }
}

pub open spec fn enc_elems(vs: Seq<WireVal>, et: WireType, base: nat) -> EncElems
    decreases vs,
{
    if vs.len() == 0 {
        EncElems { buf: Seq::empty(), allocs: Seq::empty() }
    } else {
        let init = enc_elems(vs.drop_last(), et, base);
        let last = enc(vs.last(), et, base + init.allocs.len());
        EncElems { buf: init.buf + last.flat, allocs: init.allocs + last.allocs }
    }
}

pub open spec fn enc_fields(vs: Seq<WireVal>, fs: Seq<WireType>, base: nat) -> EncOut
    decreases vs,
{
    if vs.len() == 0 {
        EncOut { flat: Seq::empty(), allocs: Seq::empty() }
    } else {
        let init = enc_fields(vs.drop_last(), fs.drop_last(), base);
        let off = round_up(fields_end(fs.drop_last()), align_of(fs.last()));
        let last = enc(vs.last(), fs.last(), base + init.allocs.len());
        EncOut {
            flat: init.flat + zeros((off - init.flat.len()) as nat) + last.flat,
            allocs: init.allocs + last.allocs,
        }
    }
}

/// Deterministic decoding of `bytes` (exactly `size_of(t)` long) against
/// `t`, reading buffer contents from `allocs`. `None` is a hard failure:
/// an out-of-range discriminant, a bad boolean byte, a dangling or
/// mis-sized buffer reference, or invalid UTF-8.
pub open spec fn dec(t: WireType, bytes: Seq<u8>, allocs: Seq<Seq<u8>>) -> Option<WireVal>
    recommends
        bytes.len() == size_of(t),
    decreases t, 0nat,
{
    match t {
        WireType::Bool => if bytes[0] == 0 {
            Some(WireVal::Bool(false))
        } else if bytes[0] == 1 {
            Some(WireVal::Bool(true))
        } else {
            None
        },
        WireType::U8 => Some(WireVal::U8(bytes[0])),
        WireType::U16 => Some(WireVal::U16(spec_u16_from_le_bytes(bytes))),
        WireType::U32 => Some(WireVal::U32(spec_u32_from_le_bytes(bytes))),
        WireType::U64 => Some(WireVal::U64(spec_u64_from_le_bytes(bytes))),
        WireType::S32 => Some(WireVal::S32(i32_of_u32(spec_u32_from_le_bytes(bytes)))),
        WireType::S64 => Some(WireVal::S64(i64_of_u64(spec_u64_from_le_bytes(bytes)))),
        WireType::Str => {
            let idx = spec_u32_from_le_bytes(bytes.subrange(0, 4));
            let n = spec_u32_from_le_bytes(bytes.subrange(4, 8));
            if idx < allocs.len() && allocs[idx as int].len() == n && valid_utf8(
                allocs[idx as int],
            ) {
                Some(WireVal::Str(decode_utf8(allocs[idx as int])))
            } else {
                None
            }
        },
        WireType::Bytes => {
            let idx = spec_u32_from_le_bytes(bytes.subrange(0, 4));
            let n = spec_u32_from_le_bytes(bytes.subrange(4, 8));
            if idx < allocs.len() && allocs[idx as int].len() == n {
                Some(WireVal::Bytes(allocs[idx as int]))
            } else {
                None
            }
        },
        WireType::List(et) => {
            let idx = spec_u32_from_le_bytes(bytes.subrange(0, 4));
            let n = spec_u32_from_le_bytes(bytes.subrange(4, 8));
            if idx < allocs.len() && allocs[idx as int].len() == n * size_of(*et) {
                match dec_elems(*et, allocs[idx as int], n as nat, allocs) {
                    Some(vs) => Some(WireVal::List(vs)),
                    None => None,
                }
            } else {
                None
            }
        },
        WireType::Record(fs) => match dec_fields(fs@, bytes, allocs) {
            Some(vs) => Some(WireVal::Record(vs)),
            None => None,
        },
        WireType::Variant(cs) => {
            let d = bytes[0];
            if d < cs@.len() {
                let pt = cs@[d as int];
                let off = payload_offset(cs@);
                match dec(pt, bytes.subrange(off as int, (off + size_of(pt)) as int), allocs) {
                    Some(pv) => Some(WireVal::Variant(d as nat, Box::new(pv))),
                    None => None,
                }
            } else {
                None
            }
        },
    }
}

pub open spec fn dec_elems(et: WireType, buf: Seq<u8>, n: nat, allocs: Seq<Seq<u8>>) -> Option<
    Seq<WireVal>,
>
    decreases et, n,
{
    if n == 0 {
        Some(Seq::empty())
    } else {
        match dec_elems(et, buf, (n - 1) as nat, allocs) {
            Some(init) => {
                let lo = (n - 1) * size_of(et);
                match dec(et, buf.subrange(lo as int, (lo + size_of(et)) as int), allocs) {
                    Some(lastv) => Some(init.push(lastv)),
                    None => None,
                }
            },
            None => None,
        }
    }
}

pub open spec fn dec_fields(fs: Seq<WireType>, bytes: Seq<u8>, allocs: Seq<Seq<u8>>) -> Option<
    Seq<WireVal>,
>
    decreases fs, 0nat,
{
    if fs.len() == 0 {
        Some(Seq::empty())
    } else {
        match dec_fields(fs.drop_last(), bytes, allocs) {
            Some(init) => {
                let off = round_up(fields_end(fs.drop_last()), align_of(fs.last()));
                match dec(
                    fs.last(),
                    bytes.subrange(off as int, (off + size_of(fs.last())) as int),
                    allocs,
                ) {
                    Some(lastv) => Some(init.push(lastv)),
                    None => None,
                }
            },
            None => None,
        }
    }
}

/// One encoded value as it crosses the isolation boundary: a fixed-layout
/// `flat` part, plus the contiguous allocations that strings, byte buffers
/// and lists live in. A "pointer" on the wire is the index of an
/// allocation. The region owns its allocations: whoever holds the region
/// must release them exactly once, which in this model is the move of the
/// region itself.
pub struct WireRegion {
    pub flat: Vec<u8>,
    pub allocs: Vec<Vec<u8>>,
}

/// The deep view of an allocation list is the sequence of its elements'
/// byte sequences.
pub proof fn lemma_allocs_deep_view(v: Vec<Vec<u8>>)
    ensures
        v.deep_view().len() == v@.len(),
        forall|i: int| 0 <= i < v@.len() ==> #[trigger] v.deep_view()[i] == v@[i]@,
{
    assert forall|i: int| 0 <= i < v@.len() implies #[trigger] v.deep_view()[i] == v@[i]@ by {
        assert(v@[i].deep_view() =~= v@[i]@);
    }
}

impl WireRegion {
    /// Releases the buffers the region owns without reading them: the
    /// post-return cleanup a caller owes after it has consumed (or chosen
    /// to ignore) a returned region. Taking the region by value makes a
    /// second release impossible.
    pub fn release(self) {
    }
}

} // verus!
