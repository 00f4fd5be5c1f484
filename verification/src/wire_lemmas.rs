use vstd::prelude::*;
use vstd::bytes::{
    lemma_auto_spec_u16_to_from_le_bytes, lemma_auto_spec_u32_to_from_le_bytes,
    lemma_auto_spec_u64_to_from_le_bytes, spec_u32_to_le_bytes,
};
use vstd::utf8::encode_utf8;
use crate::wire::{
    align_of, count_allocs, count_allocs_seq, dec, dec_elems, dec_fields, enc, enc_elems,
    enc_fields, fields_end, fields_ok, lemma_align_bounds, lemma_max_align_bounds,
    lemma_round_up_ge, list_ok, max_align, max_size, payload_offset, round_up, size_of, type_ok,
    types_ok, val_ok, zeros, WireType, WireVal,
};

verus! {

pub proof fn lemma_max_size_ge(ts: Seq<WireType>)
    ensures
        forall|i: int| 0 <= i < ts.len() ==> size_of(#[trigger] ts[i]) <= max_size(ts),
    decreases ts,
{
    if ts.len() > 0 {
        lemma_max_size_ge(ts.drop_last());
        assert forall|i: int| 0 <= i < ts.len() implies size_of(#[trigger] ts[i]) <= max_size(
            ts,
        ) by {
            if i < ts.len() - 1 {
                assert(ts.drop_last()[i] == ts[i]);
            }
        }
    }
}

pub proof fn lemma_types_ok_index(ts: Seq<WireType>)
    requires
        types_ok(ts),
    ensures
        forall|i: int| 0 <= i < ts.len() ==> type_ok(#[trigger] ts[i]),
    decreases ts,
{
    if ts.len() > 0 {
        lemma_types_ok_index(ts.drop_last());
        assert forall|i: int| 0 <= i < ts.len() implies type_ok(#[trigger] ts[i]) by {
            if i < ts.len() - 1 {
                assert(ts.drop_last()[i] == ts[i]);
            }
        }
    }
}

pub proof fn lemma_list_ok_index(vs: Seq<WireVal>, et: WireType)
    requires
        list_ok(vs, et),
    ensures
        forall|i: int| 0 <= i < vs.len() ==> val_ok(#[trigger] vs[i], et),
    decreases vs,
{
    if vs.len() > 0 {
        lemma_list_ok_index(vs.drop_last(), et);
        assert forall|i: int| 0 <= i < vs.len() implies val_ok(#[trigger] vs[i], et) by {
            if i < vs.len() - 1 {
                assert(vs.drop_last()[i] == vs[i]);
            }
        }
    }
}

pub proof fn lemma_fields_ok_index(vs: Seq<WireVal>, fs: Seq<WireType>)
    requires
        fields_ok(vs, fs),
        vs.len() == fs.len(),
    ensures
        forall|i: int| 0 <= i < vs.len() ==> val_ok(#[trigger] vs[i], fs[i]),
    decreases vs,
{
    if vs.len() > 0 {
        lemma_fields_ok_index(vs.drop_last(), fs.drop_last());
        assert forall|i: int| 0 <= i < vs.len() implies val_ok(#[trigger] vs[i], fs[i]) by {
            if i < vs.len() - 1 {
                assert(vs.drop_last()[i] == vs[i]);
                assert(fs.drop_last()[i] == fs[i]);
            }
        }
    }
}

/// A prefix of a list needs no more allocations than the whole.
pub proof fn lemma_count_allocs_seq_prefix(vs: Seq<WireVal>, j: int)
    requires
        0 <= j <= vs.len(),
    ensures
        count_allocs_seq(vs.take(j)) <= count_allocs_seq(vs),
    decreases vs,
{
    if j == vs.len() {
        assert(vs.take(j) =~= vs);
    } else {
        lemma_count_allocs_seq_prefix(vs.drop_last(), j);
        assert(vs.drop_last().take(j) =~= vs.take(j));
    }
}

/// Extending a prefix by one element adds exactly that element's
/// allocations.
pub proof fn lemma_count_allocs_seq_take_succ(vs: Seq<WireVal>, j: int)
    requires
        0 <= j < vs.len(),
    ensures
        count_allocs_seq(vs.take(j + 1)) == count_allocs_seq(vs.take(j)) + count_allocs(vs[j]),
{
    assert(vs.take(j + 1).drop_last() =~= vs.take(j));
    assert(vs.take(j + 1).last() == vs[j]);
}

/// Definitional unfolding of the record layout functions at a non-empty
/// field list.
pub proof fn lemma_fields_end_unfold(fs: Seq<WireType>)
    requires
        fs.len() > 0,
    ensures
        fields_end(fs) == round_up(fields_end(fs.drop_last()), align_of(fs.last())) + size_of(
            fs.last(),
        ),
        max_align(fs) == (if align_of(fs.last()) >= max_align(fs.drop_last()) {
            align_of(fs.last())
        } else {
            max_align(fs.drop_last())
        }),
        types_ok(fs) == (type_ok(fs.last()) && types_ok(fs.drop_last())),
{
}

/// Unfolding `fields_end` one field at a time, over prefixes.
pub proof fn lemma_fields_end_take_succ(fs: Seq<WireType>, j: int)
    requires
        0 <= j < fs.len(),
    ensures
        fields_end(fs.take(j + 1)) == round_up(fields_end(fs.take(j)), align_of(fs[j])) + size_of(
            fs[j],
        ),
{
    assert(fs.take(j + 1).drop_last() =~= fs.take(j));
    assert(fs.take(j + 1).last() == fs[j]);
}

/// A record layout only grows as fields are appended.
pub proof fn lemma_fields_end_prefix(fs: Seq<WireType>, j: int)
    requires
        0 <= j <= fs.len(),
    ensures
        fields_end(fs.take(j)) <= fields_end(fs),
    decreases fs,
{
    if j == fs.len() {
        assert(fs.take(j) =~= fs);
    } else {
        lemma_fields_end_prefix(fs.drop_last(), j);
        assert(fs.drop_last().take(j) =~= fs.take(j));
        lemma_align_bounds(fs.last());
        lemma_round_up_ge(fields_end(fs.drop_last()), align_of(fs.last()));
    }
}

/// Encoding lengths: the flat part is exactly `size_of(t)` long and the
/// new allocations number exactly `count_allocs(v)`, wherever encoding
/// starts.
pub proof fn lemma_enc_len(v: WireVal, t: WireType, base: nat)
    requires
        val_ok(v, t),
    ensures
        enc(v, t, base).flat.len() == size_of(t),
        enc(v, t, base).allocs.len() == count_allocs(v),
    decreases v,
{
    lemma_auto_spec_u16_to_from_le_bytes();
    lemma_auto_spec_u32_to_from_le_bytes();
    lemma_auto_spec_u64_to_from_le_bytes();
    match v {
        WireVal::List(vs) => match t {
            WireType::List(et) => {
                lemma_enc_elems_len(vs, *et, base);
            },
            _ => {},
        },
        WireVal::Record(vs) => match t {
            WireType::Record(fs) => {
                lemma_enc_fields_len(vs, fs@, base);
                lemma_max_align_bounds(fs@);
                lemma_round_up_ge(fields_end(fs@), max_align(fs@));
            },
            _ => {},
        },
        WireVal::Variant(d, bv) => match t {
            WireType::Variant(cs) => {
                let pt = cs@[d as int];
                lemma_enc_len(*bv, pt, base);
                lemma_max_align_bounds(cs@);
                lemma_round_up_ge(1, max_align(cs@));
                lemma_max_size_ge(cs@);
                lemma_round_up_ge(payload_offset(cs@) + max_size(cs@), max_align(cs@));
            },
            _ => {},
        },
        _ => {},
    }
}

pub proof fn lemma_enc_elems_len(vs: Seq<WireVal>, et: WireType, base: nat)
    requires
        list_ok(vs, et),
    ensures
        enc_elems(vs, et, base).buf.len() == vs.len() * size_of(et),
        enc_elems(vs, et, base).allocs.len() == count_allocs_seq(vs),
    decreases vs,
{
    if vs.len() > 0 {
        let init = enc_elems(vs.drop_last(), et, base);
        lemma_enc_elems_len(vs.drop_last(), et, base);
        lemma_enc_len(vs.last(), et, base + init.allocs.len());
        assert((vs.len() - 1) * size_of(et) + size_of(et) == vs.len() * size_of(et))
            by (nonlinear_arith);
    }
}

pub proof fn lemma_enc_fields_len(vs: Seq<WireVal>, fs: Seq<WireType>, base: nat)
    requires
        fields_ok(vs, fs),
        vs.len() == fs.len(),
    ensures
        enc_fields(vs, fs, base).flat.len() == fields_end(fs),
        enc_fields(vs, fs, base).allocs.len() == count_allocs_seq(vs),
    decreases vs,
{
    if vs.len() > 0 {
        let init = enc_fields(vs.drop_last(), fs.drop_last(), base);
        lemma_enc_fields_len(vs.drop_last(), fs.drop_last(), base);
        lemma_enc_len(vs.last(), fs.last(), base + init.allocs.len());
        lemma_align_bounds(fs.last());
        lemma_round_up_ge(fields_end(fs.drop_last()), align_of(fs.last()));
    }
}

/// Unfolding `max_align` one case at a time, over prefixes.
pub proof fn lemma_max_align_take_succ(ts: Seq<WireType>, j: int)
    requires
        0 <= j < ts.len(),
    ensures
        max_align(ts.take(j + 1)) == if align_of(ts[j]) >= max_align(ts.take(j)) {
            align_of(ts[j])
        } else {
            max_align(ts.take(j))
        },
{
    assert(ts.take(j + 1).drop_last() =~= ts.take(j));
    assert(ts.take(j + 1).last() == ts[j]);
}

/// Unfolding `max_size` one case at a time, over prefixes.
pub proof fn lemma_max_size_take_succ(ts: Seq<WireType>, j: int)
    requires
        0 <= j < ts.len(),
    ensures
        max_size(ts.take(j + 1)) == if size_of(ts[j]) >= max_size(ts.take(j)) {
            size_of(ts[j])
        } else {
            max_size(ts.take(j))
        },
{
    assert(ts.take(j + 1).drop_last() =~= ts.take(j));
    assert(ts.take(j + 1).last() == ts[j]);
}

/// Unfolding `enc_elems` one element at a time, over prefixes.
pub proof fn lemma_enc_elems_take_succ(vs: Seq<WireVal>, et: WireType, base: nat, j: int)
    requires
        0 <= j < vs.len(),
    ensures
        enc_elems(vs.take(j + 1), et, base).buf == enc_elems(vs.take(j), et, base).buf + enc(
            vs[j],
            et,
            base + enc_elems(vs.take(j), et, base).allocs.len(),
        ).flat,
        enc_elems(vs.take(j + 1), et, base).allocs == enc_elems(vs.take(j), et, base).allocs
            + enc(vs[j], et, base + enc_elems(vs.take(j), et, base).allocs.len()).allocs,
{
    assert(vs.take(j + 1).drop_last() =~= vs.take(j));
    assert(vs.take(j + 1).last() == vs[j]);
}

/// Unfolding `enc_fields` one field at a time, over prefixes.
pub proof fn lemma_enc_fields_take_succ(
    vs: Seq<WireVal>,
    fs: Seq<WireType>,
    base: nat,
    j: int,
)
    requires
        0 <= j < vs.len(),
        vs.len() == fs.len(),
    ensures
        ({
            let init = enc_fields(vs.take(j), fs.take(j), base);
            let off = round_up(fields_end(fs.take(j)), align_of(fs[j]));
            let laste = enc(vs[j], fs[j], base + init.allocs.len());
            &&& enc_fields(vs.take(j + 1), fs.take(j + 1), base).flat == init.flat + zeros(
                (off - init.flat.len()) as nat,
            ) + laste.flat
            &&& enc_fields(vs.take(j + 1), fs.take(j + 1), base).allocs == init.allocs
                + laste.allocs
        }),
{
    assert(vs.take(j + 1).drop_last() =~= vs.take(j));
    assert(vs.take(j + 1).last() == vs[j]);
    assert(fs.take(j + 1).drop_last() =~= fs.take(j));
    assert(fs.take(j + 1).last() == fs[j]);
}

/// Prefix versions of `list_ok`, `fields_ok`, `count_allocs_seq`.
pub proof fn lemma_list_ok_take(vs: Seq<WireVal>, et: WireType, j: int)
    requires
        list_ok(vs, et),
        0 <= j <= vs.len(),
    ensures
        list_ok(vs.take(j), et),
    decreases vs,
{
    if j == vs.len() {
        assert(vs.take(j) =~= vs);
    } else {
        lemma_list_ok_take(vs.drop_last(), et, j);
        assert(vs.drop_last().take(j) =~= vs.take(j));
    }
}

pub proof fn lemma_fields_ok_take(vs: Seq<WireVal>, fs: Seq<WireType>, j: int)
    requires
        fields_ok(vs, fs),
        vs.len() == fs.len(),
        0 <= j <= vs.len(),
    ensures
        fields_ok(vs.take(j), fs.take(j)),
    decreases vs,
{
    if j == vs.len() {
        assert(vs.take(j) =~= vs);
        assert(fs.take(j) =~= fs);
    } else {
        lemma_fields_ok_take(vs.drop_last(), fs.drop_last(), j);
        assert(vs.drop_last().take(j) =~= vs.take(j));
        assert(fs.drop_last().take(j) =~= fs.take(j));
    }
}

/// Unfolding `dec_fields` one field at a time, over prefixes.
pub proof fn lemma_dec_fields_take_succ(
    fs: Seq<WireType>,
    bytes: Seq<u8>,
    allocs: Seq<Seq<u8>>,
    j: int,
)
    requires
        0 <= j < fs.len(),
    ensures
        ({
            let off = round_up(fields_end(fs.take(j)), align_of(fs[j]));
            let step = dec(
                fs[j],
                bytes.subrange(off as int, (off + size_of(fs[j])) as int),
                allocs,
            );
            &&& (dec_fields(fs.take(j), bytes, allocs) is None ==> dec_fields(
                fs.take(j + 1),
                bytes,
                allocs,
            ) is None)
            &&& (forall|init: Seq<WireVal>|
                dec_fields(fs.take(j), bytes, allocs) == Some(init) ==> dec_fields(
                    fs.take(j + 1),
                    bytes,
                    allocs,
                ) == (match step {
                    Some(lastv) => Some(init.push(lastv)),
                    None => None::<Seq<WireVal>>,
                }))
        }),
{
    assert(fs.take(j + 1).drop_last() =~= fs.take(j));
    assert(fs.take(j + 1).last() == fs[j]);
}

/// Record decoding reads only the first `fields_end` bytes, so any bytes
/// that agree there decode alike.
pub proof fn lemma_dec_fields_prefix(
    fs: Seq<WireType>,
    b1: Seq<u8>,
    b2: Seq<u8>,
    allocs: Seq<Seq<u8>>,
)
    requires
        fields_end(fs) <= b1.len(),
        fields_end(fs) <= b2.len(),
        b1.subrange(0, fields_end(fs) as int) == b2.subrange(0, fields_end(fs) as int),
    ensures
        dec_fields(fs, b1, allocs) == dec_fields(fs, b2, allocs),
    decreases fs,
{
    if fs.len() > 0 {
        let fe0 = fields_end(fs.drop_last());
        let off = round_up(fe0, align_of(fs.last()));
        let sz = size_of(fs.last());
        lemma_align_bounds(fs.last());
        lemma_round_up_ge(fe0, align_of(fs.last()));
        assert(b1.subrange(0, fe0 as int) =~= b2.subrange(0, fe0 as int)) by {
            assert forall|i: int| 0 <= i < fe0 implies b1.subrange(0, fe0 as int)[i]
                == b2.subrange(0, fe0 as int)[i] by {
                assert(b1.subrange(0, fields_end(fs) as int)[i] == b2.subrange(
                    0,
                    fields_end(fs) as int,
                )[i]);
            }
        }
        lemma_dec_fields_prefix(fs.drop_last(), b1, b2, allocs);
        assert(b1.subrange(off as int, (off + sz) as int) =~= b2.subrange(
            off as int,
            (off + sz) as int,
        )) by {
            assert forall|i: int| 0 <= i < sz implies #[trigger] b1.subrange(
                off as int,
                (off + sz) as int,
            )[i] == b2.subrange(off as int, (off + sz) as int)[i] by {
                assert(off + sz == fields_end(fs));
                assert(b1.subrange(off as int, (off + sz) as int)[i] == b1[off + i]);
                assert(b2.subrange(off as int, (off + sz) as int)[i] == b2[off + i]);
                assert(b1[off + i] == b1.subrange(0, fields_end(fs) as int)[off + i]);
                assert(b2[off + i] == b2.subrange(0, fields_end(fs) as int)[off + i]);
                assert(b1.subrange(0, fields_end(fs) as int)[off + i] == b2.subrange(
                    0,
                    fields_end(fs) as int,
                )[off + i]);
            }
        }
    }
}

/// A failed field prefix fails the whole record decode.
pub proof fn lemma_dec_fields_none_mono(
    fs: Seq<WireType>,
    bytes: Seq<u8>,
    allocs: Seq<Seq<u8>>,
    j: int,
)
    requires
        0 <= j <= fs.len(),
        dec_fields(fs.take(j), bytes, allocs) is None,
    ensures
        dec_fields(fs, bytes, allocs) is None,
    decreases fs,
{
    if j == fs.len() {
        assert(fs.take(j) =~= fs);
    } else {
        assert(fs.drop_last().take(j) =~= fs.take(j));
        lemma_dec_fields_none_mono(fs.drop_last(), bytes, allocs, j);
    }
}

/// A failed element prefix fails the whole list decode.
pub proof fn lemma_dec_elems_none_mono(
    et: WireType,
    buf: Seq<u8>,
    allocs: Seq<Seq<u8>>,
    k: nat,
    n: nat,
)
    requires
        k <= n,
        dec_elems(et, buf, k, allocs) is None,
    ensures
        dec_elems(et, buf, n, allocs) is None,
    decreases n,
{
    if n > k {
        lemma_dec_elems_none_mono(et, buf, allocs, k, (n - 1) as nat);
    }
}

/// Round trip, generalized for the induction: if the region's allocations
/// from `base` on are exactly what encoding `v` produced — whatever sits
/// before or after them — then decoding the flat bytes yields `v` back.
pub proof fn lemma_dec_enc(v: WireVal, t: WireType, base: nat, allocs: Seq<Seq<u8>>)
    requires
        val_ok(v, t),
        type_ok(t),
        base + count_allocs(v) <= allocs.len(),
        allocs.len() <= u32::MAX,
        allocs.subrange(base as int, (base + count_allocs(v)) as int) == enc(v, t, base).allocs,
    ensures
        dec(t, enc(v, t, base).flat, allocs) == Some(v),
    decreases v,
{
    lemma_auto_spec_u16_to_from_le_bytes();
    lemma_auto_spec_u32_to_from_le_bytes();
    lemma_auto_spec_u64_to_from_le_bytes();
    broadcast use vstd::utf8::encode_utf8_valid_utf8;
    broadcast use vstd::utf8::encode_utf8_decode_utf8;

    let e = enc(v, t, base);
    lemma_enc_len(v, t, base);
    match v {
        WireVal::Str(s) => {
            let payload = encode_utf8(s);
            assert(e.flat.subrange(0, 4) =~= spec_u32_to_le_bytes(base as u32));
            assert(e.flat.subrange(4, 8) =~= spec_u32_to_le_bytes(payload.len() as u32));
            assert(allocs[base as int] == e.allocs[0]);
        },
        WireVal::Bytes(b) => {
            assert(e.flat.subrange(0, 4) =~= spec_u32_to_le_bytes(base as u32));
            assert(e.flat.subrange(4, 8) =~= spec_u32_to_le_bytes(b.len() as u32));
            assert(allocs[base as int] == e.allocs[0]);
        },
        WireVal::List(vs) => match t {
            WireType::List(et) => {
                let ee = enc_elems(vs, *et, base);
                lemma_enc_elems_len(vs, *et, base);
                let idx = base + ee.allocs.len();
                assert(e.flat.subrange(0, 4) =~= spec_u32_to_le_bytes(idx as u32));
                assert(e.flat.subrange(4, 8) =~= spec_u32_to_le_bytes(vs.len() as u32));
                assert(allocs[idx as int] == e.allocs[e.allocs.len() - 1]);
                assert(allocs[idx as int] == ee.buf);
                assert(allocs.subrange(base as int, (base + count_allocs_seq(vs)) as int)
                    =~= ee.allocs);
                assert(ee.buf.subrange(0, (vs.len() * size_of(*et)) as int) =~= ee.buf);
                lemma_dec_enc_elems(vs, *et, base, allocs, ee.buf);
            },
            _ => {},
        },
        WireVal::Record(vs) => match t {
            WireType::Record(fs) => {
                let ef = enc_fields(vs, fs@, base);
                lemma_enc_fields_len(vs, fs@, base);
                lemma_types_ok_index(fs@);
                assert(e.flat.subrange(0, fields_end(fs@) as int) =~= ef.flat);
                lemma_dec_enc_fields(vs, fs@, base, allocs, e.flat);
            },
            _ => {},
        },
        WireVal::Variant(d, bv) => match t {
            WireType::Variant(cs) => {
                let pt = cs@[d as int];
                let off = payload_offset(cs@);
                let ep = enc(*bv, pt, base);
                lemma_types_ok_index(cs@);
                lemma_enc_len(*bv, pt, base);
                lemma_max_align_bounds(cs@);
                lemma_round_up_ge(1, max_align(cs@));
                assert(e.flat[0] == d as u8);
                assert(d < 256);
                assert(e.flat.subrange(off as int, (off + size_of(pt)) as int) =~= ep.flat);
                lemma_dec_enc(*bv, pt, base, allocs);
            },
            _ => {},
        },
        _ => {},
    }
}

pub proof fn lemma_dec_enc_elems(
    vs: Seq<WireVal>,
    et: WireType,
    base: nat,
    allocs: Seq<Seq<u8>>,
    buf: Seq<u8>,
)
    requires
        list_ok(vs, et),
        type_ok(et),
        base + count_allocs_seq(vs) <= allocs.len(),
        allocs.len() <= u32::MAX,
        allocs.subrange(base as int, (base + count_allocs_seq(vs)) as int) == enc_elems(
            vs,
            et,
            base,
        ).allocs,
        buf.len() >= vs.len() * size_of(et),
        buf.subrange(0, (vs.len() * size_of(et)) as int) == enc_elems(vs, et, base).buf,
    ensures
        dec_elems(et, buf, vs.len(), allocs) == Some(vs),
    decreases vs,
{
    if vs.len() > 0 {
        let n = vs.len();
        let s = size_of(et);
        let init = enc_elems(vs.drop_last(), et, base);
        let laste = enc(vs.last(), et, base + init.allocs.len());
        lemma_enc_elems_len(vs.drop_last(), et, base);
        lemma_enc_len(vs.last(), et, base + init.allocs.len());
        assert((n - 1) * s + s == n * s) by (nonlinear_arith);
        assert((n - 1) * s <= n * s) by (nonlinear_arith);
        assert(allocs.subrange(base as int, (base + count_allocs_seq(vs.drop_last())) as int)
            =~= init.allocs);
        assert(buf.subrange(0, ((n - 1) * s) as int) =~= init.buf) by {
            assert forall|i: int| 0 <= i < (n - 1) * s implies buf.subrange(
                0,
                ((n - 1) * s) as int,
            )[i] == init.buf[i] by {
                assert(buf.subrange(0, (n * s) as int)[i] == (init.buf + laste.flat)[i]);
            }
        }
        lemma_dec_enc_elems(vs.drop_last(), et, base, allocs, buf);
        let base2 = base + init.allocs.len();
        assert(allocs.subrange(base2 as int, (base2 + count_allocs(vs.last())) as int)
            =~= laste.allocs) by {
            assert forall|i: int| 0 <= i < count_allocs(vs.last()) implies allocs.subrange(
                base2 as int,
                (base2 + count_allocs(vs.last())) as int,
            )[i] == laste.allocs[i] by {
                assert(allocs.subrange(base as int, (base + count_allocs_seq(vs)) as int)[
                    init.allocs.len() + i] == (init.allocs + laste.allocs)[init.allocs.len() + i]);
            }
        }
        lemma_dec_enc(vs.last(), et, base2, allocs);
        assert(buf.subrange(((n - 1) * s) as int, (n * s) as int) =~= laste.flat) by {
            assert forall|i: int| 0 <= i < s implies buf.subrange(
                ((n - 1) * s) as int,
                (n * s) as int,
            )[i] == laste.flat[i] by {
                assert(buf.subrange(0, (n * s) as int)[(n - 1) * s + i] == (init.buf
                    + laste.flat)[(n - 1) * s + i]);
            }
        }
        assert(vs.drop_last().push(vs.last()) =~= vs);
    }
}

pub proof fn lemma_dec_enc_fields(
    vs: Seq<WireVal>,
    fs: Seq<WireType>,
    base: nat,
    allocs: Seq<Seq<u8>>,
    bytes: Seq<u8>,
)
    requires
        fields_ok(vs, fs),
        vs.len() == fs.len(),
        forall|i: int| 0 <= i < fs.len() ==> type_ok(#[trigger] fs[i]),
        base + count_allocs_seq(vs) <= allocs.len(),
        allocs.len() <= u32::MAX,
        allocs.subrange(base as int, (base + count_allocs_seq(vs)) as int) == enc_fields(
            vs,
            fs,
            base,
        ).allocs,
        bytes.len() >= fields_end(fs),
        bytes.subrange(0, fields_end(fs) as int) == enc_fields(vs, fs, base).flat,
    ensures
        dec_fields(fs, bytes, allocs) == Some(vs),
    decreases vs,
{
    if vs.len() > 0 {
        let init = enc_fields(vs.drop_last(), fs.drop_last(), base);
        let off = round_up(fields_end(fs.drop_last()), align_of(fs.last()));
        let laste = enc(vs.last(), fs.last(), base + init.allocs.len());
        let lastsz = size_of(fs.last());
        lemma_enc_fields_len(vs.drop_last(), fs.drop_last(), base);
        lemma_enc_len(vs.last(), fs.last(), base + init.allocs.len());
        lemma_align_bounds(fs.last());
        lemma_round_up_ge(fields_end(fs.drop_last()), align_of(fs.last()));
        assert(forall|i: int|
            0 <= i < fs.drop_last().len() ==> type_ok(#[trigger] fs.drop_last()[i]));
        assert(allocs.subrange(base as int, (base + count_allocs_seq(vs.drop_last())) as int)
            =~= init.allocs);
        let full = init.flat + zeros((off - init.flat.len()) as nat) + laste.flat;
        assert(bytes.subrange(0, fields_end(fs.drop_last()) as int) =~= init.flat) by {
            assert forall|i: int| 0 <= i < fields_end(fs.drop_last()) implies bytes.subrange(
                0,
                fields_end(fs.drop_last()) as int,
            )[i] == init.flat[i] by {
                assert(bytes.subrange(0, fields_end(fs) as int)[i] == full[i]);
            }
        }
        lemma_dec_enc_fields(vs.drop_last(), fs.drop_last(), base, allocs, bytes);
        let base2 = base + init.allocs.len();
        assert(allocs.subrange(base2 as int, (base2 + count_allocs(vs.last())) as int)
            =~= laste.allocs) by {
            assert forall|i: int| 0 <= i < count_allocs(vs.last()) implies allocs.subrange(
                base2 as int,
                (base2 + count_allocs(vs.last())) as int,
            )[i] == laste.allocs[i] by {
                assert(allocs.subrange(base as int, (base + count_allocs_seq(vs)) as int)[
                    init.allocs.len() + i] == (init.allocs + laste.allocs)[init.allocs.len() + i]);
            }
        }
        lemma_dec_enc(vs.last(), fs.last(), base2, allocs);
        assert(bytes.subrange(off as int, (off + lastsz) as int) =~= laste.flat) by {
            assert forall|i: int| 0 <= i < lastsz implies bytes.subrange(
                off as int,
                (off + lastsz) as int,
            )[i] == laste.flat[i] by {
                assert(bytes.subrange(0, fields_end(fs) as int)[off + i] == full[off + i]);
            }
        }
        assert(vs.drop_last().push(vs.last()) =~= vs);
    }
}

/// Law (round trip): for every wire value of a supported type, decoding the
/// encoding yields the value back — content equality; the backing
/// allocations are the region's, moved to the new owner, never aliased.
pub proof fn lemma_decode_encode(v: WireVal, t: WireType)
    requires
        val_ok(v, t),
        type_ok(t),
        count_allocs(v) <= u32::MAX,
    ensures
        dec(t, enc(v, t, 0).flat, enc(v, t, 0).allocs) == Some(v),
{
    lemma_enc_len(v, t, 0);
    assert(enc(v, t, 0).allocs.subrange(0, count_allocs(v) as int) =~= enc(v, t, 0).allocs);
    lemma_dec_enc(v, t, 0, enc(v, t, 0).allocs);
}

/// Law: decoding a tagged union whose discriminant byte is outside the
/// known range fails — whatever the payload bytes and the allocations hold,
/// so no payload is ever read at a wrong offset.
pub proof fn lemma_bad_discriminant_rejected(
    t: WireType,
    bytes: Seq<u8>,
    allocs: Seq<Seq<u8>>,
)
    requires
        match t {
            WireType::Variant(cs) => bytes[0] >= cs@.len(),
            _ => false,
        },
    ensures
        dec(t, bytes, allocs) is None,
{
}

} // verus!
