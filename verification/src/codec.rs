use vstd::prelude::*;
use crate::wire::{
    align_of, count_allocs, count_allocs_seq, dec, enc, enc_elems, enc_fields, fields_end,
    lemma_align_bounds, lemma_max_align_bounds, lemma_round_up_ge, max_align, max_size,
    payload_offset, round_up, size_of, type_ok, types_ok, val_ok, zeros, WireType, WireValue,
    MAX_TYPE_SIZE,
};
use crate::wire_lemmas::{
    lemma_fields_end_prefix, lemma_fields_end_take_succ, lemma_max_align_take_succ,
    lemma_max_size_take_succ, lemma_max_size_ge, lemma_types_ok_index,
};

verus! {

/// The next multiple of `a` at or above `n`.
pub fn round_up_exec(n: usize, a: usize) -> (r: usize)
    requires
        a >= 1,
        n + a <= usize::MAX,
    ensures
        r == round_up(n as nat, a as nat),
{
    n + ((a - n % a) % a)
}

/// Alignment of a type's flat encoding.
pub fn align_exec(t: &WireType) -> (a: usize)
    ensures
        a == align_of(*t),
        1 <= a <= 8,
    decreases *t,
{
    proof {
        lemma_align_bounds(*t);
    }
    match t {
        WireType::Bool => 1,
        WireType::U8 => 1,
        WireType::U16 => 2,
        WireType::U32 => 4,
        WireType::U64 => 8,
        WireType::S32 => 4,
        WireType::S64 => 8,
        WireType::Str => 4,
        WireType::Bytes => 4,
        WireType::List(_) => 4,
        WireType::Record(fs) => max_align_exec(fs),
        WireType::Variant(cs) => max_align_exec(cs),
    }
}

fn max_align_exec(ts: &Vec<WireType>) -> (a: usize)
    ensures
        a == max_align(ts@),
        1 <= a <= 8,
    decreases ts@,
{
    let mut a: usize = 1;
    let mut j: usize = 0;
    proof {
        assert(ts@.take(0) =~= Seq::<WireType>::empty());
        lemma_max_align_bounds(ts@);
    }
    while j < ts.len()
        invariant
            j <= ts@.len(),
            a == max_align(ts@.take(j as int)),
            1 <= a <= 8,
        decreases ts@.len() - j,
    {
        proof {
            vstd::std_specs::vec::axiom_vec_index_decreases(*ts, j as int);
            lemma_max_align_take_succ(ts@, j as int);
            lemma_align_bounds(ts@[j as int]);
        }
        let fa = align_exec(&ts[j]);
        if fa > a {
            a = fa;
        }
        j = j + 1;
    }
    proof {
        assert(ts@.take(ts@.len() as int) =~= ts@);
    }
    a
}

/// Size of a type's flat encoding.
pub fn size_exec(t: &WireType) -> (s: usize)
    requires
        type_ok(*t),
    ensures
        s == size_of(*t),
        s <= MAX_TYPE_SIZE,
    decreases *t,
{
    match t {
        WireType::Bool => 1,
        WireType::U8 => 1,
        WireType::U16 => 2,
        WireType::U32 => 4,
        WireType::U64 => 8,
        WireType::S32 => 4,
        WireType::S64 => 8,
        WireType::Str => 8,
        WireType::Bytes => 8,
        WireType::List(_) => 8,
        WireType::Record(fs) => {
            proof {
                lemma_max_align_bounds(fs@);
                lemma_round_up_ge(fields_end(fs@), max_align(fs@));
            }
            let end = fields_end_exec(fs);
            let a = max_align_exec(fs);
            round_up_exec(end, a)
        },
        WireType::Variant(cs) => {
            proof {
                lemma_max_align_bounds(cs@);
                lemma_max_size_ge(cs@);
                lemma_round_up_ge(1, max_align(cs@));
                lemma_round_up_ge(payload_offset(cs@) + max_size(cs@), max_align(cs@));
            }
            let m = max_size_exec(cs);
            let a = max_align_exec(cs);
            let pod = round_up_exec(1, a);
            round_up_exec(pod + m, a)
        },
    }
}

/// End of the last field in a record layout.
pub fn fields_end_exec(fs: &Vec<WireType>) -> (end: usize)
    requires
        types_ok(fs@),
        fields_end(fs@) <= MAX_TYPE_SIZE,
    ensures
        end == fields_end(fs@),
    decreases fs@,
{
    let mut end: usize = 0;
    let mut j: usize = 0;
    proof {
        assert(fs@.take(0) =~= Seq::<WireType>::empty());
        lemma_types_ok_index(fs@);
    }
    while j < fs.len()
        invariant
            j <= fs@.len(),
            end == fields_end(fs@.take(j as int)),
            end <= fields_end(fs@),
            fields_end(fs@) <= MAX_TYPE_SIZE,
            forall|i: int| 0 <= i < fs@.len() ==> type_ok(#[trigger] fs@[i]),
        decreases fs@.len() - j,
    {
        proof {
            vstd::std_specs::vec::axiom_vec_index_decreases(*fs, j as int);
            lemma_fields_end_take_succ(fs@, j as int);
            lemma_fields_end_prefix(fs@, j as int + 1);
            lemma_align_bounds(fs@[j as int]);
            lemma_round_up_ge(fields_end(fs@.take(j as int)), align_of(fs@[j as int]));
        }
        let a = align_exec(&fs[j]);
        let off = round_up_exec(end, a);
        let fsz = size_exec(&fs[j]);
        end = off + fsz;
        j = j + 1;
    }
    proof {
        assert(fs@.take(fs@.len() as int) =~= fs@);
    }
    end
}

/// Largest flat size among a variant's cases.
fn max_size_exec(cs: &Vec<WireType>) -> (m: usize)
    requires
        types_ok(cs@),
        max_size(cs@) <= MAX_TYPE_SIZE,
    ensures
        m == max_size(cs@),
    decreases cs@,
{
    let mut m: usize = 0;
    let mut j: usize = 0;
    proof {
        assert(cs@.take(0) =~= Seq::<WireType>::empty());
        lemma_types_ok_index(cs@);
    }
    while j < cs.len()
        invariant
            j <= cs@.len(),
            m == max_size(cs@.take(j as int)),
            forall|i: int| 0 <= i < cs@.len() ==> type_ok(#[trigger] cs@[i]),
        decreases cs@.len() - j,
    {
        proof {
            vstd::std_specs::vec::axiom_vec_index_decreases(*cs, j as int);
            lemma_max_size_take_succ(cs@, j as int);
        }
        let csz = size_exec(&cs[j]);
        if csz > m {
            m = csz;
        }
        j = j + 1;
    }
    proof {
        assert(cs@.take(cs@.len() as int) =~= cs@);
    }
    m
}

/// Appends zero bytes until the buffer is `target` long.
pub fn pad_to(flat: &mut Vec<u8>, target: usize)
    requires
        old(flat)@.len() <= target,
    ensures
        final(flat)@ == old(flat)@ + zeros((target - old(flat)@.len()) as nat),
{
    while flat.len() < target
        invariant
            old(flat)@.len() <= flat@.len() <= target,
            flat@ == old(flat)@ + zeros((flat@.len() - old(flat)@.len()) as nat),
        decreases target - flat@.len(),
    {
        let ghost before = flat@;
        flat.push(0u8);
        proof {
            assert(flat@ =~= old(flat)@ + zeros((flat@.len() - old(flat)@.len()) as nat));
        }
    }
    proof {
        assert(flat@ =~= old(flat)@ + zeros((target - old(flat)@.len()) as nat));
    }
}

/// Two's-complement lowering of a signed 32-bit value.
pub fn u32_of_i32_exec(x: i32) -> (r: u32)
    ensures
        r == crate::wire::u32_of_i32(x),
{
    if x >= 0 {
        x as u32
    } else {
        ((x as i64) + 0x1_0000_0000i64) as u32
    }
}

/// Two's-complement reading of an unsigned 32-bit image.
pub fn i32_of_u32_exec(x: u32) -> (r: i32)
    ensures
        r == crate::wire::i32_of_u32(x),
{
    if x <= 0x7FFF_FFFF {
        x as i32
    } else {
        ((x as i64) - 0x1_0000_0000i64) as i32
    }
}

/// Two's-complement lowering of a signed 64-bit value.
pub fn u64_of_i64_exec(x: i64) -> (r: u64)
    ensures
        r == crate::wire::u64_of_i64(x),
{
    if x >= 0 {
        x as u64
    } else {
        (((x + 0x4000_0000_0000_0000i64) + 0x4000_0000_0000_0000i64) as u64)
            + 0x8000_0000_0000_0000u64
    }
}

/// Two's-complement reading of an unsigned 64-bit image.
pub fn i64_of_u64_exec(x: u64) -> (r: i64)
    ensures
        r == crate::wire::i64_of_u64(x),
{
    if x <= 0x7FFF_FFFF_FFFF_FFFF {
        x as i64
    } else {
        ((x - 0x8000_0000_0000_0000u64) as i64) + i64::MIN
    }
}

/// Pushing an allocation appends its bytes to the deep view.
proof fn lemma_deep_view_push(va: Vec<Vec<u8>>, vb: Vec<Vec<u8>>, b: Vec<u8>)
    requires
        vb@ == va@.push(b),
    ensures
        vb.deep_view() == va.deep_view().push(b@),
{
    crate::wire::lemma_allocs_deep_view(va);
    crate::wire::lemma_allocs_deep_view(vb);
    assert(vb.deep_view() =~= va.deep_view().push(b@));
}

/// Encodes `v` at type `t`: appends exactly `size_of(t)` flat bytes and the
/// allocations its strings, buffers and lists need.
pub fn encode_into(v: &WireValue, t: &WireType, flat: &mut Vec<u8>, allocs: &mut Vec<Vec<u8>>)
    requires
        val_ok(v@, *t),
        type_ok(*t),
        old(allocs)@.len() + count_allocs(v@) <= u32::MAX,
        old(flat)@.len() + size_of(*t) <= usize::MAX,
    ensures
        final(flat)@ == old(flat)@ + enc(v@, *t, old(allocs)@.len() as nat).flat,
        final(allocs).deep_view() == old(allocs).deep_view() + enc(
            v@,
            *t,
            old(allocs)@.len() as nat,
        ).allocs,
        final(allocs)@.len() == old(allocs)@.len() + count_allocs(v@),
    decreases *v,
{
    let ghost base0 = old(allocs)@.len() as nat;
    let ghost odv = old(allocs).deep_view();
    match v {
        WireValue::Bool(b) => {
            flat.push(if *b {
                1u8
            } else {
                0u8
            });
            proof {
                assert(flat@ =~= old(flat)@ + enc(v@, *t, base0).flat);
                assert(allocs.deep_view() =~= odv + enc(v@, *t, base0).allocs);
            }
        },
        WireValue::U8(x) => {
            flat.push(*x);
            proof {
                assert(flat@ =~= old(flat)@ + enc(v@, *t, base0).flat);
                assert(allocs.deep_view() =~= odv + enc(v@, *t, base0).allocs);
            }
        },
        WireValue::U16(x) => {
            let mut bs = vstd::bytes::u16_to_le_bytes(*x);
            flat.append(&mut bs);
            proof {
                assert(allocs.deep_view() =~= odv + enc(v@, *t, base0).allocs);
            }
        },
        WireValue::U32(x) => {
            let mut bs = vstd::bytes::u32_to_le_bytes(*x);
            flat.append(&mut bs);
            proof {
                assert(allocs.deep_view() =~= odv + enc(v@, *t, base0).allocs);
            }
        },
        WireValue::U64(x) => {
            let mut bs = vstd::bytes::u64_to_le_bytes(*x);
            flat.append(&mut bs);
            proof {
                assert(allocs.deep_view() =~= odv + enc(v@, *t, base0).allocs);
            }
        },
        WireValue::S32(x) => {
            let mut bs = vstd::bytes::u32_to_le_bytes(u32_of_i32_exec(*x));
            flat.append(&mut bs);
            proof {
                assert(allocs.deep_view() =~= odv + enc(v@, *t, base0).allocs);
            }
        },
        WireValue::S64(x) => {
            let mut bs = vstd::bytes::u64_to_le_bytes(u64_of_i64_exec(*x));
            flat.append(&mut bs);
            proof {
                assert(allocs.deep_view() =~= odv + enc(v@, *t, base0).allocs);
            }
        },
        WireValue::Str(s) => {
            let b = crate::lift::string_lower(s.as_str());
            let ghost prev = *allocs;
            let idx = allocs.len() as u32;
            let n = b.len() as u32;
            allocs.push(b);
            let mut w1 = vstd::bytes::u32_to_le_bytes(idx);
            flat.append(&mut w1);
            let mut w2 = vstd::bytes::u32_to_le_bytes(n);
            flat.append(&mut w2);
            proof {
                lemma_deep_view_push(prev, *allocs, b);
                assert(flat@ =~= old(flat)@ + enc(v@, *t, base0).flat);
                assert(allocs.deep_view() =~= odv + enc(v@, *t, base0).allocs);
            }
        },
        WireValue::Bytes(src) => {
            let b = vstd::slice::slice_to_vec(src.as_slice());
            let ghost prev = *allocs;
            let idx = allocs.len() as u32;
            let n = b.len() as u32;
            allocs.push(b);
            let mut w1 = vstd::bytes::u32_to_le_bytes(idx);
            flat.append(&mut w1);
            let mut w2 = vstd::bytes::u32_to_le_bytes(n);
            flat.append(&mut w2);
            proof {
                lemma_deep_view_push(prev, *allocs, b);
                assert(flat@ =~= old(flat)@ + enc(v@, *t, base0).flat);
                assert(allocs.deep_view() =~= odv + enc(v@, *t, base0).allocs);
            }
        },
        WireValue::List(vs) => match t {
            WireType::List(et) => {
                let ghost ws = crate::wire::wv_view_seq(vs@);
                proof {
                    crate::wire::lemma_wv_view_seq(vs@);
                }
                let mut buf: Vec<u8> = Vec::new();
                encode_elems_into(vs, &**et, &mut buf, allocs);
                let ghost prev = *allocs;
                let idx = allocs.len() as u32;
                let n = vs.len() as u32;
                allocs.push(buf);
                let mut w1 = vstd::bytes::u32_to_le_bytes(idx);
                flat.append(&mut w1);
                let mut w2 = vstd::bytes::u32_to_le_bytes(n);
                flat.append(&mut w2);
                proof {
                    lemma_deep_view_push(prev, *allocs, buf);
                    crate::wire_lemmas::lemma_enc_elems_len(ws, **et, base0);
                    assert(flat@ =~= old(flat)@ + enc(v@, *t, base0).flat);
                    assert(allocs.deep_view() =~= odv + enc(v@, *t, base0).allocs);
                }
            },
            _ => {
                proof {
                    assert(false);
                }
            },
        },
        WireValue::Record(vs) => match t {
            WireType::Record(fs) => {
                let ghost ws = crate::wire::wv_view_seq(vs@);
                let start = flat.len();
                proof {
                    crate::wire::lemma_wv_view_seq(vs@);
                    lemma_max_align_bounds(fs@);
                    lemma_round_up_ge(fields_end(fs@), max_align(fs@));
                }
                encode_fields_into(vs, fs, flat, allocs);
                let sz = size_exec(t);
                proof {
                    crate::wire_lemmas::lemma_enc_fields_len(ws, fs@, base0);
                }
                pad_to(flat, start + sz);
                proof {
                    let ef = enc_fields(ws, fs@, base0);
                    assert(flat@ =~= old(flat)@ + (ef.flat + zeros(
                        (size_of(*t) - ef.flat.len()) as nat,
                    )));
                    assert(allocs.deep_view() =~= odv + enc(v@, *t, base0).allocs);
                }
            },
            _ => {
                proof {
                    assert(false);
                }
            },
        },
        WireValue::Variant(d, bv) => match t {
            WireType::Variant(cs) => {
                let start = flat.len();
                proof {
                    lemma_types_ok_index(cs@);
                    lemma_max_align_bounds(cs@);
                    lemma_max_size_ge(cs@);
                    lemma_round_up_ge(1, max_align(cs@));
                    lemma_round_up_ge(payload_offset(cs@) + max_size(cs@), max_align(cs@));
                    assert(*d < 256);
                }
                flat.push(*d as u8);
                let a = max_align_exec(cs);
                let pod = round_up_exec(1, a);
                pad_to(flat, start + pod);
                let pt = &cs[*d as usize];
                proof {
                    crate::wire_lemmas::lemma_enc_len(
                        crate::wire::wv_view(**bv),
                        cs@[*d as int],
                        base0,
                    );
                }
                encode_into(&**bv, pt, flat, allocs);
                let sz = size_exec(t);
                pad_to(flat, start + sz);
                proof {
                    let ep = enc(crate::wire::wv_view(**bv), cs@[*d as int], base0);
                    assert(flat@ =~= old(flat)@ + (seq![*d as u8] + zeros(
                        (payload_offset(cs@) - 1) as nat,
                    ) + ep.flat + zeros(
                        (size_of(*t) - payload_offset(cs@) - size_of(cs@[*d as int])) as nat,
                    )));
                    assert(allocs.deep_view() =~= odv + enc(v@, *t, base0).allocs);
                }
            },
            _ => {
                proof {
                    assert(false);
                }
            },
        },
    }
}

/// Encodes list elements back to back into `buf`.
fn encode_elems_into(
    vs: &Vec<WireValue>,
    et: &WireType,
    buf: &mut Vec<u8>,
    allocs: &mut Vec<Vec<u8>>,
)
    requires
        crate::wire::list_ok(crate::wire::wv_view_seq(vs@), *et),
        type_ok(*et),
        vs@.len() * size_of(*et) <= u32::MAX,
        old(allocs)@.len() + count_allocs_seq(crate::wire::wv_view_seq(vs@)) <= u32::MAX,
        old(buf)@.len() + vs@.len() * size_of(*et) <= usize::MAX,
    ensures
        final(buf)@ == old(buf)@ + enc_elems(
            crate::wire::wv_view_seq(vs@),
            *et,
            old(allocs)@.len() as nat,
        ).buf,
        final(allocs).deep_view() == old(allocs).deep_view() + enc_elems(
            crate::wire::wv_view_seq(vs@),
            *et,
            old(allocs)@.len() as nat,
        ).allocs,
        final(allocs)@.len() == old(allocs)@.len() + count_allocs_seq(
            crate::wire::wv_view_seq(vs@),
        ),
    decreases vs@,
{
    let ghost ws = crate::wire::wv_view_seq(vs@);
    let ghost base0 = old(allocs)@.len() as nat;
    let ghost odv = old(allocs).deep_view();
    proof {
        crate::wire::lemma_wv_view_seq(vs@);
        crate::wire_lemmas::lemma_list_ok_index(ws, *et);
        assert(ws.take(0) =~= Seq::<crate::wire::WireVal>::empty());
        assert(buf@ =~= old(buf)@ + enc_elems(ws.take(0), *et, base0).buf);
        assert(allocs.deep_view() =~= odv + enc_elems(ws.take(0), *et, base0).allocs);
    }
    let mut j: usize = 0;
    while j < vs.len()
        invariant
            j <= vs@.len(),
            ws == crate::wire::wv_view_seq(vs@),
            ws.len() == vs@.len(),
            forall|i: int| 0 <= i < vs@.len() ==> #[trigger] ws[i] == crate::wire::wv_view(vs@[i]),
            forall|i: int| 0 <= i < ws.len() ==> val_ok(#[trigger] ws[i], *et),
            crate::wire::list_ok(ws, *et),
            type_ok(*et),
            ws.len() * size_of(*et) <= u32::MAX,
            base0 == odv.len(),
            odv.len() == old(allocs)@.len(),
            base0 + count_allocs_seq(ws) <= u32::MAX,
            old(buf)@.len() + ws.len() * size_of(*et) <= usize::MAX,
            buf@ == old(buf)@ + enc_elems(ws.take(j as int), *et, base0).buf,
            allocs.deep_view() == odv + enc_elems(ws.take(j as int), *et, base0).allocs,
            allocs@.len() == base0 + count_allocs_seq(ws.take(j as int)),
        decreases vs@.len() - j,
    {
        proof {
            vstd::std_specs::vec::axiom_vec_index_decreases(*vs, j as int);
            crate::wire_lemmas::lemma_list_ok_take(ws, *et, j as int);
            crate::wire_lemmas::lemma_enc_elems_len(ws.take(j as int), *et, base0);
            crate::wire_lemmas::lemma_count_allocs_seq_take_succ(ws, j as int);
            crate::wire_lemmas::lemma_count_allocs_seq_prefix(ws, j as int + 1);
            assert((j as int) * size_of(*et) + size_of(*et) == (j as int + 1) * size_of(*et))
                by (nonlinear_arith);
            assert((j as int + 1) * size_of(*et) <= ws.len() * size_of(*et))
                by (nonlinear_arith)
                requires
                    0 <= j as int + 1 <= ws.len(),
                    size_of(*et) >= 0,
            ;
            assert(ws.take(j as int).len() * size_of(*et) == (j as int) * size_of(*et));
        }
        encode_into(&vs[j], et, buf, allocs);
        proof {
            crate::wire_lemmas::lemma_enc_elems_take_succ(ws, *et, base0, j as int);
            assert(buf@ =~= old(buf)@ + enc_elems(ws.take(j as int + 1), *et, base0).buf);
            assert(allocs.deep_view() =~= odv + enc_elems(ws.take(j as int + 1), *et, base0).allocs);
        }
        j = j + 1;
    }
    proof {
        assert(ws.take(vs@.len() as int) =~= ws);
    }
}

/// Encodes record fields at their fixed offsets.
fn encode_fields_into(
    vs: &Vec<WireValue>,
    fs: &Vec<WireType>,
    flat: &mut Vec<u8>,
    allocs: &mut Vec<Vec<u8>>,
)
    requires
        vs@.len() == fs@.len(),
        crate::wire::fields_ok(crate::wire::wv_view_seq(vs@), fs@),
        types_ok(fs@),
        fields_end(fs@) <= MAX_TYPE_SIZE,
        old(allocs)@.len() + count_allocs_seq(crate::wire::wv_view_seq(vs@)) <= u32::MAX,
        old(flat)@.len() + fields_end(fs@) <= usize::MAX,
    ensures
        final(flat)@ == old(flat)@ + enc_fields(
            crate::wire::wv_view_seq(vs@),
            fs@,
            old(allocs)@.len() as nat,
        ).flat,
        final(allocs).deep_view() == old(allocs).deep_view() + enc_fields(
            crate::wire::wv_view_seq(vs@),
            fs@,
            old(allocs)@.len() as nat,
        ).allocs,
        final(allocs)@.len() == old(allocs)@.len() + count_allocs_seq(
            crate::wire::wv_view_seq(vs@),
        ),
    decreases vs@,
{
    let ghost ws = crate::wire::wv_view_seq(vs@);
    let ghost base0 = old(allocs)@.len() as nat;
    let ghost odv = old(allocs).deep_view();
    let start = flat.len();
    proof {
        crate::wire::lemma_wv_view_seq(vs@);
        crate::wire_lemmas::lemma_fields_ok_index(ws, fs@);
        lemma_types_ok_index(fs@);
        assert(ws.take(0) =~= Seq::<crate::wire::WireVal>::empty());
        assert(fs@.take(0) =~= Seq::<WireType>::empty());
        assert(flat@ =~= old(flat)@ + enc_fields(ws.take(0), fs@.take(0), base0).flat);
        assert(allocs.deep_view() =~= odv + enc_fields(ws.take(0), fs@.take(0), base0).allocs);
    }
    let mut end: usize = 0;
    let mut j: usize = 0;
    while j < vs.len()
        invariant
            j <= vs@.len(),
            vs@.len() == fs@.len(),
            ws == crate::wire::wv_view_seq(vs@),
            ws.len() == vs@.len(),
            forall|i: int| 0 <= i < vs@.len() ==> #[trigger] ws[i] == crate::wire::wv_view(vs@[i]),
            forall|i: int| 0 <= i < ws.len() ==> val_ok(#[trigger] ws[i], fs@[i]),
            crate::wire::fields_ok(ws, fs@),
            types_ok(fs@),
            forall|i: int| 0 <= i < fs@.len() ==> type_ok(#[trigger] fs@[i]),
            fields_end(fs@) <= MAX_TYPE_SIZE,
            base0 == odv.len(),
            odv.len() == old(allocs)@.len(),
            base0 + count_allocs_seq(ws) <= u32::MAX,
            start == old(flat)@.len(),
            start + fields_end(fs@) <= usize::MAX,
            end == fields_end(fs@.take(j as int)),
            end <= fields_end(fs@),
            flat@ == old(flat)@ + enc_fields(ws.take(j as int), fs@.take(j as int), base0).flat,
            allocs.deep_view() == odv + enc_fields(ws.take(j as int), fs@.take(j as int), base0).allocs,
            allocs@.len() == base0 + count_allocs_seq(ws.take(j as int)),
        decreases vs@.len() - j,
    {
        proof {
            vstd::std_specs::vec::axiom_vec_index_decreases(*vs, j as int);
            crate::wire_lemmas::lemma_fields_ok_take(ws, fs@, j as int);
            crate::wire_lemmas::lemma_enc_fields_len(ws.take(j as int), fs@.take(j as int), base0);
            crate::wire_lemmas::lemma_count_allocs_seq_take_succ(ws, j as int);
            crate::wire_lemmas::lemma_count_allocs_seq_prefix(ws, j as int + 1);
            lemma_fields_end_take_succ(fs@, j as int);
            lemma_fields_end_prefix(fs@, j as int + 1);
            lemma_align_bounds(fs@[j as int]);
            lemma_round_up_ge(fields_end(fs@.take(j as int)), align_of(fs@[j as int]));
        }
        let a = align_exec(&fs[j]);
        let off = round_up_exec(end, a);
        pad_to(flat, start + off);
        encode_into(&vs[j], &fs[j], flat, allocs);
        let fsz = size_exec(&fs[j]);
        end = off + fsz;
        proof {
            crate::wire_lemmas::lemma_enc_fields_take_succ(ws, fs@, base0, j as int);
            assert(flat@ =~= old(flat)@ + enc_fields(
                ws.take(j as int + 1),
                fs@.take(j as int + 1),
                base0,
            ).flat);
            assert(allocs.deep_view() =~= odv + enc_fields(
                ws.take(j as int + 1),
                fs@.take(j as int + 1),
                base0,
            ).allocs);
        }
        j = j + 1;
    }
    proof {
        assert(ws.take(vs@.len() as int) =~= ws);
        assert(fs@.take(vs@.len() as int) =~= fs@);
    }
}

/// Encodes a value into a fresh region: never fails for a well-typed,
/// measurable value, and performs exactly one allocation per string, byte
/// buffer and list in it.
pub fn encode(v: &WireValue, t: &WireType) -> (region: crate::wire::WireRegion)
    requires
        val_ok(v@, *t),
        type_ok(*t),
        count_allocs(v@) <= u32::MAX,
    ensures
        region.flat@ == enc(v@, *t, 0).flat,
        region.allocs.deep_view() == enc(v@, *t, 0).allocs,
        region.flat@.len() == size_of(*t),
        dec(*t, region.flat@, region.allocs.deep_view()) == Some(v@),
{
    proof {
        crate::wire_lemmas::lemma_enc_len(v@, *t, 0);
        crate::wire_lemmas::lemma_decode_encode(v@, *t);
    }
    let mut flat: Vec<u8> = Vec::new();
    let mut allocs: Vec<Vec<u8>> = Vec::new();
    encode_into(v, t, &mut flat, &mut allocs);
    proof {
        assert(flat@ =~= enc(v@, *t, 0).flat);
        assert(allocs.deep_view() =~= enc(v@, *t, 0).allocs);
    }
    crate::wire::WireRegion { flat, allocs }
}


/// Decodes the flat image at `bytes[off..]` against `t`. Fails with
/// `MalformedEncoding` exactly when the region is not a valid encoding; an
/// out-of-range tagged-union discriminant is rejected before any payload
/// byte is read.
pub fn decode_at(t: &WireType, bytes: &[u8], off: usize, allocs: &Vec<Vec<u8>>) -> (r: Result<
    WireValue,
    crate::errors::BoundaryError,
>)
    requires
        type_ok(*t),
        off + size_of(*t) <= bytes@.len(),
    ensures
        ({
            let slice = bytes@.subrange(off as int, (off + size_of(*t)) as int);
            match r {
                Ok(v) => dec(*t, slice, allocs.deep_view()) == Some(v@),
                Err(e) => e == crate::errors::BoundaryError::MalformedEncoding && dec(
                    *t,
                    slice,
                    allocs.deep_view(),
                ) is None,
            }
        }),
    decreases *t, 0nat,
{
    let ghost slice = bytes@.subrange(off as int, (off + size_of(*t)) as int);
    let bytes_len = bytes.len();
    proof {
        assert(bytes@.len() == bytes_len);
        crate::wire::lemma_allocs_deep_view(*allocs);
    }
    match t {
        WireType::Bool => {
            proof {
                assert(slice[0] == bytes@[off as int]);
            }
            match crate::lift::bool_lift(bytes[off]) {
                Ok(b) => Ok(WireValue::Bool(b)),
                Err(e) => Err(e),
            }
        },
        WireType::U8 => {
            proof {
                assert(slice[0] == bytes@[off as int]);
            }
            Ok(WireValue::U8(bytes[off]))
        },
        WireType::U16 => {
            proof {
                assert(size_of(*t) == 2);
            }
            let s = vstd::slice::slice_subrange(bytes, off, off + 2);
            Ok(WireValue::U16(vstd::bytes::u16_from_le_bytes(s)))
        },
        WireType::U32 => {
            proof {
                assert(size_of(*t) == 4);
            }
            let s = vstd::slice::slice_subrange(bytes, off, off + 4);
            Ok(WireValue::U32(vstd::bytes::u32_from_le_bytes(s)))
        },
        WireType::U64 => {
            proof {
                assert(size_of(*t) == 8);
            }
            let s = vstd::slice::slice_subrange(bytes, off, off + 8);
            Ok(WireValue::U64(vstd::bytes::u64_from_le_bytes(s)))
        },
        WireType::S32 => {
            proof {
                assert(size_of(*t) == 4);
            }
            let s = vstd::slice::slice_subrange(bytes, off, off + 4);
            Ok(WireValue::S32(i32_of_u32_exec(vstd::bytes::u32_from_le_bytes(s))))
        },
        WireType::S64 => {
            proof {
                assert(size_of(*t) == 8);
            }
            let s = vstd::slice::slice_subrange(bytes, off, off + 8);
            Ok(WireValue::S64(i64_of_u64_exec(vstd::bytes::u64_from_le_bytes(s))))
        },
        WireType::Str => {
            proof {
                assert(size_of(*t) == 8);
            }
            let idx = vstd::bytes::u32_from_le_bytes(
                vstd::slice::slice_subrange(bytes, off, off + 4),
            );
            let n = vstd::bytes::u32_from_le_bytes(
                vstd::slice::slice_subrange(bytes, off + 4, off + 8),
            );
            proof {
                assert(bytes@.subrange(off as int, off + 4) =~= slice.subrange(0, 4));
                assert(bytes@.subrange(off + 4, off + 8) =~= slice.subrange(4, 8));
            }
            if (idx as usize) >= allocs.len() {
                return Err(crate::errors::BoundaryError::MalformedEncoding);
            }
            let a = &allocs[idx as usize];
            if a.len() != n as usize {
                return Err(crate::errors::BoundaryError::MalformedEncoding);
            }
            let payload = vstd::slice::slice_to_vec(a.as_slice());
            match crate::lift::string_lift(payload) {
                Ok(s) => Ok(WireValue::Str(s)),
                Err(e) => Err(e),
            }
        },
        WireType::Bytes => {
            proof {
                assert(size_of(*t) == 8);
            }
            let idx = vstd::bytes::u32_from_le_bytes(
                vstd::slice::slice_subrange(bytes, off, off + 4),
            );
            let n = vstd::bytes::u32_from_le_bytes(
                vstd::slice::slice_subrange(bytes, off + 4, off + 8),
            );
            proof {
                assert(bytes@.subrange(off as int, off + 4) =~= slice.subrange(0, 4));
                assert(bytes@.subrange(off + 4, off + 8) =~= slice.subrange(4, 8));
            }
            if (idx as usize) >= allocs.len() {
                return Err(crate::errors::BoundaryError::MalformedEncoding);
            }
            let a = &allocs[idx as usize];
            if a.len() != n as usize {
                return Err(crate::errors::BoundaryError::MalformedEncoding);
            }
            let copy = vstd::slice::slice_to_vec(a.as_slice());
            Ok(WireValue::Bytes(copy))
        },
        WireType::List(et) => {
            proof {
                assert(size_of(*t) == 8);
            }
            let idx = vstd::bytes::u32_from_le_bytes(
                vstd::slice::slice_subrange(bytes, off, off + 4),
            );
            let n = vstd::bytes::u32_from_le_bytes(
                vstd::slice::slice_subrange(bytes, off + 4, off + 8),
            );
            proof {
                assert(bytes@.subrange(off as int, off + 4) =~= slice.subrange(0, 4));
                assert(bytes@.subrange(off + 4, off + 8) =~= slice.subrange(4, 8));
            }
            if (idx as usize) >= allocs.len() {
                return Err(crate::errors::BoundaryError::MalformedEncoding);
            }
            let esz = size_exec(&**et);
            let a = &allocs[idx as usize];
            let buf_len = a.len();
            proof {
                assert((n as int) * (esz as int) <= 0xFFFF_FFFFi64 * 0x1000_0000i64)
                    by (nonlinear_arith)
                    requires
                        0 <= n as int <= 0xFFFF_FFFFi64,
                        0 <= esz as int <= 0x1000_0000i64,
                ;
            }
            if (buf_len as u64) != (n as u64) * (esz as u64) {
                proof {
                    assert(allocs.deep_view()[idx as int].len() != n * size_of(**et));
                }
                return Err(crate::errors::BoundaryError::MalformedEncoding);
            }
            match decode_elems(&**et, a, n, allocs) {
                Ok(out) => Ok(WireValue::List(out)),
                Err(e) => Err(e),
            }
        },
        WireType::Record(fs) => {
            proof {
                crate::wire_lemmas::lemma_types_ok_index(fs@);
                lemma_max_align_bounds(fs@);
                lemma_round_up_ge(fields_end(fs@), max_align(fs@));
            }
            let ghost sub = bytes@.subrange(off as int, (off + fields_end(fs@)) as int);
            proof {
                assert(sub.subrange(0, fields_end(fs@) as int) =~= slice.subrange(
                    0,
                    fields_end(fs@) as int,
                )) by {
                    assert forall|i: int| 0 <= i < fields_end(fs@) implies #[trigger] sub.subrange(
                        0,
                        fields_end(fs@) as int,
                    )[i] == slice.subrange(0, fields_end(fs@) as int)[i] by {
                        assert(sub.subrange(0, fields_end(fs@) as int)[i] == bytes@[off + i]);
                        assert(slice.subrange(0, fields_end(fs@) as int)[i] == bytes@[off + i]);
                    }
                }
                crate::wire_lemmas::lemma_dec_fields_prefix(
                    fs@,
                    sub,
                    slice,
                    allocs.deep_view(),
                );
            }
            match decode_fields(fs, bytes, off, allocs) {
                Ok(out) => Ok(WireValue::Record(out)),
                Err(e) => Err(e),
            }
        },
        WireType::Variant(cs) => {
            proof {
                crate::wire_lemmas::lemma_types_ok_index(cs@);
                lemma_max_align_bounds(cs@);
                lemma_max_size_ge(cs@);
                lemma_round_up_ge(1, max_align(cs@));
                lemma_round_up_ge(payload_offset(cs@) + max_size(cs@), max_align(cs@));
            }
            let d = bytes[off];
            proof {
                assert(slice[0] == bytes@[off as int]);
            }
            if (d as usize) >= cs.len() {
                return Err(crate::errors::BoundaryError::MalformedEncoding);
            }
            let a = max_align_exec(cs);
            let pod = round_up_exec(1, a);
            proof {
                assert(bytes@.subrange(
                    (off + pod) as int,
                    (off + pod + size_of(cs@[d as int])) as int,
                ) =~= slice.subrange(pod as int, (pod + size_of(cs@[d as int])) as int)) by {
                    assert forall|i: int| 0 <= i < size_of(cs@[d as int]) implies
                        #[trigger] bytes@.subrange(
                        (off + pod) as int,
                        (off + pod + size_of(cs@[d as int])) as int,
                    )[i] == slice.subrange(
                        pod as int,
                        (pod + size_of(cs@[d as int])) as int,
                    )[i] by {
                        assert(bytes@.subrange(
                            (off + pod) as int,
                            (off + pod + size_of(cs@[d as int])) as int,
                        )[i] == bytes@[off + pod + i]);
                        assert(slice.subrange(
                            pod as int,
                            (pod + size_of(cs@[d as int])) as int,
                        )[i] == slice[pod + i]);
                        assert(slice[pod + i] == bytes@[off + pod + i]);
                    }
                }
            }
            match decode_case(cs, d as usize, bytes, off + pod, allocs) {
                Ok(pv) => Ok(WireValue::Variant(d as u32, Box::new(pv))),
                Err(e) => Err(e),
            }
        },
    }
}

/// Decodes the elements of a list out of its allocation.
fn decode_elems(et: &WireType, buf: &Vec<u8>, n: u32, allocs: &Vec<Vec<u8>>) -> (r: Result<
    Vec<WireValue>,
    crate::errors::BoundaryError,
>)
    requires
        type_ok(*et),
        buf@.len() == n * size_of(*et),
    ensures
        match r {
            Ok(vs) => crate::wire::dec_elems(*et, buf@, n as nat, allocs.deep_view()) == Some(
                crate::wire::wv_view_seq(vs@),
            ) && vs@.len() == n,
            Err(e) => e == crate::errors::BoundaryError::MalformedEncoding
                && crate::wire::dec_elems(*et, buf@, n as nat, allocs.deep_view()) is None,
        },
    decreases *et, 1nat,
{
    let esz = size_exec(et);
    let buf_len = buf.len();
    let mut out: Vec<WireValue> = Vec::new();
    let mut i: u32 = 0;
    proof {
        assert(crate::wire::wv_view_seq(out@) =~= Seq::<crate::wire::WireVal>::empty());
    }
    while i < n
        invariant
            i <= n,
            type_ok(*et),
            esz == size_of(*et),
            esz <= MAX_TYPE_SIZE,
            buf_len == buf@.len(),
            buf@.len() == n * size_of(*et),
            out@.len() == i,
            crate::wire::dec_elems(*et, buf@, i as nat, allocs.deep_view()) == Some(
                crate::wire::wv_view_seq(out@),
            ),
        decreases n - i,
    {
        proof {
            assert((i as int) * esz + esz == (i as int + 1) * esz) by (nonlinear_arith);
            assert((i as int + 1) * esz <= (n as int) * esz) by (nonlinear_arith)
                requires
                    0 <= i as int + 1 <= n as int,
                    esz >= 0,
            ;
            assert((i as int) * esz >= 0) by (nonlinear_arith)
                requires
                    i as int >= 0,
                    esz >= 0,
            ;
        }
        let pos = (i as usize) * esz;
        let r = decode_at(et, buf.as_slice(), pos, allocs);
        match r {
            Ok(v) => {
                let ghost prevout = out@;
                out.push(v);
                proof {
                    assert(crate::wire::wv_view_seq(out@) =~= crate::wire::wv_view_seq(
                        prevout,
                    ).push(crate::wire::wv_view(v))) by {
                        assert(out@.drop_last() =~= prevout);
                    }
                }
            },
            Err(e) => {
                proof {
                    crate::wire_lemmas::lemma_dec_elems_none_mono(
                        *et,
                        buf@,
                        allocs.deep_view(),
                        (i + 1) as nat,
                        n as nat,
                    );
                }
                return Err(e);
            },
        }
        i = i + 1;
    }
    Ok(out)
}

/// Decodes one case of a tagged union.
fn decode_case(
    cs: &Vec<WireType>,
    d: usize,
    bytes: &[u8],
    off: usize,
    allocs: &Vec<Vec<u8>>,
) -> (r: Result<WireValue, crate::errors::BoundaryError>)
    requires
        d < cs@.len(),
        type_ok(cs@[d as int]),
        off + size_of(cs@[d as int]) <= bytes@.len(),
    ensures
        ({
            let slice = bytes@.subrange(off as int, (off + size_of(cs@[d as int])) as int);
            match r {
                Ok(v) => dec(cs@[d as int], slice, allocs.deep_view()) == Some(v@),
                Err(e) => e == crate::errors::BoundaryError::MalformedEncoding && dec(
                    cs@[d as int],
                    slice,
                    allocs.deep_view(),
                ) is None,
            }
        }),
    decreases cs@, 1nat,
{
    proof {
        vstd::std_specs::vec::axiom_vec_index_decreases(*cs, d as int);
    }
    decode_at(&cs[d], bytes, off, allocs)
}

/// Decodes record fields at their fixed offsets.
fn decode_fields(fs: &Vec<WireType>, bytes: &[u8], off: usize, allocs: &Vec<Vec<u8>>) -> (r:
    Result<Vec<WireValue>, crate::errors::BoundaryError>)
    requires
        types_ok(fs@),
        fields_end(fs@) <= MAX_TYPE_SIZE,
        off + fields_end(fs@) <= bytes@.len(),
    ensures
        ({
            let slice = bytes@.subrange(off as int, (off + fields_end(fs@)) as int);
            match r {
                Ok(vs) => crate::wire::dec_fields(fs@, slice, allocs.deep_view()) == Some(
                    crate::wire::wv_view_seq(vs@),
                ) && vs@.len() == fs@.len(),
                Err(e) => e == crate::errors::BoundaryError::MalformedEncoding
                    && crate::wire::dec_fields(fs@, slice, allocs.deep_view()) is None,
            }
        }),
    decreases fs@, 2nat,
{
    let ghost slice = bytes@.subrange(off as int, (off + fields_end(fs@)) as int);
    let bytes_len = bytes.len();
    proof {
        assert(bytes@.len() == bytes_len);
    }
    let mut out: Vec<WireValue> = Vec::new();
    let mut end: usize = 0;
    let mut j: usize = 0;
    proof {
        lemma_types_ok_index(fs@);
        assert(fs@.take(0) =~= Seq::<WireType>::empty());
        assert(crate::wire::wv_view_seq(out@) =~= Seq::<crate::wire::WireVal>::empty());
    }
    while j < fs.len()
        invariant
            j <= fs@.len(),
            types_ok(fs@),
            forall|i: int| 0 <= i < fs@.len() ==> type_ok(#[trigger] fs@[i]),
            off + fields_end(fs@) <= bytes@.len(),
            bytes@.len() <= usize::MAX,
            fields_end(fs@) <= MAX_TYPE_SIZE,
            slice == bytes@.subrange(off as int, (off + fields_end(fs@)) as int),
            end == fields_end(fs@.take(j as int)),
            end <= fields_end(fs@),
            out@.len() == j,
            crate::wire::dec_fields(fs@.take(j as int), slice, allocs.deep_view()) == Some(
                crate::wire::wv_view_seq(out@),
            ),
        decreases fs@.len() - j,
    {
        proof {
            crate::wire_lemmas::lemma_fields_end_take_succ(fs@, j as int);
            crate::wire_lemmas::lemma_fields_end_prefix(fs@, j as int + 1);
            lemma_align_bounds(fs@[j as int]);
            lemma_round_up_ge(fields_end(fs@.take(j as int)), align_of(fs@[j as int]));
        }
        let a = align_exec(&fs[j]);
        let fo = round_up_exec(end, a);
        let fsz = size_exec(&fs[j]);
        let r = decode_case(fs, j, bytes, off + fo, allocs);
        proof {
            assert(bytes@.subrange((off + fo) as int, (off + fo + fsz) as int) =~= slice.subrange(
                fo as int,
                (fo + fsz) as int,
            )) by {
                assert forall|i: int| 0 <= i < fsz implies #[trigger] bytes@.subrange(
                    (off + fo) as int,
                    (off + fo + fsz) as int,
                )[i] == slice.subrange(fo as int, (fo + fsz) as int)[i] by {
                    assert(bytes@.subrange((off + fo) as int, (off + fo + fsz) as int)[i]
                        == bytes@[off + fo + i]);
                    assert(slice.subrange(fo as int, (fo + fsz) as int)[i] == slice[fo + i]);
                    assert(slice[fo + i] == bytes@[off + fo + i]);
                }
            }
            crate::wire_lemmas::lemma_dec_fields_take_succ(
                fs@,
                slice,
                allocs.deep_view(),
                j as int,
            );
        }
        match r {
            Ok(v) => {
                let ghost prevout = out@;
                out.push(v);
                proof {
                    assert(crate::wire::wv_view_seq(out@) =~= crate::wire::wv_view_seq(
                        prevout,
                    ).push(crate::wire::wv_view(v))) by {
                        assert(out@.drop_last() =~= prevout);
                    }
                }
            },
            Err(e) => {
                proof {
                    crate::wire_lemmas::lemma_dec_fields_none_mono(
                        fs@,
                        slice,
                        allocs.deep_view(),
                        j as int + 1,
                    );
                }
                return Err(e);
            },
        }
        end = fo + fsz;
        j = j + 1;
    }
    proof {
        assert(fs@.take(fs@.len() as int) =~= fs@);
    }
    Ok(out)
}

/// Decodes a region against a type, consuming the region: the contents of
/// the allocations move into the decoded value, and whatever the value does
/// not take over is released here, exactly once.
pub fn decode(t: &WireType, region: crate::wire::WireRegion) -> (r: Result<
    WireValue,
    crate::errors::BoundaryError,
>)
    requires
        type_ok(*t),
    ensures
        region.flat@.len() != size_of(*t) ==> r == Err::<WireValue, crate::errors::BoundaryError>(
            crate::errors::BoundaryError::MalformedEncoding,
        ),
        region.flat@.len() == size_of(*t) ==> match r {
            Ok(v) => dec(*t, region.flat@, region.allocs.deep_view()) == Some(v@),
            Err(e) => e == crate::errors::BoundaryError::MalformedEncoding && dec(
                *t,
                region.flat@,
                region.allocs.deep_view(),
            ) is None,
        },
{
    let sz = size_exec(t);
    if region.flat.len() != sz {
        return Err(crate::errors::BoundaryError::MalformedEncoding);
    }
    let r = decode_at(t, region.flat.as_slice(), 0, &region.allocs);
    proof {
        assert(region.flat@.subrange(0, size_of(*t) as int) =~= region.flat@);
    }
    r
}

} // verus!
