//! Writing values in their inline wire form.
use crate::codec::{
    conforms, conforms_all, conforms_fields, enc, enc_all, enc_fields, flag_bytes, CodecError,
    MAX_FLAGS,
};
use crate::value::{lemma_view_seq, view_seq, Type, Val, Value};
use crate::wire::{lemma_pow256_values, lemma_pow2_monotone, pow2, push_le};
use vstd::prelude::*;
use vstd::utf8::encode_utf8;

verus! {

/// `2` to the power `n`, for at most 32.
pub fn pow2_u64(n: u32) -> (r: u64)
    requires
        n <= 32,
    ensures
        r as nat == pow2(n as nat),
{
    let mut r: u64 = 1;
    let mut i: u32 = 0;
    while i < n
        invariant
            i <= n <= 32,
            r as nat == pow2(i as nat),
            r <= 0x1_0000_0000,
        decreases n - i,
    {
        proof {
            lemma_pow2_bound(i as nat);
        }
        r = r * 2;
        i = i + 1;
    }
    r
}

proof fn lemma_pow2_bound(i: nat)
    requires
        i < 32,
    ensures
        pow2(i) <= 0x8000_0000,
{
    lemma_pow2_monotone(i, 31);
    reveal_with_fuel(pow2, 32);
}

fn append_bytes(out: &mut Vec<u8>, b: &[u8])
    ensures
        final(out)@ == old(out)@ + b@,
{
    let mut i: usize = 0;
    while i < b.len()
        invariant
            i <= b@.len(),
            out@ == old(out)@ + b@.subrange(0, i as int),
        decreases b@.len() - i,
    {
        out.push(b[i]);
        assert(b@.subrange(0, i + 1) =~= b@.subrange(0, i as int).push(b@[i as int]));
        i = i + 1;
    }
    assert(b@.subrange(0, b@.len() as int) =~= b@);
}

/// Appends the wire form of `v` as a value of type `t`; `false` where `v`
/// is no such value (and `out` then holds what was written before it was
/// found out).
fn encode_into(v: &Value, t: &Type, out: &mut Vec<u8>) -> (ok: bool)
    ensures
        ok == conforms(v@, *t),
        ok ==> final(out)@ == old(out)@ + enc(v@, *t),
    decreases t, 1nat,
{
    proof {
        lemma_pow256_values();
    }
    match (t, v) {
        (Type::Bool, Value::Bool(x)) => {
            out.push(if *x { 1u8 } else { 0u8 });
            true
        },
        (Type::U8, Value::U8(x)) => {
            push_le(out, *x as u64, 1);
            true
        },
        (Type::U16, Value::U16(x)) => {
            push_le(out, *x as u64, 2);
            true
        },
        (Type::U32, Value::U32(x)) => {
            push_le(out, *x as u64, 4);
            true
        },
        (Type::U64, Value::U64(x)) => {
            push_le(out, *x, 8);
            true
        },
        (Type::S8, Value::S8(x)) => {
            push_le(out, (#[verifier::truncate] (*x as u8)) as u64, 1);
            true
        },
        (Type::S16, Value::S16(x)) => {
            push_le(out, (#[verifier::truncate] (*x as u16)) as u64, 2);
            true
        },
        (Type::S32, Value::S32(x)) => {
            push_le(out, (#[verifier::truncate] (*x as u32)) as u64, 4);
            true
        },
        (Type::S64, Value::S64(x)) => {
            push_le(out, #[verifier::truncate] (*x as u64), 8);
            true
        },
        (Type::Char, Value::Char(c)) => {
            push_le(out, (*c as u32) as u64, 4);
            true
        },
        (Type::Str, Value::Str(s)) => {
            let b = s.as_str().as_bytes();
            assert(b@ == encode_utf8(s@));
            if b.len() > 0xFFFF_FFFF {
                return false;
            }
            push_le(out, b.len() as u64, 4);
            append_bytes(out, b);
            assert(out@ =~= old(out)@ + enc(v@, *t));
            true
        },
        (Type::List(e), Value::List(vs)) => {
            proof {
                lemma_view_seq(vs@);
            }
            if vs.len() > 0xFFFF_FFFF {
                return false;
            }
            push_le(out, vs.len() as u64, 4);
            let ok = encode_all(vs, e, out);
            assert(ok ==> out@ =~= old(out)@ + enc(v@, *t));
            ok
        },
        (Type::Record(ts), Value::Record(vs)) | (Type::Tuple(ts), Value::Record(vs)) => {
            encode_fields(vs, ts, out)
        },
        (Type::Variant(cs), Value::Variant(d, p)) => {
            if *d as usize >= cs.len() {
                return false;
            }
            push_le(out, *d as u64, 4);
            let ghost mid = out@;
            match (&cs[*d as usize], p) {
                (Some(pt), Some(pv)) => {
                    if !encode_into(pv, pt, out) {
                        return false;
                    }
                },
                (None, None) => {},
                _ => {
                    return false;
                },
            }
            assert(out@ =~= old(out)@ + enc(v@, *t));
            true
        },
        (Type::Enum(n), Value::Variant(d, p)) => {
            if *d >= *n || p.is_some() {
                return false;
            }
            push_le(out, *d as u64, 4);
            true
        },
        (Type::Opt(pt), Value::Variant(d, p)) => {
            if *d == 0 {
                if p.is_some() {
                    return false;
                }
                push_le(out, 0, 4);
                assert(out@ =~= old(out)@ + enc(v@, *t));
                true
            } else if *d == 1 {
                match p {
                    Some(pv) => {
                        push_le(out, 1, 4);
                        if !encode_into(pv, pt, out) {
                            return false;
                        }
                        assert(out@ =~= old(out)@ + enc(v@, *t));
                        true
                    },
                    None => false,
                }
            } else {
                false
            }
        },
        (Type::Res(ok, err), Value::Variant(d, p)) => {
            if *d > 1 {
                return false;
            }
            let pt = if *d == 0 {
                ok
            } else {
                err
            };
            push_le(out, *d as u64, 4);
            match (pt, p) {
                (Some(pt), Some(pv)) => {
                    if !encode_into(pv, pt, out) {
                        return false;
                    }
                },
                (None, None) => {},
                _ => {
                    return false;
                },
            }
            assert(out@ =~= old(out)@ + enc(v@, *t));
            true
        },
        (Type::Flags(n), Value::Flags(bits)) => {
            if *n > MAX_FLAGS || *bits as u64 >= pow2_u64(*n) {
                return false;
            }
            push_le(out, *bits as u64, ((*n as usize) + 7) / 8);
            true
        },
        (Type::Own, Value::Own(h)) => {
            push_le(out, *h, 8);
            true
        },
        (Type::Borrow, Value::Borrow(h)) => {
            push_le(out, *h, 8);
            true
        },
        (Type::Stream(_), Value::Stream) | (Type::Future(_), Value::Future) => {
            out.push(0u8);
            true
        },
        _ => false,
    }
}

/// Appends the wire forms of the values `vs` as values of type `e`.
fn encode_all(vs: &Vec<Value>, e: &Type, out: &mut Vec<u8>) -> (ok: bool)
    ensures
        ok == conforms_all(view_seq(vs@), *e),
        ok ==> final(out)@ == old(out)@ + enc_all(view_seq(vs@), *e),
    decreases e, 2nat,
{
    let ghost ms = view_seq(vs@);
    proof {
        lemma_view_seq(vs@);
        assert(ms.skip(0) =~= ms);
    }
    let mut i: usize = 0;
    while i < vs.len()
        invariant
            i <= vs@.len(),
            ms == view_seq(vs@),
            ms.len() == vs@.len(),
            forall|k: int| 0 <= k < vs@.len() ==> #[trigger] ms[k] == vs@[k]@,
            out@ + enc_all(ms.skip(i as int), *e) == old(out)@ + enc_all(ms, *e),
            conforms_all(ms, *e) == conforms_all(ms.skip(i as int), *e),
        decreases vs@.len() - i,
    {
        let ghost before = out@;
        let ghost rest = ms.skip(i as int);
        assert(rest.drop_first() =~= ms.skip(i + 1));
        assert(rest[0] == vs@[i as int]@);
        if !encode_into(&vs[i], e, out) {
            assert(!conforms_all(rest, *e));
            return false;
        }
        assert(out@ + enc_all(ms.skip(i + 1), *e) =~= before + enc_all(rest, *e));
        i = i + 1;
    }
    assert(ms.skip(i as int) =~= Seq::<Val>::empty());
    assert(out@ =~= out@ + enc_all(ms.skip(i as int), *e));
    true
}

/// Appends the wire forms of the values `vs` as values of the types `ts`,
/// one for one.
fn encode_fields(vs: &Vec<Value>, ts: &Vec<Type>, out: &mut Vec<u8>) -> (ok: bool)
    ensures
        ok == conforms_fields(view_seq(vs@), ts@),
        ok ==> final(out)@ == old(out)@ + enc_fields(view_seq(vs@), ts@),
    decreases ts, 2nat,
{
    let ghost ms = view_seq(vs@);
    proof {
        lemma_view_seq(vs@);
        assert(ms.skip(0) =~= ms);
        assert(ts@.skip(0) =~= ts@);
    }
    if vs.len() != ts.len() {
        assert(!conforms_fields(ms, ts@));
        return false;
    }
    let mut i: usize = 0;
    while i < vs.len()
        invariant
            i <= vs@.len(),
            vs@.len() == ts@.len(),
            ms == view_seq(vs@),
            ms.len() == vs@.len(),
            forall|k: int| 0 <= k < vs@.len() ==> #[trigger] ms[k] == vs@[k]@,
            out@ + enc_fields(ms.skip(i as int), ts@.skip(i as int)) == old(out)@ + enc_fields(
                ms,
                ts@,
            ),
            conforms_fields(ms, ts@) == conforms_fields(ms.skip(i as int), ts@.skip(i as int)),
        decreases vs@.len() - i,
    {
        let ghost before = out@;
        let ghost rest = ms.skip(i as int);
        let ghost trest = ts@.skip(i as int);
        assert(rest.drop_first() =~= ms.skip(i + 1));
        assert(trest.drop_first() =~= ts@.skip(i + 1));
        assert(rest[0] == vs@[i as int]@);
        assert(trest[0] == ts@[i as int]);
        if !encode_into(&vs[i], &ts[i], out) {
            assert(!conforms_fields(rest, trest));
            return false;
        }
        assert(out@ + enc_fields(ms.skip(i + 1), ts@.skip(i + 1)) =~= before + enc_fields(
            rest,
            trest,
        ));
        i = i + 1;
    }
    assert(ms.skip(i as int) =~= Seq::<Val>::empty());
    assert(ts@.skip(i as int) =~= Seq::<Type>::empty());
    assert(out@ =~= out@ + enc_fields(ms.skip(i as int), ts@.skip(i as int)));
    true
}

/// The inline wire form of `v` as a value of type `t`.
///
/// Fails with [`CodecError::TypeMismatch`] exactly where `v` is no value of
/// type `t` that the wire form can carry.
pub fn encode(v: &Value, t: &Type) -> (r: Result<Vec<u8>, CodecError>)
    ensures
        r is Ok <==> conforms(v@, *t),
        r is Ok ==> r->Ok_0@ == enc(v@, *t),
        r is Err ==> r->Err_0 == CodecError::TypeMismatch,
{
    let mut out: Vec<u8> = Vec::new();
    if encode_into(v, t, &mut out) {
        assert(out@ =~= enc(v@, *t));
        Ok(out)
    } else {
        Err(CodecError::TypeMismatch)
    }
}

} // verus!
