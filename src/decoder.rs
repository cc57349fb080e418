//! Reading values back from their inline wire form.
use crate::codec::{async_count, async_count_all, code_of, dec, dec_fields, dec_list, take_le, CodecError, MAX_FLAGS};
use crate::encoder::pow2_u64;
use crate::value::{lemma_view_seq, view_seq, Type, Val, Value};
use crate::wire::{lemma_le_val_bound, lemma_pow256_values, pow256, read_le};
use vstd::prelude::*;
use vstd::slice::{slice_subrange, slice_to_vec};
use vstd::utf8::{decode_utf8, valid_utf8};

verus! {

/// Relies on std's `char::from_u32`: it returns the character with the
/// given scalar value, and `None` where there is none.
#[verifier::external_body]
fn char_from_u32(i: u32) -> (r: Option<char>)
    ensures
        match r {
            Some(c) => code_of(c) == i as nat,
            None => forall|c: char| #[trigger] code_of(c) != i as nat,
        },
{
    char::from_u32(i)
}

/// Relies on std's `String::from_utf8`: it accepts exactly the bytes that
/// are valid UTF-8, and the string then holds the characters they encode.
#[verifier::external_body]
fn string_from_utf8(b: Vec<u8>) -> (r: Option<String>)
    ensures
        r is Some <==> valid_utf8(b@),
        r is Some ==> r->Some_0@ == decode_utf8(b@),
{
    String::from_utf8(b).ok()
}

proof fn lemma_view_seq_push(vs: Seq<Value>, v: Value)
    ensures
        view_seq(vs.push(v)) == view_seq(vs).push(v@),
{
    lemma_view_seq(vs);
    lemma_view_seq(vs.push(v));
    assert(view_seq(vs.push(v)) =~= view_seq(vs).push(v@));
}

/// The number in `w` bytes at `pos`, if there are that many.
fn take(b: &[u8], pos: usize, w: usize) -> (r: Option<u64>)
    requires
        w <= 8,
        pos <= b@.len(),
    ensures
        match r {
            Some(y) => take_le(b@, pos as nat, w as nat) == Some(y as nat) && pos + w <= b@.len()
                && (y as nat) < pow256(w as nat),
            None => take_le(b@, pos as nat, w as nat) is None,
        },
        b@.len() <= usize::MAX,
{
    if b.len() - pos < w {
        None
    } else {
        let y = read_le(b, pos, w);
        proof {
            lemma_le_val_bound(b@.subrange(pos as int, pos + w));
        }
        Some(y)
    }
}

/// Reads a value of type `t` at `pos`: the value and the position after it.
fn decode_at(b: &[u8], pos: usize, t: &Type) -> (r: Result<(Value, usize), CodecError>)
    requires
        pos <= b@.len(),
    ensures
        match r {
            Ok((v, q)) => dec(b@, pos as nat, *t) == Ok::<(Val, nat), CodecError>((v@, q as nat))
                && q <= b@.len(),
            Err(x) => dec(b@, pos as nat, *t) == Err::<(Val, nat), CodecError>(x),
        },
    decreases t, 1nat,
{
    proof {
        lemma_pow256_values();
    }
    match t {
        Type::Bool => match take(b, pos, 1) {
            None => Err(CodecError::Truncated),
            Some(y) => if y == 0 {
                Ok((Value::Bool(false), pos + 1))
            } else if y == 1 {
                Ok((Value::Bool(true), pos + 1))
            } else {
                Err(CodecError::InvalidDiscriminant)
            },
        },
        Type::U8 => match take(b, pos, 1) {
            None => Err(CodecError::Truncated),
            Some(y) => Ok((Value::U8(y as u8), pos + 1)),
        },
        Type::U16 => match take(b, pos, 2) {
            None => Err(CodecError::Truncated),
            Some(y) => Ok((Value::U16(#[verifier::truncate] (y as u16)), pos + 2)),
        },
        Type::U32 => match take(b, pos, 4) {
            None => Err(CodecError::Truncated),
            Some(y) => Ok((Value::U32(#[verifier::truncate] (y as u32)), pos + 4)),
        },
        Type::U64 => match take(b, pos, 8) {
            None => Err(CodecError::Truncated),
            Some(y) => Ok((Value::U64(y), pos + 8)),
        },
        Type::S8 => match take(b, pos, 1) {
            None => Err(CodecError::Truncated),
            Some(y) => Ok(
                (Value::S8(#[verifier::truncate] ((#[verifier::truncate] (y as u8)) as i8)), pos + 1),
            ),
        },
        Type::S16 => match take(b, pos, 2) {
            None => Err(CodecError::Truncated),
            Some(y) => Ok(
                (
                    Value::S16(#[verifier::truncate] ((#[verifier::truncate] (y as u16)) as i16)),
                    pos + 2,
                ),
            ),
        },
        Type::S32 => match take(b, pos, 4) {
            None => Err(CodecError::Truncated),
            Some(y) => Ok(
                (
                    Value::S32(#[verifier::truncate] ((#[verifier::truncate] (y as u32)) as i32)),
                    pos + 4,
                ),
            ),
        },
        Type::S64 => match take(b, pos, 8) {
            None => Err(CodecError::Truncated),
            Some(y) => Ok((Value::S64(#[verifier::truncate] (y as i64)), pos + 8)),
        },
        Type::Char => match take(b, pos, 4) {
            None => Err(CodecError::Truncated),
            Some(y) => match char_from_u32(y as u32) {
                Some(c) => {
                    proof {
                        let c2 = choose|c2: char| #[trigger] code_of(c2) == y as nat;
                        vstd::utf8::char_u32_cast(c, c as u32);
                        vstd::utf8::char_u32_cast(c2, c2 as u32);
                    }
                    Ok((Value::Char(c), pos + 4))
                },
                None => Err(CodecError::InvalidChar),
            },
        },
        Type::Str => match take(b, pos, 4) {
            None => Err(CodecError::Truncated),
            Some(n) => {
                let start = pos + 4;
                if ((b.len() - start) as u64) < n {
                    return Err(CodecError::Truncated);
                }
                let end = start + n as usize;
                let bytes = slice_to_vec(slice_subrange(b, start, end));
                match string_from_utf8(bytes) {
                    Some(s) => Ok((Value::Str(s), end)),
                    None => Err(CodecError::InvalidString),
                }
            },
        },
        Type::List(e) => match take(b, pos, 4) {
            None => Err(CodecError::Truncated),
            Some(n) => match decode_list(b, pos + 4, e, n) {
                Ok((vs, q)) => Ok((Value::List(vs), q)),
                Err(x) => Err(x),
            },
        },
        Type::Record(ts) | Type::Tuple(ts) => match decode_fields(b, pos, ts) {
            Ok((vs, q)) => Ok((Value::Record(vs), q)),
            Err(x) => Err(x),
        },
        Type::Variant(cs) => match take(b, pos, 4) {
            None => Err(CodecError::Truncated),
            Some(d) => {
                if d >= cs.len() as u64 {
                    return Err(CodecError::InvalidDiscriminant);
                }
                match &cs[d as usize] {
                    Some(pt) => decode_case(b, pos + 4, d as u32, pt),
                    None => Ok((Value::Variant(d as u32, None), pos + 4)),
                }
            },
        },
        Type::Enum(n) => match take(b, pos, 4) {
            None => Err(CodecError::Truncated),
            Some(d) => if d >= *n as u64 {
                Err(CodecError::InvalidDiscriminant)
            } else {
                Ok((Value::Variant(d as u32, None), pos + 4))
            },
        },
        Type::Opt(pt) => match take(b, pos, 4) {
            None => Err(CodecError::Truncated),
            Some(d) => if d == 0 {
                Ok((Value::Variant(0, None), pos + 4))
            } else if d == 1 {
                decode_case(b, pos + 4, 1, pt)
            } else {
                Err(CodecError::InvalidDiscriminant)
            },
        },
        Type::Res(ok, err) => match take(b, pos, 4) {
            None => Err(CodecError::Truncated),
            Some(d) => if d == 0 {
                match ok {
                    Some(pt) => decode_case(b, pos + 4, 0, pt),
                    None => Ok((Value::Variant(0, None), pos + 4)),
                }
            } else if d == 1 {
                match err {
                    Some(pt) => decode_case(b, pos + 4, 1, pt),
                    None => Ok((Value::Variant(1, None), pos + 4)),
                }
            } else {
                Err(CodecError::InvalidDiscriminant)
            },
        },
        Type::Flags(n) => {
            if *n > MAX_FLAGS {
                return Err(CodecError::Unsupported);
            }
            let w = ((*n as usize) + 7) / 8;
            match take(b, pos, w) {
                None => Err(CodecError::Truncated),
                Some(y) => if y >= pow2_u64(*n) {
                    Err(CodecError::InvalidDiscriminant)
                } else {
                    Ok((Value::Flags(y as u32), pos + w))
                },
            }
        },
        Type::Own => match take(b, pos, 8) {
            None => Err(CodecError::Truncated),
            Some(h) => Ok((Value::Own(h), pos + 8)),
        },
        Type::Borrow => match take(b, pos, 8) {
            None => Err(CodecError::Truncated),
            Some(h) => Ok((Value::Borrow(h), pos + 8)),
        },
        Type::Stream(_) | Type::Future(_) => match take(b, pos, 1) {
            None => Err(CodecError::Truncated),
            Some(y) => if y != 0 {
                Err(CodecError::InvalidDiscriminant)
            } else if matches!(t, Type::Stream(_)) {
                Ok((Value::Stream, pos + 1))
            } else {
                Ok((Value::Future, pos + 1))
            },
        },
    }
}

/// Reads the payload of case `d`, of type `pt`, at `pos`.
fn decode_case(b: &[u8], pos: usize, d: u32, pt: &Type) -> (r: Result<(Value, usize), CodecError>)
    requires
        pos <= b@.len(),
    ensures
        match r {
            Ok((v, q)) => crate::codec::case_val(d, dec(b@, pos as nat, *pt)) == Ok::<
                (Val, nat),
                CodecError,
            >((v@, q as nat)) && q <= b@.len(),
            Err(x) => crate::codec::case_val(d, dec(b@, pos as nat, *pt)) == Err::<
                (Val, nat),
                CodecError,
            >(x),
        },
    decreases pt, 2nat,
{
    match decode_at(b, pos, pt) {
        Ok((v, q)) => Ok((Value::Variant(d, Some(Box::new(v))), q)),
        Err(x) => Err(x),
    }
}

/// Reads `n` values of type `e` at `pos`.
fn decode_list(b: &[u8], pos: usize, e: &Type, n: u64) -> (r: Result<(Vec<Value>, usize), CodecError>)
    requires
        pos <= b@.len(),
    ensures
        match r {
            Ok((vs, q)) => dec_list(b@, pos as nat, *e, n as nat, Seq::empty()) == Ok::<
                (Seq<Val>, nat),
                CodecError,
            >((view_seq(vs@), q as nat)) && q <= b@.len(),
            Err(x) => dec_list(b@, pos as nat, *e, n as nat, Seq::empty()) == Err::<
                (Seq<Val>, nat),
                CodecError,
            >(x),
        },
    decreases e, 2nat,
{
    let mut out: Vec<Value> = Vec::new();
    let mut p = pos;
    let mut i: u64 = 0;
    proof {
        lemma_view_seq(out@);
        assert(view_seq(out@) =~= Seq::<Val>::empty());
    }
    while i < n
        invariant
            i <= n,
            p <= b@.len(),
            dec_list(b@, pos as nat, *e, n as nat, Seq::empty()) == dec_list(
                b@,
                p as nat,
                *e,
                (n - i) as nat,
                view_seq(out@),
            ),
        decreases n - i,
    {
        match decode_at(b, p, e) {
            Ok((v, q)) => {
                proof {
                    lemma_view_seq_push(out@, v);
                }
                out.push(v);
                p = q;
            },
            Err(x) => {
                return Err(x);
            },
        }
        i = i + 1;
    }
    Ok((out, p))
}

/// Reads values of the types `ts`, one after another, at `pos`.
fn decode_fields(b: &[u8], pos: usize, ts: &Vec<Type>) -> (r: Result<(Vec<Value>, usize), CodecError>)
    requires
        pos <= b@.len(),
    ensures
        match r {
            Ok((vs, q)) => dec_fields(b@, pos as nat, ts@, Seq::empty()) == Ok::<
                (Seq<Val>, nat),
                CodecError,
            >((view_seq(vs@), q as nat)) && q <= b@.len(),
            Err(x) => dec_fields(b@, pos as nat, ts@, Seq::empty()) == Err::<
                (Seq<Val>, nat),
                CodecError,
            >(x),
        },
    decreases ts, 3nat,
{
    let mut out: Vec<Value> = Vec::new();
    let mut p = pos;
    let mut i: usize = 0;
    proof {
        lemma_view_seq(out@);
        assert(view_seq(out@) =~= Seq::<Val>::empty());
        assert(ts@.skip(0) =~= ts@);
    }
    while i < ts.len()
        invariant
            i <= ts@.len(),
            p <= b@.len(),
            dec_fields(b@, pos as nat, ts@, Seq::empty()) == dec_fields(
                b@,
                p as nat,
                ts@.skip(i as int),
                view_seq(out@),
            ),
        decreases ts@.len() - i,
    {
        let ghost rest = ts@.skip(i as int);
        assert(rest.drop_first() =~= ts@.skip(i + 1));
        assert(rest[0] == ts@[i as int]);
        match decode_at(b, p, &ts[i]) {
            Ok((v, q)) => {
                proof {
                    lemma_view_seq_push(out@, v);
                }
                out.push(v);
                p = q;
            },
            Err(x) => {
                return Err(x);
            },
        }
        i = i + 1;
    }
    assert(ts@.skip(i as int) =~= Seq::<Type>::empty());
    Ok((out, p))
}

/// `x`, or `u64::MAX` where `x` is larger.
pub open spec fn clamp(x: nat) -> nat {
    if x > u64::MAX {
        u64::MAX as nat
    } else {
        x
    }
}

/// The number of subchannels that `v` needs (saturating at `u64::MAX`).
pub fn subchannel_count(v: &Value) -> (r: u64)
    ensures
        r as nat == clamp(async_count(v@)),
    decreases v,
{
    match v {
        Value::Stream | Value::Future => 1,
        Value::List(vs) | Value::Record(vs) => subchannel_count_all(vs),
        Value::Variant(_, Some(p)) => subchannel_count(p),
        _ => 0,
    }
}

/// The number of subchannels that the values `vs` need together
/// (saturating at `u64::MAX`).
fn subchannel_count_all(vs: &Vec<Value>) -> (r: u64)
    ensures
        r as nat == clamp(async_count_all(view_seq(vs@))),
    decreases vs,
{
    let ghost ms = view_seq(vs@);
    let ghost mut sum: nat = 0;
    proof {
        lemma_view_seq(vs@);
        assert(ms.skip(0) =~= ms);
    }
    let mut acc: u64 = 0;
    let mut i: usize = 0;
    while i < vs.len()
        invariant
            i <= vs@.len(),
            ms == view_seq(vs@),
            ms.len() == vs@.len(),
            forall|k: int| 0 <= k < vs@.len() ==> #[trigger] ms[k] == vs@[k]@,
            async_count_all(ms) == sum + async_count_all(ms.skip(i as int)),
            acc as nat == clamp(sum),
        decreases vs@.len() - i,
    {
        let ghost rest = ms.skip(i as int);
        assert(rest.drop_first() =~= ms.skip(i + 1));
        assert(rest[0] == vs@[i as int]@);
        let c = subchannel_count(&vs[i]);
        acc = if acc > u64::MAX - c {
            u64::MAX
        } else {
            acc + c
        };
        proof {
            sum = sum + async_count(vs@[i as int]@);
        }
        i = i + 1;
    }
    assert(ms.skip(i as int) =~= Seq::<Val>::empty());
    acc
}

/// Decodes a whole invocation payload: the value of type `t` that the
/// inline bytes `b` start with, where `channels` subchannels came with them.
///
/// Fails as the wire form says (see [`dec`]), and with
/// [`CodecError::Truncated`] where the value needs another number of
/// subchannels than `channels`.
pub fn decode(b: &[u8], t: &Type, channels: u64) -> (r: Result<Value, CodecError>)
    ensures
        match dec(b@, 0, *t) {
            Ok((m, _)) => if clamp(async_count(m)) == channels as nat {
                r is Ok && r->Ok_0@ == m
            } else {
                r == Err::<Value, CodecError>(CodecError::Truncated)
            },
            Err(x) => r == Err::<Value, CodecError>(x),
        },
{
    match decode_at(b, 0, t) {
        Ok((v, _)) => if subchannel_count(&v) != channels {
            Err(CodecError::Truncated)
        } else {
            Ok(v)
        },
        Err(x) => Err(x),
    }
}

} // verus!
