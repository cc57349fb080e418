//! The inline wire form of values, driven by their declared type.
//!
//! Scalars take a fixed number of little-endian bytes; strings and lists a
//! 4-byte count followed by their bytes or members; records and tuples their
//! members in order; variants, enums, options and results a 4-byte
//! discriminant followed by the payload of the active case; flags the least
//! number of bytes that holds every declared bit; resource handles 8 bytes;
//! streams and futures a single zero byte that marks their subchannel.
use crate::value::{Type, Val};
use crate::wire::{
    lemma_le_round_trip, lemma_pow256_pow2, lemma_pow256_values, lemma_pow2_monotone, le_bytes,
    le_val, pow2, pow256,
};
use vstd::prelude::*;
use vstd::utf8::{
    char_u32_cast, decode_utf8, encode_utf8, encode_utf8_decode_utf8, encode_utf8_valid_utf8, valid_utf8,
};

verus! {

/// Why bytes could not be read as a value of a type, or a value could not
/// be written as one.
#[derive(Clone, Copy, Debug, PartialEq, Eq, Structural)]
pub enum CodecError {
    /// The input ends before the type is complete, or the number of
    /// subchannels differs from what the type declares.
    Truncated,
    /// A discriminant names no declared case, or a marker or flag byte holds
    /// a value that the type does not allow.
    InvalidDiscriminant,
    /// Four bytes that should hold a character hold no Unicode scalar value.
    InvalidChar,
    /// The bytes of a string are not UTF-8.
    InvalidString,
    /// The type lies outside what the wire form covers (flags beyond 32).
    Unsupported,
    /// The value does not have the declared type, or a string or list is
    /// longer than a 4-byte count can say.
    TypeMismatch,
}

/// The most flags a type may declare.
pub const MAX_FLAGS: u32 = 32;

/// The number of bytes that `n` flags take.
pub open spec fn flag_bytes(n: nat) -> nat {
    (n + 7) / 8
}

/// The Unicode scalar value of a character.
pub open spec fn code_of(c: char) -> nat {
    c as u32 as nat
}

/// The number of bytes of an integer type, `0` for any other type.
pub open spec fn int_width(t: Type) -> nat {
    match t {
        Type::U8 | Type::S8 => 1,
        Type::U16 | Type::S16 => 2,
        Type::U32 | Type::S32 => 4,
        Type::U64 | Type::S64 => 8,
        _ => 0,
    }
}

/// Whether `m` is an integer of type `t`.
pub open spec fn is_int_of(m: Val, t: Type) -> bool {
    match (m, t) {
        (Val::U8(_), Type::U8) => true,
        (Val::U16(_), Type::U16) => true,
        (Val::U32(_), Type::U32) => true,
        (Val::U64(_), Type::U64) => true,
        (Val::S8(_), Type::S8) => true,
        (Val::S16(_), Type::S16) => true,
        (Val::S32(_), Type::S32) => true,
        (Val::S64(_), Type::S64) => true,
        _ => false,
    }
}

/// The two's complement bits of an integer.
pub open spec fn int_bits(m: Val) -> nat {
    match m {
        Val::U8(x) => x as nat,
        Val::U16(x) => x as nat,
        Val::U32(x) => x as nat,
        Val::U64(x) => x as nat,
        Val::S8(x) => (x as u8) as nat,
        Val::S16(x) => (x as u16) as nat,
        Val::S32(x) => (x as u32) as nat,
        Val::S64(x) => (x as u64) as nat,
        _ => 0,
    }
}

/// The integer of type `t` with the given two's complement bits.
pub open spec fn int_of_bits(t: Type, y: u64) -> Val {
    match t {
        Type::U8 => Val::U8(y as u8),
        Type::U16 => Val::U16(y as u16),
        Type::U32 => Val::U32(y as u32),
        Type::U64 => Val::U64(y),
        Type::S8 => Val::S8((y as u8) as i8),
        Type::S16 => Val::S16((y as u16) as i16),
        Type::S32 => Val::S32((y as u32) as i32),
        _ => Val::S64(y as i64),
    }
}

/// The payload a case carries, wrapped into a variant value.
pub open spec fn case_val(d: u32, r: Result<(Val, nat), CodecError>) -> Result<(Val, nat), CodecError> {
    match r {
        Ok((m, q)) => Ok((Val::Variant(d, Some(Box::new(m))), q)),
        Err(e) => Err(e),
    }
}

/// Whether `m` is a value of type `t` that the wire form can carry.
pub open spec fn conforms(m: Val, t: Type) -> bool
    decreases t, 0nat,
{
    match t {
        Type::Bool => m is Bool,
        Type::Char => m is Char,
        Type::Str => m is Str && encode_utf8(m->Str_0).len() <= u32::MAX,
        Type::List(e) => m is List && m->List_0.len() <= u32::MAX && conforms_all(m->List_0, *e),
        Type::Record(ts) | Type::Tuple(ts) => m is Record && conforms_fields(m->Record_0, ts@),
        Type::Variant(cs) => match m {
            Val::Variant(d, p) => d < cs.len() && match (cs@[d as int], p) {
                (Some(pt), Some(pv)) => conforms(*pv, pt),
                (None, None) => true,
                _ => false,
            },
            _ => false,
        },
        Type::Enum(n) => match m {
            Val::Variant(d, p) => d < n && p is None,
            _ => false,
        },
        Type::Opt(pt) => match m {
            Val::Variant(d, p) => (d == 0 && p is None) || (d == 1 && match p {
                Some(pv) => conforms(*pv, *pt),
                None => false,
            }),
            _ => false,
        },
        Type::Res(ok, err) => match m {
            Val::Variant(d, p) => (d == 0 && match (ok, p) {
                (Some(pt), Some(pv)) => conforms(*pv, *pt),
                (None, None) => true,
                _ => false,
            }) || (d == 1 && match (err, p) {
                (Some(pt), Some(pv)) => conforms(*pv, *pt),
                (None, None) => true,
                _ => false,
            }),
            _ => false,
        },
        Type::Flags(n) => n <= MAX_FLAGS && match m {
            Val::Flags(bits) => bits < pow2(n as nat),
            _ => false,
        },
        Type::Own => m is Own,
        Type::Borrow => m is Borrow,
        Type::Stream(_) => m is Stream,
        Type::Future(_) => m is Future,
        _ => is_int_of(m, t),
    }
}

/// Whether every member of `ms` is a value of type `e`.
pub open spec fn conforms_all(ms: Seq<Val>, e: Type) -> bool
    decreases e, ms.len(),
{
    if ms.len() == 0 {
        true
    } else {
        conforms(ms[0], e) && conforms_all(ms.drop_first(), e)
    }
}

/// Whether `ms` are values of the types `ts`, one for one.
pub open spec fn conforms_fields(ms: Seq<Val>, ts: Seq<Type>) -> bool
    decreases ts, 0nat,
{
    if ts.len() == 0 {
        ms.len() == 0
    } else {
        ms.len() == ts.len() && conforms(ms[0], ts[0]) && conforms_fields(
            ms.drop_first(),
            ts.drop_first(),
        )
    }
}

/// The inline wire form of a value `m` of type `t`.
pub open spec fn enc(m: Val, t: Type) -> Seq<u8>
    decreases t, 1nat,
{
    match t {
        Type::Bool => seq![if m->Bool_0 { 1u8 } else { 0u8 }],
        Type::Char => le_bytes(code_of(m->Char_0), 4),
        Type::Str => le_bytes(encode_utf8(m->Str_0).len(), 4) + encode_utf8(m->Str_0),
        Type::List(e) => le_bytes(m->List_0.len(), 4) + enc_all(m->List_0, *e),
        Type::Record(ts) | Type::Tuple(ts) => enc_fields(m->Record_0, ts@),
        Type::Variant(cs) => le_bytes(m->Variant_0 as nat, 4) + if m->Variant_0 < cs.len() {
            match cs@[m->Variant_0 as int] {
                Some(pt) => match m->Variant_1 {
                    Some(pv) => enc(*pv, pt),
                    None => Seq::empty(),
                },
                None => Seq::empty(),
            }
        } else {
            Seq::empty()
        },
        Type::Enum(_) => le_bytes(m->Variant_0 as nat, 4),
        Type::Opt(pt) => le_bytes(m->Variant_0 as nat, 4) + match m->Variant_1 {
            Some(pv) => enc(*pv, *pt),
            None => Seq::empty(),
        },
        Type::Res(ok, err) => le_bytes(m->Variant_0 as nat, 4) + if m->Variant_0 == 0 {
            match (ok, m->Variant_1) {
                (Some(pt), Some(pv)) => enc(*pv, *pt),
                _ => Seq::empty(),
            }
        } else {
            match (err, m->Variant_1) {
                (Some(pt), Some(pv)) => enc(*pv, *pt),
                _ => Seq::empty(),
            }
        },
        Type::Flags(n) => le_bytes(m->Flags_0 as nat, flag_bytes(n as nat)),
        Type::Own => le_bytes(m->Own_0 as nat, 8),
        Type::Borrow => le_bytes(m->Borrow_0 as nat, 8),
        Type::Stream(_) | Type::Future(_) => seq![0u8],
        _ => le_bytes(int_bits(m), int_width(t)),
    }
}

/// The wire forms of values of type `e`, one after another.
pub open spec fn enc_all(ms: Seq<Val>, e: Type) -> Seq<u8>
    decreases e, ms.len() + 2,
{
    if ms.len() == 0 {
        Seq::empty()
    } else {
        enc(ms[0], e) + enc_all(ms.drop_first(), e)
    }
}

/// The wire forms of values of the types `ts`, one after another.
pub open spec fn enc_fields(ms: Seq<Val>, ts: Seq<Type>) -> Seq<u8>
    decreases ts, 1nat,
{
    if ts.len() == 0 || ms.len() == 0 {
        Seq::empty()
    } else {
        enc(ms[0], ts[0]) + enc_fields(ms.drop_first(), ts.drop_first())
    }
}

/// Reads the number in `w` bytes at `p`, if there are that many.
pub open spec fn take_le(s: Seq<u8>, p: nat, w: nat) -> Option<nat> {
    if p + w <= s.len() {
        Some(le_val(s.subrange(p as int, (p + w) as int)))
    } else {
        None
    }
}

/// Reads a value of type `t` from `s` at `p`: the value and the position
/// after it.
pub open spec fn dec(s: Seq<u8>, p: nat, t: Type) -> Result<(Val, nat), CodecError>
    decreases t, 1nat,
{
    match t {
        Type::Bool => match take_le(s, p, 1) {
            None => Err(CodecError::Truncated),
            Some(y) => if y == 0 {
                Ok((Val::Bool(false), p + 1))
            } else if y == 1 {
                Ok((Val::Bool(true), p + 1))
            } else {
                Err(CodecError::InvalidDiscriminant)
            },
        },
        Type::Char => match take_le(s, p, 4) {
            None => Err(CodecError::Truncated),
            Some(y) => if exists|c: char| #[trigger] code_of(c) == y {
                Ok((Val::Char(choose|c: char| #[trigger] code_of(c) == y), p + 4))
            } else {
                Err(CodecError::InvalidChar)
            },
        },
        Type::Str => match take_le(s, p, 4) {
            None => Err(CodecError::Truncated),
            Some(n) => if p + 4 + n > s.len() {
                Err(CodecError::Truncated)
            } else if !valid_utf8(s.subrange((p + 4) as int, (p + 4 + n) as int)) {
                Err(CodecError::InvalidString)
            } else {
                Ok((Val::Str(decode_utf8(s.subrange((p + 4) as int, (p + 4 + n) as int))), p + 4 + n))
            },
        },
        Type::List(e) => match take_le(s, p, 4) {
            None => Err(CodecError::Truncated),
            Some(n) => match dec_list(s, p + 4, *e, n, Seq::empty()) {
                Ok((ms, q)) => Ok((Val::List(ms), q)),
                Err(x) => Err(x),
            },
        },
        Type::Record(ts) | Type::Tuple(ts) => match dec_fields(s, p, ts@, Seq::empty()) {
            Ok((ms, q)) => Ok((Val::Record(ms), q)),
            Err(x) => Err(x),
        },
        Type::Variant(cs) => match take_le(s, p, 4) {
            None => Err(CodecError::Truncated),
            Some(d) => if d >= cs.len() {
                Err(CodecError::InvalidDiscriminant)
            } else {
                match cs@[d as int] {
                    Some(pt) => case_val(d as u32, dec(s, p + 4, pt)),
                    None => Ok((Val::Variant(d as u32, None), p + 4)),
                }
            },
        },
        Type::Enum(n) => match take_le(s, p, 4) {
            None => Err(CodecError::Truncated),
            Some(d) => if d >= n {
                Err(CodecError::InvalidDiscriminant)
            } else {
                Ok((Val::Variant(d as u32, None), p + 4))
            },
        },
        Type::Opt(pt) => match take_le(s, p, 4) {
            None => Err(CodecError::Truncated),
            Some(d) => if d == 0 {
                Ok((Val::Variant(0, None), p + 4))
            } else if d == 1 {
                case_val(1, dec(s, p + 4, *pt))
            } else {
                Err(CodecError::InvalidDiscriminant)
            },
        },
        Type::Res(ok, err) => match take_le(s, p, 4) {
            None => Err(CodecError::Truncated),
            Some(d) => if d == 0 {
                match ok {
                    Some(pt) => case_val(0, dec(s, p + 4, *pt)),
                    None => Ok((Val::Variant(0, None), p + 4)),
                }
            } else if d == 1 {
                match err {
                    Some(pt) => case_val(1, dec(s, p + 4, *pt)),
                    None => Ok((Val::Variant(1, None), p + 4)),
                }
            } else {
                Err(CodecError::InvalidDiscriminant)
            },
        },
        Type::Flags(n) => if n > MAX_FLAGS {
            Err(CodecError::Unsupported)
        } else {
            match take_le(s, p, flag_bytes(n as nat)) {
                None => Err(CodecError::Truncated),
                Some(y) => if y >= pow2(n as nat) {
                    Err(CodecError::InvalidDiscriminant)
                } else {
                    Ok((Val::Flags(y as u32), p + flag_bytes(n as nat)))
                },
            }
        },
        Type::Own => match take_le(s, p, 8) {
            None => Err(CodecError::Truncated),
            Some(h) => Ok((Val::Own(h as u64), p + 8)),
        },
        Type::Borrow => match take_le(s, p, 8) {
            None => Err(CodecError::Truncated),
            Some(h) => Ok((Val::Borrow(h as u64), p + 8)),
        },
        Type::Stream(_) | Type::Future(_) => match take_le(s, p, 1) {
            None => Err(CodecError::Truncated),
            Some(y) => if y != 0 {
                Err(CodecError::InvalidDiscriminant)
            } else if t is Stream {
                Ok((Val::Stream, p + 1))
            } else {
                Ok((Val::Future, p + 1))
            },
        },
        _ => match take_le(s, p, int_width(t)) {
            None => Err(CodecError::Truncated),
            Some(y) => Ok((int_of_bits(t, y as u64), p + int_width(t))),
        },
    }
}

/// Reads `n` values of type `e` from `s` at `p`, after those already read
/// into `acc`.
pub open spec fn dec_list(s: Seq<u8>, p: nat, e: Type, n: nat, acc: Seq<Val>) -> Result<
    (Seq<Val>, nat),
    CodecError,
>
    decreases e, n + 1,
{
    if n == 0 {
        Ok((acc, p))
    } else {
        match dec(s, p, e) {
            Ok((m, q)) => dec_list(s, q, e, (n - 1) as nat, acc.push(m)),
            Err(x) => Err(x),
        }
    }
}

/// Reads values of the types `ts` from `s` at `p`, after those already
/// read into `acc`.
pub open spec fn dec_fields(s: Seq<u8>, p: nat, ts: Seq<Type>, acc: Seq<Val>) -> Result<
    (Seq<Val>, nat),
    CodecError,
>
    decreases ts, 2nat,
{
    if ts.len() == 0 {
        Ok((acc, p))
    } else {
        match dec(s, p, ts[0]) {
            Ok((m, q)) => dec_fields(s, q, ts.drop_first(), acc.push(m)),
            Err(x) => Err(x),
        }
    }
}

proof fn lemma_take_le(s: Seq<u8>, p: nat, x: nat, w: nat)
    requires
        x < pow256(w),
        p + w <= s.len(),
        s.subrange(p as int, (p + w) as int) == le_bytes(x, w),
    ensures
        take_le(s, p, w) == Some(x),
{
    lemma_le_round_trip(x, w);
}

proof fn lemma_one_byte(b: u8)
    ensures
        le_val(seq![b]) == b as nat,
{
    reveal_with_fuel(le_val, 2);
    assert(seq![b].drop_first() =~= Seq::<u8>::empty());
}

/// Where `a + b` stands at `p`, `a` stands at `p` and `b` right after it.
proof fn lemma_split(s: Seq<u8>, p: nat, a: Seq<u8>, b: Seq<u8>)
    requires
        p + a.len() + b.len() <= s.len(),
        s.subrange(p as int, (p + (a + b).len()) as int) == a + b,
    ensures
        s.subrange(p as int, (p + a.len()) as int) == a,
        s.subrange((p + a.len()) as int, (p + a.len() + b.len()) as int) == b,
{
    assert(s.subrange(p as int, (p + a.len()) as int) =~= (a + b).subrange(0, a.len() as int));
    assert(s.subrange((p + a.len()) as int, (p + a.len() + b.len()) as int) =~= (a + b).subrange(
        a.len() as int,
        (a.len() + b.len()) as int,
    ));
    assert((a + b).subrange(0, a.len() as int) =~= a);
    assert((a + b).subrange(a.len() as int, (a.len() + b.len()) as int) =~= b);
}

proof fn lemma_int_round_trip(m: Val, t: Type)
    requires
        is_int_of(m, t),
    ensures
        int_bits(m) < pow256(int_width(t)),
        int_of_bits(t, int_bits(m) as u64) == m,
{
    lemma_pow256_values();
    match m {
        Val::S8(x) => {
            assert((x as u8) as i8 == x) by (bit_vector);
        },
        Val::S16(x) => {
            assert((x as u16) as i16 == x) by (bit_vector);
        },
        Val::S32(x) => {
            assert((x as u32) as i32 == x) by (bit_vector);
        },
        Val::S64(x) => {
            assert((x as u64) as i64 == x) by (bit_vector);
        },
        _ => {},
    }
}

proof fn lemma_flags_fit(bits: u32, n: u32)
    requires
        bits < pow2(n as nat),
    ensures
        (bits as nat) < pow256(flag_bytes(n as nat)),
{
    let k = flag_bytes(n as nat);
    assert(n <= 8 * k) by (nonlinear_arith)
        requires
            k == (n + 7) / 8,
    ;
    lemma_pow2_monotone(n as nat, 8 * k);
    lemma_pow256_pow2(k);
}

/// What a case payload reads back as, where its wire form stands at `p`.
proof fn lemma_case(s: Seq<u8>, p: nat, d: u32, pv: Box<Val>, pt: Type)
    requires
        conforms(*pv, pt),
        p + enc(*pv, pt).len() <= s.len(),
        s.subrange(p as int, (p + enc(*pv, pt).len()) as int) == enc(*pv, pt),
        dec(s, p, pt) == Ok::<(Val, nat), CodecError>((*pv, p + enc(*pv, pt).len())),
    ensures
        case_val(d, dec(s, p, pt)) == Ok::<(Val, nat), CodecError>((Val::Variant(d, Some(pv)), p + enc(*pv, pt).len())),
{
}

/// Reading a value of type `t` where its wire form stands gives the value
/// back, and the position right after its wire form.
pub proof fn lemma_dec_enc(m: Val, t: Type, s: Seq<u8>, p: nat)
    requires
        conforms(m, t),
        p + enc(m, t).len() <= s.len(),
        s.subrange(p as int, (p + enc(m, t).len()) as int) == enc(m, t),
    ensures
        dec(s, p, t) == Ok::<(Val, nat), CodecError>((m, p + enc(m, t).len())),
    decreases t, 1nat,
{
    lemma_pow256_values();
    let e = enc(m, t);
    match t {
        Type::Bool | Type::Stream(_) | Type::Future(_) => {
            assert(e.len() == 1);
            assert(s.subrange(p as int, p + 1int) =~= seq![e[0]]);
            lemma_one_byte(e[0]);
        },
        Type::Char => {
            let c = m->Char_0;
            lemma_le_round_trip(code_of(c), 4);
            lemma_take_le(s, p, code_of(c), 4);
            let c2 = choose|c2: char| #[trigger] code_of(c2) == code_of(c);
            char_u32_cast(c, c as u32);
            char_u32_cast(c2, c2 as u32);
            assert(c2 == c);
        },
        Type::Str => {
            let b = encode_utf8(m->Str_0);
            lemma_le_round_trip(b.len(), 4);
            lemma_split(s, p, le_bytes(b.len(), 4), b);
            lemma_take_le(s, p, b.len(), 4);
            encode_utf8_valid_utf8(m->Str_0);
            encode_utf8_decode_utf8(m->Str_0);
        },
        Type::List(et) => {
            let ms = m->List_0;
            lemma_le_round_trip(ms.len(), 4);
            lemma_split(s, p, le_bytes(ms.len(), 4), enc_all(ms, *et));
            lemma_take_le(s, p, ms.len(), 4);
            lemma_dec_list(ms, *et, s, p + 4, Seq::empty());
            assert(Seq::<Val>::empty() + ms =~= ms);
        },
        Type::Record(ts) | Type::Tuple(ts) => {
            let ms = m->Record_0;
            lemma_dec_fields(ms, ts@, s, p, Seq::empty());
            assert(Seq::<Val>::empty() + ms =~= ms);
        },
        Type::Variant(cs) => {
            let d = m->Variant_0;
            lemma_le_round_trip(d as nat, 4);
            let rest = e.subrange(4, e.len() as int);
            assert(e =~= le_bytes(d as nat, 4) + rest);
            lemma_split(s, p, le_bytes(d as nat, 4), rest);
            lemma_take_le(s, p, d as nat, 4);
            match (cs@[d as int], m->Variant_1) {
                (Some(pt), Some(pv)) => {
                    assert(rest =~= enc(*pv, pt));
                    lemma_dec_enc(*pv, pt, s, p + 4);
                    lemma_case(s, p + 4, d, pv, pt);
                },
                _ => {},
            }
        },
        Type::Enum(_) => {
            lemma_le_round_trip(m->Variant_0 as nat, 4);
            lemma_take_le(s, p, m->Variant_0 as nat, 4);
        },
        Type::Opt(pt) => {
            let d = m->Variant_0;
            lemma_le_round_trip(d as nat, 4);
            let rest = e.subrange(4, e.len() as int);
            assert(e =~= le_bytes(d as nat, 4) + rest);
            lemma_split(s, p, le_bytes(d as nat, 4), rest);
            lemma_take_le(s, p, d as nat, 4);
            match m->Variant_1 {
                Some(pv) => {
                    assert(rest =~= enc(*pv, *pt));
                    lemma_dec_enc(*pv, *pt, s, p + 4);
                    lemma_case(s, p + 4, d, pv, *pt);
                },
                None => {},
            }
        },
        Type::Res(ok, err) => {
            let d = m->Variant_0;
            lemma_le_round_trip(d as nat, 4);
            let rest = e.subrange(4, e.len() as int);
            assert(e =~= le_bytes(d as nat, 4) + rest);
            lemma_split(s, p, le_bytes(d as nat, 4), rest);
            lemma_take_le(s, p, d as nat, 4);
            let pt = if d == 0 {
                ok
            } else {
                err
            };
            match (pt, m->Variant_1) {
                (Some(pt), Some(pv)) => {
                    assert(rest =~= enc(*pv, *pt));
                    lemma_dec_enc(*pv, *pt, s, p + 4);
                    lemma_case(s, p + 4, d, pv, *pt);
                },
                _ => {},
            }
        },
        Type::Flags(n) => {
            lemma_flags_fit(m->Flags_0, n);
            lemma_le_round_trip(m->Flags_0 as nat, flag_bytes(n as nat));
            lemma_take_le(s, p, m->Flags_0 as nat, flag_bytes(n as nat));
        },
        Type::Own => {
            lemma_le_round_trip(m->Own_0 as nat, 8);
            lemma_take_le(s, p, m->Own_0 as nat, 8);
        },
        Type::Borrow => {
            lemma_le_round_trip(m->Borrow_0 as nat, 8);
            lemma_take_le(s, p, m->Borrow_0 as nat, 8);
        },
        _ => {
            lemma_int_round_trip(m, t);
            lemma_le_round_trip(int_bits(m), int_width(t));
            lemma_take_le(s, p, int_bits(m), int_width(t));
        },
    }
}

proof fn lemma_dec_list(ms: Seq<Val>, e: Type, s: Seq<u8>, p: nat, acc: Seq<Val>)
    requires
        conforms_all(ms, e),
        p + enc_all(ms, e).len() <= s.len(),
        s.subrange(p as int, (p + enc_all(ms, e).len()) as int) == enc_all(ms, e),
    ensures
        dec_list(s, p, e, ms.len(), acc) == Ok::<(Seq<Val>, nat), CodecError>((acc + ms, p + enc_all(ms, e).len())),
    decreases e, ms.len() + 2,
{
    if ms.len() == 0 {
        assert(acc + ms =~= acc);
    } else {
        let a = enc(ms[0], e);
        let b = enc_all(ms.drop_first(), e);
        lemma_split(s, p, a, b);
        lemma_dec_enc(ms[0], e, s, p);
        lemma_dec_list(ms.drop_first(), e, s, p + a.len(), acc.push(ms[0]));
        assert(acc.push(ms[0]) + ms.drop_first() =~= acc + ms);
    }
}

proof fn lemma_dec_fields(ms: Seq<Val>, ts: Seq<Type>, s: Seq<u8>, p: nat, acc: Seq<Val>)
    requires
        conforms_fields(ms, ts),
        p + enc_fields(ms, ts).len() <= s.len(),
        s.subrange(p as int, (p + enc_fields(ms, ts).len()) as int) == enc_fields(ms, ts),
    ensures
        dec_fields(s, p, ts, acc) == Ok::<(Seq<Val>, nat), CodecError>((acc + ms, p + enc_fields(ms, ts).len())),
    decreases ts, 2nat,
{
    if ts.len() == 0 {
        assert(acc + ms =~= acc);
    } else {
        let a = enc(ms[0], ts[0]);
        let b = enc_fields(ms.drop_first(), ts.drop_first());
        lemma_split(s, p, a, b);
        lemma_dec_enc(ms[0], ts[0], s, p);
        lemma_dec_fields(ms.drop_first(), ts.drop_first(), s, p + a.len(), acc.push(ms[0]));
        assert(acc.push(ms[0]) + ms.drop_first() =~= acc + ms);
    }
}

/// Round trip: reading the wire form of any value of type `t` as a value
/// of type `t` gives back that value, and consumes the whole wire form.
pub proof fn lemma_round_trip(m: Val, t: Type)
    requires
        conforms(m, t),
    ensures
        dec(enc(m, t), 0, t) == Ok::<(Val, nat), CodecError>((m, enc(m, t).len())),
{
    let e = enc(m, t);
    assert(e.subrange(0, e.len() as int) =~= e);
    lemma_dec_enc(m, t, e, 0);
}

/// The number of subchannels a value needs: one per stream or future in it.
pub open spec fn async_count(m: Val) -> nat
    decreases m,
{
    match m {
        Val::Stream | Val::Future => 1,
        Val::List(ms) => async_count_all(ms),
        Val::Record(ms) => async_count_all(ms),
        Val::Variant(_, Some(p)) => async_count(*p),
        _ => 0,
    }
}

/// The number of subchannels that values need together.
pub open spec fn async_count_all(ms: Seq<Val>) -> nat
    decreases ms,
{
    if ms.len() == 0 {
        0
    } else {
        async_count(ms[0]) + async_count_all(ms.drop_first())
    }
}

/// The number of cases of a variant-like type, `0` for any other type.
pub open spec fn case_count(t: Type) -> nat {
    match t {
        Type::Variant(cs) => cs@.len(),
        Type::Enum(n) => n as nat,
        Type::Opt(_) => 2,
        Type::Res(_, _) => 2,
        _ => 0,
    }
}

/// The number of bytes of a type whose wire form has a fixed width, `0`
/// for any other type.
pub open spec fn fixed_width(t: Type) -> nat {
    match t {
        Type::Bool => 1,
        Type::Char => 4,
        Type::Own | Type::Borrow => 8,
        _ => int_width(t),
    }
}

/// Discriminant bounds: a variant, enum, option or result whose
/// discriminant names no declared case does not decode, and the error says
/// so.
pub proof fn lemma_discriminant_out_of_range(s: Seq<u8>, t: Type)
    requires
        case_count(t) > 0,
        s.len() >= 4,
        le_val(s.subrange(0, 4)) >= case_count(t),
    ensures
        dec(s, 0, t) == Err::<(Val, nat), CodecError>(CodecError::InvalidDiscriminant),
{
}

/// A scalar of fixed width does not decode from fewer bytes than it takes,
/// and the error says so.
pub proof fn lemma_short_scalar(s: Seq<u8>, t: Type)
    requires
        fixed_width(t) > 0,
        s.len() < fixed_width(t),
    ensures
        dec(s, 0, t) == Err::<(Val, nat), CodecError>(CodecError::Truncated),
{
}

} // verus!
