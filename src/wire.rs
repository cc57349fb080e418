//! Fixed-width little-endian integers, the building block of the inline
//! encoding.
use vstd::arithmetic::div_mod::lemma_fundamental_div_mod;
use vstd::prelude::*;

verus! {

/// `256` to the power `w`.
pub open spec fn pow256(w: nat) -> nat
    decreases w,
{
    if w == 0 {
        1
    } else {
        256 * pow256((w - 1) as nat)
    }
}

/// `2` to the power `n`.
pub open spec fn pow2(n: nat) -> nat
    decreases n,
{
    if n == 0 {
        1
    } else {
        2 * pow2((n - 1) as nat)
    }
}

/// The `w` least significant bytes of `x`, lowest first.
pub open spec fn le_bytes(x: nat, w: nat) -> Seq<u8>
    decreases w,
{
    if w == 0 {
        Seq::empty()
    } else {
        seq![(x % 256) as u8] + le_bytes(x / 256, (w - 1) as nat)
    }
}

/// The number that bytes stand for, lowest first.
pub open spec fn le_val(s: Seq<u8>) -> nat
    decreases s.len(),
{
    if s.len() == 0 {
        0
    } else {
        s[0] as nat + 256 * le_val(s.drop_first())
    }
}

pub proof fn lemma_le_bytes_len(x: nat, w: nat)
    ensures
        le_bytes(x, w).len() == w,
    decreases w,
{
    if w > 0 {
        lemma_le_bytes_len(x / 256, (w - 1) as nat);
    }
}

/// Reading back the bytes of a number that fits gives the number.
pub proof fn lemma_le_round_trip(x: nat, w: nat)
    requires
        x < pow256(w),
    ensures
        le_val(le_bytes(x, w)) == x,
        le_bytes(x, w).len() == w,
    decreases w,
{
    lemma_le_bytes_len(x, w);
    if w > 0 {
        let p = pow256((w - 1) as nat);
        assert(x / 256 < p) by (nonlinear_arith)
            requires
                x < 256 * p,
        ;
        lemma_le_round_trip(x / 256, (w - 1) as nat);
        let s = le_bytes(x, w);
        assert(s.drop_first() =~= le_bytes(x / 256, (w - 1) as nat));
        lemma_fundamental_div_mod(x as int, 256);
    }
}

pub proof fn lemma_le_val_bound(s: Seq<u8>)
    ensures
        le_val(s) < pow256(s.len()),
    decreases s.len(),
{
    if s.len() > 0 {
        lemma_le_val_bound(s.drop_first());
        let a = s[0] as nat;
        let r = le_val(s.drop_first());
        let p = pow256((s.len() - 1) as nat);
        assert(a + 256 * r < 256 * p) by (nonlinear_arith)
            requires
                a < 256,
                r < p,
        ;
    }
}

pub proof fn lemma_pow256_values()
    ensures
        pow256(0) == 1,
        pow256(1) == 0x100,
        pow256(2) == 0x1_0000,
        pow256(4) == 0x1_0000_0000,
        pow256(8) == 0x1_0000_0000_0000_0000,
{
    reveal_with_fuel(pow256, 9);
}

pub proof fn lemma_pow2_monotone(a: nat, b: nat)
    requires
        a <= b,
    ensures
        pow2(a) <= pow2(b),
    decreases b,
{
    if a < b {
        lemma_pow2_monotone(a, (b - 1) as nat);
    }
}

pub proof fn lemma_pow256_pow2(w: nat)
    ensures
        pow256(w) == pow2(8 * w),
    decreases w,
{
    if w > 0 {
        lemma_pow256_pow2((w - 1) as nat);
        reveal_with_fuel(pow2, 8);
        assert(8 * w == 8 * (w - 1) + 8);
        let n = (8 * (w - 1)) as nat;
        assert(pow2(n + 8) == 256 * pow2(n)) by {
            reveal_with_fuel(pow2, 9);
        }
    }
}

/// Appends the `w` least significant bytes of `x`, lowest first.
pub fn push_le(out: &mut Vec<u8>, x: u64, w: usize)
    requires
        w <= 8,
    ensures
        final(out)@ == old(out)@ + le_bytes(x as nat, w as nat),
{
    let mut y: u64 = x;
    let mut i: usize = 0;
    while i < w
        invariant
            i <= w,
            out@ + le_bytes(y as nat, (w - i) as nat) == old(out)@ + le_bytes(x as nat, w as nat),
        decreases w - i,
    {
        let ghost before = out@;
        out.push((y % 256) as u8);
        assert(le_bytes(y as nat, (w - i) as nat) == seq![(y % 256) as u8] + le_bytes(
            (y / 256) as nat,
            (w - i - 1) as nat,
        ));
        assert(out@ + le_bytes((y / 256) as nat, (w - i - 1) as nat) =~= before + le_bytes(
            y as nat,
            (w - i) as nat,
        ));
        y = y / 256;
        i = i + 1;
    }
    assert(out@ =~= out@ + le_bytes(y as nat, 0));
}

/// Reads the number stored in `w` bytes from `pos`, lowest first.
pub fn read_le(b: &[u8], pos: usize, w: usize) -> (r: u64)
    requires
        w <= 8,
        pos + w <= b@.len(),
    ensures
        r as nat == le_val(b@.subrange(pos as int, pos + w)),
{
    let mut acc: u64 = 0;
    let mut i: usize = w;
    let n = b.len();
    proof {
        lemma_pow256_values();
    }
    while i > 0
        invariant
            i <= w <= 8,
            pos + w <= b@.len(),
            n == b@.len(),
            acc as nat == le_val(b@.subrange(pos + i, pos + w)),
            pow256(8) == 0x1_0000_0000_0000_0000,
        decreases i,
    {
        let k = i - 1;
        let ghost tail = b@.subrange(pos + i, pos + w);
        let ghost s = b@.subrange(pos + k, pos + w);
        assert(s.drop_first() =~= tail);
        proof {
            lemma_le_val_bound(tail);
            lemma_pow256_mono(tail.len(), 7);
        }
        assert(acc * 256 + b[pos + k] < 0x1_0000_0000_0000_0000) by (nonlinear_arith)
            requires
                acc < pow256(tail.len()),
                pow256(tail.len()) <= pow256(7),
                pow256(7) * 256 == 0x1_0000_0000_0000_0000,
                b[pos + k] < 256,
        {
        }
        acc = acc * 256 + b[pos + k] as u64;
        i = k;
    }
    acc
}

proof fn lemma_pow256_mono(a: nat, b: nat)
    requires
        a <= b,
    ensures
        pow256(a) <= pow256(b),
        pow256(7) * 256 == 0x1_0000_0000_0000_0000,
    decreases b,
{
    reveal_with_fuel(pow256, 8);
    if a < b {
        lemma_pow256_mono(a, (b - 1) as nat);
    }
}

} // verus!
