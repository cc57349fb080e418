//! Where, within a value, its asynchronous parts live: one index path per
//! stream or future, made of the member positions and case discriminants
//! that lead to it.
use crate::codec::{async_count, async_count_all};
use crate::value::{lemma_view_seq, view_seq, Val, Value};
use vstd::prelude::*;

verus! {

/// The paths of the streams and futures of `m`, in the order in which they
/// come, each one after `prefix`.
pub open spec fn paths_of(m: Val, prefix: Seq<u64>) -> Seq<Seq<u64>>
    decreases m,
{
    match m {
        Val::Stream | Val::Future => seq![prefix],
        Val::List(ms) => paths_all(ms, prefix, 0),
        Val::Record(ms) => paths_all(ms, prefix, 0),
        Val::Variant(d, Some(p)) => paths_of(*p, prefix.push(d as u64)),
        _ => Seq::empty(),
    }
}

/// The paths of the streams and futures of the members of `ms` from
/// position `i` on, each member's after `prefix` and its position.
pub open spec fn paths_all(ms: Seq<Val>, prefix: Seq<u64>, i: nat) -> Seq<Seq<u64>>
    decreases ms, ms.len() - i,
{
    if i >= ms.len() {
        Seq::empty()
    } else {
        paths_of(ms[i as int], prefix.push(i as u64)) + paths_all(ms, prefix, i + 1)
    }
}

/// The paths held in `out`.
pub open spec fn paths_view(out: Seq<Vec<u64>>) -> Seq<Seq<u64>> {
    out.map_values(|p: Vec<u64>| p@)
}

fn copy_path(p: &Vec<u64>) -> (r: Vec<u64>)
    ensures
        r@ == p@,
{
    let mut r: Vec<u64> = Vec::new();
    let mut i: usize = 0;
    while i < p.len()
        invariant
            i <= p@.len(),
            r@ == p@.subrange(0, i as int),
        decreases p@.len() - i,
    {
        r.push(p[i]);
        i = i + 1;
        assert(r@ =~= p@.subrange(0, i as int));
    }
    assert(p@.subrange(0, i as int) =~= p@);
    r
}

fn paths_into(v: &Value, prefix: &mut Vec<u64>, out: &mut Vec<Vec<u64>>)
    ensures
        final(prefix)@ == old(prefix)@,
        paths_view(final(out)@) == paths_view(old(out)@) + paths_of(v@, old(prefix)@),
    decreases v, 0nat,
{
    match v {
        Value::Stream | Value::Future => {
            let ghost before = out@;
            out.push(copy_path(prefix));
            assert(paths_view(out@) =~= paths_view(before) + seq![prefix@]);
        },
        Value::List(vs) | Value::Record(vs) => {
            paths_all_into(vs, prefix, out);
        },
        Value::Variant(d, Some(p)) => {
            prefix.push(*d as u64);
            paths_into(p, prefix, out);
            prefix.pop();
        },
        _ => {
            assert(paths_view(out@) =~= paths_view(out@) + Seq::<Seq<u64>>::empty());
        },
    }
}

fn paths_all_into(vs: &Vec<Value>, prefix: &mut Vec<u64>, out: &mut Vec<Vec<u64>>)
    ensures
        final(prefix)@ == old(prefix)@,
        paths_view(final(out)@) == paths_view(old(out)@) + paths_all(view_seq(vs@), old(prefix)@, 0),
    decreases vs, 1nat,
{
    let ghost ms = view_seq(vs@);
    let ghost p0 = prefix@;
    proof {
        lemma_view_seq(vs@);
    }
    let mut i: usize = 0;
    while i < vs.len()
        invariant
            i <= vs@.len(),
            prefix@ == p0,
            ms == view_seq(vs@),
            ms.len() == vs@.len(),
            forall|k: int| 0 <= k < vs@.len() ==> #[trigger] ms[k] == vs@[k]@,
            paths_view(out@) + paths_all(ms, p0, i as nat) == paths_view(old(out)@) + paths_all(
                ms,
                p0,
                0,
            ),
        decreases vs@.len() - i,
    {
        let ghost before = paths_view(out@);
        prefix.push(i as u64);
        paths_into(&vs[i], prefix, out);
        prefix.pop();
        assert(prefix@ =~= p0);
        assert(paths_view(out@) + paths_all(ms, p0, (i + 1) as nat) =~= before + paths_all(
            ms,
            p0,
            i as nat,
        ));
        i = i + 1;
    }
    assert(paths_view(out@) =~= paths_view(out@) + paths_all(ms, p0, i as nat));
}

/// The index paths of the subchannels that `v` needs: one per stream or
/// future in it, in the order in which they come.
pub fn subchannel_paths(v: &Value) -> (r: Vec<Vec<u64>>)
    ensures
        paths_view(r@) == paths_of(v@, Seq::empty()),
{
    let mut prefix: Vec<u64> = Vec::new();
    let mut out: Vec<Vec<u64>> = Vec::new();
    assert(paths_view(out@) =~= Seq::<Seq<u64>>::empty());
    assert(prefix@ =~= Seq::<u64>::empty());
    paths_into(v, &mut prefix, &mut out);
    assert(paths_view(out@) =~= paths_of(v@, Seq::empty()));
    out
}

/// A value has as many subchannel paths as it needs subchannels.
pub proof fn lemma_paths_count(m: Val, prefix: Seq<u64>)
    ensures
        paths_of(m, prefix).len() == async_count(m),
    decreases m, 0nat,
{
    match m {
        Val::List(ms) => {
            lemma_paths_all_count(ms, prefix, 0);
            assert(ms.skip(0) =~= ms);
        },
        Val::Record(ms) => {
            lemma_paths_all_count(ms, prefix, 0);
            assert(ms.skip(0) =~= ms);
        },
        Val::Variant(d, Some(p)) => {
            lemma_paths_count(*p, prefix.push(d as u64));
        },
        _ => {},
    }
}

proof fn lemma_paths_all_count(ms: Seq<Val>, prefix: Seq<u64>, i: nat)
    requires
        i <= ms.len(),
    ensures
        paths_all(ms, prefix, i).len() == async_count_all(ms.skip(i as int)),
    decreases ms, ms.len() - i,
{
    if i >= ms.len() {
        assert(ms.skip(i as int) =~= Seq::<Val>::empty());
    } else {
        lemma_paths_count(ms[i as int], prefix.push(i as u64));
        lemma_paths_all_count(ms, prefix, i + 1);
        assert(ms.skip(i as int).drop_first() =~= ms.skip(i + 1int));
        assert(ms.skip(i as int)[0] == ms[i as int]);
    }
}

} // verus!
