//! A counter resource, the running example of a method-style resource
//! interface: `constructor(initial: u32)`, `increment-by(num: u32)` and
//! `get-count() -> u32`, served from a [`Registry`].
use crate::resource::{lemma_foreign_handle, Registry, ResourceBorrow, ResourceError, ResourceOwn, SLOTS};
use vstd::prelude::*;

verus! {

/// The count a counter's state holds.
pub open spec fn count_of(state: u64) -> u32 {
    (state as nat % 0x1_0000_0000) as u32
}

/// A counter's count after adding `num`, wrapping around at `2^32`.
pub open spec fn incremented(count: u32, num: u32) -> u32 {
    ((count as nat + num as nat) % 0x1_0000_0000) as u32
}

/// The constructor: a new counter that starts at `initial`.
pub fn counter_new(reg: &mut Registry, initial: u32) -> (r: ResourceOwn)
    requires
        old(reg).wf(),
        old(reg).issued() < SLOTS,
    ensures
        final(reg).wf(),
        final(reg).id_spec() == old(reg).id_spec(),
        final(reg).issued() == old(reg).issued() + 1,
        r.handle as nat / SLOTS as nat == old(reg).id_spec(),
        !old(reg).live().contains_key(r.handle),
        final(reg).live() == old(reg).live().insert(r.handle, initial as u64),
{
    reg.allocate(initial as u64)
}

/// `increment-by`: adds `num` to the count of the counter behind `this`.
/// A handle whose registry identity is not `reg`'s fails with `NotFound`
/// and changes nothing.
pub fn increment_by(reg: &mut Registry, this: &ResourceBorrow, num: u32) -> (r: Result<(), ResourceError>)
    requires
        old(reg).wf(),
    ensures
        final(reg).wf(),
        final(reg).id_spec() == old(reg).id_spec(),
        final(reg).issued() == old(reg).issued(),
        old(reg).live().contains_key(this.handle) ==> r is Ok && final(reg).live() == old(
            reg,
        ).live().insert(
            this.handle,
            incremented(count_of(old(reg).live()[this.handle]), num) as u64,
        ),
        !old(reg).live().contains_key(this.handle) ==> r == Err::<(), ResourceError>(
            ResourceError::NotFound,
        ) && final(reg).live() == old(reg).live(),
        this.handle as nat / SLOTS as nat != old(reg).id_spec() ==> r == Err::<(), ResourceError>(
            ResourceError::NotFound,
        ) && final(reg).live() == old(reg).live(),
{
    match reg.get(this.handle) {
        Ok(state) => {
            let count = (state % 0x1_0000_0000) as u64;
            let next = (count + num as u64) % 0x1_0000_0000;
            reg.set(this.handle, next)
        },
        Err(e) => Err(e),
    }
}

/// `get-count`: the count of the counter behind `this`. A handle whose
/// registry identity is not `reg`'s fails with `NotFound`.
pub fn get_count(reg: &Registry, this: &ResourceBorrow) -> (r: Result<u32, ResourceError>)
    ensures
        this.handle as nat / SLOTS as nat != reg.id_spec() ==> r == Err::<u32, ResourceError>(
            ResourceError::NotFound,
        ),
        r == if reg.live().contains_key(this.handle) {
            Ok::<u32, ResourceError>(count_of(reg.live()[this.handle]))
        } else {
            Err(ResourceError::NotFound)
        },
{
    match reg.get(this.handle) {
        Ok(state) => Ok((state % 0x1_0000_0000) as u32),
        Err(e) => Err(e),
    }
}

/// The counter scenario, over what `counter_new`, `increment_by` and
/// `get_count` promise: after the constructor with `5` (from `r0` to `r1`)
/// and `increment-by` with `3` (from `r1` to `r2`), `get-count` sees `8`;
/// a registry `other` with another identity does not resolve the handle.
pub proof fn lemma_counter_scenario(r0: &Registry, r1: &Registry, r2: &Registry, other: &Registry, h: u64)
    requires
        h as nat / SLOTS as nat == r0.id_spec(),
        !r0.live().contains_key(h),
        r1.live() == r0.live().insert(h, 5u64),
        r2.live() == r1.live().insert(h, incremented(count_of(r1.live()[h]), 3) as u64),
        other.id_spec() != r0.id_spec(),
    ensures
        r2.live().contains_key(h),
        count_of(r2.live()[h]) == 8,
        !other.live().contains_key(h),
{
    lemma_foreign_handle(other, r0.id_spec(), h);
}

} // verus!
