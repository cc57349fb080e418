//! Handles of exported resource instances: owned handles that keep an
//! instance alive, and borrowed ones that refer to it for one call.
use std::hash::BuildHasher;
use vstd::prelude::*;

verus! {

/// Why a handle did not resolve.
#[derive(Clone, Copy, Debug, PartialEq, Eq, Structural)]
pub enum ResourceError {
    /// The handle names no live instance of this registry: it was released,
    /// or it carries another registry's identity.
    NotFound,
}

/// An owned handle: whoever holds it is responsible for releasing the
/// instance.
#[derive(Debug, PartialEq, Eq, Structural)]
pub struct ResourceOwn {
    pub handle: u64,
}

/// A borrowed handle, valid for the duration of one call.
#[derive(Clone, Copy, Debug, PartialEq, Eq, Structural)]
pub struct ResourceBorrow {
    pub handle: u64,
}

/// The number of distinct slots of one registry.
pub const SLOTS: u64 = 0x1_0000_0000;

/// The handle of slot `index` of registry `id`: the registry in the high
/// 32 bits, the slot in the low ones.
pub open spec fn handle_of(id: u32, index: nat) -> nat {
    id as nat * SLOTS as nat + index
}

/// A table of resource instances, each one a 64-bit state, that hands out
/// a fresh handle for each instance and never reuses one.
pub struct Registry {
    id: u32,
    slots: Vec<Option<u64>>,
}

impl Registry {
    /// The live instances: their handles and states.
    pub closed spec fn live(&self) -> Map<u64, u64> {
        Map::new(
            |h: u64|
                h as nat / SLOTS as nat == self.id as nat && (h as nat % SLOTS as nat)
                    < self.slots@.len() && self.slots@[(h as nat % SLOTS as nat) as int] is Some,
            |h: u64| self.slots@[(h as nat % SLOTS as nat) as int]->Some_0,
        )
    }

    /// The identity of the registry, which every handle it gives out
    /// carries.
    pub closed spec fn id_spec(&self) -> u32 {
        self.id
    }

    /// The number of handles given out so far.
    pub closed spec fn issued(&self) -> nat {
        self.slots@.len()
    }

    pub closed spec fn wf(&self) -> bool {
        self.slots@.len() <= SLOTS
    }

    /// An empty registry whose handles carry `id`.
    fn new(id: u32) -> (r: Registry)
        ensures
            r.wf(),
            r.id_spec() == id,
            r.issued() == 0,
            r.live() == Map::<u64, u64>::empty(),
    {
        let r = Registry { id, slots: Vec::new() };
        assert(r.live() =~= Map::<u64, u64>::empty());
        r
    }

    /// The number of handles given out so far.
    pub fn issued_count(&self) -> (r: u64)
        requires
            self.wf(),
        ensures
            r == self.issued(),
    {
        self.slots.len() as u64
    }

    /// Registers an instance with state `state` and hands out its owned
    /// handle, one that this registry never gave out before.
    pub fn allocate(&mut self, state: u64) -> (r: ResourceOwn)
        requires
            old(self).wf(),
            old(self).issued() < SLOTS,
        ensures
            final(self).wf(),
            final(self).id_spec() == old(self).id_spec(),
            final(self).issued() == old(self).issued() + 1,
            r.handle as nat == handle_of(old(self).id_spec(), old(self).issued()),
            r.handle as nat / SLOTS as nat == old(self).id_spec(),
            !old(self).live().contains_key(r.handle),
            final(self).live() == old(self).live().insert(r.handle, state),
    {
        let index = self.slots.len() as u64;
        let ghost before = self.live();
        assert(self.id as nat * SLOTS as nat + index <= u64::MAX) by (nonlinear_arith)
            requires
                self.id <= u32::MAX,
                index < SLOTS,
                SLOTS == 0x1_0000_0000u64,
        ;
        let handle = self.id as u64 * SLOTS + index;
        assert(handle as nat / SLOTS as nat == self.id as nat && handle as nat % SLOTS as nat
            == index) by (nonlinear_arith)
            requires
                handle == self.id as nat * SLOTS as nat + index,
                index < SLOTS,
                SLOTS == 0x1_0000_0000u64,
        ;
        self.slots.push(Some(state));
        assert(self.live() =~= before.insert(handle, state));
        ResourceOwn { handle }
    }

    /// The state of the instance behind `handle`. A handle whose registry
    /// identity is not this registry's never resolves here.
    pub fn get(&self, handle: u64) -> (r: Result<u64, ResourceError>)
        ensures
            handle as nat / SLOTS as nat != self.id_spec() ==> r == Err::<u64, ResourceError>(
                ResourceError::NotFound,
            ),
            r == if self.live().contains_key(handle) {
                Ok::<u64, ResourceError>(self.live()[handle])
            } else {
                Err(ResourceError::NotFound)
            },
    {
        if handle / SLOTS != self.id as u64 {
            return Err(ResourceError::NotFound);
        }
        let index = handle % SLOTS;
        if index >= self.slots.len() as u64 {
            return Err(ResourceError::NotFound);
        }
        match self.slots[index as usize] {
            Some(x) => Ok(x),
            None => Err(ResourceError::NotFound),
        }
    }

    /// Replaces the state of the instance behind `handle`.
    pub fn set(&mut self, handle: u64, state: u64) -> (r: Result<(), ResourceError>)
        requires
            old(self).wf(),
        ensures
            final(self).wf(),
            final(self).id_spec() == old(self).id_spec(),
            final(self).issued() == old(self).issued(),
            old(self).live().contains_key(handle) ==> r is Ok && final(self).live() == old(
                self,
            ).live().insert(handle, state),
            !old(self).live().contains_key(handle) ==> r == Err::<(), ResourceError>(
                ResourceError::NotFound,
            ) && final(self).live() == old(self).live(),
    {
        let ghost before = self.live();
        if handle / SLOTS != self.id as u64 {
            return Err(ResourceError::NotFound);
        }
        let index = handle % SLOTS;
        if index >= self.slots.len() as u64 || self.slots[index as usize].is_none() {
            return Err(ResourceError::NotFound);
        }
        self.slots.set(index as usize, Some(state));
        assert(self.live() =~= before.insert(handle, state));
        Ok(())
    }

    /// Releases the instance that `own` owns, and hands back its last state.
    pub fn release(&mut self, own: ResourceOwn) -> (r: Result<u64, ResourceError>)
        requires
            old(self).wf(),
        ensures
            final(self).wf(),
            final(self).id_spec() == old(self).id_spec(),
            final(self).issued() == old(self).issued(),
            !final(self).live().contains_key(own.handle),
            final(self).live() == old(self).live().remove(own.handle),
            r == if old(self).live().contains_key(own.handle) {
                Ok::<u64, ResourceError>(old(self).live()[own.handle])
            } else {
                Err(ResourceError::NotFound)
            },
    {
        let ghost before = self.live();
        let handle = own.handle;
        if handle / SLOTS != self.id as u64 {
            assert(self.live() =~= before.remove(handle));
            return Err(ResourceError::NotFound);
        }
        let index = handle % SLOTS;
        if index >= self.slots.len() as u64 {
            assert(self.live() =~= before.remove(handle));
            return Err(ResourceError::NotFound);
        }
        match self.slots[index as usize] {
            Some(x) => {
                self.slots.set(index as usize, None);
                assert forall|h: u64| #[trigger] self.live().contains_key(h) implies h != handle
                    && before.contains_key(h) by {
                    if h != handle {
                        assert(h as nat % SLOTS as nat != index as nat) by (nonlinear_arith)
                            requires
                                h as nat / SLOTS as nat == handle as nat / SLOTS as nat,
                                h != handle,
                                h as nat % SLOTS as nat == index as nat ==> h as nat % SLOTS as nat
                                    == handle as nat % SLOTS as nat,
                                index as nat == handle as nat % SLOTS as nat,
                                SLOTS > 0,
                        ;
                    }
                }
                assert forall|h: u64| #[trigger] before.contains_key(h) && h != handle implies self.live().contains_key(h) by {
                    assert(h as nat % SLOTS as nat != index as nat) by (nonlinear_arith)
                        requires
                            h as nat / SLOTS as nat == handle as nat / SLOTS as nat,
                            h != handle,
                            index as nat == handle as nat % SLOTS as nat,
                            SLOTS > 0,
                    ;
                }
                assert(self.live() =~= before.remove(handle));
                Ok(x)
            },
            None => {
                assert(self.live() =~= before.remove(handle));
                Err(ResourceError::NotFound)
            },
        }
    }
}

/// Relies on std's `RandomState::new` and `BuildHasher::hash_one`: the keys
/// of a `RandomState` are drawn at random, so nothing is claimed of the
/// value.
#[verifier::external_body]
fn unpredictable_u64() -> (r: u64) {
    std::collections::hash_map::RandomState::new().hash_one(0u8)
}

/// The identity of the `k`-th registry of an issuer that starts at `start`.
pub open spec fn issued_id(start: u32, k: nat) -> u32 {
    ((start as nat + k) % SLOTS as nat) as u32
}

/// Hands out registries. The registries of one issuer have identities of
/// their own; an issuer starts at an unpredictable identity, so nothing
/// ties the identities of unrelated issuers to each other.
pub struct RegistryIssuer {
    start: u32,
    count: u64,
}

impl RegistryIssuer {
    /// The identity of the issuer's first registry.
    pub closed spec fn start(&self) -> u32 {
        self.start
    }

    /// The number of registries handed out so far.
    pub closed spec fn count(&self) -> nat {
        self.count as nat
    }

    /// An issuer that has handed out no registry yet.
    pub fn new() -> (r: RegistryIssuer)
        ensures
            r.count() == 0,
    {
        let seed = unpredictable_u64();
        RegistryIssuer { start: #[verifier::truncate] (seed as u32), count: 0 }
    }

    /// A new, empty registry with an identity that this issuer never handed
    /// out before; `None` once all `2^32` identities are taken.
    pub fn issue(&mut self) -> (r: Option<Registry>)
        ensures
            final(self).start() == old(self).start(),
            old(self).count() < SLOTS ==> r is Some && final(self).count() == old(self).count()
                + 1,
            old(self).count() >= SLOTS ==> r is None && final(self).count() == old(self).count(),
            r matches Some(reg) ==> reg.wf() && reg.id_spec() == issued_id(
                old(self).start(),
                old(self).count(),
            ) && reg.issued() == 0 && reg.live() == Map::<u64, u64>::empty(),
    {
        if self.count >= SLOTS {
            return None;
        }
        let id = ((self.start as u64 + self.count) % SLOTS) as u32;
        self.count = self.count + 1;
        Some(Registry::new(id))
    }
}

/// The registries of one issuer have pairwise different identities.
pub proof fn lemma_issued_distinct(start: u32, a: nat, b: nat)
    requires
        a < SLOTS,
        b < SLOTS,
        a != b,
    ensures
        issued_id(start, a) != issued_id(start, b),
{
    let s = start as nat;
    let m = SLOTS as nat;
    assert((s + a) % m != (s + b) % m) by (nonlinear_arith)
        requires
            s < m,
            a < m,
            b < m,
            a != b,
            m == 0x1_0000_0000nat,
    ;
}

/// A handle whose registry identity differs from a registry's names no
/// live instance of it.
pub proof fn lemma_foreign_handle(reg: &Registry, other_id: u32, h: u64)
    requires
        h as nat / SLOTS as nat == other_id,
        reg.id_spec() != other_id,
    ensures
        !reg.live().contains_key(h),
{
}

/// A borrowed handle for the instance that `own` owns.
pub fn borrow(own: &ResourceOwn) -> (r: ResourceBorrow)
    ensures
        r.handle == own.handle,
{
    ResourceBorrow { handle: own.handle }
}

/// Resource lifetime, over what `allocate`, `borrow` and `release` promise:
/// an instance allocated in `before` (giving `allocated`), borrowed twice
/// and then released (giving `released`) resolves to its state through its
/// own handle and both borrows until the release, and through none of them
/// after it.
pub proof fn lemma_resource_lifetime(
    before: &Registry,
    allocated: &Registry,
    released: &Registry,
    own: &ResourceOwn,
    b1: ResourceBorrow,
    b2: ResourceBorrow,
    state: u64,
)
    requires
        !before.live().contains_key(own.handle),
        allocated.live() == before.live().insert(own.handle, state),
        b1.handle == own.handle,
        b2.handle == own.handle,
        released.live() == allocated.live().remove(own.handle),
    ensures
        allocated.live().contains_key(own.handle) && allocated.live()[own.handle] == state,
        allocated.live().contains_key(b1.handle) && allocated.live()[b1.handle] == state,
        allocated.live().contains_key(b2.handle) && allocated.live()[b2.handle] == state,
        !released.live().contains_key(own.handle),
        !released.live().contains_key(b1.handle),
        !released.live().contains_key(b2.handle),
        released.live() == before.live(),
{
    assert(before.live().insert(own.handle, state).remove(own.handle) =~= before.live());
}

} // verus!
