//! Capabilities: unforgeable tokens representing access rights.
use vstd::prelude::*;

verus! {

/// Source of fresh capability identifiers; the first one is 1 and each
/// minted capability takes the next (wrapping, as an atomic counter does).
/// Identifiers are unique among the capabilities minted from one counter,
/// so the kernel keeps a single counter and mints every capability from
/// it; a second counter would hand out identifier 1 again.
pub struct CapIdCounter {
    next: u64,
}

impl CapIdCounter {
    /// Identifier the next minted capability receives.
    pub closed spec fn next_id(&self) -> u64 {
        self.next
    }

    /// A counter whose first identifier is 1.
    pub fn new() -> (r: Self)
        ensures
            r.next_id() == 1,
    {
        CapIdCounter { next: 1 }
    }
}

/// Capability handle.
#[derive(Clone, Copy, PartialEq, Eq, Structural)]
pub struct Cap(u64);

/// Capability entry in a process table.
#[derive(Clone, Copy)]
pub struct CapEntry {
    pub id: Cap,
    pub target: CapTarget,
    pub rights: u32,
}

/// What a capability refers to.
#[derive(Clone, Copy)]
pub enum CapTarget {
    Process(u64),
    Memory(u64),
    Device(u64),
    Channel(u64),
}

impl Cap {
    /// Raw identifier.
    pub closed spec fn id(&self) -> u64 {
        self.0
    }

    /// Mint a new capability with the counter's next identifier.
    pub fn new(ids: &mut CapIdCounter) -> (r: Self)
        ensures
            r.id() == old(ids).next_id(),
            final(ids).next_id() == vstd::wrapping::u64_specs::wrapping_add(old(ids).next_id(), 1),
    {
        let id = ids.next;
        ids.next = ids.next.wrapping_add(1);
        Cap(id)
    }

    /// Rebuild a capability from a raw identifier received from user space.
    /// The caller must check it against the process capability table.
    pub fn from_raw(id: u64) -> (r: Self)
        ensures
            r.id() == id,
    {
        Cap(id)
    }

    /// Raw identifier.
    pub fn as_u64(&self) -> (r: u64)
        ensures
            r == self.id(),
    {
        self.0
    }
}


/// A capability rebuilt from its raw identifier is the same capability.
pub proof fn law_cap_raw_round_trip(c: Cap, rebuilt: Cap)
    requires
        rebuilt.id() == c.id(),
    ensures
        rebuilt == c,
{
}

/// Two capabilities minted one after the other from the same counter have
/// different identifiers.  `k1` is the counter after minting `c1` from
/// `k0`; `c2` is minted from `k1`.
pub proof fn law_successive_caps_distinct(k0: CapIdCounter, k1: CapIdCounter, c1: Cap, c2: Cap)
    requires
        c1.id() == k0.next_id(),
        k1.next_id() == vstd::wrapping::u64_specs::wrapping_add(k0.next_id(), 1),
        c2.id() == k1.next_id(),
    ensures
        c1 != c2,
{
}

/// Minting from one counter, one capability after another, hands out
/// consecutive identifiers: as long as they do not run past `u64::MAX`
/// they strictly increase, so every minted capability is unique.  `ks[i]`
/// is the counter `cs[i]` is minted from and `ks[i + 1]` the counter after
/// that mint.
pub proof fn law_minted_caps_unique(ks: Seq<CapIdCounter>, cs: Seq<Cap>)
    requires
        ks.len() == cs.len() + 1,
        ks[0].next_id() + cs.len() <= u64::MAX + 1,
        forall|i: int| 0 <= i < cs.len() ==> (#[trigger] cs[i]).id() == ks[i].next_id(),
        forall|i: int|
            0 <= i < cs.len() ==> #[trigger] ks[i + 1].next_id()
                == vstd::wrapping::u64_specs::wrapping_add(ks[i].next_id(), 1),
    ensures
        forall|i: int| 0 <= i < cs.len() ==> (#[trigger] cs[i]).id() == ks[0].next_id() + i,
        forall|i: int, j: int| 0 <= i < j < cs.len() ==> (#[trigger] cs[i]).id() < (#[trigger] cs[j]).id(),
{
    if cs.len() > 0 {
        lemma_counter_steps(ks, cs.len() - 1);
    }
}

proof fn lemma_counter_steps(ks: Seq<CapIdCounter>, n: int)
    requires
        0 <= n < ks.len(),
        ks[0].next_id() + n <= u64::MAX,
        forall|i: int|
            0 <= i < n ==> #[trigger] ks[i + 1].next_id() == vstd::wrapping::u64_specs::wrapping_add(
                ks[i].next_id(),
                1,
            ),
    ensures
        forall|i: int| 0 <= i <= n ==> #[trigger] ks[i].next_id() == ks[0].next_id() + i,
    decreases n,
{
    if n > 0 {
        let m = n - 1;
        lemma_counter_steps(ks, m);
        assert(ks[m + 1].next_id() == vstd::wrapping::u64_specs::wrapping_add(ks[m].next_id(), 1));
        assert(ks[m].next_id() == ks[0].next_id() + m);
    }
}

} // verus!
