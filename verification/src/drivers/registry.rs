//! Driver registry (kernel side): up to 16 named drivers, looked up by
//! name in registration order.
use vstd::prelude::*;
use crate::text::str_eq;

verus! {

/// Capacity of the registry.
pub const MAX_DRIVERS: usize = 16;

/// A registered driver and its name.
pub struct DriverEntry<D> {
    pub name: &'static str,
    pub driver: D,
}

/// Driver registry.
pub struct Registry<D> {
    entries: Vec<DriverEntry<D>>,
}

/// `i` is the position of the first entry of `s` named `name`.
pub open spec fn first_named<D>(s: Seq<DriverEntry<D>>, name: Seq<char>, i: int) -> bool {
    &&& 0 <= i < s.len()
    &&& s[i].name@ == name
    &&& forall|j: int| 0 <= j < i ==> s[j].name@ != name
}

/// What `register(name, driver)` does to the entry list `before`, giving
/// `after` and the result `r`: it fails exactly when 16 drivers are
/// registered, leaving the list as it was, and otherwise appends.
pub open spec fn register_step<D>(
    before: Seq<DriverEntry<D>>,
    after: Seq<DriverEntry<D>>,
    r: Result<(), ()>,
    name: &'static str,
    driver: D,
) -> bool {
    &&& (r is Err <==> before.len() >= MAX_DRIVERS)
    &&& r is Err ==> after == before
    &&& r is Ok ==> after == before.push((DriverEntry { name, driver }))
}

/// No entry of `s` is named `name`.
pub open spec fn none_named<D>(s: Seq<DriverEntry<D>>, name: Seq<char>) -> bool {
    forall|j: int| 0 <= j < s.len() ==> s[j].name@ != name
}

impl<D> Registry<D> {
    /// Registered entries, in registration order.
    pub closed spec fn spec_entries(&self) -> Seq<DriverEntry<D>> {
        self.entries@
    }

    /// An empty registry.
    pub fn new() -> (r: Self)
        ensures
            r.spec_entries() == Seq::<DriverEntry<D>>::empty(),
    {
        Registry { entries: Vec::new() }
    }

    /// Register `driver` under `name`.  Fails when 16 drivers are
    /// registered already.
    pub fn register(&mut self, name: &'static str, driver: D) -> (r: Result<(), ()>)
        requires
            old(self).spec_entries().len() <= MAX_DRIVERS,
        ensures
            final(self).spec_entries().len() <= MAX_DRIVERS,
            r is Err <==> old(self).spec_entries().len() >= MAX_DRIVERS,
            r is Err ==> final(self).spec_entries() == old(self).spec_entries(),
            r is Ok ==> final(self).spec_entries() == old(self).spec_entries().push(
                (DriverEntry { name, driver }),
            ),
            register_step(old(self).spec_entries(), final(self).spec_entries(), r, name, driver),
    {
        if self.entries.len() >= MAX_DRIVERS {
            return Err(());
        }
        self.entries.push(DriverEntry { name, driver });
        Ok(())
    }

    /// The first registered driver named `name`.
    pub fn find(&self, name: &str) -> (r: Option<&DriverEntry<D>>)
        ensures
            r is None <==> none_named(self.spec_entries(), name@),
            r matches Some(e) ==> exists|i: int|
                first_named(self.spec_entries(), name@, i) && *e == self.spec_entries()[i],
    {
        let mut i: usize = 0;
        while i < self.entries.len()
            invariant
                i <= self.entries@.len(),
                forall|j: int| 0 <= j < i ==> self.entries@[j].name@ != name@,
            decreases self.entries@.len() - i,
        {
            if str_eq(self.entries[i].name, name) {
                assert(first_named(self.entries@, name@, i as int));
                return Some(&self.entries[i]);
            }
            i = i + 1;
        }
        None
    }
}

impl<D> Default for Registry<D> {
    /// An empty registry.
    fn default() -> (r: Self)
        ensures
            r.spec_entries() == Seq::<DriverEntry<D>>::empty(),
    {
        Self::new()
    }
}


/// A driver registered under a name no earlier driver has is what a
/// lookup of that name finds afterwards.  `after` is the registry's entry
/// list after a successful `register(name, driver)` on `before`.
pub proof fn law_find_registered<D>(
    before: Seq<DriverEntry<D>>,
    after: Seq<DriverEntry<D>>,
    name: &'static str,
    driver: D,
)
    requires
        none_named(before, name@),
        after == before.push((DriverEntry { name, driver })),
    ensures
        first_named(after, name@, before.len() as int),
        after[before.len() as int] == (DriverEntry { name, driver }),
{
}

/// Registering a driver does not change what earlier names find.
pub proof fn law_register_keeps_earlier<D>(
    before: Seq<DriverEntry<D>>,
    after: Seq<DriverEntry<D>>,
    entry: DriverEntry<D>,
    name: Seq<char>,
    i: int,
)
    requires
        first_named(before, name, i),
        after == before.push(entry),
    ensures
        first_named(after, name, i),
        after[i] == before[i],
{
}

/// Of any run of `register` calls on an empty registry, exactly the first
/// 16 succeed and every later one fails; after `i` calls the registry
/// holds `min(i, 16)` entries.  `states[i]` is the entry list before call
/// `i`, made with `names[i]` and `drivers[i]`, and `results[i]` its result.
pub proof fn law_first_sixteen_register<D>(
    states: Seq<Seq<DriverEntry<D>>>,
    results: Seq<Result<(), ()>>,
    names: Seq<&'static str>,
    drivers: Seq<D>,
)
    requires
        states.len() == results.len() + 1,
        names.len() == results.len(),
        drivers.len() == results.len(),
        states[0].len() == 0,
        forall|i: int|
            0 <= i < results.len() ==> #[trigger] register_step(
                states[i],
                states[i + 1],
                results[i],
                names[i],
                drivers[i],
            ),
    ensures
        forall|i: int| 0 <= i < results.len() ==> (#[trigger] results[i] is Ok <==> i < MAX_DRIVERS),
        forall|i: int|
            0 <= i < states.len() ==> #[trigger] states[i].len() == (if i < MAX_DRIVERS {
                i
            } else {
                MAX_DRIVERS as int
            }),
{
    lemma_register_lengths(states, results, names, drivers, results.len() as int);
    assert forall|i: int| 0 <= i < results.len() implies (#[trigger] results[i] is Ok <==> i
        < MAX_DRIVERS) by {
        assert(register_step(states[i], states[i + 1], results[i], names[i], drivers[i]));
        assert(states[i].len() == (if i < MAX_DRIVERS {
            i
        } else {
            MAX_DRIVERS as int
        }));
    }
}

proof fn lemma_register_lengths<D>(
    states: Seq<Seq<DriverEntry<D>>>,
    results: Seq<Result<(), ()>>,
    names: Seq<&'static str>,
    drivers: Seq<D>,
    n: int,
)
    requires
        states.len() == results.len() + 1,
        names.len() == results.len(),
        drivers.len() == results.len(),
        0 <= n <= results.len(),
        states[0].len() == 0,
        forall|i: int|
            0 <= i < results.len() ==> #[trigger] register_step(
                states[i],
                states[i + 1],
                results[i],
                names[i],
                drivers[i],
            ),
    ensures
        forall|i: int|
            0 <= i <= n ==> #[trigger] states[i].len() == (if i < MAX_DRIVERS {
                i
            } else {
                MAX_DRIVERS as int
            }),
    decreases n,
{
    if n > 0 {
        let m = n - 1;
        lemma_register_lengths(states, results, names, drivers, m);
        assert(register_step(states[m], states[m + 1], results[m], names[m], drivers[m]));
        assert(states[m].len() == (if m < MAX_DRIVERS {
            m
        } else {
            MAX_DRIVERS as int
        }));
    }
}

} // verus!
