//! Kernel heap: fixed-size slab caches backed by 4 KiB frames.
//!
//! Requests up to 4 KiB are served from one of eight caches (32 bytes to
//! 4 KiB); larger requests get the null address 0.  Each cache keeps a
//! stack of free object addresses (the most recently freed is handed out
//! first) and grows by carving a fresh frame into objects.
use vstd::prelude::*;
use crate::mm::pmm::BuddyAllocator;

verus! {

/// Number of slab caches.
pub const NUM_CACHES: usize = 8;

/// The null address returned when an allocation cannot be served.
pub const NULL: u64 = 0;

/// `2^k`.
pub open spec fn pow2(k: nat) -> nat
    decreases k,
{
    if k == 0 {
        1
    } else {
        2 * pow2((k - 1) as nat)
    }
}

/// `n` is a power of two.
pub open spec fn is_pow2(n: int) -> bool {
    exists|k: nat| pow2(k) == n
}

/// The smallest power of two that is at least `n` (1 for `n == 0`).
pub open spec fn next_pow2(n: int) -> int
    decreases n,
{
    if n <= 1 {
        1
    } else {
        2 * next_pow2((n + 1) / 2)
    }
}

/// Object size of cache `i`: 32 bytes doubled `i` times.
pub open spec fn slab_size(i: int) -> int {
    32 * (pow2(i as nat) as int)
}

/// Slab size serving a request of `size` bytes aligned to `align`: the
/// smallest cache size covering `max(next_pow2(size), align)`, if any.
pub open spec fn slab_size_spec(size: int, align: int) -> Option<int> {
    let needed = if next_pow2(size) >= align {
        next_pow2(size)
    } else {
        align
    };
    if needed <= 4096 {
        Some(if needed >= 32 {
            needed
        } else {
            32
        })
    } else {
        None
    }
}

/// Cache index for a slab size (32 -> 0, ..., 4096 -> 7).
pub open spec fn class_of(size: int) -> int {
    if size == 32 {
        0
    } else if size == 64 {
        1
    } else if size == 128 {
        2
    } else if size == 256 {
        3
    } else if size == 512 {
        4
    } else if size == 1024 {
        5
    } else if size == 2048 {
        6
    } else {
        7
    }
}

/// A valid `Layout`: the alignment is a power of two and the size rounded
/// up to it fits in `isize`.
pub open spec fn layout_ok(size: usize, align: usize) -> bool {
    is_pow2(align as int) && size + align - 1 <= isize::MAX
}

proof fn lemma_next_pow2(n: int)
    requires
        n >= 0,
    ensures
        next_pow2(n) >= 1,
        next_pow2(n) >= n,
        is_pow2(next_pow2(n)),
        n <= 1 || next_pow2(n) < 2 * n,
    decreases n,
{
    if n <= 1 {
        assert(pow2(0) == 1);
    } else {
        lemma_next_pow2((n + 1) / 2);
        let k = choose|k: nat| pow2(k) == next_pow2((n + 1) / 2);
        assert(pow2(k + 1) == 2 * pow2(k));
    }
}

proof fn lemma_pow2_le(a: nat, b: nat)
    requires
        a <= b,
    ensures
        pow2(a) <= pow2(b),
        pow2(a) >= 1,
    decreases b,
{
    if a < b {
        lemma_pow2_le(a, (b - 1) as nat);
    }
    if b > 0 {
        lemma_pow2_le(0, (b - 1) as nat);
    }
}

/// Two powers of two: the larger is a multiple of the smaller.
proof fn lemma_pow2_cases(x: int)
    requires
        is_pow2(x),
    ensures
        x >= 1,
        x <= 4096 && x >= 32 ==> (x == 32 || x == 64 || x == 128 || x == 256 || x == 512 || x
            == 1024 || x == 2048 || x == 4096),
        x < 32 ==> x * 32 <= 32 * 32,
{
    let k = choose|k: nat| pow2(k) == x;
    lemma_pow2_le(0, k);
    reveal_with_fuel(pow2, 13);
    if k >= 13 {
        lemma_pow2_le(13, k);
    }
}

/// Smallest power of two at least `n`.
fn next_power_of_two(n: usize) -> (r: usize)
    requires
        n <= isize::MAX,
    ensures
        r == next_pow2(n as int),
{
    let mut p: usize = 1;
    let ghost mut k: nat = 0;
    proof {
        lemma_next_pow2(n as int);
    }
    while p < n
        invariant
            n <= isize::MAX,
            1 <= p,
            p == pow2(k),
            p < 2 * n || p == 1,
            forall|j: nat| j < k ==> pow2(j) < n,
        decreases usize::MAX - p,
    {
        proof {
            assert(pow2((k + 1) as nat) == 2 * pow2(k));
        }
        p = p * 2;
        proof {
            k = k + 1;
        }
    }
    proof {
        lemma_pow2_unique_geq(n as int, k);
    }
    p
}

/// `pow2(k)` is the least power of two at least `n` when all smaller
/// powers fall short of `n`.
proof fn lemma_pow2_unique_geq(n: int, k: nat)
    requires
        n >= 0,
        pow2(k) >= n,
        forall|j: nat| j < k ==> pow2(j) < n,
    ensures
        pow2(k) == next_pow2(n),
    decreases n,
{
    if n <= 1 {
        if k > 0 {
            assert(pow2(0) == 1);
            assert(pow2(0) < n);
        }
    } else {
        assert(k > 0) by {
            if k == 0 {
                assert(pow2(0) == 1);
            }
        }
        let m = (n + 1) / 2;
        assert forall|j: nat| j < (k - 1) as nat implies pow2(j) < m by {
            assert(pow2(j + 1) == 2 * pow2(j));
            assert(pow2(j + 1) < n);
        }
        assert(pow2(k) == 2 * pow2((k - 1) as nat));
        lemma_pow2_unique_geq(m, (k - 1) as nat);
    }
}

/// Compute the slab size that serves a `size`-byte allocation aligned to
/// `align`, or `None` when it exceeds 4 KiB.
pub fn slab_size_for(size: usize, align: usize) -> (r: Option<usize>)
    requires
        layout_ok(size, align),
    ensures
        r == (match slab_size_spec(size as int, align as int) {
            Some(s) => Some(s as usize),
            None => None::<usize>,
        }),
        r is Some ==> slab_size(class_of(r->0 as int)) == r->0 && 0 <= class_of(r->0 as int)
            < NUM_CACHES,
{
    proof {
        lemma_pow2_cases(align as int);
    }
    let p = next_power_of_two(size);
    let needed = if p >= align {
        p
    } else {
        align
    };
    proof {
        lemma_next_pow2(size as int);
        lemma_pow2_cases(p as int);
        lemma_pow2_cases(align as int);
        lemma_pow2_cases(needed as int);
    }
    let mut i: usize = 0;
    while i < NUM_CACHES
        invariant
            i <= NUM_CACHES,
            needed == (if next_pow2(size as int) >= align {
                next_pow2(size as int)
            } else {
                align as int
            }),
            is_pow2(needed as int),
            forall|j: int| 0 <= j < i ==> slab_size(j) < needed,
        decreases NUM_CACHES - i,
    {
        let s = slab_size_at(i);
        if s >= needed {
            proof {
                reveal_with_fuel(pow2, 8);
                lemma_pow2_cases(needed as int);
                if i > 0 {
                    assert(slab_size((i - 1) as int) < needed);
                }
                assert(class_of(s as int) == i);
            }
            return Some(s);
        }
        i = i + 1;
    }
    proof {
        reveal_with_fuel(pow2, 8);
        assert(slab_size(7) < needed);
    }
    None
}

/// Object size of cache `i`.
fn slab_size_at(i: usize) -> (r: usize)
    requires
        i < NUM_CACHES,
    ensures
        r == slab_size(i as int),
{
    proof {
        reveal_with_fuel(pow2, 8);
    }
    if i == 0 {
        32
    } else if i == 1 {
        64
    } else if i == 2 {
        128
    } else if i == 3 {
        256
    } else if i == 4 {
        512
    } else if i == 5 {
        1024
    } else if i == 6 {
        2048
    } else {
        4096
    }
}

/// Objects carved from the frame at `frame`, in the order they are pushed:
/// the last object of the frame first, the object at `frame` last.
pub open spec fn carved(frame: int, size: int, count: int) -> Seq<u64> {
    Seq::new(count as nat, |j: int| (frame + (count - 1 - j) * size) as u64)
}

/// Every cache's object size divides a page.
proof fn lemma_slab_size_divides(i: int)
    requires
        0 <= i < NUM_CACHES,
    ensures
        32 <= slab_size(i) <= 4096,
        4096int % slab_size(i) == 0,
{
    reveal_with_fuel(pow2, 8);
    if i == 0 {
        assert(slab_size(0) == 32);
        assert(4096int % 32int == 0) by (nonlinear_arith);
    } else if i == 1 {
        assert(slab_size(1) == 64);
        assert(4096int % 64int == 0) by (nonlinear_arith);
    } else if i == 2 {
        assert(slab_size(2) == 128);
        assert(4096int % 128int == 0) by (nonlinear_arith);
    } else if i == 3 {
        assert(slab_size(3) == 256);
        assert(4096int % 256int == 0) by (nonlinear_arith);
    } else if i == 4 {
        assert(slab_size(4) == 512);
        assert(4096int % 512int == 0) by (nonlinear_arith);
    } else if i == 5 {
        assert(slab_size(5) == 1024);
        assert(4096int % 1024int == 0) by (nonlinear_arith);
    } else if i == 6 {
        assert(slab_size(6) == 2048);
        assert(4096int % 2048int == 0) by (nonlinear_arith);
    } else {
        assert(slab_size(7) == 4096);
        assert(4096int % 4096int == 0) by (nonlinear_arith);
    }
}

/// The objects carved from an aligned frame are aligned to their size.
proof fn lemma_carved_aligned(f: int, size: int, count: int)
    requires
        f >= 0,
        f % 4096 == 0,
        size >= 32,
        4096int % size == 0,
        count == 4096int / size,
        f + 4096 <= u64::MAX,
    ensures
        forall|j: int| 0 <= j < count ==> (#[trigger] carved(f, size, count)[j] as int) % size == 0,
{
    assert forall|j: int| 0 <= j < count implies (#[trigger] carved(f, size, count)[j] as int) % size == 0 by {
        let m = count - 1 - j;
        assert(0 <= m * size && m * size < 4096) by (nonlinear_arith)
            requires
                0 <= m < count,
                count == 4096int / size,
                size >= 32,
        ;
        assert((f + m * size) % size == 0) by (nonlinear_arith)
            requires
                f % 4096 == 0,
                4096int % size == 0,
                size > 0,
                m >= 0,
                f >= 0,
        ;
    }
}

/// One slab cache: a stack of free objects of a single size.
pub struct SlabCache {
    size: usize,
    free_list: Vec<u64>,
}

impl SlabCache {
    /// Object size of this cache.
    pub closed spec fn object_size(&self) -> nat {
        self.size as nat
    }

    /// Free objects; the last one is handed out next.
    pub closed spec fn free_objects(&self) -> Seq<u64> {
        self.free_list@
    }

    /// Every free object is aligned to the object size.
    pub open spec fn objects_aligned(&self) -> bool {
        forall|i: int|
            0 <= i < self.free_objects().len() ==> (#[trigger] self.free_objects()[i] as int) % (
                self.object_size() as int) == 0
    }

    /// An empty cache of objects of `size` bytes.
    pub fn new(size: usize) -> (r: Self)
        ensures
            r.object_size() == size,
            r.free_objects() == Seq::<u64>::empty(),
            r.objects_aligned(),
    {
        SlabCache { size, free_list: Vec::new() }
    }

    /// Grow this cache by carving a fresh frame from `pmm` into objects.
    /// Returns false when no frame is available.
    fn grow(&mut self, pmm: &mut BuddyAllocator) -> (r: bool)
        requires
            old(pmm).wf(),
            32 <= old(self).size <= 4096,
        ensures
            final(pmm).wf(),
            final(pmm).base() == old(pmm).base(),
            final(pmm).total() == old(pmm).total(),
            final(self).size == old(self).size,
            r == (old(pmm).free_list(0).len() > 0),
            !r ==> final(self).free_list@ == old(self).free_list@ && final(pmm).free_lists_view()
                == old(pmm).free_lists_view(),
            r ==> final(pmm).free_lists_view() == old(pmm).free_lists_view().update(
                0,
                old(pmm).free_list(0).drop_first(),
            ) && final(self).free_list@ == old(self).free_list@ + carved(
                old(pmm).frame_addr(old(pmm).free_list(0)[0] as int),
                old(self).size as int,
                4096int / old(self).size as int,
            ),
    {
        proof {
            pmm.lemma_wf_facts();
        }
        let ghost l0 = pmm.free_list(0);
        let frame = match pmm.alloc_frame() {
            Some(f) => f,
            None => {
                return false;
            },
        };
        proof {
            let b = old(pmm).base() as int;
            let tot = old(pmm).total() as int;
            let h = l0[0] as int;
            assert(b + h * 4096 + 4096 <= u64::MAX) by (nonlinear_arith)
                requires
                    0 <= h < tot,
                    b + tot * 4096 <= u64::MAX,
            ;
        }
        let count = 4096 / self.size;
        let ghost start = self.free_list@;
        let mut i = count;
        while i > 0
            invariant
                i <= count,
                self.size == old(self).size,
                count == 4096usize / self.size,
                32 <= self.size <= 4096,
                frame as int + 4096 <= u64::MAX,
                self.free_list@ == start + carved(frame as int, self.size as int, count as int).take(
                    (count - i) as int,
                ),
            decreases i,
        {
            i = i - 1;
            proof {
                assert(i * self.size < 4096) by (nonlinear_arith)
                    requires
                        i < count,
                        count == 4096usize / self.size,
                        self.size >= 32,
                ;
            }
            let obj = frame + (i * self.size) as u64;
            self.free_list.push(obj);
            assert(self.free_list@ =~= start + carved(
                frame as int,
                self.size as int,
                count as int,
            ).take((count - i) as int));
        }
        assert(carved(frame as int, self.size as int, count as int).take(count as int) =~= carved(
            frame as int,
            self.size as int,
            count as int,
        ));
        true
    }

    /// Pop one object, growing the cache first when it is empty.  Returns
    /// `NULL` when the cache is empty and no frame is available.
    pub fn allocate(&mut self, pmm: &mut BuddyAllocator) -> (r: u64)
        requires
            old(pmm).wf(),
            32 <= old(self).object_size() <= 4096,
        ensures
            final(pmm).wf(),
            final(pmm).base() == old(pmm).base(),
            final(pmm).total() == old(pmm).total(),
            final(self).object_size() == old(self).object_size(),
            old(self).free_objects().len() > 0 ==> r == old(self).free_objects().last() && final(self).free_objects() == old(self).free_objects().drop_last() && final(pmm).free_lists_view() == old(pmm).free_lists_view(),
            old(self).free_objects().len() == 0 && old(pmm).free_list(0).len() == 0 ==> r == NULL
                && final(self).free_objects() == old(self).free_objects() && final(pmm).free_lists_view() == old(pmm).free_lists_view(),
            old(self).free_objects().len() == 0 && old(pmm).free_list(0).len() > 0 ==> {
                let f = old(pmm).frame_addr(old(pmm).free_list(0)[0] as int);
                let c = carved(f, old(self).object_size() as int, 4096int / old(self).object_size() as int);
                &&& r == f as u64
                &&& final(self).free_objects() == c.drop_last()
                &&& final(pmm).free_lists_view() == old(pmm).free_lists_view().update(
                    0,
                    old(pmm).free_list(0).drop_first(),
                )
            },
            old(self).objects_aligned() && old(pmm).base() % 4096 == 0 && 4096int % (old(self).object_size() as int) == 0 ==> final(self).objects_aligned() && (r as int) % (old(self).object_size() as int) == 0,
    {
        if self.free_list.len() == 0 && !self.grow(pmm) {
            return NULL;
        }
        proof {
            if old(self).free_list@.len() == 0 {
                let sz = self.size as int;
                assert(4096int / sz >= 1) by (nonlinear_arith)
                    requires
                        32 <= sz <= 4096,
                ;
                let c = carved(
                    old(pmm).frame_addr(old(pmm).free_list(0)[0] as int),
                    self.size as int,
                    4096int / self.size as int,
                );
                assert(self.free_list@ =~= c);
                if old(self).objects_aligned() && old(pmm).base() % 4096 == 0 && 4096int % sz == 0 {
                    old(pmm).lemma_wf_facts();
                    let h = old(pmm).free_list(0)[0] as int;
                    let b = old(pmm).base() as int;
                    let tot = old(pmm).total() as int;
                    assert(b + h * 4096 + 4096 <= u64::MAX && (b + h * 4096) % 4096 == 0) by (nonlinear_arith)
                        requires
                            0 <= h < tot,
                            b + tot * 4096 <= u64::MAX,
                            b % 4096 == 0,
                    ;
                    lemma_carved_aligned(b + h * 4096, sz, 4096int / sz);
                }
            }
        }
        match self.free_list.pop() {
            Some(obj) => obj,
            None => NULL,
        }
    }

    /// Push an object back onto this cache.
    pub fn dealloc(&mut self, ptr: u64)
        ensures
            final(self).object_size() == old(self).object_size(),
            final(self).free_objects() == old(self).free_objects().push(ptr),
            old(self).objects_aligned() && (ptr as int) % (old(self).object_size() as int) == 0
                ==> final(self).objects_aligned(),
    {
        self.free_list.push(ptr);
        proof {
            if old(self).objects_aligned() && (ptr as int) % (old(self).object_size() as int) == 0 {
                assert forall|i: int| 0 <= i < self.free_objects().len() implies (
                #[trigger] self.free_objects()[i] as int) % (self.object_size() as int) == 0 by {
                    if i < old(self).free_objects().len() {
                        assert(self.free_objects()[i] == old(self).free_objects()[i]);
                    }
                }
            }
        }
    }
}

/// Slab allocator for the kernel heap: eight caches of 32 bytes to 4 KiB.
pub struct SlabAllocator {
    caches: Vec<SlabCache>,
}

impl SlabAllocator {
    /// Cache `i`.
    pub closed spec fn cache(&self, i: int) -> SlabCache {
        self.caches@[i]
    }

    /// Every free object of every cache is aligned to its object size.
    pub open spec fn objects_aligned(&self) -> bool {
        forall|i: int| 0 <= i < NUM_CACHES ==> (#[trigger] self.cache(i)).objects_aligned()
    }

    pub closed spec fn wf(&self) -> bool {
        &&& self.caches@.len() == NUM_CACHES
        &&& forall|i: int| 0 <= i < NUM_CACHES ==> #[trigger] self.caches@[i].size == slab_size(i)
    }

    /// Eight empty caches.
    pub fn new() -> (r: Self)
        ensures
            r.wf(),
            r.objects_aligned(),
            forall|i: int| 0 <= i < NUM_CACHES ==> (#[trigger] r.cache(i)).free_objects() == Seq::<
                u64,
            >::empty(),
    {
        let mut caches: Vec<SlabCache> = Vec::new();
        let mut i: usize = 0;
        while i < NUM_CACHES
            invariant
                i <= NUM_CACHES,
                caches@.len() == i,
                forall|j: int| 0 <= j < i ==> #[trigger] caches@[j].size == slab_size(j),
                forall|j: int| 0 <= j < i ==> (#[trigger] caches@[j]).free_list@ == Seq::<
                    u64,
                >::empty(),
            decreases NUM_CACHES - i,
        {
            caches.push(SlabCache::new(slab_size_at(i)));
            i = i + 1;
        }
        SlabAllocator { caches }
    }

    /// Find the cache whose objects are `size` bytes.
    fn cache_for_size(&self, size: usize) -> (r: Option<usize>)
        requires
            self.wf(),
        ensures
            match r {
                Some(i) => i < NUM_CACHES && slab_size(i as int) == size,
                None => forall|i: int| 0 <= i < NUM_CACHES ==> slab_size(i) != size,
            },
    {
        let mut i: usize = 0;
        while i < self.caches.len()
            invariant
                self.wf(),
                i <= NUM_CACHES,
                forall|j: int| 0 <= j < i ==> slab_size(j) != size,
            decreases NUM_CACHES - i,
        {
            if self.caches[i].size == size {
                return Some(i);
            }
            i = i + 1;
        }
        None
    }

    /// Allocate `size` bytes aligned to `align` from the matching cache.
    /// Returns `NULL` for requests above 4 KiB or when memory runs out.
    pub fn allocate(&mut self, pmm: &mut BuddyAllocator, size: usize, align: usize) -> (r: u64)
        requires
            old(self).wf(),
            old(pmm).wf(),
            layout_ok(size, align),
        ensures
            final(self).wf(),
            final(pmm).wf(),
            final(pmm).base() == old(pmm).base(),
            final(pmm).total() == old(pmm).total(),
            slab_size_spec(size as int, align as int) is None ==> r == NULL && *final(self) == *old(self) && final(pmm).free_lists_view() == old(pmm).free_lists_view(),
            slab_size_spec(size as int, align as int) is Some ==> {
                let c = class_of(slab_size_spec(size as int, align as int)->0);
                let cache0 = old(self).cache(c);
                &&& forall|j: int|
                    0 <= j < NUM_CACHES && j != c ==> #[trigger] final(self).cache(j) == old(self).cache(j)
                &&& cache0.free_objects().len() > 0 ==> r == cache0.free_objects().last()
                    && final(self).cache(c).free_objects() == cache0.free_objects().drop_last()
                    && final(pmm).free_lists_view() == old(pmm).free_lists_view()
                &&& cache0.free_objects().len() == 0 && old(pmm).free_list(0).len() == 0 ==> r
                    == NULL && final(self).cache(c).free_objects() == cache0.free_objects()
                    && final(pmm).free_lists_view() == old(pmm).free_lists_view()
                &&& cache0.free_objects().len() == 0 && old(pmm).free_list(0).len() > 0 ==> {
                    let f = old(pmm).frame_addr(old(pmm).free_list(0)[0] as int);
                    &&& r == f as u64
                    &&& final(self).cache(c).free_objects() == carved(
                        f,
                        slab_size(c),
                        4096int / slab_size(c),
                    ).drop_last()
                    &&& final(pmm).free_lists_view() == old(pmm).free_lists_view().update(
                        0,
                        old(pmm).free_list(0).drop_first(),
                    )
                }
            },
            old(self).objects_aligned() && old(pmm).base() % 4096 == 0 ==> final(self).objects_aligned()
                && (slab_size_spec(size as int, align as int) matches Some(s) ==> (r as int) % s == 0),
    {
        let size = match slab_size_for(size, align) {
            Some(s) => s,
            None => {
                return NULL;
            },
        };
        let idx = match self.cache_for_size(size) {
            Some(c) => c,
            None => {
                proof {
                    reveal_with_fuel(pow2, 8);
                    assert(slab_size(class_of(size as int)) == size);
                }
                return NULL;
            },
        };
        proof {
            reveal_with_fuel(pow2, 8);
            assert(idx == class_of(size as int));
        }
        let mut cache = self.caches.remove(idx);
        proof {
            assert(cache == old(self).cache(idx as int));
            lemma_slab_size_divides(idx as int);
        }
        let r = cache.allocate(pmm);
        self.caches.insert(idx, cache);
        assert forall|j: int| 0 <= j < NUM_CACHES implies #[trigger] self.caches@[j].size
            == slab_size(j) by {
            if j != idx {
                assert(self.caches@[j] == old(self).caches@[j]);
            }
        }
        assert forall|j: int| 0 <= j < NUM_CACHES && j != idx implies #[trigger] self.cache(j)
            == old(self).cache(j) by {}
        assert(self.cache(idx as int) == cache);
        r
    }

    /// Return `ptr`, allocated with `size` and `align`, to its cache.
    /// Requests above 4 KiB are ignored.
    pub fn dealloc(&mut self, ptr: u64, size: usize, align: usize)
        requires
            old(self).wf(),
            layout_ok(size, align),
        ensures
            final(self).wf(),
            slab_size_spec(size as int, align as int) is None ==> *final(self) == *old(self),
            slab_size_spec(size as int, align as int) is Some ==> {
                let c = class_of(slab_size_spec(size as int, align as int)->0);
                &&& forall|j: int|
                    0 <= j < NUM_CACHES && j != c ==> #[trigger] final(self).cache(j) == old(self).cache(j)
                &&& final(self).cache(c).free_objects() == old(self).cache(c).free_objects().push(
                    ptr,
                )
            },
            old(self).objects_aligned() && (slab_size_spec(size as int, align as int) matches Some(s)
                ==> (ptr as int) % s == 0) ==> final(self).objects_aligned(),
    {
        let size = match slab_size_for(size, align) {
            Some(s) => s,
            None => {
                return ;
            },
        };
        let idx = match self.cache_for_size(size) {
            Some(c) => c,
            None => {
                proof {
                    reveal_with_fuel(pow2, 8);
                    assert(slab_size(class_of(size as int)) == size);
                }
                return ;
            },
        };
        proof {
            reveal_with_fuel(pow2, 8);
            assert(idx == class_of(size as int));
        }
        let mut cache = self.caches.remove(idx);
        proof {
            assert(cache == old(self).cache(idx as int));
        }
        cache.dealloc(ptr);
        self.caches.insert(idx, cache);
        assert forall|j: int| 0 <= j < NUM_CACHES implies #[trigger] self.caches@[j].size
            == slab_size(j) by {
            if j != idx {
                assert(self.caches@[j] == old(self).caches@[j]);
            }
        }
        assert forall|j: int| 0 <= j < NUM_CACHES && j != idx implies #[trigger] self.cache(j)
            == old(self).cache(j) by {}
        assert(self.cache(idx as int) == cache);
    }
}

/// Initialise the heap.  Caches are populated lazily on first allocation,
/// so there is nothing to do.
pub fn init() {
}

// ─── Laws ───────────────────────────────────────────────────────────────────

/// `next_pow2(n)` is at most any power of two that is at least `n`.
proof fn lemma_next_pow2_least(n: int, k: nat)
    requires
        n >= 0,
        pow2(k) >= n,
    ensures
        next_pow2(n) <= pow2(k),
    decreases n,
{
    lemma_pow2_le(0, k);
    if n > 1 {
        if k == 0 {
            assert(pow2(0) == 1);
        } else {
            assert(pow2(k) == 2 * pow2((k - 1) as nat));
            assert(pow2((k - 1) as nat) >= (n + 1) / 2);
            lemma_next_pow2_least((n + 1) / 2, (k - 1) as nat);
        }
    }
}

/// Every served request fits its object: a request of `size` bytes aligned
/// to `align` is served exactly when both are at most 4 KiB, and then by a
/// cache whose objects are a power of two between 32 bytes and 4 KiB, no
/// smaller than `size` and no smaller than `align`.
pub proof fn law_slab_size_fits(size: usize, align: usize)
    requires
        layout_ok(size, align),
    ensures
        slab_size_spec(size as int, align as int) is Some <==> size <= 4096 && align <= 4096,
        slab_size_spec(size as int, align as int) matches Some(s) ==> {
            &&& size <= s
            &&& align <= s
            &&& 32 <= s <= 4096
            &&& is_pow2(s)
            &&& 0 <= class_of(s) < NUM_CACHES
            &&& slab_size(class_of(s)) == s
        },
{
    lemma_next_pow2(size as int);
    lemma_pow2_cases(align as int);
    reveal_with_fuel(pow2, 13);
    if size <= 4096 {
        lemma_next_pow2_least(size as int, 12);
    }
    let n = next_pow2(size as int);
    lemma_pow2_cases(n);
    assert(pow2(5) == 32);
    assert(is_pow2(32));
}

/// The most recently freed object is the next one handed out for the same
/// request, after which every cache is as before the free.  `s1` is the
/// heap after `dealloc(ptr, size, align)` on `s0`; `s2` and `r` are the heap
/// and the result after `allocate` of the same size and alignment on `s1`,
/// whose cache is not empty.
pub proof fn law_allocate_reuses_last_freed(
    s0: SlabAllocator,
    s1: SlabAllocator,
    s2: SlabAllocator,
    size: usize,
    align: usize,
    ptr: u64,
    r: u64,
)
    requires
        s0.wf(),
        layout_ok(size, align),
        slab_size_spec(size as int, align as int) is Some,
        ({
            let c = class_of(slab_size_spec(size as int, align as int)->0);
            &&& forall|j: int| 0 <= j < NUM_CACHES && j != c ==> #[trigger] s1.cache(j) == s0.cache(j)
            &&& s1.cache(c).free_objects() == s0.cache(c).free_objects().push(ptr)
            &&& forall|j: int| 0 <= j < NUM_CACHES && j != c ==> #[trigger] s2.cache(j) == s1.cache(j)
            &&& s1.cache(c).free_objects().len() > 0 ==> r == s1.cache(c).free_objects().last()
                && s2.cache(c).free_objects() == s1.cache(c).free_objects().drop_last()
        }),
    ensures
        r == ptr,
        forall|j: int|
            0 <= j < NUM_CACHES ==> (#[trigger] s2.cache(j)).free_objects() == s0.cache(j).free_objects(),
{
    let c = class_of(slab_size_spec(size as int, align as int)->0);
    assert(s1.cache(c).free_objects().drop_last() =~= s0.cache(c).free_objects());
    assert forall|j: int| 0 <= j < NUM_CACHES implies (#[trigger] s2.cache(j)).free_objects()
        == s0.cache(j).free_objects() by {
        if j != c {
            assert(s2.cache(j) == s1.cache(j));
            assert(s1.cache(j) == s0.cache(j));
        }
    }
}

// ─── Object placement ───────────────────────────────────────────────────────

/// The objects `x` and `y`, each an address and a size, do not overlap.
pub open spec fn apart(x: (int, int), y: (int, int)) -> bool {
    x.0 + x.1 <= y.0 || y.0 + y.1 <= x.0
}

/// `x` is a free object of one of the caches of `h`, with that cache's
/// object size.
pub open spec fn free_object(h: SlabAllocator, x: (int, int)) -> bool {
    exists|i: int, j: int|
        0 <= i < NUM_CACHES && 0 <= j < h.cache(i).free_objects().len() && x == (
            #[trigger] h.cache(i).free_objects()[j] as int,
            slab_size(i),
        )
}

/// `x` is an object of the heap `h`: free in a cache, or handed out and
/// still in use (`live`).
pub open spec fn heap_object(h: SlabAllocator, live: Set<(int, int)>, x: (int, int)) -> bool {
    free_object(h, x) || live.contains(x)
}

/// The object `x` lies within one managed frame of `p`, which is not free.
pub open spec fn in_used_frame(p: BuddyAllocator, x: (int, int)) -> bool {
    let off = x.0 - p.base();
    &&& off >= 0
    &&& x.1 > 0
    &&& off / 4096 < p.total()
    &&& off % 4096 + x.1 <= 4096
    &&& !p.is_free((off / 4096) as usize)
}

/// The heap `h`, with the objects `live` handed out and in use, keeps its
/// objects apart: no object is free twice or both free and in use, no two
/// objects overlap, and each lies in a frame `p` does not consider free.
pub open spec fn objects_apart(h: SlabAllocator, p: BuddyAllocator, live: Set<(int, int)>) -> bool {
    &&& h.wf()
    &&& forall|i: int| 0 <= i < NUM_CACHES ==> (#[trigger] h.cache(i)).free_objects().no_duplicates()
    &&& forall|x: (int, int)| live.contains(x) ==> !free_object(h, x)
    &&& forall|x: (int, int), y: (int, int)|
        #[trigger] heap_object(h, live, x) && #[trigger] heap_object(h, live, y) && x != y ==> apart(
            x,
            y,
        )
    &&& forall|x: (int, int)| #[trigger] heap_object(h, live, x) ==> in_used_frame(p, x)
}

/// Different caches have different object sizes.
proof fn lemma_slab_size_injective(i: int, j: int)
    requires
        0 <= i < NUM_CACHES,
        0 <= j < NUM_CACHES,
        slab_size(i) == slab_size(j),
    ensures
        i == j,
{
    reveal_with_fuel(pow2, 8);
    assert(slab_size(0) == 32);
    assert(slab_size(1) == 64);
    assert(slab_size(2) == 128);
    assert(slab_size(3) == 256);
    assert(slab_size(4) == 512);
    assert(slab_size(5) == 1024);
    assert(slab_size(6) == 2048);
    assert(slab_size(7) == 4096);
}

/// Objects in different frames do not overlap.
proof fn lemma_frames_apart(base: int, x: (int, int), y: (int, int))
    requires
        x.0 - base >= 0,
        y.0 - base >= 0,
        (x.0 - base) % 4096 + x.1 <= 4096,
        (y.0 - base) % 4096 + y.1 <= 4096,
        (x.0 - base) / 4096 != (y.0 - base) / 4096,
    ensures
        apart(x, y),
{
    let ox = x.0 - base;
    let oy = y.0 - base;
    let qx = ox / 4096;
    let qy = oy / 4096;
    assert(ox == 4096 * qx + ox % 4096 && oy == 4096 * qy + oy % 4096) by (nonlinear_arith)
        requires
            ox >= 0,
            oy >= 0,
            qx == ox / 4096,
            qy == oy / 4096,
    ;
    if qx < qy {
        assert(4096 * qx + 4096 <= 4096 * qy) by (nonlinear_arith)
            requires
                qx < qy,
        ;
    } else {
        assert(4096 * qy + 4096 <= 4096 * qx) by (nonlinear_arith)
            requires
                qy < qx,
        ;
    }
}

/// An empty heap keeps its (no) objects apart, whatever the frames.
pub proof fn law_empty_heap_objects_apart(h: SlabAllocator, p: BuddyAllocator)
    requires
        h.wf(),
        forall|i: int| 0 <= i < NUM_CACHES ==> (#[trigger] h.cache(i)).free_objects() == Seq::<
            u64,
        >::empty(),
    ensures
        objects_apart(h, p, Set::empty()),
{
    assert forall|x: (int, int)| !free_object(h, x) by {
        if free_object(h, x) {
            let (i, j) = choose|i: int, j: int|
                0 <= i < NUM_CACHES && 0 <= j < h.cache(i).free_objects().len() && x == (
                    #[trigger] h.cache(i).free_objects()[j] as int,
                    slab_size(i),
                );
            assert(h.cache(i).free_objects() == Seq::<u64>::empty());
        }
    }
    assert forall|i: int| 0 <= i < NUM_CACHES implies (#[trigger] h.cache(i)).free_objects().no_duplicates() by {
        assert(h.cache(i).free_objects() == Seq::<u64>::empty());
    }
}

/// Returning an object that is in use keeps the heap's objects apart.
/// `h1` is the heap after `dealloc(ptr, size, align)` on `h0`, where `ptr`
/// was handed out for that size and alignment.
pub proof fn law_dealloc_keeps_objects_apart(
    h0: SlabAllocator,
    h1: SlabAllocator,
    p: BuddyAllocator,
    live: Set<(int, int)>,
    ptr: u64,
    size: usize,
    align: usize,
)
    requires
        objects_apart(h0, p, live),
        layout_ok(size, align),
        slab_size_spec(size as int, align as int) is Some,
        live.contains((ptr as int, slab_size_spec(size as int, align as int)->0)),
        h1.wf(),
        ({
            let c = class_of(slab_size_spec(size as int, align as int)->0);
            &&& forall|j: int| 0 <= j < NUM_CACHES && j != c ==> #[trigger] h1.cache(j) == h0.cache(j)
            &&& h1.cache(c).free_objects() == h0.cache(c).free_objects().push(ptr)
        }),
    ensures
        objects_apart(h1, p, live.remove((ptr as int, slab_size_spec(size as int, align as int)->0))),
{
    let s = slab_size_spec(size as int, align as int)->0;
    let c = class_of(s);
    law_slab_size_fits(size, align);
    let o = (ptr as int, s);
    let live1 = live.remove(o);
    let q0 = h0.cache(c).free_objects();
    // A free object of `h1` is one of `h0` or the returned object.
    assert forall|x: (int, int)| free_object(h1, x) implies free_object(h0, x) || x == o by {
        let (i, j) = choose|i: int, j: int|
            0 <= i < NUM_CACHES && 0 <= j < h1.cache(i).free_objects().len() && x == (
                #[trigger] h1.cache(i).free_objects()[j] as int,
                slab_size(i),
            );
        if i == c {
            if j < q0.len() {
                assert(h1.cache(c).free_objects()[j] == q0[j]);
                assert(x == (h0.cache(i).free_objects()[j] as int, slab_size(i)));
            }
        } else {
            assert(h1.cache(i) == h0.cache(i));
            assert(x == (h0.cache(i).free_objects()[j] as int, slab_size(i)));
        }
    }
    // The returned object was not free.
    assert(!q0.contains(ptr)) by {
        if q0.contains(ptr) {
            let j = choose|j: int| 0 <= j < q0.len() && q0[j] == ptr;
            assert(o == (h0.cache(c).free_objects()[j] as int, slab_size(c)));
        }
    }
    assert forall|i: int| 0 <= i < NUM_CACHES implies (#[trigger] h1.cache(i)).free_objects().no_duplicates() by {
        if i == c {
            assert forall|a: int, b: int|
                0 <= a < h1.cache(c).free_objects().len() && 0 <= b < h1.cache(c).free_objects().len() && a != b
                implies h1.cache(c).free_objects()[a] != h1.cache(c).free_objects()[b] by {
                if a < q0.len() && b < q0.len() {
                    assert(h0.cache(c).free_objects().no_duplicates());
                } else if a < q0.len() {
                    assert(q0.contains(q0[a]));
                } else if b < q0.len() {
                    assert(q0.contains(q0[b]));
                }
            }
        } else {
            assert(h1.cache(i) == h0.cache(i));
        }
    }
    assert forall|x: (int, int)| #[trigger] heap_object(h1, live1, x) implies heap_object(h0, live, x) by {
        if free_object(h1, x) {
            if x != o {
                assert(free_object(h0, x));
            }
        }
    }
    assert forall|x: (int, int)| live1.contains(x) implies !free_object(h1, x) by {
        if free_object(h1, x) {
            assert(free_object(h0, x) || x == o);
        }
    }
    assert forall|x: (int, int), y: (int, int)|
        #[trigger] heap_object(h1, live1, x) && #[trigger] heap_object(h1, live1, y) && x != y implies apart(
        x,
        y,
    ) by {
        assert(heap_object(h0, live, x));
        assert(heap_object(h0, live, y));
    }
    assert forall|x: (int, int)| #[trigger] heap_object(h1, live1, x) implies in_used_frame(p, x) by {
        assert(heap_object(h0, live, x));
    }
}

/// Address of object `k` of size `s` in a frame at `f`.
spec fn slot(f: int, s: int, k: int) -> int {
    f + k * s
}

/// Frames free after taking the head of the single-frame list were free
/// before, and are not that head.
proof fn lemma_free_after_pop(p0: BuddyAllocator, p1: BuddyAllocator, idx: usize)
    requires
        p0.wf(),
        p0.free_list(0).len() > 0,
        p1.free_lists_view() == p0.free_lists_view().update(0, p0.free_list(0).drop_first()),
        p1.is_free(idx),
    ensures
        p0.is_free(idx),
        idx != p0.free_list(0)[0],
{
    p0.lemma_wf_facts();
    let (o, i) = choose|o: int, i: int|
        0 <= o < p1.free_lists_view().len() && 0 <= i < p1.free_lists_view()[o].len()
            && p1.free_lists_view()[o][i] == idx;
    if o == 0 {
        assert(p0.free_lists_view()[0][i + 1] == idx);
        assert(p0.free_lists_view()[0][i + 1] != p0.free_lists_view()[0][0]);
    } else {
        assert(p0.free_lists_view()[o][i] == idx);
        assert(p0.free_lists_view()[o][i] != p0.free_lists_view()[0][0]);
    }
}

/// An allocation hands out an object that overlaps no object in use, and
/// the heap keeps its objects apart with that object added to those in
/// use.  `h1`, `p1` and `r` are the heap, the frame allocator and the
/// result after `allocate(size, align)` on `h0` and `p0`, for a request
/// served (the cache had a free object or the frame allocator a frame).
pub proof fn law_allocation_keeps_objects_apart(
    h0: SlabAllocator,
    p0: BuddyAllocator,
    h1: SlabAllocator,
    p1: BuddyAllocator,
    live: Set<(int, int)>,
    size: usize,
    align: usize,
    r: u64,
)
    requires
        objects_apart(h0, p0, live),
        p0.wf(),
        layout_ok(size, align),
        slab_size_spec(size as int, align as int) is Some,
        h1.wf(),
        p1.wf(),
        p1.base() == p0.base(),
        p1.total() == p0.total(),
        ({
            let c = class_of(slab_size_spec(size as int, align as int)->0);
            let cache0 = h0.cache(c);
            &&& cache0.free_objects().len() > 0 || p0.free_list(0).len() > 0
            &&& forall|j: int| 0 <= j < NUM_CACHES && j != c ==> #[trigger] h1.cache(j) == h0.cache(j)
            &&& cache0.free_objects().len() > 0 ==> r == cache0.free_objects().last()
                && h1.cache(c).free_objects() == cache0.free_objects().drop_last()
                && p1.free_lists_view() == p0.free_lists_view()
            &&& cache0.free_objects().len() == 0 && p0.free_list(0).len() == 0 ==> r == NULL
            &&& cache0.free_objects().len() == 0 && p0.free_list(0).len() > 0 ==> {
                let f = p0.frame_addr(p0.free_list(0)[0] as int);
                &&& r == f as u64
                &&& h1.cache(c).free_objects() == carved(
                    f,
                    slab_size(c),
                    4096int / slab_size(c),
                ).drop_last()
                &&& p1.free_lists_view() == p0.free_lists_view().update(
                    0,
                    p0.free_list(0).drop_first(),
                )
            }
        }),
    ensures
        ({
            let o = (r as int, slab_size_spec(size as int, align as int)->0);
            &&& !live.contains(o)
            &&& forall|x: (int, int)| live.contains(x) ==> apart(o, x)
            &&& objects_apart(h1, p1, live.insert(o))
        }),
{
    let s = slab_size_spec(size as int, align as int)->0;
    let c = class_of(s);
    law_slab_size_fits(size, align);
    lemma_slab_size_divides(c);
    let o = (r as int, s);
    let live1 = live.insert(o);
    let q0 = h0.cache(c).free_objects();
    if q0.len() > 0 {
        // The last free object of the cache is handed out.
        let n = q0.len() - 1;
        assert(free_object(h0, o)) by {
            assert(o == (h0.cache(c).free_objects()[n] as int, slab_size(c)));
        }
        assert(heap_object(h0, live, o));
        assert forall|x: (int, int)| free_object(h1, x) implies free_object(h0, x) by {
            let (i, j) = choose|i: int, j: int|
                0 <= i < NUM_CACHES && 0 <= j < h1.cache(i).free_objects().len() && x == (
                    #[trigger] h1.cache(i).free_objects()[j] as int,
                    slab_size(i),
                );
            if i == c {
                assert(h1.cache(c).free_objects()[j] == q0[j]);
                assert(x == (h0.cache(i).free_objects()[j] as int, slab_size(i)));
            } else {
                assert(h1.cache(i) == h0.cache(i));
                assert(x == (h0.cache(i).free_objects()[j] as int, slab_size(i)));
            }
        }
        assert(!free_object(h1, o)) by {
            if free_object(h1, o) {
                let (i, j) = choose|i: int, j: int|
                    0 <= i < NUM_CACHES && 0 <= j < h1.cache(i).free_objects().len() && o == (
                        #[trigger] h1.cache(i).free_objects()[j] as int,
                        slab_size(i),
                    );
                lemma_slab_size_injective(i, c);
                assert(h1.cache(c).free_objects()[j] == q0[j]);
                assert(h0.cache(c).free_objects().no_duplicates());
            }
        }
        assert forall|i: int| 0 <= i < NUM_CACHES implies (#[trigger] h1.cache(i)).free_objects().no_duplicates() by {
            if i == c {
                assert(h0.cache(c).free_objects().no_duplicates());
                assert forall|a: int, b: int|
                    0 <= a < h1.cache(c).free_objects().len() && 0 <= b < h1.cache(c).free_objects().len()
                        && a != b implies h1.cache(c).free_objects()[a] != h1.cache(c).free_objects()[b] by {
                    assert(h1.cache(c).free_objects()[a] == q0[a]);
                    assert(h1.cache(c).free_objects()[b] == q0[b]);
                }
            } else {
                assert(h1.cache(i) == h0.cache(i));
            }
        }
        assert forall|x: (int, int)| #[trigger] heap_object(h1, live1, x) implies heap_object(h0, live, x) by {
            if free_object(h1, x) {
                assert(free_object(h0, x));
            }
        }
        assert forall|x: (int, int)| live1.contains(x) implies !free_object(h1, x) by {
            if x != o && free_object(h1, x) {
                assert(free_object(h0, x));
            }
        }
        assert forall|x: (int, int), y: (int, int)|
            #[trigger] heap_object(h1, live1, x) && #[trigger] heap_object(h1, live1, y) && x != y implies apart(
            x,
            y,
        ) by {
            assert(heap_object(h0, live, x));
            assert(heap_object(h0, live, y));
        }
        assert forall|x: (int, int)| #[trigger] heap_object(h1, live1, x) implies in_used_frame(p1, x) by {
            assert(heap_object(h0, live, x));
            assert(in_used_frame(p0, x));
        }
        assert forall|x: (int, int)| live.contains(x) implies apart(o, x) by {
            assert(heap_object(h0, live, x));
        }
    } else {
        // A fresh frame is carved: the head of the single-frame list.
        assert(p0.free_list(0).len() > 0);
        p0.lemma_wf_facts();
        let hd = p0.free_list(0)[0] as int;
        let b = p0.base() as int;
        let f = p0.frame_addr(hd);
        let cnt = 4096int / s;
        assert(f == b + hd * 4096);
        assert(b + hd * 4096 + 4096 <= b + p0.total() * 4096) by (nonlinear_arith)
            requires
                0 <= hd < p0.total(),
        ;
        assert(r as int == f);
        assert(slab_size(c) == s);
        assert(h1.cache(c).free_objects() == carved(f, s, cnt).drop_last());
        assert(cnt >= 1) by (nonlinear_arith)
            requires
                32 <= s <= 4096,
                cnt == 4096int / s,
        ;
        assert(h1.cache(c).free_objects().len() == cnt - 1);
        assert(p0.is_free(hd as usize)) by {
            assert(p0.free_lists_view()[0][0] == hd as usize);
        }
        assert(!p1.is_free(hd as usize)) by {
            if p1.is_free(hd as usize) {
                lemma_free_after_pop(p0, p1, hd as usize);
            }
        }
        assert forall|x: (int, int)| free_object(h1, x) implies free_object(h0, x) || (x.1 == s && exists|k: int|
            1 <= k < cnt && x.0 == #[trigger] slot(f, s, k)) by {
            let (i, j) = choose|i: int, j: int|
                0 <= i < NUM_CACHES && 0 <= j < h1.cache(i).free_objects().len() && x == (
                    #[trigger] h1.cache(i).free_objects()[j] as int,
                    slab_size(i),
                );
            if i == c {
                let k = cnt - 1 - j;
                assert(0 <= k * s && k * s < 4096) by (nonlinear_arith)
                    requires
                        0 <= k < cnt,
                        cnt == 4096int / s,
                        s >= 32,
                ;
                assert(h1.cache(c).free_objects()[j] == (f + k * s) as u64);
                assert(x.0 == slot(f, s, k));
            } else {
                assert(h1.cache(i) == h0.cache(i));
                assert(x == (h0.cache(i).free_objects()[j] as int, slab_size(i)));
            }
        }
        // Every object of `h0` lies in a frame other than the carved one.
        assert forall|x: (int, int)| #[trigger] heap_object(h0, live, x) implies (x.0 - b) / 4096 != hd by {
            assert(in_used_frame(p0, x));
        }
        // Objects of the carved frame lie in it.
        assert forall|k: int| 0 <= k < cnt implies #[trigger] in_used_frame(p1, (slot(f, s, k), s)) && (slot(
            f,
            s,
            k,
        ) - b) / 4096 == hd && (slot(f, s, k) - b) % 4096 + s <= 4096 by {
            assert(0 <= k * s && k * s + s <= 4096) by (nonlinear_arith)
                requires
                    0 <= k < cnt,
                    cnt == 4096int / s,
                    s >= 32,
            ;
            assert((f + k * s - b) / 4096 == hd && (f + k * s - b) % 4096 == k * s) by (nonlinear_arith)
                requires
                    f == b + hd * 4096,
                    0 <= k * s < 4096,
                    hd >= 0,
            ;
        }
        assert(o.0 == slot(f, s, 0));
        let newobj = |x: (int, int)| x.1 == s && exists|k: int| 0 <= k < cnt && x.0 == #[trigger] slot(f, s, k);
        assert forall|x: (int, int)| #[trigger] heap_object(h1, live1, x) implies heap_object(h0, live, x)
            || newobj(x) by {
            if free_object(h1, x) && !free_object(h0, x) {
                let k = choose|k: int| 1 <= k < cnt && x.0 == #[trigger] slot(f, s, k);
                assert(0 <= k < cnt && x.0 == slot(f, s, k));
            } else if x == o {
                assert(0 <= 0 < cnt && x.0 == slot(f, s, 0));
            }
        }
        assert(!live.contains(o)) by {
            if live.contains(o) {
                assert(heap_object(h0, live, o));
            }
        }
        assert forall|x: (int, int)| live.contains(x) implies apart(o, x) by {
            assert(heap_object(h0, live, x));
            assert(in_used_frame(p0, x));
            lemma_frames_apart(b, o, x);
        }
        assert forall|i: int| 0 <= i < NUM_CACHES implies (#[trigger] h1.cache(i)).free_objects().no_duplicates() by {
            if i == c {
                assert forall|a: int, bb: int|
                    0 <= a < h1.cache(c).free_objects().len() && 0 <= bb < h1.cache(c).free_objects().len()
                        && a != bb implies h1.cache(c).free_objects()[a] != h1.cache(c).free_objects()[bb] by {
                    let ka = cnt - 1 - a;
                    let kb = cnt - 1 - bb;
                    assert(0 <= ka * s < 4096 && 0 <= kb * s < 4096 && ka * s != kb * s) by (nonlinear_arith)
                        requires
                            0 <= ka < cnt,
                            0 <= kb < cnt,
                            ka != kb,
                            cnt == 4096int / s,
                            s >= 32,
                    ;
                    assert(h1.cache(c).free_objects()[a] == (f + ka * s) as u64);
                    assert(h1.cache(c).free_objects()[bb] == (f + kb * s) as u64);
                }
            } else {
                assert(h1.cache(i) == h0.cache(i));
            }
        }
        assert forall|x: (int, int)| live1.contains(x) implies !free_object(h1, x) by {
            if free_object(h1, x) {
                if free_object(h0, x) {
                    if x == o {
                        assert(heap_object(h0, live, o));
                    }
                } else {
                    let k = choose|k: int| 1 <= k < cnt && x.0 == #[trigger] slot(f, s, k);
                    assert(in_used_frame(p1, (slot(f, s, k), s)));
                    if x == o {
                        assert(k * s > 0) by (nonlinear_arith)
                            requires
                                k >= 1,
                                s >= 32,
                        ;
                    } else {
                        assert(heap_object(h0, live, x));
                    }
                }
            }
        }
        assert forall|x: (int, int), y: (int, int)|
            #[trigger] heap_object(h1, live1, x) && #[trigger] heap_object(h1, live1, y) && x != y implies apart(
            x,
            y,
        ) by {
            let xo = heap_object(h0, live, x);
            let yo = heap_object(h0, live, y);
            if xo && yo {
            } else if xo && !yo {
                let k = choose|k: int| 0 <= k < cnt && y.0 == #[trigger] slot(f, s, k);
                assert(in_used_frame(p1, (slot(f, s, k), s)));
                assert(in_used_frame(p0, x));
                lemma_frames_apart(b, x, y);
            } else if !xo && yo {
                let k = choose|k: int| 0 <= k < cnt && x.0 == #[trigger] slot(f, s, k);
                assert(in_used_frame(p1, (slot(f, s, k), s)));
                assert(in_used_frame(p0, y));
                lemma_frames_apart(b, x, y);
            } else {
                let kx = choose|k: int| 0 <= k < cnt && x.0 == #[trigger] slot(f, s, k);
                let ky = choose|k: int| 0 <= k < cnt && y.0 == #[trigger] slot(f, s, k);
                assert(kx != ky);
                if kx < ky {
                    assert(kx * s + s <= ky * s) by (nonlinear_arith)
                        requires
                            kx < ky,
                            s >= 32,
                    ;
                } else {
                    assert(ky * s + s <= kx * s) by (nonlinear_arith)
                        requires
                            ky < kx,
                            s >= 32,
                    ;
                }
            }
        }
        assert forall|x: (int, int)| #[trigger] heap_object(h1, live1, x) implies in_used_frame(p1, x) by {
            if heap_object(h0, live, x) {
                assert(in_used_frame(p0, x));
                let idx = ((x.0 - b) / 4096) as usize;
                if p1.is_free(idx) {
                    lemma_free_after_pop(p0, p1, idx);
                }
            } else {
                let k = choose|k: int| 0 <= k < cnt && x.0 == #[trigger] slot(f, s, k);
                assert(in_used_frame(p1, (slot(f, s, k), s)));
            }
        }
    }
}

/// Handing a frame out of the frame allocator to someone else keeps the
/// heap's objects apart.  `p1` is the frame allocator after `alloc_frame`
/// on `p0` handed out a frame.
pub proof fn law_frame_allocation_keeps_objects_apart(
    h: SlabAllocator,
    p0: BuddyAllocator,
    p1: BuddyAllocator,
    live: Set<(int, int)>,
)
    requires
        objects_apart(h, p0, live),
        p0.wf(),
        p0.free_list(0).len() > 0,
        p1.base() == p0.base(),
        p1.total() == p0.total(),
        p1.free_lists_view() == p0.free_lists_view().update(0, p0.free_list(0).drop_first()),
    ensures
        objects_apart(h, p1, live),
{
    assert forall|x: (int, int)| #[trigger] heap_object(h, live, x) implies in_used_frame(p1, x) by {
        assert(in_used_frame(p0, x));
        let idx = ((x.0 - p0.base()) / 4096) as usize;
        if p1.is_free(idx) {
            lemma_free_after_pop(p0, p1, idx);
        }
    }
}

/// A call on the heap: `allocate(size, align)` with its result, or
/// `dealloc(ptr, size, align)`.
pub enum HeapOp {
    Alloc(usize, usize, u64),
    Dealloc(u64, usize, usize),
}

/// `(h1, p1)` is the heap and frame allocator after `op` on `(h0, p0)`, as
/// the contracts of `allocate` and `dealloc` say.
pub open spec fn heap_op_step(
    h0: SlabAllocator,
    p0: BuddyAllocator,
    h1: SlabAllocator,
    p1: BuddyAllocator,
    op: HeapOp,
) -> bool {
    &&& h1.wf()
    &&& p1.wf()
    &&& p1.base() == p0.base()
    &&& p1.total() == p0.total()
    &&& match op {
        HeapOp::Alloc(size, align, r) => {
            &&& layout_ok(size, align)
            &&& slab_size_spec(size as int, align as int) is None ==> h1 == h0 && p1.free_lists_view()
                == p0.free_lists_view()
            &&& slab_size_spec(size as int, align as int) is Some ==> {
                let c = class_of(slab_size_spec(size as int, align as int)->0);
                let cache0 = h0.cache(c);
                &&& forall|j: int| 0 <= j < NUM_CACHES && j != c ==> #[trigger] h1.cache(j) == h0.cache(j)
                &&& cache0.free_objects().len() > 0 ==> r == cache0.free_objects().last()
                    && h1.cache(c).free_objects() == cache0.free_objects().drop_last()
                    && p1.free_lists_view() == p0.free_lists_view()
                &&& cache0.free_objects().len() == 0 && p0.free_list(0).len() == 0 ==> r == NULL
                    && h1.cache(c).free_objects() == cache0.free_objects()
                    && p1.free_lists_view() == p0.free_lists_view()
                &&& cache0.free_objects().len() == 0 && p0.free_list(0).len() > 0 ==> {
                    let f = p0.frame_addr(p0.free_list(0)[0] as int);
                    &&& r == f as u64
                    &&& h1.cache(c).free_objects() == carved(f, slab_size(c), 4096int / slab_size(c)).drop_last()
                    &&& p1.free_lists_view() == p0.free_lists_view().update(0, p0.free_list(0).drop_first())
                }
            }
        },
        HeapOp::Dealloc(ptr, size, align) => {
            &&& layout_ok(size, align)
            &&& p1 == p0
            &&& slab_size_spec(size as int, align as int) is None ==> h1 == h0
            &&& slab_size_spec(size as int, align as int) is Some ==> {
                let c = class_of(slab_size_spec(size as int, align as int)->0);
                &&& forall|j: int| 0 <= j < NUM_CACHES && j != c ==> #[trigger] h1.cache(j) == h0.cache(j)
                &&& h1.cache(c).free_objects() == h0.cache(c).free_objects().push(ptr)
            }
        },
    }
}

/// The objects in use after `op` on `(h0, p0)`: a served allocation adds
/// the object it hands out, a deallocation removes the returned object.
pub open spec fn live_step(
    h0: SlabAllocator,
    p0: BuddyAllocator,
    live0: Set<(int, int)>,
    live1: Set<(int, int)>,
    op: HeapOp,
) -> bool {
    match op {
        HeapOp::Alloc(size, align, r) => match slab_size_spec(size as int, align as int) {
            Some(s) => if h0.cache(class_of(s)).free_objects().len() > 0 || p0.free_list(0).len() > 0 {
                live1 == live0.insert((r as int, s))
            } else {
                live1 == live0
            },
            None => live1 == live0,
        },
        HeapOp::Dealloc(ptr, size, align) => match slab_size_spec(size as int, align as int) {
            Some(s) => live1 == live0.remove((ptr as int, s)),
            None => live1 == live0,
        },
    }
}

/// Heaps with the same free objects over frame allocators with the same
/// free lists keep the same objects apart.
proof fn lemma_objects_apart_transfer(
    h0: SlabAllocator,
    p0: BuddyAllocator,
    h1: SlabAllocator,
    p1: BuddyAllocator,
    live: Set<(int, int)>,
)
    requires
        objects_apart(h0, p0, live),
        h1.wf(),
        forall|i: int| 0 <= i < NUM_CACHES ==> #[trigger] h1.cache(i).free_objects() == h0.cache(i).free_objects(),
        p1.base() == p0.base(),
        p1.total() == p0.total(),
        p1.free_lists_view() == p0.free_lists_view(),
    ensures
        objects_apart(h1, p1, live),
{
    assert forall|x: (int, int)| free_object(h1, x) <==> free_object(h0, x) by {
        if free_object(h1, x) {
            let (i, j) = choose|i: int, j: int|
                0 <= i < NUM_CACHES && 0 <= j < h1.cache(i).free_objects().len() && x == (
                    #[trigger] h1.cache(i).free_objects()[j] as int,
                    slab_size(i),
                );
            assert(x == (h0.cache(i).free_objects()[j] as int, slab_size(i)));
        }
        if free_object(h0, x) {
            let (i, j) = choose|i: int, j: int|
                0 <= i < NUM_CACHES && 0 <= j < h0.cache(i).free_objects().len() && x == (
                    #[trigger] h0.cache(i).free_objects()[j] as int,
                    slab_size(i),
                );
            assert(x == (h1.cache(i).free_objects()[j] as int, slab_size(i)));
        }
    }
    assert forall|x: (int, int)| #[trigger] heap_object(h1, live, x) == heap_object(h0, live, x) by {}
    assert forall|x: (int, int)| #[trigger] heap_object(h1, live, x) implies in_used_frame(p1, x) by {
        assert(heap_object(h0, live, x));
        assert(in_used_frame(p0, x));
        let idx = ((x.0 - p0.base()) / 4096) as usize;
        assert(p1.is_free(idx) == p0.is_free(idx));
    }
    assert forall|i: int| 0 <= i < NUM_CACHES implies (#[trigger] h1.cache(i)).free_objects().no_duplicates() by {
        assert(h1.cache(i).free_objects() == h0.cache(i).free_objects());
        assert(h0.cache(i).free_objects().no_duplicates());
    }
}

/// Over any run of `allocate` and `dealloc` calls on an empty heap, where
/// each deallocated object is one in use, the objects in use never
/// overlap one another or a free object, and each lies in a frame the
/// frame allocator holds as allocated.  `hs[i]`, `ps[i]` and `lives[i]` are
/// the heap, the frame allocator and the objects in use before `ops[i]`.
pub proof fn law_heap_history(
    hs: Seq<SlabAllocator>,
    ps: Seq<BuddyAllocator>,
    lives: Seq<Set<(int, int)>>,
    ops: Seq<HeapOp>,
)
    requires
        hs.len() == ops.len() + 1,
        ps.len() == ops.len() + 1,
        lives.len() == ops.len() + 1,
        hs[0].wf(),
        forall|i: int| 0 <= i < NUM_CACHES ==> (#[trigger] hs[0].cache(i)).free_objects() == Seq::<u64>::empty(),
        ps[0].wf(),
        lives[0] == Set::<(int, int)>::empty(),
        forall|i: int| 0 <= i < ops.len() ==> #[trigger] heap_op_step(hs[i], ps[i], hs[i + 1], ps[i + 1], ops[i]),
        forall|i: int| 0 <= i < ops.len() ==> #[trigger] live_step(hs[i], ps[i], lives[i], lives[i + 1], ops[i]),
        forall|i: int|
            0 <= i < ops.len() ==> (#[trigger] ops[i] matches HeapOp::Dealloc(ptr, size, align) ==> (
                slab_size_spec(size as int, align as int) matches Some(s) ==> lives[i].contains((ptr as int, s)))),
    ensures
        forall|i: int| 0 <= i <= ops.len() ==> #[trigger] objects_apart(hs[i], ps[i], lives[i]),
        forall|i: int, x: (int, int), y: (int, int)|
            0 <= i <= ops.len() && #[trigger] lives[i].contains(x) && #[trigger] lives[i].contains(y) && x != y
                ==> apart(x, y),
{
    assert forall|i: int| 0 <= i <= ops.len() implies #[trigger] objects_apart(hs[i], ps[i], lives[i]) by {
        lemma_heap_history(hs, ps, lives, ops, i);
    }
    assert forall|i: int, x: (int, int), y: (int, int)|
        0 <= i <= ops.len() && #[trigger] lives[i].contains(x) && #[trigger] lives[i].contains(y) && x != y
        implies apart(x, y) by {
        lemma_heap_history(hs, ps, lives, ops, i);
        assert(heap_object(hs[i], lives[i], x));
        assert(heap_object(hs[i], lives[i], y));
    }
}

proof fn lemma_heap_history(
    hs: Seq<SlabAllocator>,
    ps: Seq<BuddyAllocator>,
    lives: Seq<Set<(int, int)>>,
    ops: Seq<HeapOp>,
    k: int,
)
    requires
        0 <= k <= ops.len(),
        hs.len() == ops.len() + 1,
        ps.len() == ops.len() + 1,
        lives.len() == ops.len() + 1,
        hs[0].wf(),
        forall|i: int| 0 <= i < NUM_CACHES ==> (#[trigger] hs[0].cache(i)).free_objects() == Seq::<u64>::empty(),
        ps[0].wf(),
        lives[0] == Set::<(int, int)>::empty(),
        forall|i: int| 0 <= i < ops.len() ==> #[trigger] heap_op_step(hs[i], ps[i], hs[i + 1], ps[i + 1], ops[i]),
        forall|i: int| 0 <= i < ops.len() ==> #[trigger] live_step(hs[i], ps[i], lives[i], lives[i + 1], ops[i]),
        forall|i: int|
            0 <= i < ops.len() ==> (#[trigger] ops[i] matches HeapOp::Dealloc(ptr, size, align) ==> (
                slab_size_spec(size as int, align as int) matches Some(s) ==> lives[i].contains((ptr as int, s)))),
    ensures
        objects_apart(hs[k], ps[k], lives[k]),
        ps[k].wf(),
    decreases k,
{
    if k == 0 {
        law_empty_heap_objects_apart(hs[0], ps[0]);
    } else {
        let m = k - 1;
        lemma_heap_history(hs, ps, lives, ops, m);
        assert(heap_op_step(hs[m], ps[m], hs[m + 1], ps[m + 1], ops[m]));
        assert(live_step(hs[m], ps[m], lives[m], lives[m + 1], ops[m]));
        let (h0, p0, h1, p1, live) = (hs[m], ps[m], hs[m + 1], ps[m + 1], lives[m]);
        match ops[m] {
            HeapOp::Alloc(size, align, r) => {
                match slab_size_spec(size as int, align as int) {
                    Some(s) => {
                        let c = class_of(s);
                        if h0.cache(c).free_objects().len() > 0 || p0.free_list(0).len() > 0 {
                            law_allocation_keeps_objects_apart(h0, p0, h1, p1, live, size, align, r);
                        } else {
                            assert forall|i: int| 0 <= i < NUM_CACHES implies #[trigger] h1.cache(i).free_objects()
                                == h0.cache(i).free_objects() by {
                                if i != c {
                                    assert(h1.cache(i) == h0.cache(i));
                                }
                            }
                            lemma_objects_apart_transfer(h0, p0, h1, p1, live);
                        }
                    },
                    None => {
                        lemma_objects_apart_transfer(h0, p0, h1, p1, live);
                    },
                }
            },
            HeapOp::Dealloc(ptr, size, align) => {
                assert(ops[m] matches HeapOp::Dealloc(ptr, size, align) ==> (
                    slab_size_spec(size as int, align as int) matches Some(s) ==> lives[m].contains((ptr as int, s))));
                match slab_size_spec(size as int, align as int) {
                    Some(s) => {
                        law_dealloc_keeps_objects_apart(h0, h1, p0, live, ptr, size, align);
                    },
                    None => {
                        lemma_objects_apart_transfer(h0, p0, h1, p1, live);
                    },
                }
            },
        }
    }
}

} // verus!
