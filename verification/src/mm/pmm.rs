//! Physical memory manager: a buddy-style frame allocator for 4 KiB frames.
//!
//! Free blocks of each order form a singly linked list whose links live in
//! the first word of each free frame; `links` holds those words.  A bitmap
//! records which frames are allocated.  Only order 0 (single pages) is used
//! by the frame interface.
use vstd::prelude::*;

verus! {

pub const PAGE_SIZE: usize = 4096;

pub const PAGE_SHIFT: usize = 12;

/// Maximum order: 4 MiB blocks (1024 * 4 KiB).
pub const MAX_ORDER: usize = 10;

/// Maximum number of frames that can be tracked (4 GiB of RAM).
pub const MAX_BLOCKS: usize = 1048576;

/// Number of 64-bit words in the allocation bitmap.
pub const BITMAP_WORDS: usize = 16384;

/// Marker for an empty free list / end of list.
pub const LIST_END: u64 = 0xFFFF_FFFF_FFFF_FFFF;

/// Whether bit `b` of `w` is set.
pub open spec fn bit_set(w: u64, b: u64) -> bool {
    (w >> b) & 1u64 == 1u64
}

/// Bit `idx` of a bitmap made of 64-bit words.
pub open spec fn bitmap_bit(bm: Seq<u64>, idx: int) -> bool {
    bit_set(bm[idx / 64], (idx % 64) as u64)
}

/// `x` is on one of the free lists.
pub open spec fn in_lists(lists: Seq<Seq<usize>>, x: usize) -> bool {
    exists|o: int, i: int| 0 <= o < lists.len() && 0 <= i < lists[o].len() && lists[o][i] == x
}

/// No frame index occurs twice on the free lists, whatever their orders.
pub open spec fn lists_distinct(lists: Seq<Seq<usize>>) -> bool {
    forall|o1: int, i: int, o2: int, j: int|
        #![trigger lists[o1][i], lists[o2][j]]
        0 <= o1 < lists.len() && 0 <= i < lists[o1].len() && 0 <= o2 < lists.len() && 0 <= j
            < lists[o2].len() && lists[o1][i] == lists[o2][j] ==> o1 == o2 && i == j
}

/// The list `l` is encoded by its head `head` and the per-frame link words.
pub open spec fn list_linked(head: u64, links: Seq<u64>, l: Seq<usize>) -> bool {
    &&& head == (if l.len() == 0 { LIST_END } else { l[0] as u64 })
    &&& forall|i: int| 0 <= i < l.len() ==> (#[trigger] l[i] as int) < links.len()
    &&& forall|i: int|
        0 <= i < l.len() ==> links[#[trigger] l[i] as int] == (if i + 1 < l.len() {
            l[i + 1] as u64
        } else {
            LIST_END
        })
}

/// The sequence `lo, lo+1, ..., hi-1`.
pub open spec fn index_range(lo: int, hi: int) -> Seq<usize> {
    Seq::new((hi - lo) as nat, |k: int| (lo + k) as usize)
}

proof fn lemma_bit_or(w: u64, b: u64)
    requires
        b < 64,
    ensures
        bit_set(w | (1u64 << b), b),
        forall|c: u64| c < 64 && c != b ==> bit_set(w | (1u64 << b), c) == bit_set(w, c),
{
    assert(bit_set(w | (1u64 << b), b)) by (bit_vector)
        requires
            b < 64,
    ;
    assert forall|c: u64| c < 64 && c != b implies bit_set(w | (1u64 << b), c) == bit_set(
        w,
        c,
    ) by {
        assert(((w | (1u64 << b)) >> c) & 1u64 == (w >> c) & 1u64) by (bit_vector)
            requires
                b < 64,
                c < 64,
                c != b,
        ;
    }
}

proof fn lemma_bit_clear(w: u64, b: u64)
    requires
        b < 64,
    ensures
        !bit_set(w & !(1u64 << b), b),
        forall|c: u64| c < 64 && c != b ==> bit_set(w & !(1u64 << b), c) == bit_set(w, c),
{
    assert(!bit_set(w & !(1u64 << b), b)) by (bit_vector)
        requires
            b < 64,
    ;
    assert forall|c: u64| c < 64 && c != b implies bit_set(w & !(1u64 << b), c) == bit_set(
        w,
        c,
    ) by {
        assert(((w & !(1u64 << b)) >> c) & 1u64 == (w >> c) & 1u64) by (bit_vector)
            requires
                b < 64,
                c < 64,
                c != b,
        ;
    }
}

proof fn lemma_bit_and(w: u64, b: u64)
    requires
        b < 64,
    ensures
        ((w & (1u64 << b)) != 0) == bit_set(w, b),
{
    assert(((w & (1u64 << b)) != 0) == ((w >> b) & 1u64 == 1u64)) by (bit_vector)
        requires
            b < 64,
    ;
}

/// Popping the head of list `o` removes exactly that index from the lists.
proof fn lemma_pop_lists(lists: Seq<Seq<usize>>, o: int)
    requires
        0 <= o < lists.len(),
        lists[o].len() > 0,
        lists_distinct(lists),
    ensures
        lists_distinct(lists.update(o, lists[o].drop_first())),
        forall|x: usize|
            #![trigger in_lists(lists.update(o, lists[o].drop_first()), x)]
            in_lists(lists.update(o, lists[o].drop_first()), x) <==> (in_lists(lists, x) && x
                != lists[o][0]),
{
    let nl = lists.update(o, lists[o].drop_first());
    assert forall|o1: int, i: int, o2: int, j: int|
        #![trigger nl[o1][i], nl[o2][j]]
        0 <= o1 < nl.len() && 0 <= i < nl[o1].len() && 0 <= o2 < nl.len() && 0 <= j
            < nl[o2].len() && nl[o1][i] == nl[o2][j] implies o1 == o2 && i == j by {
        let i0 = if o1 == o { i + 1 } else { i };
        let j0 = if o2 == o { j + 1 } else { j };
        assert(nl[o1][i] == lists[o1][i0]);
        assert(nl[o2][j] == lists[o2][j0]);
    }
    assert forall|x: usize| #[trigger]
        in_lists(nl, x) <==> (in_lists(lists, x) && x != lists[o][0]) by {
        if in_lists(nl, x) {
            let (o1, i) = choose|o1: int, i: int|
                0 <= o1 < nl.len() && 0 <= i < nl[o1].len() && nl[o1][i] == x;
            let i0 = if o1 == o { i + 1 } else { i };
            assert(lists[o1][i0] == x);
            assert(lists[o][0] == lists[o][0]);
        }
        if in_lists(lists, x) && x != lists[o][0] {
            let (o1, i) = choose|o1: int, i: int|
                0 <= o1 < lists.len() && 0 <= i < lists[o1].len() && lists[o1][i] == x;
            if o1 == o {
                assert(i != 0);
                assert(nl[o1][i - 1] == x);
            } else {
                assert(nl[o1][i] == x);
            }
        }
    }
}

/// Pushing an index that is on no list adds exactly that index.
proof fn lemma_push_lists(lists: Seq<Seq<usize>>, o: int, x: usize)
    requires
        0 <= o < lists.len(),
        lists_distinct(lists),
        !in_lists(lists, x),
    ensures
        lists_distinct(lists.update(o, seq![x] + lists[o])),
        forall|y: usize|
            #![trigger in_lists(lists.update(o, seq![x] + lists[o]), y)]
            in_lists(lists.update(o, seq![x] + lists[o]), y) <==> (in_lists(lists, y) || y == x),
{
    let nl = lists.update(o, seq![x] + lists[o]);
    assert forall|o1: int, i: int, o2: int, j: int|
        #![trigger nl[o1][i], nl[o2][j]]
        0 <= o1 < nl.len() && 0 <= i < nl[o1].len() && 0 <= o2 < nl.len() && 0 <= j
            < nl[o2].len() && nl[o1][i] == nl[o2][j] implies o1 == o2 && i == j by {
        if o1 == o && i == 0 {
            if !(o2 == o && j == 0) {
                let j0 = if o2 == o { j - 1 } else { j };
                assert(lists[o2][j0] == x);
            }
        } else if o2 == o && j == 0 {
            let i0 = if o1 == o { i - 1 } else { i };
            assert(lists[o1][i0] == x);
        } else {
            let i0 = if o1 == o { i - 1 } else { i };
            let j0 = if o2 == o { j - 1 } else { j };
            assert(nl[o1][i] == lists[o1][i0]);
            assert(nl[o2][j] == lists[o2][j0]);
        }
    }
    assert forall|y: usize| #[trigger] in_lists(nl, y) <==> (in_lists(lists, y) || y == x) by {
        if in_lists(nl, y) {
            let (o1, i) = choose|o1: int, i: int|
                0 <= o1 < nl.len() && 0 <= i < nl[o1].len() && nl[o1][i] == y;
            if !(o1 == o && i == 0) {
                let i0 = if o1 == o { i - 1 } else { i };
                assert(lists[o1][i0] == y);
            }
        }
        if y == x {
            assert(nl[o][0] == x);
        }
        if in_lists(lists, y) {
            let (o1, i) = choose|o1: int, i: int|
                0 <= o1 < lists.len() && 0 <= i < lists[o1].len() && lists[o1][i] == y;
            if o1 == o {
                assert(nl[o1][i + 1] == y);
            } else {
                assert(nl[o1][i] == y);
            }
        }
    }
}

/// Buddy allocator state.
pub struct BuddyAllocator {
    /// Base physical address of the managed memory region.
    base_addr: u64,
    /// Total number of 4 KiB frames managed.
    total_frames: usize,
    /// Head of the free list of each order (`LIST_END` when empty).
    free_lists: Vec<u64>,
    /// Allocation bitmap: bit `i` is set when frame `i` is allocated.
    allocated: Vec<u64>,
    /// First word of each managed frame, where a free frame keeps its link.
    links: Vec<u64>,
    /// Contents of each free list, head first.
    lists: Ghost<Seq<Seq<usize>>>,
}

impl BuddyAllocator {
    /// Base physical address of the managed region.
    pub closed spec fn base(&self) -> u64 {
        self.base_addr
    }

    /// Number of managed frames.
    pub closed spec fn total(&self) -> nat {
        self.total_frames as nat
    }

    /// Free list of order `o`, head first.
    pub open spec fn free_list(&self, o: int) -> Seq<usize> {
        self.free_lists_view()[o]
    }

    /// All free lists, indexed by order.
    pub closed spec fn free_lists_view(&self) -> Seq<Seq<usize>> {
        self.lists@
    }

    /// Frame `idx` is on some free list.
    pub open spec fn is_free(&self, idx: usize) -> bool {
        in_lists(self.free_lists_view(), idx)
    }

    /// The bitmap marks frame `idx` as allocated (always false out of range).
    pub closed spec fn allocated_bit(&self, idx: int) -> bool {
        0 <= idx < self.total_frames && bitmap_bit(self.allocated@, idx)
    }

    /// Indices of the managed frames that are handed out.
    pub open spec fn allocated_frames(&self) -> Set<int> {
        Set::new(|i: int| 0 <= i < self.total() && self.allocated_bit(i))
    }

    /// Physical address of frame `idx`.
    pub open spec fn frame_addr(&self, idx: int) -> int {
        self.base() + idx * 4096
    }

    /// The free lists are faithfully encoded by heads and link words.
    pub closed spec fn lists_wf(&self) -> bool {
        &&& self.total_frames <= MAX_BLOCKS
        &&& self.base_addr + self.total_frames * 4096 <= u64::MAX
        &&& self.free_lists@.len() == MAX_ORDER + 1
        &&& self.allocated@.len() == BITMAP_WORDS
        &&& self.links@.len() == self.total_frames
        &&& self.lists@.len() == MAX_ORDER + 1
        &&& forall|o: int|
            0 <= o <= MAX_ORDER ==> list_linked(
                #[trigger] self.free_lists@[o],
                self.links@,
                self.lists@[o],
            )
        &&& lists_distinct(self.lists@)
    }

    /// Full invariant: lists well formed, and a managed frame is marked
    /// allocated exactly when it is on no free list.
    pub closed spec fn wf(&self) -> bool {
        &&& self.lists_wf()
        &&& forall|idx: usize|
            idx < self.total_frames ==> (#[trigger] bitmap_bit(self.allocated@, idx as int)
                <==> !in_lists(self.lists@, idx))
    }

    /// Facts that follow from the invariant: free frames are in range and
    /// occur once, and a managed frame is allocated exactly when not free.
    pub proof fn lemma_wf_facts(&self)
        requires
            self.wf(),
        ensures
            self.total() <= MAX_BLOCKS,
            self.free_list(0).no_duplicates(),
            self.free_lists_view().len() == MAX_ORDER + 1,
            forall|o: int, i: int|
                0 <= o <= MAX_ORDER && 0 <= i < self.free_list(o).len() ==> (#[trigger] self.free_list(
                    o,
                )[i] as int) < self.total(),
            forall|idx: int|
                0 <= idx < self.total() ==> (#[trigger] self.allocated_bit(idx) <==> !self.is_free(
                    idx as usize,
                )),
            self.base() + self.total() * 4096 <= u64::MAX,
            lists_distinct(self.free_lists_view()),
    {
        assert forall|i: int, j: int|
            0 <= i < self.free_list(0).len() && 0 <= j < self.free_list(0).len() && i != j implies self.free_list(0)[i]
            != self.free_list(0)[j] by {
            assert(lists_distinct(self.lists@));
            assert(self.lists@[0][i] == self.free_list(0)[i]);
            assert(self.lists@[0][j] == self.free_list(0)[j]);
        }
        assert forall|o: int, i: int|
            0 <= o <= MAX_ORDER && 0 <= i < self.free_list(o).len() implies (#[trigger] self.free_list(
            o,
        )[i] as int) < self.total() by {
            assert(list_linked(self.free_lists@[o], self.links@, self.lists@[o]));
        }
        assert forall|idx: int| 0 <= idx < self.total() implies (#[trigger] self.allocated_bit(idx)
            <==> !self.is_free(idx as usize)) by {
            assert(bitmap_bit(self.allocated@, (idx as usize) as int) <==> !in_lists(
                self.lists@,
                idx as usize,
            ));
        }
    }

    /// An allocator that manages no memory (the state before `init`).
    pub fn new() -> (r: Self)
        ensures
            r.wf(),
            r.total() == 0,
            r.base() == 0,
            forall|o: int| 0 <= o <= MAX_ORDER ==> #[trigger] r.free_list(o) == Seq::<usize>::empty(),
    {
        let mut free_lists: Vec<u64> = Vec::new();
        let mut k: usize = 0;
        while k < MAX_ORDER + 1
            invariant
                k <= MAX_ORDER + 1,
                free_lists@.len() == k,
                forall|j: int| 0 <= j < k ==> free_lists@[j] == LIST_END,
            decreases MAX_ORDER + 1 - k,
        {
            free_lists.push(LIST_END);
            k = k + 1;
        }
        let mut allocated: Vec<u64> = Vec::new();
        let mut w: usize = 0;
        while w < BITMAP_WORDS
            invariant
                w <= BITMAP_WORDS,
                allocated@.len() == w,
            decreases BITMAP_WORDS - w,
        {
            allocated.push(0);
            w = w + 1;
        }
        let ghost lists = Seq::new((MAX_ORDER + 1) as nat, |o: int| Seq::<usize>::empty());
        let r = BuddyAllocator {
            base_addr: 0,
            total_frames: 0,
            free_lists,
            allocated,
            links: Vec::new(),
            lists: Ghost(lists),
        };
        assert forall|o: int| 0 <= o <= MAX_ORDER implies list_linked(
            #[trigger] r.free_lists@[o],
            r.links@,
            r.lists@[o],
        ) by {}
        r
    }

    /// Mark frame `idx` as allocated or free in the bitmap; out-of-range
    /// indices are ignored.
    fn mark_allocated(&mut self, idx: usize, allocated: bool)
        requires
            old(self).lists_wf(),
        ensures
            final(self).lists_wf(),
            final(self).lists == old(self).lists,
            final(self).base_addr == old(self).base_addr,
            final(self).total_frames == old(self).total_frames,
            final(self).free_lists == old(self).free_lists,
            final(self).links == old(self).links,
            forall|j: int|
                0 <= j < BITMAP_WORDS * 64 && j != idx ==> bitmap_bit(final(self).allocated@, j)
                    == bitmap_bit(old(self).allocated@, j),
            idx < old(self).total_frames ==> bitmap_bit(final(self).allocated@, idx as int)
                == allocated,
            idx >= old(self).total_frames ==> final(self).allocated == old(self).allocated,
    {
        if idx >= self.total_frames {
            return ;
        }
        let word_idx = idx / 64;
        let bit_idx = idx % 64;
        if word_idx >= self.allocated.len() {
            return ;
        }
        let b = bit_idx as u64;
        let word = self.allocated[word_idx];
        let mask = 1u64 << b;
        let ghost old_bm = self.allocated@;
        if allocated {
            self.allocated[word_idx] = word | mask;
            proof {
                lemma_bit_or(word, b);
            }
        } else {
            self.allocated[word_idx] = word & !mask;
            proof {
                lemma_bit_clear(word, b);
            }
        }
        assert forall|j: int|
            0 <= j < BITMAP_WORDS * 64 && j != idx implies bitmap_bit(self.allocated@, j)
            == bitmap_bit(old_bm, j) by {
            if j / 64 == word_idx as int {
                assert((j % 64) as u64 != b);
            }
        }
    }

    /// Whether frame `idx` is marked allocated.
    pub fn is_allocated(&self, idx: usize) -> (r: bool)
        requires
            self.wf(),
        ensures
            r == self.allocated_bit(idx as int),
            (idx as int) < self.total() ==> (r <==> !self.is_free(idx)),
    {
        if idx >= self.total_frames {
            return false;
        }
        let word_idx = idx / 64;
        let bit_idx = idx % 64;
        if word_idx >= self.allocated.len() {
            return false;
        }
        let word = self.allocated[word_idx];
        let mask = 1u64 << (bit_idx as u64);
        proof {
            lemma_bit_and(word, bit_idx as u64);
        }
        (word & mask) != 0
    }

    /// Push block `idx` onto the free list of `order` (clamped to
    /// `MAX_ORDER`); out-of-range indices are ignored.
    fn push_free_block(&mut self, order: usize, idx: usize)
        requires
            old(self).lists_wf(),
            idx < old(self).total_frames ==> !in_lists(old(self).lists@, idx),
        ensures
            final(self).lists_wf(),
            final(self).base_addr == old(self).base_addr,
            final(self).total_frames == old(self).total_frames,
            final(self).allocated == old(self).allocated,
            idx >= old(self).total_frames ==> final(self).lists == old(self).lists,
            idx < old(self).total_frames ==> final(self).lists@ == old(self).lists@.update(
                min_order(order) as int,
                seq![idx] + old(self).lists@[min_order(order) as int],
            ),
    {
        let order = if order < MAX_ORDER {
            order
        } else {
            MAX_ORDER
        };
        if idx >= self.total_frames {
            return ;
        }
        let old_head = self.free_lists[order];
        let ghost old_links = self.links@;
        let ghost old_lists = self.lists@;
        proof {
            lemma_push_lists(old_lists, order as int, idx);
        }
        self.links[idx] = old_head;
        self.free_lists[order] = idx as u64;
        self.lists = Ghost(old_lists.update(order as int, seq![idx] + old_lists[order as int]));
        assert forall|o: int| 0 <= o <= MAX_ORDER implies list_linked(
            #[trigger] self.free_lists@[o],
            self.links@,
            self.lists@[o],
        ) by {
            assert(list_linked(old(self).free_lists@[o], old_links, old_lists[o]));
            let l = self.lists@[o];
            if o == order as int {
                assert forall|i: int| 0 <= i < l.len() implies self.links@[#[trigger] l[i] as int]
                    == (if i + 1 < l.len() {
                    l[i + 1] as u64
                } else {
                    LIST_END
                }) by {
                    if i > 0 {
                        assert(l[i] == old_lists[o][i - 1]);
                        assert(l[i] != idx) by {
                            assert(old_lists[o][i - 1] == l[i]);
                        }
                    }
                }
            } else {
                assert forall|i: int| 0 <= i < l.len() implies self.links@[#[trigger] l[i] as int]
                    == (if i + 1 < l.len() {
                    l[i + 1] as u64
                } else {
                    LIST_END
                }) by {
                    assert(l[i] != idx) by {
                        assert(old_lists[o][i] == l[i]);
                    }
                }
            }
        }
    }

    /// Pop the head of the free list of `order` (clamped to `MAX_ORDER`).
    fn pop_free_block(&mut self, order: usize) -> (r: Option<usize>)
        requires
            old(self).lists_wf(),
        ensures
            final(self).lists_wf(),
            final(self).base_addr == old(self).base_addr,
            final(self).total_frames == old(self).total_frames,
            final(self).allocated == old(self).allocated,
            old(self).lists@[min_order(order) as int].len() == 0 ==> r.is_none() && final(self).lists == old(self).lists,
            old(self).lists@[min_order(order) as int].len() > 0 ==> r == Some(
                old(self).lists@[min_order(order) as int][0],
            ) && final(self).lists@ == old(self).lists@.update(
                min_order(order) as int,
                old(self).lists@[min_order(order) as int].drop_first(),
            ),
    {
        let order = if order < MAX_ORDER {
            order
        } else {
            MAX_ORDER
        };
        let ghost old_lists = self.lists@;
        assert(list_linked(self.free_lists@[order as int], self.links@, old_lists[order as int]));
        let idx = self.free_lists[order];
        if idx == LIST_END {
            return None;
        }
        assert((old_lists[order as int][0] as int) < self.links@.len());
        let next = self.links[idx as usize];
        self.free_lists[order] = next;
        proof {
            lemma_pop_lists(old_lists, order as int);
        }
        self.lists = Ghost(old_lists.update(order as int, old_lists[order as int].drop_first()));
        assert forall|o: int| 0 <= o <= MAX_ORDER implies list_linked(
            #[trigger] self.free_lists@[o],
            self.links@,
            self.lists@[o],
        ) by {
            assert(list_linked(old(self).free_lists@[o], self.links@, old_lists[o]));
            if o == order as int {
                let l = self.lists@[o];
                assert forall|i: int| 0 <= i < l.len() implies self.links@[#[trigger] l[i] as int]
                    == (if i + 1 < l.len() {
                    l[i + 1] as u64
                } else {
                    LIST_END
                }) by {
                    assert(l[i] == old_lists[o][i + 1]);
                }
                assert forall|i: int| 0 <= i < l.len() implies (#[trigger] l[i] as int)
                    < self.links@.len() by {
                    assert(l[i] == old_lists[o][i + 1]);
                }
            }
        }
        Some(idx as usize)
    }

    /// Whether at least `n` single frames are free.
    pub fn has_free_frames(&self, n: usize) -> (r: bool)
        requires
            self.wf(),
        ensures
            r == (self.free_list(0).len() >= n),
    {
        let ghost l = self.lists@[0];
        assert(list_linked(self.free_lists@[0], self.links@, l));
        let mut cur = self.free_lists[0];
        let mut i: usize = 0;
        while i < n
            invariant
                self.lists_wf(),
                l == self.lists@[0],
                list_linked(self.free_lists@[0], self.links@, l),
                i <= n,
                i <= l.len(),
                cur == (if i < l.len() {
                    l[i as int] as u64
                } else {
                    LIST_END
                }),
            decreases n - i,
        {
            if cur == LIST_END {
                assert(i >= l.len()) by {
                    if i < l.len() {
                        assert((l[i as int] as int) < self.links@.len());
                    }
                }
                return false;
            }
            assert(i < l.len());
            assert((l[i as int] as int) < self.links@.len());
            cur = self.links[cur as usize];
            i = i + 1;
        }
        true
    }

    /// Allocate a block of `order` (clamped to `MAX_ORDER`): the head of that
    /// free list, now marked allocated.
    fn alloc_block(&mut self, order: usize) -> (r: Option<usize>)
        requires
            old(self).wf(),
        ensures
            final(self).wf(),
            final(self).base() == old(self).base(),
            final(self).total() == old(self).total(),
            old(self).free_list(min_order(order) as int).len() == 0 ==> r.is_none() && final(self).free_lists_view() == old(self).free_lists_view(),
            old(self).free_list(min_order(order) as int).len() > 0 ==> r == Some(
                old(self).free_list(min_order(order) as int)[0],
            ) && final(self).free_lists_view() == old(self).free_lists_view().update(
                min_order(order) as int,
                old(self).free_list(min_order(order) as int).drop_first(),
            ),
    {
        let ghost old_lists = self.lists@;
        let r = self.pop_free_block(order);
        match r {
            None => {
                r
            },
            Some(idx) => {
                let ghost o = min_order(order);
                proof {
                    lemma_pop_lists(old_lists, o as int);
                    assert(list_linked(
                        old(self).free_lists@[o as int],
                        old(self).links@,
                        old_lists[o as int],
                    ));
                }
                let ghost bm = self.allocated@;
                self.mark_allocated(idx, true);
                assert forall|j: usize| j < self.total_frames implies (#[trigger] bitmap_bit(
                    self.allocated@,
                    j as int,
                ) <==> !in_lists(self.lists@, j)) by {
                    if j != idx {
                        assert(bitmap_bit(bm, j as int) <==> !in_lists(old_lists, j));
                    }
                }
                r
            },
        }
    }

    /// Free block `idx` of `order` (clamped): clear its bit and push it onto
    /// that free list.  Out-of-range indices are ignored.
    fn free_block(&mut self, order: usize, idx: usize)
        requires
            old(self).wf(),
            idx < old(self).total() ==> !old(self).is_free(idx),
        ensures
            final(self).wf(),
            final(self).base() == old(self).base(),
            final(self).total() == old(self).total(),
            idx >= old(self).total() ==> final(self).free_lists_view() == old(self).free_lists_view(),
            idx < old(self).total() ==> final(self).free_lists_view() == old(self).free_lists_view().update(
                min_order(order) as int,
                seq![idx] + old(self).free_list(min_order(order) as int),
            ),
    {
        let ghost old_lists = self.lists@;
        let ghost bm = self.allocated@;
        self.mark_allocated(idx, false);
        self.push_free_block(order, idx);
        if idx < self.total_frames {
            proof {
                lemma_push_lists(old_lists, min_order(order) as int, idx);
            }
            assert forall|j: usize| j < self.total_frames implies (#[trigger] bitmap_bit(
                self.allocated@,
                j as int,
            ) <==> !in_lists(self.lists@, j)) by {
                if j != idx {
                    assert(bitmap_bit(bm, j as int) <==> !in_lists(old_lists, j));
                }
            }
        }
    }

    /// The state `init(base, total_frames)` leaves: every managed frame free
    /// and in ascending order on the order-0 list, other lists empty, no
    /// frame allocated.
    pub open spec fn is_fresh(&self, base: u64, total_frames: usize) -> bool {
        &&& self.wf()
        &&& self.base() == base
        &&& self.total() == (if total_frames < MAX_BLOCKS {
            total_frames
        } else {
            MAX_BLOCKS
        })
        &&& self.free_list(0) == index_range(0, self.total() as int)
        &&& forall|o: int| 1 <= o <= MAX_ORDER ==> #[trigger] self.free_list(o) == Seq::<
            usize,
        >::empty()
        &&& forall|idx: int| #![trigger self.allocated_bit(idx)] !self.allocated_bit(idx)
    }

    /// Take over the region of `total_frames` frames (at most `MAX_BLOCKS`)
    /// starting at `base`: every frame becomes free, in ascending order on
    /// the order-0 list, and all other lists are empty.
    pub fn init(&mut self, base: u64, total_frames: usize)
        requires
            base + (if total_frames < MAX_BLOCKS {
                total_frames
            } else {
                MAX_BLOCKS
            }) * 4096 <= u64::MAX,
        ensures
            final(self).is_fresh(base, total_frames),
            final(self).wf(),
            final(self).base() == base,
            final(self).total() == (if total_frames < MAX_BLOCKS {
                total_frames
            } else {
                MAX_BLOCKS
            }),
            final(self).free_list(0) == index_range(0, final(self).total() as int),
            forall|o: int| 1 <= o <= MAX_ORDER ==> #[trigger] final(self).free_list(o) == Seq::<
                usize,
            >::empty(),
            forall|idx: int| #![trigger final(self).allocated_bit(idx)] !final(self).allocated_bit(idx),
    {
        let frames = if total_frames < MAX_BLOCKS {
            total_frames
        } else {
            MAX_BLOCKS
        };
        let mut allocated: Vec<u64> = Vec::new();
        let mut w: usize = 0;
        while w < BITMAP_WORDS
            invariant
                w <= BITMAP_WORDS,
                allocated@.len() == w,
                forall|j: int| 0 <= j < w ==> allocated@[j] == 0,
            decreases BITMAP_WORDS - w,
        {
            allocated.push(0);
            w = w + 1;
        }
        let mut free_lists: Vec<u64> = Vec::new();
        let mut k: usize = 0;
        while k < MAX_ORDER + 1
            invariant
                k <= MAX_ORDER + 1,
                free_lists@.len() == k,
                forall|j: int| 0 <= j < k ==> free_lists@[j] == LIST_END,
            decreases MAX_ORDER + 1 - k,
        {
            free_lists.push(LIST_END);
            k = k + 1;
        }
        let mut links: Vec<u64> = Vec::new();
        let mut f: usize = 0;
        while f < frames
            invariant
                f <= frames,
                links@.len() == f,
            decreases frames - f,
        {
            links.push(LIST_END);
            f = f + 1;
        }
        self.base_addr = base;
        self.total_frames = frames;
        self.free_lists = free_lists;
        self.allocated = allocated;
        self.links = links;
        self.lists = Ghost(Seq::new((MAX_ORDER + 1) as nat, |o: int| Seq::<usize>::empty()));
        assert forall|o: int| 0 <= o <= MAX_ORDER implies list_linked(
            #[trigger] self.free_lists@[o],
            self.links@,
            self.lists@[o],
        ) by {}
        proof {
            assert forall|j: int| 0 <= j < BITMAP_WORDS * 64 implies !bitmap_bit(
                self.allocated@,
                j,
            ) by {
                let wd = self.allocated@[j / 64];
                assert(wd == 0);
                let b = (j % 64) as u64;
                assert((0u64 >> b) & 1u64 == 0u64) by (bit_vector);
            }
        }
        let mut i: usize = frames;
        while i > 0
            invariant
                i <= frames,
                frames == self.total_frames,
                self.base_addr == base,
                self.lists_wf(),
                self.lists@[0] == index_range(i as int, frames as int),
                forall|o: int| 1 <= o <= MAX_ORDER ==> #[trigger] self.lists@[o] == Seq::<
                    usize,
                >::empty(),
                forall|j: int| 0 <= j < BITMAP_WORDS * 64 ==> !bitmap_bit(self.allocated@, j),
            decreases i,
        {
            i = i - 1;
            proof {
                assert(!in_lists(self.lists@, i)) by {
                    if in_lists(self.lists@, i) {
                        let (o1, k1) = choose|o1: int, k1: int|
                            0 <= o1 < self.lists@.len() && 0 <= k1 < self.lists@[o1].len()
                                && self.lists@[o1][k1] == i;
                        if o1 == 0 {
                            assert(self.lists@[0][k1] == (i + 1 + k1) as usize);
                        } else {
                            assert(self.lists@[o1] == Seq::<usize>::empty());
                        }
                    }
                }
            }
            let ghost prev = self.lists@;
            self.push_free_block(0, i);
            assert(self.lists@[0] =~= index_range(i as int, frames as int));
            assert forall|o: int| 1 <= o <= MAX_ORDER implies #[trigger] self.lists@[o] == Seq::<
                usize,
            >::empty() by {
                assert(self.lists@[o] == prev[o]);
            }
        }
        assert forall|idx: usize| idx < self.total_frames implies (#[trigger] bitmap_bit(
            self.allocated@,
            idx as int,
        ) <==> !in_lists(self.lists@, idx)) by {
            assert(self.lists@[0][idx as int] == idx);
        }
    }

    /// Base physical address of the managed region.
    pub fn base_address(&self) -> (r: u64)
        ensures
            r == self.base(),
    {
        self.base_addr
    }

    /// Number of managed frames.
    pub fn frame_count(&self) -> (r: usize)
        ensures
            r == self.total(),
    {
        self.total_frames
    }

    /// Allocate a single 4 KiB frame: the head of the order-0 free list.
    /// Returns its physical address, or `None` when the list is empty.
    pub fn alloc_frame(&mut self) -> (r: Option<u64>)
        requires
            old(self).wf(),
        ensures
            final(self).wf(),
            final(self).base() == old(self).base(),
            final(self).total() == old(self).total(),
            old(self).free_list(0).len() == 0 ==> r.is_none() && final(self).free_lists_view()
                == old(self).free_lists_view(),
            old(self).free_list(0).len() > 0 ==> {
                &&& r == Some(old(self).frame_addr(old(self).free_list(0)[0] as int) as u64)
                &&& final(self).free_lists_view() == old(self).free_lists_view().update(
                    0,
                    old(self).free_list(0).drop_first(),
                )
                &&& !final(self).is_free(old(self).free_list(0)[0])
            },
            r matches Some(a) ==> old(self).base() <= a < old(self).base() + old(self).total() * 4096
                && (a - old(self).base()) % 4096 == 0,
    {
        proof {
            self.lemma_wf_facts();
        }
        let ghost l0 = self.free_list(0);
        let r = self.alloc_block(0);
        match r {
            None => None,
            Some(idx) => {
                assert(idx as int == l0[0] as int);
                proof {
                    if self.is_free(idx) {
                        let (o, i) = choose|o: int, i: int|
                            0 <= o < self.free_lists_view().len() && 0 <= i
                                < self.free_lists_view()[o].len() && self.free_lists_view()[o][i]
                                == idx;
                        if o == 0 {
                            assert(old(self).free_lists_view()[0][i + 1] == old(self).free_lists_view()[0][0]);
                        } else {
                            assert(old(self).free_lists_view()[o][i] == old(self).free_lists_view()[0][0]);
                        }
                    }
                }
                Some(self.base_addr + (idx as u64) * 4096)
            },
        }
    }

    /// Free the frame at physical address `frame`.  Misaligned or
    /// out-of-range addresses are ignored; an address below the base counts
    /// as offset 0.
    pub fn free_frame(&mut self, frame: u64)
        requires
            old(self).wf(),
            frame_index_ok(old(self).base(), old(self).total(), frame) ==> !old(self).is_free(
                frame_index(old(self).base(), frame) as usize,
            ),
        ensures
            final(self).wf(),
            final(self).base() == old(self).base(),
            final(self).total() == old(self).total(),
            !frame_index_ok(old(self).base(), old(self).total(), frame) ==> final(self).free_lists_view() == old(self).free_lists_view(),
            frame_index_ok(old(self).base(), old(self).total(), frame) ==> final(self).free_lists_view() == old(self).free_lists_view().update(
                0,
                seq![frame_index(old(self).base(), frame) as usize] + old(self).free_list(0),
            ),
    {
        let base = self.base_addr;
        let total = self.total_frames;
        let offset = frame.saturating_sub(base);
        if offset % 4096 != 0 {
            return ;
        }
        let idx = offset / 4096;
        if idx >= total as u64 {
            return ;
        }
        self.free_block(0, idx as usize);
    }
}

/// `order` clamped to `MAX_ORDER`.
pub open spec fn min_order(order: usize) -> usize {
    if order < MAX_ORDER {
        order
    } else {
        MAX_ORDER
    }
}

/// Offset of `frame` from `base`, saturating at zero.
pub open spec fn frame_offset(base: u64, frame: u64) -> int {
    if frame >= base {
        frame - base
    } else {
        0
    }
}

/// Frame index that `free_frame` derives from `frame`.
pub open spec fn frame_index(base: u64, frame: u64) -> int {
    frame_offset(base, frame) / 4096
}

/// `free_frame` acts on `frame`: the offset is page aligned and in range.
pub open spec fn frame_index_ok(base: u64, total: nat, frame: u64) -> bool {
    frame_offset(base, frame) % 4096 == 0 && frame_index(base, frame) < total
}

// ─── Laws ───────────────────────────────────────────────────────────────────

/// Freeing the frame that was just allocated is accepted by `free_frame`
/// and restores the free lists exactly.  `p1` is the allocator after
/// `alloc_frame` on `p0` handed out a frame, `p2` after `free_frame` of
/// that frame's address on `p1`.
pub proof fn law_free_undoes_alloc(p0: BuddyAllocator, p1: BuddyAllocator, p2: BuddyAllocator)
    requires
        p0.wf(),
        p0.free_list(0).len() > 0,
        p1.wf(),
        p1.base() == p0.base(),
        p1.total() == p0.total(),
        p1.free_lists_view() == p0.free_lists_view().update(0, p0.free_list(0).drop_first()),
        p2.free_lists_view() == p1.free_lists_view().update(
            0,
            seq![frame_index(p1.base(), p0.frame_addr(p0.free_list(0)[0] as int) as u64) as usize]
                + p1.free_list(0),
        ),
    ensures
        ({
            let a = p0.frame_addr(p0.free_list(0)[0] as int) as u64;
            &&& frame_index_ok(p1.base(), p1.total(), a)
            &&& frame_index(p1.base(), a) == p0.free_list(0)[0]
            &&& !p1.is_free(frame_index(p1.base(), a) as usize)
        }),
        p2.free_lists_view() == p0.free_lists_view(),
{
    p0.lemma_wf_facts();
    let l0 = p0.free_list(0);
    let h = l0[0] as int;
    let b = p0.base() as int;
    assert(b + h * 4096 + 4096 <= b + p0.total() * 4096) by (nonlinear_arith)
        requires
            0 <= h < p0.total(),
    ;
    let a = p0.frame_addr(h) as u64;
    assert(frame_offset(p1.base(), a) == h * 4096);
    assert((h * 4096) % 4096 == 0 && (h * 4096) / 4096 == h) by (nonlinear_arith)
        requires
            h >= 0,
    ;
    assert(p1.free_list(0) == l0.drop_first());
    if p1.is_free(h as usize) {
        let (o, i) = choose|o: int, i: int|
            0 <= o < p1.free_lists_view().len() && 0 <= i < p1.free_lists_view()[o].len()
                && p1.free_lists_view()[o][i] == h as usize;
        if o == 0 {
            assert(p0.free_lists_view()[0][i + 1] == p0.free_lists_view()[0][0]);
        } else {
            assert(p0.free_lists_view()[o][i] == p0.free_lists_view()[0][0]);
        }
    }
    assert(seq![h as usize] + l0.drop_first() =~= l0);
    assert(p2.free_lists_view() =~= p0.free_lists_view());
}

/// Two successive allocations hand out different frames.  `p1` is the
/// allocator after `alloc_frame` on `p0` handed out a frame; the next
/// allocation hands out the head of `p1`'s list.
pub proof fn law_successive_frames_distinct(p0: BuddyAllocator, p1: BuddyAllocator)
    requires
        p0.wf(),
        p0.free_list(0).len() > 0,
        p1.base() == p0.base(),
        p1.free_lists_view() == p0.free_lists_view().update(0, p0.free_list(0).drop_first()),
        p1.free_list(0).len() > 0,
    ensures
        p1.frame_addr(p1.free_list(0)[0] as int) != p0.frame_addr(p0.free_list(0)[0] as int),
{
    p0.lemma_wf_facts();
    assert(p1.free_list(0)[0] == p0.free_list(0)[1]);
}

/// A freshly initialised allocator hands out its frames in ascending
/// address order, the first at its base.
pub proof fn law_fresh_allocates_from_base(p: BuddyAllocator, base: u64, total_frames: usize)
    requires
        p.is_fresh(base, total_frames),
    ensures
        forall|i: int|
            0 <= i < p.free_list(0).len() ==> p.frame_addr(#[trigger] p.free_list(0)[i] as int)
                == base + i * 4096,
{
}

/// Every managed frame is either free or handed out: in an allocator that
/// keeps its free frames on the order-0 list (as `init`, `alloc_frame` and
/// `free_frame` leave it), the handed-out frames number `total` minus the
/// free ones, so `alloc_frame` finds its list empty exactly when all
/// `total` frames are handed out.
pub proof fn law_frames_out_count(p: BuddyAllocator)
    requires
        p.wf(),
        forall|o: int| 1 <= o <= MAX_ORDER ==> #[trigger] p.free_list(o).len() == 0,
    ensures
        p.allocated_frames().finite(),
        p.allocated_frames().len() + p.free_list(0).len() == p.total(),
        p.free_list(0).len() == 0 <==> p.allocated_frames().len() == p.total(),
{
    p.lemma_wf_facts();
    let l = p.free_list(0);
    let li = l.map_values(|x: usize| x as int);
    let range = vstd::set_lib::set_int_range(0, p.total() as int);
    let free = Set::new(|i: int| 0 <= i < p.total() && !p.allocated_bit(i));
    vstd::set_lib::lemma_int_range(0, p.total() as int);
    assert(li.no_duplicates()) by {
        assert forall|i: int, j: int| 0 <= i < li.len() && 0 <= j < li.len() && i != j implies li[i]
            != li[j] by {
            assert(l[i] != l[j]);
        }
    }
    li.unique_seq_to_set();
    assert(free =~= li.to_set()) by {
        assert forall|x: int| free.contains(x) implies li.to_set().contains(x) by {
            assert(p.is_free(x as usize));
            let (o, k) = choose|o: int, k: int|
                0 <= o < p.free_lists_view().len() && 0 <= k < p.free_lists_view()[o].len()
                    && p.free_lists_view()[o][k] == x as usize;
            if o != 0 {
                assert(p.free_list(o).len() == 0);
            }
            assert(li[k] == x);
        }
        assert forall|x: int| li.to_set().contains(x) implies free.contains(x) by {
            let k = choose|k: int| 0 <= k < li.len() && li[k] == x;
            assert((l[k] as int) < p.total());
            assert(in_lists(p.free_lists_view(), l[k]));
        }
    }
    assert(p.allocated_frames() =~= range.difference(free));
    assert(range.intersect(free) =~= free);
    vstd::set_lib::lemma_set_difference_len(range, free);
    assert(free.finite());
    assert(p.allocated_frames().finite()) by {
        vstd::set_lib::lemma_len_subset(p.allocated_frames(), range);
    }
}

/// A call on the frame allocator: `alloc_frame` with its result, or
/// `free_frame` of an address.
pub enum FrameOp {
    Alloc(Option<u64>),
    Free(u64),
}

/// `after` is `before` after `op`, as the contracts of `alloc_frame` and
/// `free_frame` say.
pub open spec fn frame_op_step(before: BuddyAllocator, after: BuddyAllocator, op: FrameOp) -> bool {
    &&& after.wf()
    &&& after.base() == before.base()
    &&& after.total() == before.total()
    &&& match op {
        FrameOp::Alloc(r) => if before.free_list(0).len() == 0 {
            r is None && after.free_lists_view() == before.free_lists_view()
        } else {
            &&& r == Some(before.frame_addr(before.free_list(0)[0] as int) as u64)
            &&& after.free_lists_view() == before.free_lists_view().update(0, before.free_list(0).drop_first())
        },
        FrameOp::Free(a) => if frame_index_ok(before.base(), before.total(), a) {
            after.free_lists_view() == before.free_lists_view().update(
                0,
                seq![frame_index(before.base(), a) as usize] + before.free_list(0),
            )
        } else {
            after.free_lists_view() == before.free_lists_view()
        },
    }
}

/// The addresses handed out by `ops` and not freed since.
pub open spec fn outstanding(ops: Seq<FrameOp>) -> Set<u64>
    decreases ops.len(),
{
    if ops.len() == 0 {
        Set::empty()
    } else {
        let prev = outstanding(ops.drop_last());
        match ops.last() {
            FrameOp::Alloc(Some(a)) => prev.insert(a),
            FrameOp::Alloc(None) => prev,
            FrameOp::Free(a) => prev.remove(a),
        }
    }
}

/// `x` is the address of a managed frame of `p` that is not free.
pub open spec fn in_use_addr(p: BuddyAllocator, x: u64) -> bool {
    exists|idx: int| 0 <= idx < p.total() && x == p.frame_addr(idx) && !p.is_free(idx as usize)
}

/// Only the order-0 list holds frames.
pub open spec fn only_order0(p: BuddyAllocator) -> bool {
    forall|o: int| 1 <= o <= MAX_ORDER ==> #[trigger] p.free_list(o).len() == 0
}

proof fn lemma_free_is_on_list0(p: BuddyAllocator, idx: usize)
    requires
        p.wf(),
        only_order0(p),
    ensures
        p.is_free(idx) <==> p.free_list(0).contains(idx),
{
    p.lemma_wf_facts();
    if p.is_free(idx) {
        let (o, k) = choose|o: int, k: int|
            0 <= o < p.free_lists_view().len() && 0 <= k < p.free_lists_view()[o].len()
                && p.free_lists_view()[o][k] == idx;
        if o != 0 {
            assert(p.free_list(o).len() == 0);
        }
        assert(p.free_list(0)[k] == idx);
    }
    if p.free_list(0).contains(idx) {
        let k = choose|k: int| 0 <= k < p.free_list(0).len() && p.free_list(0)[k] == idx;
        assert(p.free_lists_view()[0][k] == idx);
    }
}

/// One call keeps the allocator on the order-0 list and keeps the
/// outstanding addresses equal to the frames in use.
proof fn lemma_frame_op_keeps(p0: BuddyAllocator, p1: BuddyAllocator, op: FrameOp, out0: Set<u64>)
    requires
        p0.wf(),
        only_order0(p0),
        forall|x: u64| out0.contains(x) <==> #[trigger] in_use_addr(p0, x),
        frame_op_step(p0, p1, op),
        op matches FrameOp::Free(a) ==> out0.contains(a),
    ensures
        only_order0(p1),
        op matches FrameOp::Alloc(Some(a)) ==> !out0.contains(a),
        forall|x: u64|
            (match op {
                FrameOp::Alloc(Some(a)) => out0.insert(a),
                FrameOp::Alloc(None) => out0,
                FrameOp::Free(a) => out0.remove(a),
            }).contains(x) <==> #[trigger] in_use_addr(p1, x),
{
    p0.lemma_wf_facts();
    p1.lemma_wf_facts();
    let l0 = p0.free_list(0);
    let b = p0.base() as int;
    assert forall|o: int| 1 <= o <= MAX_ORDER implies #[trigger] p1.free_list(o).len() == 0 by {
        assert(p1.free_list(o) == p0.free_list(o));
    }
    assert forall|idx: usize| #[trigger] p1.is_free(idx) <==> p1.free_list(0).contains(idx) by {
        lemma_free_is_on_list0(p1, idx);
    }
    assert forall|idx: usize| #[trigger] p0.is_free(idx) <==> l0.contains(idx) by {
        lemma_free_is_on_list0(p0, idx);
    }
    match op {
        FrameOp::Alloc(r) => {
            if l0.len() == 0 {
                assert forall|x: u64| out0.contains(x) <==> #[trigger] in_use_addr(p1, x) by {
                    if in_use_addr(p1, x) {
                        let idx = choose|idx: int|
                            0 <= idx < p1.total() && x == p1.frame_addr(idx) && !p1.is_free(idx as usize);
                        assert(p0.is_free(idx as usize) == p1.is_free(idx as usize));
                        assert(x == p0.frame_addr(idx) && !p0.is_free(idx as usize));
                        assert(in_use_addr(p0, x));
                    }
                    if in_use_addr(p0, x) {
                        let idx = choose|idx: int|
                            0 <= idx < p0.total() && x == p0.frame_addr(idx) && !p0.is_free(idx as usize);
                        assert(p0.is_free(idx as usize) == p1.is_free(idx as usize));
                        assert(x == p1.frame_addr(idx) && !p1.is_free(idx as usize));
                        assert(in_use_addr(p1, x));
                    }
                }
            } else {
                let h = l0[0];
                let a = p0.frame_addr(h as int) as u64;
                assert((h as int) < p0.total());
                assert(b + h * 4096 + 4096 <= b + p0.total() * 4096) by (nonlinear_arith)
                    requires
                        0 <= h < p0.total(),
                ;
                assert(a == p0.frame_addr(h as int));
                assert(p1.free_list(0) == l0.drop_first());
                assert(!out0.contains(a)) by {
                    if out0.contains(a) {
                        assert(in_use_addr(p0, a));
                        let idx = choose|idx: int|
                            0 <= idx < p0.total() && a == p0.frame_addr(idx) && !p0.is_free(idx as usize);
                        assert(idx == h);
                        assert(l0.contains(h));
                    }
                }
                assert forall|idx: usize| #[trigger] p1.free_list(0).contains(idx) <==> (l0.contains(idx)
                    && idx != h) by {
                    if l0.contains(idx) && idx != h {
                        let k = choose|k: int| 0 <= k < l0.len() && l0[k] == idx;
                        assert(k != 0);
                        assert(p1.free_list(0)[k - 1] == idx);
                    }
                    if p1.free_list(0).contains(idx) {
                        let k = choose|k: int| 0 <= k < p1.free_list(0).len() && p1.free_list(0)[k] == idx;
                        assert(l0[k + 1] == idx);
                        assert(l0[0] != l0[k + 1]);
                    }
                }
                assert forall|x: u64| out0.insert(a).contains(x) <==> #[trigger] in_use_addr(p1, x) by {
                    if x == a {
                        assert(!p1.free_list(0).contains(h));
                        assert(!p1.is_free(h));
                        assert(x == p1.frame_addr(h as int));
                        assert(in_use_addr(p1, x));
                    } else {
                        if in_use_addr(p1, x) {
                            let idx = choose|idx: int|
                                0 <= idx < p1.total() && x == p1.frame_addr(idx) && !p1.is_free(idx as usize);
                            assert(idx != h);
                            assert(!p1.free_list(0).contains(idx as usize));
                            assert(!l0.contains(idx as usize));
                            assert(!p0.is_free(idx as usize));
                            assert(x == p0.frame_addr(idx));
                            assert(in_use_addr(p0, x));
                        }
                        if in_use_addr(p0, x) {
                            let idx = choose|idx: int|
                                0 <= idx < p0.total() && x == p0.frame_addr(idx) && !p0.is_free(idx as usize);
                            assert(!p1.free_list(0).contains(idx as usize));
                            assert(!p1.is_free(idx as usize));
                            assert(x == p1.frame_addr(idx));
                            assert(in_use_addr(p1, x));
                        }
                    }
                }
            }
        },
        FrameOp::Free(a) => {
            assert(in_use_addr(p0, a));
            let ia = choose|idx: int|
                0 <= idx < p0.total() && a == p0.frame_addr(idx) && !p0.is_free(idx as usize);
            assert(frame_offset(p0.base(), a) == ia * 4096);
            assert((ia * 4096) % 4096 == 0 && (ia * 4096) / 4096 == ia) by (nonlinear_arith)
                requires
                    ia >= 0,
            ;
            assert(frame_index_ok(p0.base(), p0.total(), a));
            let nl = seq![ia as usize] + l0;
            assert(p1.free_list(0) == nl);
            assert forall|idx: usize| #[trigger] p1.free_list(0).contains(idx) <==> (l0.contains(idx)
                || idx == ia) by {
                if l0.contains(idx) {
                    let k = choose|k: int| 0 <= k < l0.len() && l0[k] == idx;
                    assert(nl[k + 1] == idx);
                }
                if idx == ia {
                    assert(nl[0] == idx);
                }
                if nl.contains(idx) {
                    let k = choose|k: int| 0 <= k < nl.len() && nl[k] == idx;
                    if k > 0 {
                        assert(l0[k - 1] == idx);
                    }
                }
            }
            assert forall|x: u64| out0.remove(a).contains(x) <==> #[trigger] in_use_addr(p1, x) by {
                if in_use_addr(p1, x) {
                    let idx = choose|idx: int|
                        0 <= idx < p1.total() && x == p1.frame_addr(idx) && !p1.is_free(idx as usize);
                    assert(idx != ia);
                    assert(!p1.free_list(0).contains(idx as usize));
                    assert(!l0.contains(idx as usize));
                    assert(!p0.is_free(idx as usize));
                    assert(x == p0.frame_addr(idx));
                    assert(in_use_addr(p0, x));
                }
                if in_use_addr(p0, x) && x != a {
                    let idx = choose|idx: int|
                        0 <= idx < p0.total() && x == p0.frame_addr(idx) && !p0.is_free(idx as usize);
                    assert(idx != ia);
                    assert(!l0.contains(idx as usize));
                    assert(!p1.free_list(0).contains(idx as usize));
                    assert(!p1.is_free(idx as usize));
                    assert(x == p1.frame_addr(idx));
                    assert(in_use_addr(p1, x));
                }
            }
        },
    }
}

/// Over any run of `alloc_frame` and `free_frame` calls on a freshly
/// initialised allocator, where each freed address is one handed out and
/// not freed since: no frame is handed out while it is still out, the
/// addresses out are exactly the frames in use, and `alloc_frame` fails
/// exactly when all managed frames are out.  `ps[i]` is the allocator
/// before call `ops[i]`.
pub proof fn law_frames_never_handed_out_twice(ps: Seq<BuddyAllocator>, ops: Seq<FrameOp>, base: u64, n: usize)
    requires
        ps.len() == ops.len() + 1,
        ps[0].is_fresh(base, n),
        forall|i: int| 0 <= i < ops.len() ==> #[trigger] frame_op_step(ps[i], ps[i + 1], ops[i]),
        forall|i: int|
            0 <= i < ops.len() ==> (#[trigger] ops[i] matches FrameOp::Free(a) ==> outstanding(ops.take(i)).contains(a)),
    ensures
        forall|i: int|
            0 <= i < ops.len() ==> (#[trigger] ops[i] matches FrameOp::Alloc(Some(a)) ==> !outstanding(ops.take(i)).contains(a)),
        forall|i: int, x: u64|
            #![trigger outstanding(ops.take(i)).contains(x)]
            #![trigger in_use_addr(ps[i], x)]
            0 <= i <= ops.len() ==> (outstanding(ops.take(i)).contains(x) <==> in_use_addr(ps[i], x)),
        forall|i: int|
            0 <= i <= ops.len() ==> (#[trigger] ps[i].free_list(0).len() == 0 <==> ps[i].allocated_frames().len() == ps[i].total()),
{
    lemma_frame_history(ps, ops, base, n, ops.len() as int);
    assert forall|i: int|
        0 <= i < ops.len() implies (#[trigger] ops[i] matches FrameOp::Alloc(Some(a)) ==> !outstanding(ops.take(i)).contains(a)) by {
        assert(frame_op_step(ps[i], ps[i + 1], ops[i]));
        assert(ps[i].wf());
        lemma_frame_op_keeps(ps[i], ps[i + 1], ops[i], outstanding(ops.take(i)));
    }
    assert forall|i: int|
        0 <= i <= ops.len() implies (#[trigger] ps[i].free_list(0).len() == 0 <==> ps[i].allocated_frames().len() == ps[i].total()) by {
        assert(ps[i].wf());
        law_frames_out_count(ps[i]);
    }
}

proof fn lemma_frame_history(ps: Seq<BuddyAllocator>, ops: Seq<FrameOp>, base: u64, n: usize, k: int)
    requires
        ps.len() == ops.len() + 1,
        0 <= k <= ops.len(),
        ps[0].is_fresh(base, n),
        forall|i: int| 0 <= i < ops.len() ==> #[trigger] frame_op_step(ps[i], ps[i + 1], ops[i]),
        forall|i: int|
            0 <= i < ops.len() ==> (#[trigger] ops[i] matches FrameOp::Free(a) ==> outstanding(ops.take(i)).contains(a)),
    ensures
        forall|i: int| 0 <= i <= k ==> #[trigger] ps[i].wf() && only_order0(ps[i]),
        forall|i: int, x: u64|
            #![trigger outstanding(ops.take(i)).contains(x)]
            #![trigger in_use_addr(ps[i], x)]
            0 <= i <= k ==> (outstanding(ops.take(i)).contains(x) <==> in_use_addr(ps[i], x)),
    decreases k,
{
    if k == 0 {
        let p = ps[0];
        assert(ops.take(0) =~= Seq::<FrameOp>::empty());
        p.lemma_wf_facts();
        assert forall|x: u64| !in_use_addr(p, x) by {
            if in_use_addr(p, x) {
                let idx = choose|idx: int| 0 <= idx < p.total() && x == p.frame_addr(idx) && !p.is_free(idx as usize);
                assert(p.free_list(0)[idx] == idx as usize);
                assert(p.free_lists_view()[0][idx] == idx as usize);
            }
        }
    } else {
        let m = k - 1;
        lemma_frame_history(ps, ops, base, n, m);
        assert(frame_op_step(ps[m], ps[m + 1], ops[m]));
        assert(ops[m] matches FrameOp::Free(a) ==> outstanding(ops.take(m)).contains(a));
        assert(ps[m].wf());
        lemma_frame_op_keeps(ps[m], ps[m + 1], ops[m], outstanding(ops.take(m)));
        assert(ops.take(k).drop_last() =~= ops.take(m));
        assert(ops.take(k).last() == ops[m]);
        assert(ps[k].wf() && only_order0(ps[k]));
    }
}

} // verus!
