//! One page-protection zone of the shared window: a first-fit allocator over a free list.
use vstd::prelude::*;

verus! {

pub const PAGE_SIZE: u64 = 4096;

/// The least multiple of `align` that is not below `v`.
pub open spec fn round_up(v: int, align: int) -> int {
    ((v + align - 1) / align) * align
}

/// Round `v` up to a multiple of `align`; zero where the multiple does not fit.
pub fn align_up(v: u64, align: u64) -> (r: u64)
    requires
        align > 0,
    ensures
        r == (if round_up(v as int, align as int) <= u64::MAX { round_up(v as int, align as int) } else { 0 }),
{
    proof {
        lemma_round_up(v as int, align as int);
    }
    let down: u64 = v / align * align;
    let rem: u64 = v % align;
    if rem == 0 {
        down
    } else if down > u64::MAX - align {
        0
    } else {
        down + align
    }
}

/// Rounding up in terms of quotient and remainder.
pub(crate) proof fn lemma_round_up(v: int, align: int)
    requires
        v >= 0,
        align > 0,
    ensures
        v / align * align + v % align == v,
        0 <= v % align < align,
        v % align == 0 ==> round_up(v, align) == v,
        v % align != 0 ==> round_up(v, align) == v / align * align + align,
        round_up(v, align) >= v,
        round_up(v, align) < v + align,
        round_up(v, align) % align == 0,
        0 <= v / align * align <= v,
{
    let q = v / align;
    let r = v % align;
    vstd::arithmetic::div_mod::lemma_fundamental_div_mod(v, align);
    vstd::arithmetic::div_mod::lemma_mod_bound(v, align);
    assert(q * align == align * q) by (nonlinear_arith);
    assert(q >= 0) by (nonlinear_arith)
        requires v >= 0, align > 0, q == v / align;
    assert(q * align >= 0) by (nonlinear_arith)
        requires q >= 0, align > 0;
    if r == 0 {
        assert((v + align - 1) / align == q) by (nonlinear_arith)
            requires v == q * align, align > 0;
    } else {
        assert((v + align - 1) / align == q + 1) by (nonlinear_arith)
            requires v == q * align + r, 0 < r < align;
        assert((q + 1) * align == q * align + align) by (nonlinear_arith);
    }
    let m = (v + align - 1) / align;
    assert((m * align) % align == 0) by (nonlinear_arith)
        requires align > 0;
}

/// A run of free bytes, its start relative to the zone's base.
#[derive(Clone, Copy, Debug, PartialEq, Eq, Structural)]
pub struct Extent {
    pub start: u64,
    pub len: u64,
}

impl Extent {
    pub open spec fn end(self) -> int {
        self.start + self.len
    }

    pub open spec fn has(self, x: int) -> bool {
        self.start <= x < self.end()
    }
}

/// Extents in order, none empty, none past `size`, and a gap before each next one.
pub open spec fn coalesced(free: Seq<Extent>, size: int) -> bool {
    &&& forall|i: int| 0 <= i < free.len() ==> (#[trigger] free[i]).len > 0 && free[i].end() <= size
    &&& forall|i: int, j: int|
        #![trigger free[i], free[j]]
        0 <= i < j < free.len() ==> free[i].end() < free[j].start
}

/// Whether some extent of `free` holds `x`.
pub open spec fn covered(free: Seq<Extent>, x: int) -> bool {
    exists|i: int| 0 <= i < free.len() && #[trigger] free[i].has(x)
}

/// The bytes that the extents of `free` hold together.
pub open spec fn total_len(free: Seq<Extent>) -> int
    decreases free.len(),
{
    if free.len() == 0 {
        0
    } else {
        total_len(free.drop_last()) + free.last().len
    }
}

/// `i` is the first extent of `free` that can hold `want` bytes.
pub open spec fn first_fit(free: Seq<Extent>, want: int, i: int) -> bool {
    &&& 0 <= i < free.len()
    &&& free[i].len >= want
    &&& forall|j: int| 0 <= j < i ==> (#[trigger] free[j]).len < want
}

/// `free` once `want` bytes have been taken from the front of extent `i`.
pub open spec fn take_front(free: Seq<Extent>, i: int, want: int) -> Seq<Extent> {
    if free[i].len > want {
        free.update(
            i,
            Extent { start: (free[i].start + want) as u64, len: (free[i].len - want) as u64 },
        )
    } else {
        free.remove(i)
    }
}

/// What asking for `want` bytes does to the free list `pre` of a zone at `base`: the first extent
/// that can hold them gives up its front, and nothing happens where there is none.
pub open spec fn first_fit_taken(
    pre: Seq<Extent>,
    post: Seq<Extent>,
    want: int,
    base: int,
    r: Option<u64>,
) -> bool {
    match r {
        Some(off) => want > 0 && exists|i: int| #[trigger]
            first_fit(pre, want, i) && off == base + pre[i].start && post == take_front(
                pre,
                i,
                want,
            ),
        None => post == pre && (want == 0 || forall|i: int|
            0 <= i < pre.len() ==> (#[trigger] pre[i]).len < want),
    }
}

/// One page-protection zone, with a free list.
pub struct Zone {
    base: u64,
    size: u64,
    free: Vec<Extent>,
}

impl Zone {
    pub closed spec fn spec_base(&self) -> int {
        self.base as int
    }

    pub closed spec fn spec_size(&self) -> int {
        self.size as int
    }

    /// The free extents, in order, relative to the base.
    pub closed spec fn free_list(&self) -> Seq<Extent> {
        self.free@
    }

    pub open spec fn wf(&self) -> bool {
        &&& 0 <= self.spec_base()
        &&& 0 <= self.spec_size()
        &&& self.spec_base() + self.spec_size() <= u64::MAX
        &&& coalesced(self.free_list(), self.spec_size())
    }

    /// The free bytes of the zone, as window offsets.
    pub open spec fn free_set(&self) -> Set<int> {
        Set::new(|x: int| covered(self.free_list(), x - self.spec_base()))
    }

    /// Every free extent starts and ends on a page.
    pub open spec fn page_aligned(&self) -> bool {
        &&& self.spec_base() % PAGE_SIZE as int == 0
        &&& forall|i: int|
            0 <= i < self.free_list().len() ==> (#[trigger] self.free_list()[i]).start as int % PAGE_SIZE as int == 0
                && self.free_list()[i].len as int % PAGE_SIZE as int == 0
    }

    /// A zone of `size` bytes at `base` with all of them free, in one extent.
    pub open spec fn fresh(&self, base: int, size: int) -> bool {
        &&& self.spec_base() == base
        &&& self.spec_size() == size
        &&& self.free_list() == (if size > 0 {
            seq![Extent { start: 0, len: size as u64 }]
        } else {
            Seq::empty()
        })
    }

    /// The two stand at the same place in the window.
    pub open spec fn same_place(&self, other: Zone) -> bool {
        &&& self.spec_base() == other.spec_base()
        &&& self.spec_size() == other.spec_size()
    }

    pub fn new(base: u64, size: u64) -> (z: Self)
        requires
            base + size <= u64::MAX,
        ensures
            z.wf(),
            z.fresh(base as int, size as int),
    {
        let mut free: Vec<Extent> = Vec::new();
        if size > 0 {
            free.push(Extent { start: 0, len: size });
        }
        Zone { base, size, free }
    }

    /// First-fit. Returns a window offset, or `None` if no extent fits.
    #[verifier::spinoff_prover]
    #[verifier::rlimit(30)]
    pub fn allocate(&mut self, length: u64) -> (r: Option<u64>)
        requires
            old(self).wf(),
        ensures
            final(self).wf(),
            final(self).spec_base() == old(self).spec_base(),
            final(self).spec_size() == old(self).spec_size(),
            first_fit_taken(
                old(self).free_list(),
                final(self).free_list(),
                round_up(length as int, PAGE_SIZE as int),
                old(self).spec_base(),
                r,
            ),
            r matches Some(off) ==> {
                let want = round_up(length as int, PAGE_SIZE as int);
                &&& span(off as int, want).subset_of(old(self).free_set())
                &&& final(self).free_set() == old(self).free_set().difference(span(off as int, want))
                &&& total_len(final(self).free_list()) == total_len(old(self).free_list()) - want
                &&& old(self).page_aligned() ==> final(self).page_aligned() && off as int
                    % PAGE_SIZE as int == 0
            },
    {
        let want: u64 = align_up(length, PAGE_SIZE);
        proof {
            lemma_round_up(length as int, PAGE_SIZE as int);
        }
        if want == 0 {
            return None;
        }
        let mut i: usize = 0;
        while i < self.free.len() && self.free[i].len < want
            invariant
                i <= self.free.len(),
                forall|j: int| 0 <= j < i ==> (#[trigger] self.free@[j]).len < want,
            decreases self.free.len() - i,
        {
            i = i + 1;
        }
        if i == self.free.len() {
            return None;
        }
        let found: Extent = self.free[i];
        assert(first_fit(old(self).free_list(), want as int, i as int));
        if found.len > want {
            self.free[i] = Extent { start: found.start + want, len: found.len - want };
        } else {
            self.free.remove(i);
        }
        proof {
            let pre = old(self).free@;
            lemma_take_front(pre, old(self).size as int, i as int, want as int);
            assert(self.free@ == take_front(pre, i as int, want as int));
            let off = self.base + found.start;
            assert(self.free_set() =~= old(self).free_set().difference(span(off, want as int)));
            assert forall|x: int| span(off, want as int).contains(x) implies old(self).free_set().contains(x) by {
                assert(pre[i as int].has(x - self.base));
            }
            if old(self).page_aligned() {
                assert(pre == old(self).free_list());
                lemma_front_aligned(pre, old(self).size as int, i as int, want as int);
                assert(self.free_list() == take_front(pre, i as int, want as int));
            }
        }
        Some(self.base + found.start)
    }

    /// Return an extent to the zone, coalescing with either neighbour.
    ///
    /// Returns false if the extent is not inside this zone or overlaps a range already free,
    /// which would mean a double free.
    #[verifier::spinoff_prover]
    #[verifier::rlimit(30)]
    pub fn free_extent(&mut self, offset: u64, length: u64) -> (r: bool)
        requires
            old(self).wf(),
        ensures
            final(self).wf(),
            final(self).spec_base() == old(self).spec_base(),
            final(self).spec_size() == old(self).spec_size(),
            r <==> old(self).returnable(offset as int, round_up(length as int, PAGE_SIZE as int)),
            !r ==> final(self).free_list() == old(self).free_list(),
            r ==> final(self).free_set() == old(self).free_set().union(
                span(offset as int, round_up(length as int, PAGE_SIZE as int)),
            ),
            r ==> total_len(final(self).free_list()) == total_len(old(self).free_list()) + round_up(
                length as int,
                PAGE_SIZE as int,
            ),
            old(self).page_aligned() && offset as int % PAGE_SIZE as int == 0 ==> final(self).page_aligned(),
    {
        let want: u64 = align_up(length, PAGE_SIZE);
        proof {
            lemma_round_up(length as int, PAGE_SIZE as int);
        }
        if want == 0 || offset < self.base {
            return false;
        }
        let start: u64 = offset - self.base;
        if start > self.size || want > self.size - start {
            return false;
        }
        let ghost pre = self.free@;
        let ghost size = self.size as int;
        let mut k: usize = 0;
        while k < self.free.len() && self.free[k].start < start
            invariant
                k <= self.free.len(),
                self.free@ == pre,
                forall|j: int| 0 <= j < k ==> (#[trigger] pre[j]).start < start,
            decreases self.free.len() - k,
        {
            k = k + 1;
        }
        let n: usize = self.free.len();
        if k > 0 && self.free[k - 1].start + self.free[k - 1].len > start {
            assert(pre[k - 1].has(start as int));
            assert(old(self).free_set().contains(offset as int));
            assert(span(offset as int, want as int).contains(offset as int));
            return false;
        }
        if k < n && start + want > self.free[k].start {
            assert(pre[k as int].has(pre[k as int].start as int));
            assert(old(self).free_set().contains(self.base + pre[k as int].start));
            assert(span(offset as int, want as int).contains(self.base + pre[k as int].start));
            return false;
        }
        let below: bool = k > 0 && self.free[k - 1].start + self.free[k - 1].len == start;
        let above: bool = k < n && start + want == self.free[k].start;
        let ghost e = Extent { start, len: want };
        assert(lies_between(pre, k as int, e));
        if below && above {
            let low: Extent = self.free[k - 1];
            let high: Extent = self.free.remove(k);
            self.free[k - 1] = Extent { start: low.start, len: low.len + want + high.len };
        } else if below {
            let low: Extent = self.free[k - 1];
            self.free[k - 1] = Extent { start: low.start, len: low.len + want };
        } else if above {
            let high: Extent = self.free[k];
            self.free[k] = Extent { start, len: want + high.len };
        } else {
            self.free.insert(k, Extent { start, len: want });
        }
        proof {
            assert(self.free@ == merged(pre, k as int, e));
            lemma_merged(pre, size, k as int, e);
            assert forall|x: int| span(offset as int, want as int).contains(x) implies !old(self).free_set().contains(x) by {
                lemma_between_free(pre, k as int, e, x - self.base);
            }
            if old(self).page_aligned() && offset as int % PAGE_SIZE as int == 0 {
                lemma_merged_aligned(pre, size, k as int, e);
            }
            assert(old(self).returnable(offset as int, want as int));
            assert(self.free_set() =~= old(self).free_set().union(span(offset as int, want as int)));
        }
        true
    }

    /// Whether `want` bytes at the window offset `offset` lie inside the zone and are all in use.
    pub open spec fn returnable(&self, offset: int, want: int) -> bool {
        &&& want > 0
        &&& self.spec_base() <= offset
        &&& offset + want <= self.spec_base() + self.spec_size()
        &&& forall|x: int| #[trigger] span(offset, want).contains(x) ==> !self.free_set().contains(x)
    }

    pub fn base(&self) -> (r: u64)
        ensures
            r == self.spec_base(),
    {
        self.base
    }

    pub fn size(&self) -> (r: u64)
        ensures
            r == self.spec_size(),
    {
        self.size
    }

    /// How many free extents there are.
    pub fn extents(&self) -> (r: usize)
        ensures
            r == self.free_list().len(),
    {
        self.free.len()
    }

    pub fn free_bytes(&self) -> (r: u64)
        requires
            self.wf(),
        ensures
            r == total_len(self.free_list()),
    {
        let mut sum: u64 = 0;
        let mut i: usize = 0;
        while i < self.free.len()
            invariant
                self.wf(),
                i <= self.free.len(),
                sum == total_len(self.free@.take(i as int)),
            decreases self.free.len() - i,
        {
            proof {
                let next = self.free@.take(i + 1);
                assert(next.drop_last() == self.free@.take(i as int));
                assert(next.last() == self.free@[i as int]);
                lemma_total_bound(next, self.size as int);
            }
            sum = sum + self.free[i].len;
            i = i + 1;
        }
        assert(self.free@.take(i as int) == self.free@);
        sum
    }

    /// The largest single allocation this zone could still satisfy.
    pub fn largest_free(&self) -> (r: u64)
        ensures
            r == largest_len(self.free_list()),
    {
        let mut best: u64 = 0;
        let mut i: usize = 0;
        while i < self.free.len()
            invariant
                i <= self.free.len(),
                best == largest_len(self.free@.take(i as int)),
            decreases self.free.len() - i,
        {
            proof {
                let next = self.free@.take(i + 1);
                assert(next.drop_last() == self.free@.take(i as int));
                assert(next.last() == self.free@[i as int]);
            }
            if self.free[i].len > best {
                best = self.free[i].len;
            }
            i = i + 1;
        }
        assert(self.free@.take(i as int) == self.free@);
        best
    }
}

/// An extent that is longer than what is taken keeps its end.
#[verifier::spinoff_prover]
#[verifier::rlimit(30)]
proof fn lemma_shorten(free: Seq<Extent>, size: int, i: int, want: int)
    requires
        coalesced(free, size),
        size <= u64::MAX,
        0 <= i < free.len(),
        0 < want < free[i].len,
    ensures
        coalesced(take_front(free, i, want), size),
        forall|x: int| #[trigger]
            covered(take_front(free, i, want), x) <==> covered(free, x) && !(free[i].start <= x
                < free[i].start + want),
{
    let t = take_front(free, i, want);
    assert(t.len() == free.len());
    assert(t[i].start == free[i].start + want && t[i].end() == free[i].end());
    assert forall|x: int| #[trigger] covered(t, x) <==> covered(free, x) && !(free[i].start <= x
        < free[i].start + want) by {
        if covered(t, x) {
            let j = choose|j: int| 0 <= j < t.len() && #[trigger] t[j].has(x);
            assert(free[j].has(x));
        }
        if covered(free, x) && !(free[i].start <= x < free[i].start + want) {
            let j = choose|j: int| 0 <= j < free.len() && #[trigger] free[j].has(x);
            assert(t[j].has(x));
        }
    }
}

/// An extent that is taken whole leaves the list.
#[verifier::spinoff_prover]
#[verifier::rlimit(30)]
proof fn lemma_drop(free: Seq<Extent>, size: int, i: int)
    requires
        coalesced(free, size),
        0 <= i < free.len(),
    ensures
        coalesced(free.remove(i), size),
        forall|x: int| #[trigger]
            covered(free.remove(i), x) <==> covered(free, x) && !free[i].has(x),
{
    let t = free.remove(i);
    assert forall|x: int| #[trigger] covered(t, x) <==> covered(free, x) && !free[i].has(x) by {
        if covered(t, x) {
            let j = choose|j: int| 0 <= j < t.len() && #[trigger] t[j].has(x);
            let j0 = if j < i { j } else { j + 1 };
            assert(free[j0].has(x));
        }
        if covered(free, x) && !free[i].has(x) {
            let j = choose|j: int| 0 <= j < free.len() && #[trigger] free[j].has(x);
            let j1 = if j < i { j } else { j - 1 };
            assert(t[j1].has(x));
        }
    }
}

pub(crate) proof fn lemma_take_front(free: Seq<Extent>, size: int, i: int, want: int)
    requires
        coalesced(free, size),
        size <= u64::MAX,
        first_fit(free, want, i),
        want > 0,
    ensures
        coalesced(take_front(free, i, want), size),
        forall|x: int| #[trigger]
            covered(take_front(free, i, want), x) <==> covered(free, x) && !(free[i].start <= x
                < free[i].start + want),
        total_len(take_front(free, i, want)) == total_len(free) - want,
{
    if free[i].len > want {
        lemma_total_update(free, i, take_front(free, i, want)[i]);
        lemma_shorten(free, size, i, want);
    } else {
        lemma_total_remove(free, i);
        lemma_drop(free, size, i);
    }
}

/// Taking whole pages from the front of an extent leaves whole pages.
#[verifier::spinoff_prover]
proof fn lemma_front_aligned(free: Seq<Extent>, size: int, i: int, want: int)
    requires
        coalesced(free, size),
        size <= u64::MAX,
        0 <= i < free.len(),
        0 < want <= free[i].len,
        want % PAGE_SIZE as int == 0,
        forall|j: int|
            0 <= j < free.len() ==> (#[trigger] free[j]).start as int % PAGE_SIZE as int == 0
                && free[j].len as int % PAGE_SIZE as int == 0,
    ensures
        forall|j: int|
            0 <= j < take_front(free, i, want).len() ==> (#[trigger] take_front(
                free,
                i,
                want,
            )[j]).start as int % PAGE_SIZE as int == 0 && take_front(free, i, want)[j].len as int
                % PAGE_SIZE as int == 0,
{
    let t = take_front(free, i, want);
    assert forall|j: int| 0 <= j < t.len() implies (#[trigger] t[j]).start as int % PAGE_SIZE as int
        == 0 && t[j].len as int % PAGE_SIZE as int == 0 by {
        if free[i].len > want {
            if j == i {
                assert(free[i].end() <= size);
                assert(t[i].start == free[i].start + want && t[i].len == free[i].len - want);
            } else {
                assert(t[j] == free[j]);
            }
        } else if j < i {
            assert(t[j] == free[j]);
        } else {
            assert(t[j] == free[j + 1]);
        }
    }
}

/// The bytes from `start` on, `len` of them.
pub open spec fn span(start: int, len: int) -> Set<int> {
    Set::new(|x: int| start <= x < start + len)
}

/// The length of the longest extent, zero where there is none.
pub open spec fn largest_len(free: Seq<Extent>) -> int
    decreases free.len(),
{
    if free.len() == 0 {
        0
    } else {
        let rest = largest_len(free.drop_last());
        if free.last().len > rest { free.last().len as int } else { rest }
    }
}

/// `e` fits into the gap before extent `k`.
spec fn lies_between(free: Seq<Extent>, k: int, e: Extent) -> bool {
    &&& 0 <= k <= free.len()
    &&& k > 0 ==> free[k - 1].end() <= e.start
    &&& k < free.len() ==> e.end() <= free[k].start
}

/// `free` with `e` put into the gap before extent `k` and joined to what it touches.
spec fn merged(free: Seq<Extent>, k: int, e: Extent) -> Seq<Extent> {
    let below = k > 0 && free[k - 1].end() == e.start;
    let above = k < free.len() && e.end() == free[k].start;
    if below && above {
        free.remove(k).update(
            k - 1,
            Extent {
                start: free[k - 1].start,
                len: (free[k - 1].len + e.len + free[k].len) as u64,
            },
        )
    } else if below {
        free.update(
            k - 1,
            Extent { start: free[k - 1].start, len: (free[k - 1].len + e.len) as u64 },
        )
    } else if above {
        free.update(k, Extent { start: e.start, len: (e.len + free[k].len) as u64 })
    } else {
        free.insert(k, e)
    }
}

proof fn lemma_between_free(free: Seq<Extent>, k: int, e: Extent, x: int)
    requires
        lies_between(free, k, e),
        forall|i: int, j: int|
            #![trigger free[i], free[j]]
            0 <= i < j < free.len() ==> free[i].end() < free[j].start,
        e.has(x),
    ensures
        !covered(free, x),
{
}

proof fn lemma_merged(free: Seq<Extent>, size: int, k: int, e: Extent)
    requires
        coalesced(free, size),
        size <= u64::MAX,
        lies_between(free, k, e),
        e.len > 0,
        e.end() <= size,
    ensures
        coalesced(merged(free, k, e), size),
        forall|x: int| #[trigger] covered(merged(free, k, e), x) <==> covered(free, x) || e.has(x),
        total_len(merged(free, k, e)) == total_len(free) + e.len,
{
    lemma_merged_coalesced(free, size, k, e);
    assert forall|x: int| #[trigger] covered(merged(free, k, e), x) <==> covered(free, x) || e.has(x) by {
        lemma_merged_covers(free, size, k, e, x);
    }
    lemma_merged_total(free, size, k, e);
}

#[verifier::spinoff_prover]
#[verifier::rlimit(30)]
proof fn lemma_merged_coalesced(free: Seq<Extent>, size: int, k: int, e: Extent)
    requires
        coalesced(free, size),
        size <= u64::MAX,
        lies_between(free, k, e),
        e.len > 0,
        e.end() <= size,
    ensures
        coalesced(merged(free, k, e), size),
{
    let m = merged(free, k, e);
    let below = k > 0 && free[k - 1].end() == e.start;
    let above = k < free.len() && e.end() == free[k].start;
    assert forall|i: int| 0 <= i < m.len() implies (#[trigger] m[i]).len > 0 && m[i].end() <= size by {
        if below && above {
            if i > k - 1 { assert(m[i] == free[i + 1]); } else if i < k - 1 { assert(m[i] == free[i]); }
        } else if !below && !above {
            if i > k { assert(m[i] == free[i - 1]); } else if i < k { assert(m[i] == free[i]); }
        }
    }
    assert forall|i: int, j: int| #![trigger m[i], m[j]] 0 <= i < j < m.len() implies m[i].end() < m[j].start by {
        if below && above {
            let a = if i > k - 1 { i + 1 } else { i };
            let b = if j > k - 1 { j + 1 } else { j };
            assert(m[i].end() == (if i == k - 1 { free[k].end() } else { free[a].end() }));
            assert(m[j].start == free[b].start);
        } else if below {
            assert(m[j].start == free[j].start);
            assert(m[i].end() == (if i == k - 1 { e.end() } else { free[i].end() }));
            assert(free[i].end() < free[j].start);
        } else if above {
            assert(m[j].start == (if j == k { e.start } else { free[j].start }));
            assert(m[i].end() == free[i].end());
            assert(free[i].end() < free[j].start);
            if j == k && i < k - 1 { assert(free[i].end() < free[k - 1].start); }
        } else {
            if i < k && j == k {
                assert(m[i] == free[i]);
                if i < k - 1 { assert(free[i].end() < free[k - 1].start); }
            } else if i == k {
                assert(m[j] == free[j - 1]);
                if j - 1 > k { assert(free[k].end() < free[j - 1].start); }
            } else if i < k && j < k {
                assert(m[i] == free[i] && m[j] == free[j]);
            } else if i < k && j > k {
                assert(m[i] == free[i] && m[j] == free[j - 1]);
            } else {
                assert(m[i] == free[i - 1] && m[j] == free[j - 1]);
            }
        }
    }
}

#[verifier::spinoff_prover]
#[verifier::rlimit(30)]
proof fn lemma_merged_covers(free: Seq<Extent>, size: int, k: int, e: Extent, x: int)
    requires
        coalesced(free, size),
        size <= u64::MAX,
        lies_between(free, k, e),
        e.len > 0,
        e.end() <= size,
    ensures
        covered(merged(free, k, e), x) <==> covered(free, x) || e.has(x),
{
    let below = k > 0 && free[k - 1].end() == e.start;
    let above = k < free.len() && e.end() == free[k].start;
    if below && above {
        lemma_joined_both_covers(free, size, k, e, x);
    } else if below || above {
        lemma_joined_one_covers(free, size, k, e, x);
    } else {
        lemma_apart_covers(free, size, k, e, x);
    }
}

#[verifier::spinoff_prover]
#[verifier::rlimit(30)]
proof fn lemma_joined_both_covers(free: Seq<Extent>, size: int, k: int, e: Extent, x: int)
    requires
        coalesced(free, size),
        size <= u64::MAX,
        lies_between(free, k, e),
        e.len > 0,
        e.end() <= size,
        k > 0 && free[k - 1].end() == e.start,
        k < free.len() && e.end() == free[k].start,
    ensures
        covered(merged(free, k, e), x) <==> covered(free, x) || e.has(x),
{
    let m = merged(free, k, e);
    if covered(m, x) {
        let i = choose|i: int| 0 <= i < m.len() && #[trigger] m[i].has(x);
        if i < k - 1 {
            assert(free[i].has(x));
        } else if i > k - 1 {
            assert(free[i + 1].has(x));
        } else {
            assert(free[k - 1].has(x) || e.has(x) || free[k].has(x));
        }
    }
    if covered(free, x) {
        let i = choose|i: int| 0 <= i < free.len() && #[trigger] free[i].has(x);
        if i < k {
            assert(m[i].has(x));
        } else {
            assert(m[i - 1].has(x));
        }
    }
    if e.has(x) {
        assert(m[k - 1].has(x));
    }
}

#[verifier::spinoff_prover]
#[verifier::rlimit(30)]
proof fn lemma_joined_one_covers(free: Seq<Extent>, size: int, k: int, e: Extent, x: int)
    requires
        coalesced(free, size),
        size <= u64::MAX,
        lies_between(free, k, e),
        e.len > 0,
        e.end() <= size,
        (k > 0 && free[k - 1].end() == e.start) != (k < free.len() && e.end() == free[k].start),
    ensures
        covered(merged(free, k, e), x) <==> covered(free, x) || e.has(x),
{
    let m = merged(free, k, e);
    if covered(m, x) {
        let i = choose|i: int| 0 <= i < m.len() && #[trigger] m[i].has(x);
        assert(free[i].has(x) || e.has(x));
    }
    if covered(free, x) {
        let i = choose|i: int| 0 <= i < free.len() && #[trigger] free[i].has(x);
        assert(m[i].has(x));
    }
    if e.has(x) {
        if k > 0 && free[k - 1].end() == e.start {
            assert(m[k - 1].has(x));
        } else {
            assert(m[k].has(x));
        }
    }
}

#[verifier::spinoff_prover]
#[verifier::rlimit(30)]
proof fn lemma_apart_covers(free: Seq<Extent>, size: int, k: int, e: Extent, x: int)
    requires
        coalesced(free, size),
        size <= u64::MAX,
        lies_between(free, k, e),
        e.len > 0,
        e.end() <= size,
        !(k > 0 && free[k - 1].end() == e.start),
        !(k < free.len() && e.end() == free[k].start),
    ensures
        covered(merged(free, k, e), x) <==> covered(free, x) || e.has(x),
{
    let m = merged(free, k, e);
    if covered(m, x) {
        let i = choose|i: int| 0 <= i < m.len() && #[trigger] m[i].has(x);
        if i < k {
            assert(free[i].has(x));
        } else if i > k {
            assert(free[i - 1].has(x));
        }
    }
    if covered(free, x) {
        let i = choose|i: int| 0 <= i < free.len() && #[trigger] free[i].has(x);
        if i < k {
            assert(m[i].has(x));
        } else {
            assert(m[i + 1].has(x));
        }
    }
    if e.has(x) {
        assert(m[k].has(x));
    }
}

#[verifier::spinoff_prover]
#[verifier::rlimit(30)]
proof fn lemma_merged_total(free: Seq<Extent>, size: int, k: int, e: Extent)
    requires
        coalesced(free, size),
        size <= u64::MAX,
        lies_between(free, k, e),
        e.end() <= size,
    ensures
        total_len(merged(free, k, e)) == total_len(free) + e.len,
{
    let m = merged(free, k, e);
    let below = k > 0 && free[k - 1].end() == e.start;
    let above = k < free.len() && e.end() == free[k].start;
    if below && above {
        lemma_total_remove(free, k);
        lemma_total_update(free.remove(k), k - 1, m[k - 1]);
    } else if below {
        lemma_total_update(free, k - 1, m[k - 1]);
    } else if above {
        lemma_total_update(free, k, m[k]);
    } else {
        lemma_total_remove(m, k);
        assert(m.remove(k) == free);
    }
}

#[verifier::spinoff_prover]
#[verifier::rlimit(30)]
proof fn lemma_merged_aligned(free: Seq<Extent>, size: int, k: int, e: Extent)
    requires
        coalesced(free, size),
        size <= u64::MAX,
        lies_between(free, k, e),
        e.end() <= size,
        e.start as int % PAGE_SIZE as int == 0,
        e.len as int % PAGE_SIZE as int == 0,
        forall|i: int|
            0 <= i < free.len() ==> (#[trigger] free[i]).start as int % PAGE_SIZE as int == 0
                && free[i].len as int % PAGE_SIZE as int == 0,
    ensures
        forall|i: int|
            0 <= i < merged(free, k, e).len() ==> (#[trigger] merged(free, k, e)[i]).start as int
                % PAGE_SIZE as int == 0 && merged(free, k, e)[i].len as int % PAGE_SIZE as int == 0,
{
    let m = merged(free, k, e);
    let below = k > 0 && free[k - 1].end() == e.start;
    let above = k < free.len() && e.end() == free[k].start;
    if below && above {
        lemma_whole_pages(free[k - 1].len as int, e.len as int);
        lemma_whole_pages(free[k - 1].len + e.len, free[k].len as int);
        assert(m[k - 1].len == free[k - 1].len + e.len + free[k].len);
    } else if below {
        lemma_whole_pages(free[k - 1].len as int, e.len as int);
        assert(m[k - 1].len == free[k - 1].len + e.len);
    } else if above {
        lemma_whole_pages(e.len as int, free[k].len as int);
        assert(m[k].len == e.len + free[k].len);
    }
    assert forall|i: int| 0 <= i < m.len() implies (#[trigger] m[i]).start as int % PAGE_SIZE as int == 0
        && m[i].len as int % PAGE_SIZE as int == 0 by {
        if below && above {
            if i > k - 1 {
                assert(m[i] == free[i + 1]);
            } else if i < k - 1 {
                assert(m[i] == free[i]);
            } else {
                assert(m[i].start == free[k - 1].start);
            }
        } else if below {
            assert(m[i].start == free[i].start);
        } else if above {
            assert(i != k ==> m[i] == free[i]);
        } else if i > k {
            assert(m[i] == free[i - 1]);
        } else if i < k {
            assert(m[i] == free[i]);
        }
    }
}

proof fn lemma_whole_pages(a: int, b: int)
    requires
        a % PAGE_SIZE as int == 0,
        b % PAGE_SIZE as int == 0,
    ensures
        (a + b) % PAGE_SIZE as int == 0,
{
}

proof fn lemma_total_update(free: Seq<Extent>, i: int, e: Extent)
    requires
        0 <= i < free.len(),
    ensures
        total_len(free.update(i, e)) == total_len(free) - free[i].len + e.len,
    decreases free.len(),
{
    let u = free.update(i, e);
    if i == free.len() - 1 {
        assert(u.drop_last() == free.drop_last());
    } else {
        lemma_total_update(free.drop_last(), i, e);
        assert(u.drop_last() == free.drop_last().update(i, e));
    }
}

proof fn lemma_total_remove(free: Seq<Extent>, i: int)
    requires
        0 <= i < free.len(),
    ensures
        total_len(free.remove(i)) == total_len(free) - free[i].len,
    decreases free.len(),
{
    let u = free.remove(i);
    if i == free.len() - 1 {
        assert(u == free.drop_last());
    } else {
        lemma_total_remove(free.drop_last(), i);
        assert(u.drop_last() == free.drop_last().remove(i));
    }
}

/// Coalesced extents hold no more bytes than lie below the end of the last one.
proof fn lemma_total_bound(free: Seq<Extent>, size: int)
    requires
        coalesced(free, size),
    ensures
        0 <= total_len(free),
        free.len() > 0 ==> total_len(free) <= free.last().end(),
    decreases free.len(),
{
    if free.len() > 0 {
        lemma_total_bound(free.drop_last(), size);
        if free.len() > 1 {
            assert(free.drop_last().last() == free[free.len() - 2]);
        }
    }
}

/// Which bytes are free fixes the free list: it has one coalesced form.
pub proof fn law_free_list_is_canonical(a: Seq<Extent>, b: Seq<Extent>, size: int)
    requires
        coalesced(a, size),
        coalesced(b, size),
        forall|x: int| #[trigger] covered(a, x) <==> covered(b, x),
    ensures
        a == b,
    decreases a.len(),
{
    if a.len() == 0 {
        if b.len() > 0 {
            assert(b[0].has(b[0].start as int));
            assert(covered(a, b[0].start as int));
        }
    } else {
        assert(a[0].has(a[0].start as int));
        assert(covered(a, a[0].start as int));
        lemma_same_head(a, b, size);
        lemma_same_head(b, a, size);
        let ra = a.drop_first();
        let rb = b.drop_first();
        lemma_rest(a, size);
        lemma_rest(b, size);
        assert forall|x: int| #[trigger] covered(ra, x) <==> covered(rb, x) by {
            assert(covered(ra, x) <==> covered(a, x) && !a[0].has(x));
            assert(covered(rb, x) <==> covered(b, x) && !b[0].has(x));
        }
        law_free_list_is_canonical(ra, rb, size);
        assert(a =~= seq![a[0]] + ra);
        assert(b =~= seq![b[0]] + rb);
    }
}

proof fn lemma_rest(a: Seq<Extent>, size: int)
    requires
        coalesced(a, size),
        a.len() > 0,
    ensures
        coalesced(a.drop_first(), size),
        forall|x: int| #[trigger] covered(a.drop_first(), x) <==> covered(a, x) && !a[0].has(x),
{
    let r = a.drop_first();
    assert forall|x: int| #[trigger] covered(r, x) <==> covered(a, x) && !a[0].has(x) by {
        if covered(r, x) {
            let j = choose|j: int| 0 <= j < r.len() && #[trigger] r[j].has(x);
            assert(a[j + 1].has(x));
        }
        if covered(a, x) && !a[0].has(x) {
            let j = choose|j: int| 0 <= j < a.len() && #[trigger] a[j].has(x);
            assert(r[j - 1].has(x));
        }
    }
}

/// The first extents of two lists with the same bytes start alike, and that of `a` ends no later.
proof fn lemma_same_head(a: Seq<Extent>, b: Seq<Extent>, size: int)
    requires
        coalesced(a, size),
        coalesced(b, size),
        a.len() > 0,
        b.len() > 0,
        forall|x: int| #[trigger] covered(a, x) <==> covered(b, x),
    ensures
        a[0].start == b[0].start,
        b[0].end() <= a[0].end(),
{
    assert(a[0].has(a[0].start as int));
    assert(covered(a, a[0].start as int));
    let j = choose|j: int| 0 <= j < b.len() && #[trigger] b[j].has(a[0].start as int);
    assert(b[0].start <= a[0].start);
    assert(b[0].has(b[0].start as int));
    assert(covered(a, b[0].start as int));
    let i = choose|i: int| 0 <= i < a.len() && #[trigger] a[i].has(b[0].start as int);
    assert(a[0].start <= b[0].start);
    if a[0].end() < b[0].end() {
        assert(b[0].has(a[0].end()));
        assert(covered(a, a[0].end()));
        let m = choose|m: int| 0 <= m < a.len() && #[trigger] a[m].has(a[0].end());
        assert(m > 0);
        assert(a[0].end() < a[m].start);
    }
}

/// Giving back what an allocation took leaves the zone exactly as it was before: no byte is lost
/// and nothing stays fragmented.
pub proof fn law_free_undoes_allocate(before: Zone, held: Zone, after: Zone, length: u64, off: u64)
    requires
        before.wf(),
        held.wf(),
        after.wf(),
        held.spec_base() == before.spec_base(),
        held.spec_size() == before.spec_size(),
        after.spec_base() == before.spec_base(),
        after.spec_size() == before.spec_size(),
        first_fit_taken(
            before.free_list(),
            held.free_list(),
            round_up(length as int, PAGE_SIZE as int),
            before.spec_base(),
            Some(off),
        ),
        after.free_set() == held.free_set().union(
            span(off as int, round_up(length as int, PAGE_SIZE as int)),
        ),
    ensures
        held.returnable(off as int, round_up(length as int, PAGE_SIZE as int)),
        after.free_list() == before.free_list(),
{
    let want = round_up(length as int, PAGE_SIZE as int);
    let base = before.spec_base();
    let pre = before.free_list();
    let i = choose|i: int| #[trigger]
        first_fit(pre, want, i) && off == base + pre[i].start && held.free_list() == take_front(
            pre,
            i,
            want,
        );
    lemma_take_front(pre, before.spec_size(), i, want);
    assert forall|x: int| #[trigger] span(off as int, want).contains(x) implies !held.free_set().contains(x) by {
        assert(!covered(held.free_list(), x - base));
    }
    assert forall|x: int| #[trigger] covered(after.free_list(), x) <==> covered(pre, x) by {
        assert(after.free_set().contains(x + base) <==> covered(after.free_list(), x));
        assert(held.free_set().contains(x + base) <==> covered(held.free_list(), x));
        assert(span(off as int, want).contains(x + base) <==> pre[i].start <= x < pre[i].start + want);
        if pre[i].start <= x < pre[i].start + want {
            assert(pre[i].has(x));
        }
    }
    law_free_list_is_canonical(after.free_list(), pre, before.spec_size());
}

/// An extent that has just been given back cannot be given back again.
pub proof fn law_second_free_is_refused(held: Zone, after: Zone, offset: u64, length: u64)
    requires
        held.wf(),
        after.wf(),
        held.returnable(offset as int, round_up(length as int, PAGE_SIZE as int)),
        after.free_set() == held.free_set().union(
            span(offset as int, round_up(length as int, PAGE_SIZE as int)),
        ),
    ensures
        !after.returnable(offset as int, round_up(length as int, PAGE_SIZE as int)),
{
    let want = round_up(length as int, PAGE_SIZE as int);
    assert(span(offset as int, want).contains(offset as int));
    assert(after.free_set().contains(offset as int));
}

/// Two allocations that are both held share no byte.
pub proof fn law_allocations_are_disjoint(
    z0: Zone,
    z1: Zone,
    z2: Zone,
    first: u64,
    first_off: u64,
    second: u64,
    second_off: u64,
)
    requires
        z0.wf(),
        z1.wf(),
        z1.spec_base() == z0.spec_base(),
        z1.spec_size() == z0.spec_size(),
        first_fit_taken(
            z0.free_list(),
            z1.free_list(),
            round_up(first as int, PAGE_SIZE as int),
            z0.spec_base(),
            Some(first_off),
        ),
        first_fit_taken(
            z1.free_list(),
            z2.free_list(),
            round_up(second as int, PAGE_SIZE as int),
            z1.spec_base(),
            Some(second_off),
        ),
    ensures
        span(first_off as int, round_up(first as int, PAGE_SIZE as int)).disjoint(
            span(second_off as int, round_up(second as int, PAGE_SIZE as int)),
        ),
{
    let want1 = round_up(first as int, PAGE_SIZE as int);
    let want2 = round_up(second as int, PAGE_SIZE as int);
    let base = z0.spec_base();
    let pre = z0.free_list();
    let mid = z1.free_list();
    let i = choose|i: int| #[trigger]
        first_fit(pre, want1, i) && first_off == base + pre[i].start && mid == take_front(
            pre,
            i,
            want1,
        );
    lemma_take_front(pre, z0.spec_size(), i, want1);
    let j = choose|j: int| #[trigger]
        first_fit(mid, want2, j) && second_off == base + mid[j].start && z2.free_list()
            == take_front(mid, j, want2);
    assert forall|x: int| span(first_off as int, want1).contains(x) implies !span(second_off as int, want2).contains(x) by {
        assert(!covered(mid, x - base));
        if span(second_off as int, want2).contains(x) {
            assert(mid[j].has(x - base));
        }
    }
}

/// A zone satisfies an allocation exactly when the pages it takes fit the largest free extent.
pub proof fn law_largest_free_decides(z: Zone, after: Seq<Extent>, length: u64, r: Option<u64>)
    requires
        z.wf(),
        first_fit_taken(
            z.free_list(),
            after,
            round_up(length as int, PAGE_SIZE as int),
            z.spec_base(),
            r,
        ),
    ensures
        r is Some <==> 0 < length && round_up(length as int, PAGE_SIZE as int) <= largest_len(
            z.free_list(),
        ),
{
    let want = round_up(length as int, PAGE_SIZE as int);
    lemma_round_up(length as int, PAGE_SIZE as int);
    lemma_largest(z.free_list());
    if r is None && want > 0 && want <= largest_len(z.free_list()) {
        let free = z.free_list();
        let i = choose|i: int| 0 <= i < free.len() && (#[trigger] free[i]).len == largest_len(free);
        assert(free[i].len < want);
    }
}

pub(crate) proof fn lemma_largest(free: Seq<Extent>)
    ensures
        largest_len(free) >= 0,
        forall|i: int| 0 <= i < free.len() ==> (#[trigger] free[i]).len <= largest_len(free),
        largest_len(free) > 0 ==> exists|i: int|
            0 <= i < free.len() && (#[trigger] free[i]).len == largest_len(free),
    decreases free.len(),
{
    if free.len() > 0 {
        let rest = free.drop_last();
        lemma_largest(rest);
        assert forall|i: int| 0 <= i < free.len() implies (#[trigger] free[i]).len <= largest_len(free) by {
            if i < rest.len() {
                assert(rest[i] == free[i]);
            }
        }
        if largest_len(free) > 0 {
            if free.last().len > largest_len(rest) {
                assert(free[free.len() - 1].len == largest_len(free));
            } else {
                let i = choose|i: int| 0 <= i < rest.len() && (#[trigger] rest[i]).len == largest_len(rest);
                assert(free[i].len == largest_len(free));
            }
        }
    }
}

} // verus!
