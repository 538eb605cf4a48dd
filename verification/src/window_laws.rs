//! What handing out the shared window means for its bytes.
use crate::error::{DeviceError, IoError, Result};
use crate::regions::{gives_back, released};
use crate::shm::{allocated, freed, PgprotKind, ShmAllocator, ShmRegion};
use crate::zone::{
    coalesced, covered, first_fit, first_fit_taken, largest_len, lemma_largest, lemma_round_up,
    lemma_take_front, round_up, span, take_front, total_len, Extent, Zone, PAGE_SIZE,
};
use vstd::prelude::*;
use vstd::set_lib::{lemma_int_range, lemma_set_disjoint_lens, set_int_range};

verus! {

/// The bytes that `length` bytes take: whole pages of 4096.
pub open spec fn paged(length: u64) -> int {
    (length + 4095) / 4096 * 4096
}

/// Whether every byte from `at` on, `n` of them, is free in the zone.
pub open spec fn free_run(z: Zone, at: int, n: int) -> bool {
    forall|x: int| at <= x < at + n ==> #[trigger] z.free_set().contains(x)
}

/// Rounding up gives the least multiple that is not below.
pub proof fn law_round_up_is_least(v: int, align: int, m: int)
    requires
        v >= 0,
        align > 0,
    ensures
        round_up(v, align) % align == 0,
        round_up(v, align) >= v,
        m % align == 0 && m >= v ==> m >= round_up(v, align),
{
    lemma_round_up(v, align);
    if m % align == 0 && v <= m < round_up(v, align) {
        let r = round_up(v, align);
        vstd::arithmetic::div_mod::lemma_fundamental_div_mod(m, align);
        vstd::arithmetic::div_mod::lemma_fundamental_div_mod(r, align);
        let x = m / align;
        let y = r / align;
        assert(x < y) by (nonlinear_arith)
            requires
                align * x < align * y,
                align > 0,
        ;
        assert(align * y >= align * x + align) by (nonlinear_arith)
            requires
                x < y,
                align > 0,
        ;
    }
}

/// A region takes the least number of pages of 4096 bytes that holds it.
pub proof fn law_regions_are_whole_pages(r: ShmRegion)
    ensures
        r.pages() == paged(r.length),
        r.pages() % 4096 == 0,
        r.length <= r.pages() < r.length + 4096,
        forall|x: int| #[trigger]
            r.bytes().contains(x) <==> r.offset <= x < r.offset + paged(r.length),
{
    lemma_round_up(r.length as int, 4096);
}

/// Bytes that are free one behind another lie in one extent.
proof fn lemma_run_in_one(free: Seq<Extent>, size: int, at: int, n: int) -> (j: int)
    requires
        coalesced(free, size),
        n > 0,
        forall|x: int| at <= x < at + n ==> #[trigger] covered(free, x),
    ensures
        0 <= j < free.len(),
        free[j].start <= at,
        at + n <= free[j].end(),
{
    assert(covered(free, at));
    let j = choose|j: int| 0 <= j < free.len() && #[trigger] free[j].has(at);
    if free[j].end() < at + n {
        let x = free[j].end();
        assert(covered(free, x));
        let k = choose|k: int| 0 <= k < free.len() && #[trigger] free[k].has(x);
        assert(free[k].start <= x < free[k].end());
        if k < j {
            assert(free[k].end() < free[j].start);
        } else if k > j {
            assert(free[j].end() < free[k].start);
        }
    }
    j
}

/// The first fit is the lowest place with room, and taking it takes those bytes and no others.
pub(crate) proof fn lemma_taken_lowest(before: Zone, after: Zone, length: u64, r: Option<u64>)
    requires
        before.wf(),
        after.same_place(before),
        first_fit_taken(
            before.free_list(),
            after.free_list(),
            round_up(length as int, PAGE_SIZE as int),
            before.spec_base(),
            r,
        ),
    ensures
        match r {
            Some(off) => {
                &&& length > 0
                &&& free_run(before, off as int, paged(length))
                &&& forall|y: int| #[trigger] free_run(before, y, paged(length)) ==> off <= y
                &&& forall|x: int| #[trigger]
                    after.free_set().contains(x) <==> before.free_set().contains(x) && !(off <= x
                        < off + paged(length))
            },
            None => {
                &&& length == 0 || forall|y: int| !#[trigger] free_run(before, y, paged(length))
                &&& forall|x: int| #[trigger]
                    after.free_set().contains(x) <==> before.free_set().contains(x)
            },
        },
{
    let want = paged(length);
    let pre = before.free_list();
    let base = before.spec_base();
    lemma_round_up(length as int, 4096);
    assert(want == round_up(length as int, PAGE_SIZE as int));
    match r {
        Some(off) => {
            let i = choose|i: int| #[trigger]
                first_fit(pre, want, i) && off == base + pre[i].start && after.free_list()
                    == take_front(pre, i, want);
            lemma_take_front(pre, before.spec_size(), i, want);
            assert forall|x: int| off <= x < off + want implies #[trigger] before.free_set().contains(
                x,
            ) by {
                assert(pre[i].has(x - base));
            }
            assert forall|y: int| #[trigger] free_run(before, y, want) implies off <= y by {
                assert forall|x: int| y - base <= x < y - base + want implies #[trigger] covered(
                    pre,
                    x,
                ) by {
                    assert(before.free_set().contains(x + base));
                }
                let j = lemma_run_in_one(pre, before.spec_size(), y - base, want);
                if j < i {
                    assert(pre[j].len < want);
                } else if j > i {
                    assert(pre[i].end() < pre[j].start);
                }
            }
            assert forall|x: int| #[trigger]
                after.free_set().contains(x) <==> before.free_set().contains(x) && !(off <= x < off
                    + want) by {
                assert(covered(take_front(pre, i, want), x - base) <==> covered(pre, x - base) && !(
                pre[i].start <= x - base < pre[i].start + want));
            }
        },
        None => {
            assert forall|y: int| length > 0 implies !#[trigger] free_run(before, y, want) by {
                if free_run(before, y, want) {
                    assert forall|x: int| y - base <= x < y - base + want implies #[trigger] covered(
                        pre,
                        x,
                    ) by {
                        assert(before.free_set().contains(x + base));
                    }
                    let j = lemma_run_in_one(pre, before.spec_size(), y - base, want);
                    assert(pre[j].len < want);
                }
            }
        },
    }
}

/// Asking for room gives the lowest run of free bytes in the zone that holds the request in whole
/// pages. Those bytes are no longer free, and every other byte of the window is as it was. Room is
/// refused only where there is no such run, or nothing was asked for, and then nothing changes.
pub proof fn law_allocation_takes_the_lowest_room(
    pre: ShmAllocator,
    length: u64,
    kind: PgprotKind,
    post: ShmAllocator,
    r: Result<ShmRegion>,
)
    requires
        pre.wf(),
        allocated(pre, length, kind, post, r),
    ensures
        forall|k: PgprotKind| k != kind ==> #[trigger] post.zone(k) == pre.zone(k),
        match r {
            Ok(region) => {
                &&& length > 0
                &&& region.length == length
                &&& region.pgprot == kind
                &&& free_run(pre.zone(kind), region.offset as int, paged(length))
                &&& forall|y: int| #[trigger]
                    free_run(pre.zone(kind), y, paged(length)) ==> region.offset <= y
                &&& forall|x: int| #[trigger]
                    post.zone(kind).free_set().contains(x) <==> pre.zone(kind).free_set().contains(
                        x,
                    ) && !(region.offset <= x < region.offset + paged(length))
            },
            Err(_) => {
                &&& length == 0 || forall|y: int| !#[trigger]
                    free_run(pre.zone(kind), y, paged(length))
                &&& forall|x: int| #[trigger]
                    post.zone(kind).free_set().contains(x) <==> pre.zone(kind).free_set().contains(
                        x,
                    )
            },
        },
{
    let got = match r {
        Ok(region) => Some(region.offset),
        Err(_) => None,
    };
    lemma_taken_lowest(pre.zone(kind), post.zone(kind), length, got);
}

/// Giving a region back frees its bytes, in whole pages, and leaves every other byte of the window
/// as it was. It is refused, and nothing changes, unless those bytes lie in its zone and none of
/// them is free.
pub proof fn law_release_frees_the_region(
    pre: ShmAllocator,
    region: ShmRegion,
    post: ShmAllocator,
    r: Result<()>,
)
    requires
        pre.wf(),
        freed(pre, region, post, r),
    ensures
        forall|k: PgprotKind| k != region.pgprot ==> #[trigger] post.zone(k) == pre.zone(k),
        r is Ok <==> {
            let z = pre.zone(region.pgprot);
            let n = paged(region.length);
            &&& region.length > 0
            &&& z.spec_base() <= region.offset
            &&& region.offset + n <= z.spec_base() + z.spec_size()
            &&& forall|x: int| region.offset <= x < region.offset + n ==> !#[trigger] z.free_set().contains(
                x,
            )
        },
        forall|x: int| #[trigger]
            post.zone(region.pgprot).free_set().contains(x) <==> pre.zone(
                region.pgprot,
            ).free_set().contains(x) || (r is Ok && region.offset <= x < region.offset + paged(
                region.length,
            )),
{
    law_regions_are_whole_pages(region);
    let z = pre.zone(region.pgprot);
    let n = paged(region.length);
    if z.returnable(region.offset as int, n) {
        assert forall|x: int| region.offset <= x < region.offset + n implies !#[trigger] z.free_set().contains(
            x,
        ) by {
            assert(span(region.offset as int, n).contains(x));
        }
    }
    if r is Err {
        assert(post.zone(region.pgprot).free_set() =~= z.free_set());
    }
}

/// A zone that refuses says which it is, what was asked of it, how many bytes it has free, the longest
/// run of them and the number of runs; a region that is not taken back is named.
pub proof fn law_refusals_say_how_full_a_zone_is(
    pre: ShmAllocator,
    length: u64,
    kind: PgprotKind,
    post: ShmAllocator,
    e: DeviceError,
    region: ShmRegion,
    after: ShmAllocator,
    f: DeviceError,
)
    requires
        pre.wf(),
        allocated(pre, length, kind, post, Err(e)),
        freed(pre, region, after, Err(f)),
    ensures
        e matches DeviceError::Io(
            IoError::OutOfMemory { pgprot, length: asked, free_bytes, largest_free, extents },
        ) && {
            let free = pre.zone(kind).free_list();
            &&& pgprot == kind
            &&& asked == length
            &&& free_bytes == total_len(free) as u64
            &&& largest_free == largest_len(free) as u64
            &&& extents == free.len() as usize
        },
        f matches DeviceError::Io(IoError::InvalidInput { pgprot, offset, length: n }) && {
            &&& pgprot == region.pgprot
            &&& offset == region.offset
            &&& paged(region.length) <= u64::MAX ==> n == paged(region.length)
        },
{
    law_regions_are_whole_pages(region);
}

/// The bytes that a free list holds are the sum of its runs, and the longest run is one of them that no
/// other exceeds.
pub proof fn law_free_lists_add_up(free: Seq<Extent>, run: Extent)
    ensures
        total_len(Seq::empty()) == 0,
        total_len(free.push(run)) == total_len(free) + run.len,
        largest_len(Seq::empty()) == 0,
        largest_len(free.push(run)) == if run.len > largest_len(free) {
            run.len as int
        } else {
            largest_len(free)
        },
{
    assert(free.push(run).drop_last() =~= free);
}

/// Of the regions whose memory is back, and of no others, the bytes are free again.
pub proof fn law_restored_regions_are_freed(
    before: ShmAllocator,
    after: ShmAllocator,
    regions: Seq<ShmRegion>,
    restored: Seq<bool>,
    k: PgprotKind,
    x: int,
)
    requires
        gives_back(before, after, regions, restored),
    ensures
        after.zone(k).spec_base() == before.zone(k).spec_base(),
        after.zone(k).spec_size() == before.zone(k).spec_size(),
        after.zone(k).free_set().contains(x) <==> {
            ||| before.zone(k).free_set().contains(x)
            ||| exists|i: int|
                0 <= i < regions.len() && restored[i] && (#[trigger] regions[i]).pgprot == k
                    && regions[i].offset <= x < regions[i].offset + paged(regions[i].length)
        },
{
    assert(after.zone(k).same_place(before.zone(k)));
    let gone = released(regions, restored, k);
    if gone.contains(x) {
        let i = choose|i: int|
            0 <= i < regions.len() && restored[i] && #[trigger] regions[i].pgprot == k
                && regions[i].bytes().contains(x);
        law_regions_are_whole_pages(regions[i]);
    }
    if exists|i: int|
        0 <= i < regions.len() && restored[i] && (#[trigger] regions[i]).pgprot == k
            && regions[i].offset <= x < regions[i].offset + paged(regions[i].length) {
        let i = choose|i: int|
            0 <= i < regions.len() && restored[i] && (#[trigger] regions[i]).pgprot == k
                && regions[i].offset <= x < regions[i].offset + paged(regions[i].length);
        law_regions_are_whole_pages(regions[i]);
        assert(regions[i].pgprot == k && regions[i].bytes().contains(x));
    }
}

/// A zone that has been handed nothing has every one of its bytes free.
pub proof fn law_fresh_zones_are_free(z: Zone, base: int, size: int, x: int)
    requires
        z.fresh(base, size),
        0 <= size <= u64::MAX,
    ensures
        z.free_set().contains(x) <==> base <= x < base + size,
{
    if base <= x < base + size {
        assert(z.free_list()[0].has(x - base));
    }
}

/// The bytes of a free list, at a base.
spec fn bytes_of(free: Seq<Extent>, base: int) -> Set<int> {
    Set::new(|x: int| covered(free, x - base))
}

proof fn lemma_counted(free: Seq<Extent>, size: int, base: int)
    requires
        coalesced(free, size),
    ensures
        bytes_of(free, base).finite(),
        bytes_of(free, base).len() == total_len(free),
    decreases free.len(),
{
    if free.len() == 0 {
        assert(bytes_of(free, base) =~= Set::<int>::empty());
    } else {
        let less = free.drop_last();
        let last = free.last();
        let n = less.len() as int;
        assert forall|i: int| 0 <= i < less.len() implies (#[trigger] less[i]).len > 0
            && less[i].end() <= size by {
            assert(less[i] == free[i]);
        }
        assert forall|i: int, j: int|
            #![trigger less[i], less[j]]
            0 <= i < j < less.len() implies less[i].end() < less[j].start by {
            assert(less[i] == free[i] && less[j] == free[j]);
        }
        lemma_counted(less, size, base);
        let run = set_int_range(base + last.start, base + last.end());
        lemma_int_range(base + last.start, base + last.end());
        assert(free[n] == last);
        assert(bytes_of(free, base) =~= bytes_of(less, base) + run) by {
            assert forall|x: int| bytes_of(free, base).contains(x) <==> (bytes_of(less, base)
                + run).contains(x) by {
                if covered(free, x - base) {
                    let i = choose|i: int| 0 <= i < free.len() && #[trigger] free[i].has(x - base);
                    if i < n {
                        assert(less[i].has(x - base));
                    }
                }
                if covered(less, x - base) {
                    let i = choose|i: int| 0 <= i < less.len() && #[trigger] less[i].has(x - base);
                    assert(free[i].has(x - base));
                }
                if run.contains(x) {
                    assert(free[n].has(x - base));
                }
            }
        }
        assert(bytes_of(less, base).disjoint(run)) by {
            assert forall|x: int| bytes_of(less, base).contains(x) implies !run.contains(x) by {
                let i = choose|i: int| 0 <= i < less.len() && #[trigger] less[i].has(x - base);
                assert(free[i].end() < free[n].start);
            }
        }
        lemma_set_disjoint_lens(bytes_of(less, base), run);
    }
}

/// The number of free bytes that a zone tells is the number of its bytes that are free, and the longest
/// run that it tells is the longest run of them.
pub proof fn law_free_bytes_are_counted(z: Zone, n: int)
    requires
        z.wf(),
        n > 0,
    ensures
        z.free_set().len() == total_len(z.free_list()),
        n <= largest_len(z.free_list()) <==> exists|y: int| #[trigger] free_run(z, y, n),
{
    let free = z.free_list();
    let base = z.spec_base();
    lemma_counted(free, z.spec_size(), base);
    assert(z.free_set() =~= bytes_of(free, base));
    lemma_largest(free);
    if n <= largest_len(free) {
        let i = choose|i: int| 0 <= i < free.len() && (#[trigger] free[i]).len == largest_len(free);
        assert forall|x: int| base + free[i].start <= x < base + free[i].start + n implies #[trigger] z.free_set().contains(
            x,
        ) by {
            assert(free[i].has(x - base));
        }
        assert(free_run(z, base + free[i].start, n));
    }
    if exists|y: int| #[trigger] free_run(z, y, n) {
        let y = choose|y: int| #[trigger] free_run(z, y, n);
        assert forall|x: int| y - base <= x < y - base + n implies #[trigger] covered(free, x) by {
            assert(z.free_set().contains(x + base));
        }
        let j = lemma_run_in_one(free, z.spec_size(), y - base, n);
        assert(free[j].len <= largest_len(free));
    }
}

} // verus!
