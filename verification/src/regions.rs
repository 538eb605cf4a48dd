//! Regions of the window that are in use.
use crate::mmap::MmapEntry;
use crate::shm::{PgprotKind, ShmAllocator, ShmRegion};
use crate::zone::{covered, first_fit, first_fit_taken, span, take_front, PAGE_SIZE};
use vstd::prelude::*;

verus! {

/// Whether `r` lies inside its zone, on a page, with none of its bytes free.
pub open spec fn in_use(shm: ShmAllocator, r: ShmRegion) -> bool {
    &&& shm.zone(r.pgprot).returnable(r.offset as int, r.pages())
    &&& r.offset as int % PAGE_SIZE as int == 0
}

/// Whether no two of `regions` share a byte.
pub open spec fn apart(regions: Seq<ShmRegion>) -> bool {
    forall|i: int, j: int|
        #![trigger regions[i], regions[j]]
        0 <= i < j < regions.len() ==> regions[i].bytes().disjoint(regions[j].bytes())
}

/// Whether the regions of `maps` and those of `extra` are all in use and share no byte, each
/// mapping being filed under its offset.
pub open spec fn holds(
    shm: ShmAllocator,
    maps: Map<u64, MmapEntry>,
    extra: Seq<ShmRegion>,
) -> bool {
    &&& forall|k: u64| #[trigger]
        maps.contains_key(k) ==> maps[k].region.offset == k && in_use(shm, maps[k].region)
    &&& forall|j: u64, k: u64|
        #![trigger maps.contains_key(j), maps.contains_key(k)]
        maps.contains_key(j) && maps.contains_key(k) && j != k
            ==> maps[j].region.bytes().disjoint(maps[k].region.bytes())
    &&& forall|i: int| 0 <= i < extra.len() ==> in_use(shm, #[trigger] extra[i])
    &&& apart(extra)
    &&& forall|i: int, k: u64|
        #![trigger extra[i], maps.contains_key(k)]
        0 <= i < extra.len() && maps.contains_key(k) ==> extra[i].bytes().disjoint(
            maps[k].region.bytes(),
        )
}

/// The bytes of the zone of `k` that come free when the regions marked `true` are given back.
pub open spec fn released(regions: Seq<ShmRegion>, restored: Seq<bool>, k: PgprotKind) -> Set<int> {
    Set::new(
        |x: int|
            exists|i: int|
                0 <= i < regions.len() && restored[i] && #[trigger] regions[i].pgprot == k
                    && regions[i].bytes().contains(x),
    )
}

/// The allocator after the regions marked `true` have been given back.
pub open spec fn gives_back(
    before: ShmAllocator,
    after: ShmAllocator,
    regions: Seq<ShmRegion>,
    restored: Seq<bool>,
) -> bool {
    &&& after.wf()
    &&& after.page_aligned()
    &&& after.spec_total_size() == before.spec_total_size()
    &&& forall|k: PgprotKind|
        {
            &&& (#[trigger] after.zone(k)).same_place(before.zone(k))
            &&& after.zone(k).free_set() == before.zone(k).free_set().union(
                released(regions, restored, k),
            )
        }
}

/// Give back the regions whose memory has been restored; the others stay taken.
pub fn release(shm: &mut ShmAllocator, regions: &Vec<ShmRegion>, restored: &Vec<bool>)
    requires
        old(shm).wf(),
        old(shm).page_aligned(),
        regions@.len() == restored@.len(),
        forall|i: int| 0 <= i < regions@.len() ==> in_use(*old(shm), #[trigger] regions@[i]),
        apart(regions@),
    ensures
        gives_back(*old(shm), *final(shm), regions@, restored@),
{
    let mut i: usize = 0;
    assert forall|k: PgprotKind| #[trigger] shm.zone(k).free_set() == old(shm).zone(k).free_set().union(
        released(regions@.take(0), restored@.take(0), k),
    ) by {
        assert(shm.zone(k).free_set() =~= old(shm).zone(k).free_set().union(
            released(regions@.take(0), restored@.take(0), k),
        ));
    }
    while i < regions.len()
        invariant
            i <= regions@.len() == restored@.len(),
            gives_back(*old(shm), *shm, regions@.take(i as int), restored@.take(i as int)),
            forall|j: int| i <= j < regions@.len() ==> in_use(*shm, #[trigger] regions@[j]),
            apart(regions@),
        decreases regions.len() - i,
    {
        let ghost before = *shm;
        let ghost r = regions@[i as int];
        if restored[i] {
            let done = shm.free(&regions[i]);
            assert(done is Ok);
        }
        proof {
            assert forall|k: PgprotKind| {
                &&& (#[trigger] shm.zone(k)).same_place(old(shm).zone(k))
                &&& shm.zone(k).free_set() == old(shm).zone(k).free_set().union(
                    released(regions@.take(i + 1), restored@.take(i + 1), k),
                )
            } by {
                lemma_released_step(regions@, restored@, i as int, k);
                assert(before.zone(k).same_place(old(shm).zone(k)));
                if restored@[i as int] && k == r.pgprot {
                    assert(shm.zone(k).free_set() =~= old(shm).zone(k).free_set().union(
                        released(regions@.take(i + 1), restored@.take(i + 1), k),
                    ));
                } else {
                    assert(shm.zone(k) == before.zone(k));
                }
            }
            assert forall|j: int| i + 1 <= j < regions@.len() implies in_use(*shm, #[trigger] regions@[j]) by {
                assert(in_use(before, regions@[j]));
                assert(regions@[i as int].bytes().disjoint(regions@[j].bytes()));
                if restored@[i as int] {
                    lemma_stays_in_use(before, *shm, r, regions@[j]);
                }
            }
        }
        i = i + 1;
    }
    assert(regions@.take(i as int) =~= regions@);
    assert(restored@.take(i as int) =~= restored@);
}

proof fn lemma_released_step(regions: Seq<ShmRegion>, restored: Seq<bool>, i: int, k: PgprotKind)
    requires
        0 <= i < regions.len() == restored.len(),
    ensures
        released(regions.take(i + 1), restored.take(i + 1), k) == (if restored[i]
            && regions[i].pgprot == k {
            released(regions.take(i), restored.take(i), k).union(regions[i].bytes())
        } else {
            released(regions.take(i), restored.take(i), k)
        }),
{
    let a = released(regions.take(i), restored.take(i), k);
    let b = released(regions.take(i + 1), restored.take(i + 1), k);
    assert forall|x: int| b.contains(x) implies a.contains(x) || (restored[i] && regions[i].pgprot
        == k && regions[i].bytes().contains(x)) by {
        let r1 = regions.take(i + 1);
        let j = choose|j: int|
            0 <= j < r1.len() && restored.take(i + 1)[j] && #[trigger] r1[j].pgprot == k
                && r1[j].bytes().contains(x);
        if j < i {
            assert(regions.take(i)[j].pgprot == k);
        }
    }
    assert forall|x: int| a.contains(x) implies b.contains(x) by {
        let r0 = regions.take(i);
        let j = choose|j: int|
            0 <= j < r0.len() && restored.take(i)[j] && #[trigger] r0[j].pgprot == k
                && r0[j].bytes().contains(x);
        assert(regions.take(i + 1)[j].pgprot == k);
    }
    if restored[i] && regions[i].pgprot == k {
        assert forall|x: int| regions[i].bytes().contains(x) implies b.contains(x) by {
            assert(regions.take(i + 1)[i].pgprot == k);
        }
        assert(b =~= a.union(regions[i].bytes()));
    } else {
        assert(b =~= a);
    }
}

/// Giving `r` back leaves a region that shares no byte with it in use.
proof fn lemma_stays_in_use(before: ShmAllocator, after: ShmAllocator, r: ShmRegion, other: ShmRegion)
    requires
        in_use(before, other),
        after.differs_only_in(&before, r.pgprot),
        after.zone(r.pgprot).same_place(before.zone(r.pgprot)),
        after.zone(r.pgprot).free_set() == before.zone(r.pgprot).free_set().union(r.bytes()),
        r.bytes().disjoint(other.bytes()),
    ensures
        in_use(after, other),
{
    if other.pgprot != r.pgprot {
        assert(after.zone(other.pgprot) == before.zone(other.pgprot));
    } else {
        assert forall|x: int| #[trigger] span(other.offset as int, other.pages()).contains(x)
            implies !after.zone(other.pgprot).free_set().contains(x) by {
            assert(other.bytes().contains(x));
            assert(!r.bytes().contains(x));
        }
    }
}

/// Giving back regions that share no byte with the mappings leaves the mappings in place.
pub proof fn lemma_release_holds(
    before: ShmAllocator,
    after: ShmAllocator,
    maps: Map<u64, MmapEntry>,
    regions: Seq<ShmRegion>,
    restored: Seq<bool>,
)
    requires
        holds(before, maps, regions),
        regions.len() == restored.len(),
        gives_back(before, after, regions, restored),
    ensures
        holds(after, maps, Seq::empty()),
{
    assert forall|k: u64| #[trigger] maps.contains_key(k) implies in_use(after, maps[k].region) by {
        let r = maps[k].region;
        assert(after.zone(r.pgprot).same_place(before.zone(r.pgprot)));
        assert forall|x: int| #[trigger] span(r.offset as int, r.pages()).contains(x) implies !after.zone(
            r.pgprot,
        ).free_set().contains(x) by {
            if released(regions, restored, r.pgprot).contains(x) {
                let i = choose|i: int|
                    0 <= i < regions.len() && restored[i] && #[trigger] regions[i].pgprot
                        == r.pgprot && regions[i].bytes().contains(x);
                assert(regions[i].bytes().disjoint(r.bytes()));
                assert(r.bytes().contains(x));
            }
        }
    }
}

/// A region just allocated is in use, shares no byte with those that were, and leaves them so.
pub proof fn lemma_allocate_holds(
    before: ShmAllocator,
    after: ShmAllocator,
    maps: Map<u64, MmapEntry>,
    r: ShmRegion,
)
    requires
        before.wf(),
        before.page_aligned(),
        holds(before, maps, Seq::empty()),
        after.wf(),
        after.page_aligned(),
        after.differs_only_in(&before, r.pgprot),
        after.zone(r.pgprot).same_place(before.zone(r.pgprot)),
        r.offset as int % PAGE_SIZE as int == 0,
        first_fit_taken(
            before.zone(r.pgprot).free_list(),
            after.zone(r.pgprot).free_list(),
            r.pages(),
            before.zone(r.pgprot).spec_base(),
            Some(r.offset),
        ),
    ensures
        holds(after, maps, seq![r]),
        !maps.contains_key(r.offset),
{
    let z0 = before.zone(r.pgprot);
    let z1 = after.zone(r.pgprot);
    let base = z0.spec_base();
    let i = choose|i: int| #[trigger]
        first_fit(z0.free_list(), r.pages(), i) && r.offset == base + z0.free_list()[i].start
            && z1.free_list() == take_front(z0.free_list(), i, r.pages());
    crate::zone::lemma_take_front(z0.free_list(), z0.spec_size(), i, r.pages());
    assert(z0.free_list()[i].end() <= z0.spec_size());
    assert forall|x: int| #[trigger] r.bytes().contains(x) implies z0.free_set().contains(x)
        && !z1.free_set().contains(x) by {
        assert(z0.free_list()[i].has(x - base));
        assert(!covered(z1.free_list(), x - base));
    }
    assert forall|x: int| #[trigger] z1.free_set().contains(x) implies z0.free_set().contains(x) by {
        assert(covered(z1.free_list(), x - base));
    }
    assert(in_use(after, r));
    assert forall|k: u64| #[trigger] maps.contains_key(k) implies in_use(after, maps[k].region)
        && r.bytes().disjoint(maps[k].region.bytes()) by {
        let o = maps[k].region;
        assert(in_use(before, o));
        if o.pgprot != r.pgprot {
            assert(after.zone(o.pgprot) == before.zone(o.pgprot));
        }
        assert forall|x: int| r.bytes().contains(x) implies !o.bytes().contains(x) by {
            if o.bytes().contains(x) {
                assert(span(o.offset as int, o.pages()).contains(x));
                assert(!before.zone(o.pgprot).free_set().contains(x));
            }
        }
    }
    assert(seq![r][0] == r);
    if maps.contains_key(r.offset) {
        let o = maps[r.offset].region;
        assert(r.bytes().contains(r.offset as int));
        assert(o.bytes().contains(r.offset as int));
    }
}

} // verus!
