//! Where the window's bytes are.
//!
//! Anything that fails to give space back fails later, in whatever mapping happens to be next. So
//! the device knows of every byte of the window who holds it, from the first message to teardown,
//! whatever else fails. The one exception is memory that the host cannot put back under a region:
//! such a region stays taken, because no range may be handed out that has no memory under it.
use crate::bytes::{u32_at, with_u32};
use crate::cycle::lemma_taken;
use crate::laws::{law_teardown_frees_the_window, lemma_region_listed};
use crate::mapping::{map_done, place_done, spec_zone_for, unmap_done, MAP_FD, MAP_FLAGS};
use crate::messages::{MsgHeader, MsgType, MSG_HEADER_SIZE};
use crate::mmap::{carried_by, MmapEntry};
use crate::nvidia::{pending_regions, NvidiaBackend, Pending};
use crate::regions::{gives_back, in_use, released};
use crate::serve::{
    close_started, dispatched, regions_of, resumed, spec_accepts, teardown_done, teardown_started,
};
use crate::shm::{PgprotKind, ShmAllocator, ShmRegion};
use crate::step::{Event, Step};
use vstd::prelude::*;

verus! {

/// Whether a mapping of the zone of `k` holds the offset `x`.
pub open spec fn mapped_at(maps: Map<u64, MmapEntry>, k: PgprotKind, x: int) -> bool {
    exists|m: u64| #[trigger]
        maps.contains_key(m) && maps[m].region.pgprot == k && maps[m].region.bytes().contains(x)
}

/// Whether one of `regions` lies in the zone of `k` and holds the offset `x`.
pub open spec fn waiting_at(regions: Seq<ShmRegion>, k: PgprotKind, x: int) -> bool {
    exists|i: int|
        0 <= i < regions.len() && #[trigger] regions[i].pgprot == k && regions[i].bytes().contains(x)
}

/// Whether every offset of every zone is free, mapped, or on its way into or out of a mapping.
pub open spec fn complete(
    shm: ShmAllocator,
    maps: Map<u64, MmapEntry>,
    waiting: Seq<ShmRegion>,
) -> bool {
    forall|k: PgprotKind, x: int|
        shm.zone(k).spec_base() <= x < shm.zone(k).spec_base() + shm.zone(k).spec_size()
            ==> #[trigger] shm.zone(k).free_set().contains(x) || mapped_at(maps, k, x) || waiting_at(
            waiting,
            k,
            x,
        )
}

/// Whether no byte of the window is lost.
pub open spec fn accounted(b: NvidiaBackend) -> bool {
    complete(b.shm, b.active_maps@, pending_regions(b.pending))
}

/// Whether the window's own memory is back under every region that was to be restored.
pub open spec fn obliging(e: Event) -> bool {
    match e {
        Event::Restored(done) => forall|i: int| 0 <= i < done@.len() ==> #[trigger] done@[i],
        _ => true,
    }
}

/// Nothing is lost where neither the free bytes nor the mappings change and nothing was or is on
/// its way.
proof fn lemma_still(a: ShmAllocator, b: ShmAllocator, maps: Map<u64, MmapEntry>)
    requires
        complete(a, maps, Seq::empty()),
        forall|k: PgprotKind| #[trigger]
            b.zone(k).same_place(a.zone(k)) && b.zone(k).free_list() == a.zone(k).free_list(),
    ensures
        complete(b, maps, Seq::empty()),
{
    assert forall|k: PgprotKind, x: int|
        b.zone(k).spec_base() <= x < b.zone(k).spec_base() + b.zone(k).spec_size()
        implies #[trigger] b.zone(k).free_set().contains(x) || mapped_at(maps, k, x) || waiting_at(
        Seq::empty(),
        k,
        x,
    ) by {
        assert(b.zone(k).same_place(a.zone(k)));
        assert(a.zone(k).free_set().contains(x) <==> b.zone(k).free_set().contains(x));
    }
}

/// A mapping call that came back takes what it answers with out of the free bytes.
proof fn lemma_map(
    pre: NvidiaBackend,
    guest: u32,
    map_fd: i32,
    result: Result<(), i32>,
    data: Seq<u8>,
    post: NvidiaBackend,
    step: Step,
)
    requires
        pre.wf(),
        accounted(pre),
        pre.pending is MapMemory,
        map_done(pre, guest, map_fd, result, data, post, step),
    ensures
        accounted(post),
{
    if step is Do {
        let region = pending_regions(post.pending)[0];
        let p = region.pgprot;
        let z = pre.shm.zone(p);
        lemma_taken(z, post.shm.zone(p), region.length, region.offset);
        assert forall|k: PgprotKind, x: int|
            post.shm.zone(k).spec_base() <= x < post.shm.zone(k).spec_base() + post.shm.zone(
                k,
            ).spec_size() implies #[trigger] post.shm.zone(k).free_set().contains(x) || mapped_at(
            post.active_maps@,
            k,
            x,
        ) || waiting_at(pending_regions(post.pending), k, x) by {
            if k != p {
                assert(post.shm.zone(k) == pre.shm.zone(k));
            }
            assert(pre.shm.zone(k).free_set().contains(x) || mapped_at(pre.active_maps@, k, x)
                || waiting_at(pending_regions(pre.pending), k, x));
            if k == p && pre.shm.zone(k).free_set().contains(x) && !post.shm.zone(
                k,
            ).free_set().contains(x) {
                assert(region.bytes().contains(x));
                assert(pending_regions(post.pending)[0].pgprot == k);
            }
        }
    } else {
        assert forall|k: PgprotKind| #[trigger]
            post.shm.zone(k).same_place(pre.shm.zone(k)) && post.shm.zone(k).free_list()
                == pre.shm.zone(k).free_list() by {
            let params = with_u32(data, MAP_FD as int, guest);
            let p = spec_zone_for(u32_at(params, MAP_FLAGS as int));
            if k != p {
                assert(post.shm.zone(k) == pre.shm.zone(k));
            }
        }
        lemma_still(pre.shm, post.shm, pre.active_maps@);
    }
}

/// A region that was placed is mapped; one that could not be placed waits for its memory.
proof fn lemma_place(
    pre: NvidiaBackend,
    params: Seq<u8>,
    region: ShmRegion,
    guest: u32,
    result: Result<(), i32>,
    post: NvidiaBackend,
    step: Step,
)
    requires
        pre.wf(),
        accounted(pre),
        pre.pending matches Pending::MapPlace { region: r, .. } && r == region,
        place_done(pre, params, region, guest, result, post, step),
    ensures
        accounted(post),
{
    let maps = pre.active_maps@;
    let after = post.active_maps@;
    let waiting = pending_regions(pre.pending);
    assert(waiting[0] == region);
    assert(in_use(pre.shm, waiting[0]));
    assert(!maps.contains_key(region.offset)) by {
        if maps.contains_key(region.offset) {
            assert(waiting[0].bytes().disjoint(maps[region.offset].region.bytes()));
            assert(in_use(pre.shm, maps[region.offset].region));
            assert(region.bytes().contains(region.offset as int));
            assert(maps[region.offset].region.bytes().contains(region.offset as int));
        }
    }
    assert forall|k: PgprotKind, x: int|
        post.shm.zone(k).spec_base() <= x < post.shm.zone(k).spec_base() + post.shm.zone(
            k,
        ).spec_size() implies #[trigger] post.shm.zone(k).free_set().contains(x) || mapped_at(
        after,
        k,
        x,
    ) || waiting_at(pending_regions(post.pending), k, x) by {
        assert(pre.shm.zone(k).free_set().contains(x) || mapped_at(maps, k, x) || waiting_at(
            waiting,
            k,
            x,
        ));
        if mapped_at(maps, k, x) {
            let m = choose|m: u64| #[trigger]
                maps.contains_key(m) && maps[m].region.pgprot == k && maps[m].region.bytes().contains(
                    x,
                );
            assert(after.contains_key(m) && after[m] == maps[m]);
        } else if waiting_at(waiting, k, x) {
            if result is Ok {
                assert(after.contains_key(region.offset));
            } else {
                assert(pending_regions(post.pending) =~= waiting);
            }
        }
    }
}

/// A mapping that the driver let go of waits for its memory.
proof fn lemma_unmap(
    pre: NvidiaBackend,
    key: u64,
    result: Result<(), i32>,
    data: Seq<u8>,
    post: NvidiaBackend,
    step: Step,
)
    requires
        pre.wf(),
        accounted(pre),
        pre.pending == (Pending::Unmap { key }),
        unmap_done(pre, key, result, data, post, step),
    ensures
        accounted(post),
{
    let maps = pre.active_maps@;
    let after = post.active_maps@;
    assert forall|k: PgprotKind, x: int|
        post.shm.zone(k).spec_base() <= x < post.shm.zone(k).spec_base() + post.shm.zone(
            k,
        ).spec_size() implies #[trigger] post.shm.zone(k).free_set().contains(x) || mapped_at(
        after,
        k,
        x,
    ) || waiting_at(pending_regions(post.pending), k, x) by {
        assert(pre.shm.zone(k).free_set().contains(x) || mapped_at(maps, k, x) || waiting_at(
            pending_regions(pre.pending),
            k,
            x,
        ));
        if mapped_at(maps, k, x) && step is Do {
            let m = choose|m: u64| #[trigger]
                maps.contains_key(m) && maps[m].region.pgprot == k && maps[m].region.bytes().contains(
                    x,
                );
            if m == key {
                assert(pending_regions(post.pending)[0] == maps[m].region);
            } else {
                assert(after.contains_key(m) && after[m] == maps[m]);
            }
        }
    }
}

/// Regions that are all given back are free.
proof fn lemma_given_back(
    before: ShmAllocator,
    after: ShmAllocator,
    maps: Map<u64, MmapEntry>,
    regions: Seq<ShmRegion>,
    restored: Seq<bool>,
)
    requires
        complete(before, maps, regions),
        gives_back(before, after, regions, restored),
        restored.len() == regions.len(),
        forall|i: int| 0 <= i < restored.len() ==> #[trigger] restored[i],
    ensures
        complete(after, maps, Seq::empty()),
{
    assert forall|k: PgprotKind, x: int|
        after.zone(k).spec_base() <= x < after.zone(k).spec_base() + after.zone(k).spec_size()
        implies #[trigger] after.zone(k).free_set().contains(x) || mapped_at(maps, k, x)
        || waiting_at(Seq::empty(), k, x) by {
        assert(after.zone(k).same_place(before.zone(k)));
        assert(before.zone(k).free_set().contains(x) || mapped_at(maps, k, x) || waiting_at(
            regions,
            k,
            x,
        ));
        if waiting_at(regions, k, x) {
            let i = choose|i: int|
                0 <= i < regions.len() && #[trigger] regions[i].pgprot == k
                    && regions[i].bytes().contains(x);
            assert(restored[i]);
            assert(released(regions, restored, k).contains(x));
        }
    }
}

/// Mappings that are given up wait for their memory.
proof fn lemma_given_up(
    shm: ShmAllocator,
    maps: Map<u64, MmapEntry>,
    mine: Map<u64, MmapEntry>,
    regions: Seq<ShmRegion>,
)
    requires
        complete(shm, maps, Seq::empty()),
        forall|m: u64| #[trigger]
            mine.contains_key(m) ==> maps.contains_key(m) && mine[m] == maps[m],
        mine.dom().is_empty() || regions_of(regions, mine),
    ensures
        complete(
            shm,
            maps.remove_keys(mine.dom()),
            if mine.dom().is_empty() {
                Seq::empty()
            } else {
                regions
            },
        ),
{
    let left = maps.remove_keys(mine.dom());
    let waiting = if mine.dom().is_empty() {
        Seq::empty()
    } else {
        regions
    };
    assert forall|k: PgprotKind, x: int|
        shm.zone(k).spec_base() <= x < shm.zone(k).spec_base() + shm.zone(k).spec_size()
        implies #[trigger] shm.zone(k).free_set().contains(x) || mapped_at(left, k, x)
        || waiting_at(waiting, k, x) by {
        if mapped_at(maps, k, x) {
            let m = choose|m: u64| #[trigger]
                maps.contains_key(m) && maps[m].region.pgprot == k && maps[m].region.bytes().contains(
                    x,
                );
            if mine.contains_key(m) {
                assert(mine.dom().contains(m));
                let i = lemma_region_listed(regions, mine, m);
                assert(waiting[i].pgprot == k);
            } else {
                assert(left.contains_key(m) && left[m] == maps[m]);
            }
        }
    }
}

/// A fresh backend has lost nothing: all of the window is free.
pub proof fn law_nothing_is_lost_at_first(b: NvidiaBackend)
    requires
        b.wf(),
        b.pending is Idle,
        forall|k: PgprotKind| #[trigger]
            b.shm.zone(k).fresh(b.shm.zone(k).spec_base(), b.shm.zone(k).spec_size()),
    ensures
        accounted(b),
{
    assert forall|k: PgprotKind, x: int|
        b.shm.zone(k).spec_base() <= x < b.shm.zone(k).spec_base() + b.shm.zone(k).spec_size()
        implies #[trigger] b.shm.zone(k).free_set().contains(x) || mapped_at(
        b.active_maps@,
        k,
        x,
    ) || waiting_at(pending_regions(b.pending), k, x) by {
        let z = b.shm.zone(k);
        assert(z.fresh(z.spec_base(), z.spec_size()));
        assert(z.free_list()[0].has(x - z.spec_base()));
    }
}

/// No message loses a byte of the window when it begins.
#[verifier::rlimit(60)]
pub proof fn law_messages_lose_nothing(
    pre: NvidiaBackend,
    req: Seq<u8>,
    cap: usize,
    post: NvidiaBackend,
    step: Step,
)
    requires
        pre.wf(),
        pre.pending is Idle,
        accounted(pre),
        dispatched(pre, req, cap, post, step),
    ensures
        accounted(post),
{
    let hdr = MsgHeader::at(req, 0);
    if req.len() >= MSG_HEADER_SIZE && MsgType::spec_from_u32(hdr.msg_type) == Some(
        MsgType::Close,
    ) {
        let mid = NvidiaBackend {
            current_msg: MsgType::Close,
            current_handle: hdr.handle,
            resp_cap: cap,
            ..pre
        };
        assert(close_started(mid, post, step));
        let mine = carried_by(mid.active_maps@, mid.named());
        lemma_given_up(pre.shm, pre.active_maps@, mine, pending_regions(post.pending));
    } else {
        assert(post.shm == pre.shm && post.active_maps == pre.active_maps);
        assert(pending_regions(post.pending) =~= Seq::<ShmRegion>::empty());
    }
}

/// No step of serving a message loses a byte of the window, whatever fails, as long as the memory
/// of regions that are given up goes back under them.
#[verifier::rlimit(60)]
pub proof fn law_steps_lose_nothing(pre: NvidiaBackend, e: Event, post: NvidiaBackend, step: Step)
    requires
        pre.wf(),
        accounted(pre),
        spec_accepts(pre, e),
        obliging(e),
        resumed(pre, e, post, step),
    ensures
        accounted(post),
{
    match (pre.pending, e) {
        (Pending::MapMemory { guest, map_fd }, Event::Returned { result, data, .. }) => {
            lemma_map(pre, guest, map_fd, result, data@, post, step);
        },
        (Pending::MapPlace { params, region, guest }, Event::Placed(result)) => {
            lemma_place(pre, params@, region, guest, result, post, step);
        },
        (Pending::PlaceRestore(region), Event::Restored(done)) => {
            lemma_given_back(pre.shm, post.shm, pre.active_maps@, seq![region], done@);
        },
        (Pending::Unmap { key }, Event::Returned { result, data, .. }) => {
            lemma_unmap(pre, key, result, data@, post, step);
        },
        (Pending::UnmapRestore { region, .. }, Event::Restored(done)) => {
            lemma_given_back(pre.shm, post.shm, pre.active_maps@, seq![region], done@);
        },
        (Pending::Close(regions), Event::Restored(done)) => {
            lemma_given_back(pre.shm, post.shm, pre.active_maps@, regions@, done@);
        },
        (Pending::Teardown(regions), Event::Restored(done)) => {
            lemma_given_back(pre.shm, post.shm, pre.active_maps@, regions@, done@);
        },
        _ => {
            assert(post.shm == pre.shm && post.active_maps == pre.active_maps);
            assert(pending_regions(post.pending) =~= Seq::<ShmRegion>::empty());
        },
    }
}

/// The start of a teardown loses nothing.
pub proof fn law_teardown_loses_nothing(pre: NvidiaBackend, post: NvidiaBackend, step: Step)
    requires
        pre.wf(),
        pre.pending is Idle,
        accounted(pre),
        teardown_started(pre, post, step),
    ensures
        accounted(post),
{
    let maps = pre.active_maps@;
    lemma_given_up(pre.shm, maps, maps, pending_regions(post.pending));
    assert(maps.remove_keys(maps.dom()) =~= Map::<u64, MmapEntry>::empty());
}

/// A device that lost nothing ends as it began: after a teardown whose memory all comes back, each
/// zone is free from end to end.
pub proof fn law_device_ends_as_it_began(
    b0: NvidiaBackend,
    b1: NvidiaBackend,
    s1: Step,
    regions: Seq<ShmRegion>,
    restored: Seq<bool>,
    b2: NvidiaBackend,
    s2: Step,
)
    requires
        b0.wf(),
        b0.pending is Idle,
        accounted(b0),
        teardown_started(b0, b1, s1),
        if b0.active_maps@.dom().is_empty() {
            b2 == b1
        } else {
            &&& b1.pending matches Pending::Teardown(waiting) && waiting@ == regions
            &&& restored.len() == regions.len()
            &&& forall|i: int| 0 <= i < restored.len() ==> #[trigger] restored[i]
            &&& teardown_done(b1, regions, restored, b2, s2)
        },
    ensures
        b2.handles@ == Map::<u64, i32>::empty(),
        b2.active_maps@ == Map::<u64, MmapEntry>::empty(),
        forall|k: PgprotKind| #[trigger]
            b2.shm.zone(k).fresh(b0.shm.zone(k).spec_base(), b0.shm.zone(k).spec_size()),
{
    assert forall|k: PgprotKind| #[trigger]
        b2.shm.zone(k).fresh(b0.shm.zone(k).spec_base(), b0.shm.zone(k).spec_size()) by {
        law_teardown_frees_the_window(b0, b1, s1, regions, restored, b2, s2, k);
    }
    law_teardown_frees_the_window(
        b0,
        b1,
        s1,
        regions,
        restored,
        b2,
        s2,
        PgprotKind::Uncached,
    );
}

} // verus!
