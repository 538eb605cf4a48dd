//! What holds of the backend over several steps.
use crate::abi::{check, table_view, AbiCheck};
use crate::bytes::{law_fields_read_back, lemma_u32_same, lemma_u64_same, u32_at, u64_at, with_u32, with_u64};
use crate::cycle::law_no_order_fragments;
use crate::errno::{EINVAL, ENOMEM};
use crate::files::{by_path, views, FileTree};
use crate::forward::{fd_done, info_done, nested_back, nested_done, spec_fd_offset};
use crate::ioctl::{
    nr_of, type_of, NV_ESC_RM_ALLOC, NV_ESC_RM_CONTROL, NV_ESC_RM_MAP_MEMORY,
    NV_ESC_RM_UNMAP_MEMORY, NV_ESC_RM_UPDATE_DEVICE_MAPPING_INFO, NV_IOCTL_MAGIC,
};
use crate::mapping::{
    map_done, place_done, place_restored, spec_zone_for, unmap_done, unmap_restored, MAP_FD,
    MAP_FLAGS, MAP_LINEAR, MAP_SIZE, MAP_STATUS, UNMAP_LINEAR, UNMAP_SIZE, UNMAP_STATUS,
};
use crate::messages::{IoctlReq, MsgHeader, MsgType, IOCTL_REQ_SIZE, MSG_HEADER_SIZE};
use crate::mmap::{carried_by, MmapEntry};
use crate::nvidia::{NvidiaBackend, Pending};
use crate::regions::{gives_back, holds, in_use, released};
use crate::response::{error_resp, header_resp, ioctl_resp, Status};
use crate::serve::{
    close_done, close_started, dispatched, regions_of, resumed, spec_accepts, teardown_done,
    teardown_started,
};
use crate::shm::{PgprotKind, ShmAllocator, ShmRegion};
use crate::step::{Action, Event, Step};
use crate::version::DriverVersion;
use crate::versions::{spec_lookup, spec_table_for, IoctlEntry};
use crate::zone::{
    coalesced, covered, first_fit_taken, law_free_list_is_canonical, law_free_undoes_allocate,
    round_up, Extent, PAGE_SIZE,
};
use vstd::prelude::*;

verus! {

/// Where the parameter bytes of an ioctl response begin.
pub const BODY: usize = 28;

/// Mapping device memory and unmapping it again gives the window back exactly what it took: the
/// same mappings are active as before, and every zone has the free list it had.
#[verifier::rlimit(40)]
pub proof fn law_map_and_unmap_restore_the_window(
    b0: NvidiaBackend,
    guest: u32,
    map_fd: i32,
    mapped: Seq<u8>,
    b1: NvidiaBackend,
    s1: Step,
    params: Seq<u8>,
    region: ShmRegion,
    b2: NvidiaBackend,
    s2: Step,
    b3: NvidiaBackend,
    unmapped: Seq<u8>,
    b4: NvidiaBackend,
    s4: Step,
    back: Seq<u8>,
    b5: NvidiaBackend,
    s5: Step,
)
    requires
        b0.wf(),
        b1.wf(),
        map_done(b0, guest, map_fd, Ok(()), mapped, b1, s1),
        s1 is Do,
        b1.pending matches Pending::MapPlace { region: r, .. } && r == region,
        place_done(b1, params, region, guest, Ok(()), b2, s2),
        b3.shm == b2.shm,
        b3.active_maps@ == b2.active_maps@,
        u32_at(unmapped, UNMAP_STATUS as int) == 0,
        unmap_done(b3, region.offset, Ok(()), unmapped, b4, s4),
        unmap_restored(b4, back, region, seq![true], b5, s5),
    ensures
        b5.active_maps@ == b0.active_maps@,
        forall|k: PgprotKind| #[trigger] b5.shm.zone(k).free_list() == b0.shm.zone(k).free_list(),
{
    let maps = b0.active_maps@;
    lemma_not_mapped(b1.shm, maps, seq![region]);
    assert(b5.active_maps@ =~= maps);
    lemma_taken_and_given_back(b0.shm, b1.shm, b5.shm, maps, region);
}

/// No mapping stands where a region waits.
proof fn lemma_not_mapped(shm: ShmAllocator, maps: Map<u64, MmapEntry>, waiting: Seq<ShmRegion>)
    requires
        holds(shm, maps, waiting),
        waiting.len() == 1,
    ensures
        !maps.contains_key(waiting[0].offset),
{
    let at = waiting[0].offset;
    if maps.contains_key(at) {
        assert(in_use(shm, waiting[0]) && in_use(shm, maps[at].region));
        assert(waiting[0].bytes().contains(at as int));
        assert(maps[at].region.bytes().contains(at as int));
    }
}

/// A region that is taken and given back leaves every zone with the free list it had.
proof fn lemma_taken_and_given_back(
    before: ShmAllocator,
    taken: ShmAllocator,
    after: ShmAllocator,
    maps: Map<u64, MmapEntry>,
    region: ShmRegion,
)
    requires
        before.wf(),
        before.page_aligned(),
        taken.wf(),
        holds(before, maps, Seq::empty()),
        taken.differs_only_in(&before, region.pgprot),
        taken.zone(region.pgprot).same_place(before.zone(region.pgprot)),
        first_fit_taken(
            before.zone(region.pgprot).free_list(),
            taken.zone(region.pgprot).free_list(),
            round_up(region.length as int, PAGE_SIZE as int),
            before.zone(region.pgprot).spec_base(),
            Some(region.offset),
        ),
        gives_back(taken, after, seq![region], seq![true]),
    ensures
        forall|k: PgprotKind| #[trigger] after.zone(k).free_list() == before.zone(k).free_list(),
{
    let p = region.pgprot;
    assert forall|k: PgprotKind| #[trigger] after.zone(k).free_list() == before.zone(k).free_list() by {
        let gone = released(seq![region], seq![true], k);
        assert(seq![region][0] == region);
        assert(after.zone(k).same_place(taken.zone(k)));
        if k == p {
            assert(gone =~= region.bytes()) by {
                assert forall|x: int| region.bytes().contains(x) implies gone.contains(x) by {
                    assert(seq![region][0].pgprot == k);
                }
            }
            law_free_undoes_allocate(
                before.zone(k),
                taken.zone(k),
                after.zone(k),
                region.length,
                region.offset,
            );
        } else {
            assert(gone =~= Set::<int>::empty());
            assert(taken.zone(k) == before.zone(k));
            assert(after.zone(k).free_set() =~= before.zone(k).free_set());
            law_no_order_fragments(after.zone(k), before.zone(k));
        }
    }
}

/// A mapping call that comes to nothing leaves the window as it was: the same mappings are active,
/// and every zone has the free list it had. That is so where the driver refuses, where it answers
/// with a status of its own, and where the zone has no room.
pub proof fn law_failed_map_leaves_the_window(
    b0: NvidiaBackend,
    guest: u32,
    map_fd: i32,
    result: core::result::Result<(), i32>,
    mapped: Seq<u8>,
    b1: NvidiaBackend,
    s1: Step,
)
    requires
        map_done(b0, guest, map_fd, result, mapped, b1, s1),
        s1 is Done,
    ensures
        b1.pending is Idle,
        b1.active_maps == b0.active_maps,
        forall|k: PgprotKind| #[trigger] b1.shm.zone(k).free_list() == b0.shm.zone(k).free_list(),
{
    let params = with_u32(mapped, MAP_FD as int, guest);
    let p = spec_zone_for(u32_at(params, MAP_FLAGS as int));
    assert forall|k: PgprotKind| #[trigger] b1.shm.zone(k).free_list() == b0.shm.zone(k).free_list() by {
        if k != p {
            assert(b1.shm.zone(k) == b0.shm.zone(k));
        }
    }
}

/// A mapping that the driver made and that could not be put into the window takes nothing from it:
/// once the memory under its region is back, the same mappings are active as before, every zone has
/// the free list it had, and the guest is out of memory.
pub proof fn law_refused_placement_leaves_the_window(
    b0: NvidiaBackend,
    guest: u32,
    map_fd: i32,
    mapped: Seq<u8>,
    b1: NvidiaBackend,
    s1: Step,
    params: Seq<u8>,
    region: ShmRegion,
    errno: i32,
    b2: NvidiaBackend,
    s2: Step,
    b3: NvidiaBackend,
    s3: Step,
)
    requires
        b0.wf(),
        b1.wf(),
        map_done(b0, guest, map_fd, Ok(()), mapped, b1, s1),
        s1 is Do,
        b1.pending matches Pending::MapPlace { region: r, .. } && r == region,
        place_done(b1, params, region, guest, Err(errno), b2, s2),
        place_restored(b2, region, seq![true], b3, s3),
    ensures
        s2 matches Step::Do(Action::Restore(regions)) && regions@ == seq![region],
        b3.active_maps == b0.active_maps,
        forall|k: PgprotKind| #[trigger] b3.shm.zone(k).free_list() == b0.shm.zone(k).free_list(),
        b3.fails(s3, Status::IoctlFailed, ENOMEM),
{
    lemma_taken_and_given_back(b0.shm, b1.shm, b3.shm, b0.active_maps@, region);
}

/// Closing a handle releases exactly the mappings that it carried: none of them is active any
/// more, every other one is as it was, and their bytes are free once their memory is back. Where it
/// carried none, there is nothing to wait for.
pub proof fn law_close_releases_its_mappings(
    b0: NvidiaBackend,
    b1: NvidiaBackend,
    s1: Step,
    regions: Seq<ShmRegion>,
    restored: Seq<bool>,
    b2: NvidiaBackend,
    s2: Step,
)
    requires
        b0.wf(),
        close_started(b0, b1, s1),
        if carried_by(b0.active_maps@, b0.named()).dom().is_empty() {
            b2 == b1
        } else {
            &&& b1.pending matches Pending::Close(waiting) && waiting@ == regions
            &&& restored.len() == regions.len()
            &&& forall|i: int| 0 <= i < restored.len() ==> #[trigger] restored[i]
            &&& close_done(b1, regions, restored, b2, s2)
        },
    ensures
        !b2.handles@.contains_key(b0.named()),
        forall|k: u64|
            b0.active_maps@.contains_key(k) && b0.active_maps@[k].map_fd_handle != b0.named() <==> #[trigger]
                b2.active_maps@.contains_key(k),
        forall|k: u64| #[trigger]
            b2.active_maps@.contains_key(k) ==> b2.active_maps@[k] == b0.active_maps@[k],
        forall|k: u64|
            #![trigger b0.active_maps@[k]]
            b0.active_maps@.contains_key(k) && b0.active_maps@[k].map_fd_handle == b0.named()
                ==> b0.active_maps@[k].region.bytes().subset_of(
                b2.shm.zone(b0.active_maps@[k].region.pgprot).free_set(),
            ),
{
    let mine = carried_by(b0.active_maps@, b0.named());
    assert forall|k: u64|
        #![trigger b0.active_maps@[k]]
        b0.active_maps@.contains_key(k) && b0.active_maps@[k].map_fd_handle == b0.named() implies b0.active_maps@[k].region.bytes().subset_of(
        b2.shm.zone(b0.active_maps@[k].region.pgprot).free_set(),
    ) by {
        assert(mine.dom().contains(k));
        let i = lemma_region_listed(regions, mine, k);
        let r = b0.active_maps@[k].region;
        assert(b2.shm.zone(r.pgprot).same_place(b1.shm.zone(r.pgprot)));
        assert forall|x: int| r.bytes().contains(x) implies b2.shm.zone(r.pgprot).free_set().contains(x) by {
            assert(restored[i]);
            assert(regions[i].pgprot == r.pgprot);
            assert(released(regions, restored, r.pgprot).contains(x));
        }
    }
}

/// The region of a listed mapping is in the list.
pub(crate) proof fn lemma_region_listed(regions: Seq<ShmRegion>, maps: Map<u64, MmapEntry>, k: u64) -> (i: int)
    requires
        regions_of(regions, maps),
        maps.contains_key(k),
    ensures
        0 <= i < regions.len(),
        regions[i] == maps[k].region,
{
    let entries = choose|entries: Seq<MmapEntry>| #[trigger]
        crate::handle_table::lists_values(entries, maps) && regions == entries.map_values(
            |e: MmapEntry| e.region,
        );
    let keys = choose|keys: Seq<u64>|
        #![trigger keys.to_set()]
        keys.no_duplicates() && keys.to_set() == maps.dom() && entries == keys.map_values(
            |k: u64| maps[k],
        );
    assert(keys.to_set().contains(k));
    let i = choose|i: int| 0 <= i < keys.len() && keys[i] == k;
    assert(entries[i] == maps[k]);
    i
}

/// A teardown whose memory all comes back leaves no handle and no mapping, and the zone free in one
/// extent, if each of its bytes was free or mapped before. The only bytes that are neither are those
/// whose memory could not be put back earlier.
pub proof fn law_teardown_frees_the_window(
    b0: NvidiaBackend,
    b1: NvidiaBackend,
    s1: Step,
    regions: Seq<ShmRegion>,
    restored: Seq<bool>,
    b2: NvidiaBackend,
    s2: Step,
    k: PgprotKind,
)
    requires
        b0.wf(),
        forall|x: int|
            b0.shm.zone(k).spec_base() <= x < b0.shm.zone(k).spec_base() + b0.shm.zone(
                k,
            ).spec_size() ==> #[trigger] b0.shm.zone(k).free_set().contains(x) || exists|m: u64| #[trigger]
                b0.active_maps@.contains_key(m) && b0.active_maps@[m].region.pgprot == k
                    && b0.active_maps@[m].region.bytes().contains(x),
        teardown_started(b0, b1, s1),
        if b0.active_maps@.dom().is_empty() {
            b2 == b1
        } else {
            &&& b1.pending matches Pending::Teardown(waiting) && waiting@ == regions
            &&& restored.len() == regions.len()
            &&& forall|i: int| 0 <= i < restored.len() ==> #[trigger] restored[i]
            &&& teardown_done(b1, regions, restored, b2, s2)
        },
    ensures
        b2.handles@ == Map::<u64, i32>::empty(),
        b2.active_maps@ == Map::<u64, MmapEntry>::empty(),
        b2.shm.zone(k).fresh(b0.shm.zone(k).spec_base(), b0.shm.zone(k).spec_size()),
{
    let z = b2.shm.zone(k);
    let base = b0.shm.zone(k).spec_base();
    let size = b0.shm.zone(k).spec_size();
    assert(z.same_place(b1.shm.zone(k)));
    assert(z.wf());
    assert forall|x: int| base <= x < base + size implies z.free_set().contains(x) by {
        if !b0.shm.zone(k).free_set().contains(x) {
            let m = choose|m: u64| #[trigger]
                b0.active_maps@.contains_key(m) && b0.active_maps@[m].region.pgprot == k
                    && b0.active_maps@[m].region.bytes().contains(x);
            assert(b0.active_maps@.dom().contains(m));
            let i = lemma_region_listed(regions, b0.active_maps@, m);
            assert(restored[i]);
            assert(regions[i].pgprot == k);
            assert(released(regions, restored, k).contains(x));
        }
    }
    let whole = if size > 0 {
        seq![Extent { start: 0, len: size as u64 }]
    } else {
        Seq::<Extent>::empty()
    };
    assert(coalesced(whole, size));
    assert forall|x: int| #[trigger] covered(z.free_list(), x) <==> covered(whole, x) by {
        if covered(z.free_list(), x) {
            let free = z.free_list();
            let i = choose|i: int| 0 <= i < free.len() && #[trigger] free[i].has(x);
            assert(free[i].end() <= size);
            assert(whole[0].has(x));
        }
        if covered(whole, x) {
            assert(0 <= x < size);
            assert(z.free_set().contains(x + base));
        }
    }
    law_free_list_is_canonical(z.free_list(), whole, size);
}

/// Active mappings lie on pages inside the window, and no two share a byte.
pub proof fn law_mappings_do_not_overlap(b: NvidiaBackend, j: u64, k: u64)
    requires
        b.wf(),
        b.active_maps@.contains_key(j),
        b.active_maps@.contains_key(k),
    ensures
        b.active_maps@[k].region.offset == k,
        k as int % PAGE_SIZE as int == 0,
        k + b.active_maps@[k].region.pages() <= b.shm.spec_total_size(),
        j != k ==> b.active_maps@[j].region.bytes().disjoint(b.active_maps@[k].region.bytes()),
{
    let r = b.active_maps@[k].region;
    assert(in_use(b.shm, r));
    assert(b.shm.zone(PgprotKind::Uncached).wf());
}

/// A field of the parameter bytes stands in the response where the guest looks for it.
proof fn lemma_body_u32(b: NvidiaBackend, out: Seq<u8>, deep: Seq<u8>, off: int)
    requires
        b.resp_cap >= BODY + out.len() + deep.len(),
        0 <= off,
        off + 4 <= out.len(),
    ensures
        ({
            let s = ioctl_resp(
                b.current_msg,
                b.current_handle,
                b.current_data_len,
                out,
                deep,
                b.resp_cap as int,
            );
            u32_at(s, BODY + off) == u32_at(out, off)
        }),
{
    let s = ioctl_resp(
        b.current_msg,
        b.current_handle,
        b.current_data_len,
        out,
        deep,
        b.resp_cap as int,
    );
    assert forall|i: int| 0 <= i < 4 implies #[trigger] s[BODY + off + i] == out[off + i] by {}
    lemma_u32_same(s, BODY + off, out, off);
}

proof fn lemma_body_u64(b: NvidiaBackend, out: Seq<u8>, deep: Seq<u8>, off: int)
    requires
        b.resp_cap >= BODY + out.len() + deep.len(),
        0 <= off,
        off + 8 <= out.len(),
    ensures
        ({
            let s = ioctl_resp(
                b.current_msg,
                b.current_handle,
                b.current_data_len,
                out,
                deep,
                b.resp_cap as int,
            );
            u64_at(s, BODY + off) == u64_at(out, off)
        }),
{
    let s = ioctl_resp(
        b.current_msg,
        b.current_handle,
        b.current_data_len,
        out,
        deep,
        b.resp_cap as int,
    );
    assert forall|i: int| 0 <= i < 8 implies #[trigger] s[BODY + off + i] == out[off + i] by {}
    lemma_u64_same(s, BODY + off, out, off);
}

/// A field of two blocks back to back is that of the block it stands in.
proof fn lemma_joined_u64(head: Seq<u8>, tail: Seq<u8>, off: int)
    requires
        0 <= off,
        off + 8 <= head.len() || head.len() <= off,
        off + 8 <= head.len() + tail.len(),
    ensures
        u64_at(head + tail, off) == (if off < head.len() {
            u64_at(head, off)
        } else {
            u64_at(tail, off - head.len())
        }),
{
    let s = head + tail;
    if off < head.len() {
        assert forall|i: int| 0 <= i < 8 implies #[trigger] s[off + i] == head[off + i] by {}
        lemma_u64_same(s, off, head, off);
    } else {
        let at = off - head.len();
        assert forall|i: int| 0 <= i < 8 implies #[trigger] s[off + i] == tail[at + i] by {}
        lemma_u64_same(s, off, tail, at);
    }
}

proof fn lemma_joined_u32(head: Seq<u8>, tail: Seq<u8>, off: int)
    requires
        head.len() <= off,
        off + 4 <= head.len() + tail.len(),
    ensures
        u32_at(head + tail, off) == u32_at(tail, off - head.len()),
{
    let s = head + tail;
    let at = off - head.len();
    assert forall|i: int| 0 <= i < 4 implies #[trigger] s[off + i] == tail[at + i] by {}
    lemma_u32_same(s, off, tail, at);
}

/// A field of an answer made of two blocks is that of the block it stands in.
proof fn lemma_answer_u64(
    b: NvidiaBackend,
    step: Step,
    head: Seq<u8>,
    tail: Seq<u8>,
    deep: Seq<u8>,
    off: int,
)
    requires
        b.answers(step, head + tail, deep),
        b.resp_cap >= BODY + head.len() + tail.len() + deep.len(),
        0 <= off,
        off + 8 <= head.len() || head.len() <= off,
        off + 8 <= head.len() + tail.len(),
    ensures
        u64_at(step->resp@, BODY + off) == (if off < head.len() {
            u64_at(head, off)
        } else {
            u64_at(tail, off - head.len())
        }),
{
    lemma_joined_u64(head, tail, off);
    lemma_body_u64(b, head + tail, deep, off);
}

proof fn lemma_answer_u32(
    b: NvidiaBackend,
    step: Step,
    head: Seq<u8>,
    tail: Seq<u8>,
    deep: Seq<u8>,
    off: int,
)
    requires
        b.answers(step, head + tail, deep),
        b.resp_cap >= BODY + head.len() + tail.len() + deep.len(),
        head.len() <= off,
        off + 4 <= head.len() + tail.len(),
    ensures
        u32_at(step->resp@, BODY + off) == u32_at(tail, off - head.len()),
{
    lemma_joined_u32(head, tail, off);
    lemma_body_u32(b, head + tail, deep, off);
}

/// What a nested block reads as once it goes back: zero where a host address stood, and the
/// guest's handle where a descriptor stood that is not part of that address.
proof fn lemma_nested_back(nested: Seq<u8>, slot: Option<(usize, u32)>, deep_ptr: Option<usize>)
    requires
        slot matches Some((s, _)) ==> s + 4 <= nested.len(),
        deep_ptr matches Some(p) ==> p + 8 <= nested.len(),
    ensures
        nested_back(nested, slot, deep_ptr).len() == nested.len(),
        deep_ptr matches Some(p) ==> u64_at(nested_back(nested, slot, deep_ptr), p as int) == 0,
        (slot matches Some((s, guest)) ==> (deep_ptr is None || s + 4 <= deep_ptr->0 || deep_ptr->0 + 8
            <= s) ==> u32_at(nested_back(nested, slot, deep_ptr), s as int) == guest),
{
    let own = match slot {
        Some((s, guest)) => with_u32(nested, s as int, guest),
        None => nested,
    };
    let block = nested_back(nested, slot, deep_ptr);
    if let Some((s, guest)) = slot {
        law_fields_read_back(nested, s as int, guest, 0);
    }
    assert(own.len() == nested.len());
    if let Some(p) = deep_ptr {
        law_fields_read_back(own, p as int, 0, 0);
    }
    assert(block.len() == nested.len());
    if let Some((s, guest)) = slot {
        if deep_ptr is None || s + 4 <= deep_ptr->0 || deep_ptr->0 + 8 <= s {
            assert forall|i: int| 0 <= i < 4 implies #[trigger] block[s + i] == own[s + i] by {}
            lemma_u32_same(block, s as int, own, s as int);
        }
    }
}

/// A host descriptor never reaches the guest: where one went to the host, the guest reads back the
/// handle that it wrote.
pub proof fn law_descriptors_stay_on_the_host(
    pre: NvidiaBackend,
    offset: usize,
    guest: u32,
    data: Seq<u8>,
    post: NvidiaBackend,
    step: Step,
)
    requires
        fd_done(pre, offset, guest, Ok(()), data, post, step),
        offset + 4 <= data.len(),
        post.resp_cap >= BODY + data.len(),
    ensures
        u32_at(step->resp@, BODY + offset) == guest,
{
    law_fields_read_back(data, offset as int, guest, 0);
    lemma_body_u32(post, with_u32(data, offset as int, guest), Seq::empty(), offset as int);
}

/// Host addresses never reach the guest through a pointer: the pointer reads zero in the struct,
/// and so does the one in the nested block; a descriptor in the nested block reads as the handle
/// that the guest wrote.
#[verifier::rlimit(50)]
pub proof fn law_addresses_stay_on_the_host(
    pre: NvidiaBackend,
    ptr: usize,
    slot: Option<(usize, u32)>,
    deep_ptr: Option<usize>,
    data: Seq<u8>,
    nested: Seq<u8>,
    deep: Seq<u8>,
    post: NvidiaBackend,
    step: Step,
)
    requires
        nested_done(pre, ptr, slot, deep_ptr, Ok(()), data, nested, deep, post, step),
        ptr + 8 <= data.len(),
        slot matches Some((s, _)) ==> s + 4 <= nested.len(),
        deep_ptr matches Some(p) ==> p + 8 <= nested.len(),
        post.resp_cap >= BODY + data.len() + nested.len() + deep.len(),
    ensures
        u64_at(step->resp@, BODY + ptr) == 0,
        deep_ptr matches Some(p) ==> u64_at(step->resp@, BODY + data.len() + p) == 0,
        (slot matches Some((s, guest)) ==> (deep_ptr is None || s + 4 <= deep_ptr->0 || deep_ptr->0 + 8
            <= s) ==> u32_at(step->resp@, BODY + data.len() + s) == guest),
{
    let head = with_u64(data, ptr as int, 0);
    let block = nested_back(nested, slot, deep_ptr);
    assert(post.answers(step, head + block, deep));
    assert(head.len() == data.len() && u64_at(head, ptr as int) == 0) by {
        law_fields_read_back(data, ptr as int, 0, 0);
    }
    lemma_nested_back(nested, slot, deep_ptr);
    lemma_answer_u64(post, step, head, block, deep, ptr as int);
    if let Some(p) = deep_ptr {
        lemma_answer_u64(post, step, head, block, deep, data.len() + p);
    }
    if let Some((s, guest)) = slot {
        lemma_answer_u32(post, step, head, block, deep, data.len() + s);
    }
}

/// What the guest gets for a mapping is its window offset, not the host's address of it.
pub proof fn law_mapping_reads_as_window_offset(
    pre: NvidiaBackend,
    params: Seq<u8>,
    region: ShmRegion,
    guest: u32,
    post: NvidiaBackend,
    step: Step,
)
    requires
        place_done(pre, params, region, guest, Ok(()), post, step),
        params.len() >= 56,
        post.resp_cap >= BODY + params.len(),
    ensures
        u64_at(step->resp@, BODY + MAP_LINEAR) == region.offset,
        post.active_maps@.contains_key(u64_at(step->resp@, BODY + MAP_LINEAR)),
        u32_at(step->resp@, BODY + MAP_FD) == u32_at(params, MAP_FD as int),
{
    let out = with_u64(params, MAP_LINEAR as int, region.offset);
    law_fields_read_back(params, MAP_LINEAR as int, 0, region.offset);
    lemma_body_u64(post, out, Seq::empty(), MAP_LINEAR as int);
    assert forall|i: int| 0 <= i < 4 implies #[trigger] out[MAP_FD + i] == params[MAP_FD + i] by {}
    lemma_u32_same(out, MAP_FD as int, params, MAP_FD as int);
    lemma_body_u32(post, out, Seq::empty(), MAP_FD as int);
}

/// The descriptor that carries a mapping never reaches the guest: whether the host refused the
/// mapping or it is on its way into the window, the guest's own handle stands in the parameters.
pub proof fn law_mapping_descriptor_stays_on_the_host(
    pre: NvidiaBackend,
    guest: u32,
    map_fd: i32,
    data: Seq<u8>,
    post: NvidiaBackend,
    step: Step,
)
    requires
        map_done(pre, guest, map_fd, Ok(()), data, post, step),
        data.len() >= MAP_SIZE,
        post.resp_cap >= BODY + data.len(),
    ensures
        u32_at(with_u32(data, MAP_FD as int, guest), MAP_STATUS as int) != 0 ==> u32_at(
            step->resp@,
            BODY + MAP_FD,
        ) == guest,
        post.pending matches Pending::MapPlace { params, .. } ==> u32_at(params@, MAP_FD as int)
            == guest,
{
    law_fields_read_back(data, MAP_FD as int, guest, 0);
    lemma_body_u32(post, with_u32(data, MAP_FD as int, guest), Seq::empty(), MAP_FD as int);
}

/// The address that an unmap quoted to the host does not come back: the guest reads zero there,
/// whether the host unmapped or refused.
pub proof fn law_unmap_holds_no_address(
    pre: NvidiaBackend,
    key: u64,
    data: Seq<u8>,
    post: NvidiaBackend,
    step: Step,
)
    requires
        unmap_done(pre, key, Ok(()), data, post, step),
        data.len() >= UNMAP_SIZE,
        post.resp_cap >= BODY + data.len(),
    ensures
        u32_at(data, UNMAP_STATUS as int) != 0 ==> u64_at(step->resp@, BODY + UNMAP_LINEAR) == 0,
        post.pending matches Pending::UnmapRestore { params, .. } ==> u64_at(
            params@,
            UNMAP_LINEAR as int,
        ) == 0,
{
    law_fields_read_back(data, UNMAP_LINEAR as int, 0, 0);
    lemma_body_u64(
        post,
        with_u64(data, UNMAP_LINEAR as int, 0),
        Seq::empty(),
        UNMAP_LINEAR as int,
    );
}

/// Neither address of a mapping's description comes back to the guest.
pub proof fn law_mapping_info_holds_no_address(
    pre: NvidiaBackend,
    data: Seq<u8>,
    post: NvidiaBackend,
    step: Step,
)
    requires
        info_done(pre, Ok(()), data, post, step),
        data.len() >= 40,
        post.resp_cap >= BODY + data.len(),
    ensures
        u64_at(step->resp@, BODY + 16) == 0,
        u64_at(step->resp@, BODY + 24) == 0,
{
    let first = with_u64(data, 16, 0);
    let out = with_u64(first, 24, 0);
    law_fields_read_back(data, 16, 0, 0);
    law_fields_read_back(first, 24, 0, 0);
    assert forall|i: int| 0 <= i < 8 implies #[trigger] out[16 + i] == first[16 + i] by {}
    lemma_u64_same(out, 16, first, 16);
    lemma_body_u64(post, out, Seq::empty(), 16);
    lemma_body_u64(post, out, Seq::empty(), 24);
}

/// A handle that has been given out and is closed stays closed: no message opens it again, so a
/// guest that still holds it can reach no other descriptor through it.
pub proof fn law_stale_handles_stay_closed(
    pre: NvidiaBackend,
    e: Event,
    post: NvidiaBackend,
    step: Step,
    h: u64,
)
    requires
        pre.wf(),
        spec_accepts(pre, e),
        resumed(pre, e, post, step),
        !(pre.pending is Teardown),
        h < pre.handles.spec_next(),
        !pre.handles@.contains_key(h),
    ensures
        h < post.handles.spec_next(),
        !post.handles@.contains_key(h),
{
}

/// Nor does the start of a message open it.
pub proof fn law_stale_handles_stay_closed_at_first(
    pre: NvidiaBackend,
    req: Seq<u8>,
    cap: usize,
    post: NvidiaBackend,
    step: Step,
    h: u64,
)
    requires
        pre.wf(),
        dispatched(pre, req, cap, post, step),
        h < pre.handles.spec_next(),
        !pre.handles@.contains_key(h),
    ensures
        h < post.handles.spec_next(),
        !post.handles@.contains_key(h),
{
}

/// An ioctl whose size is not the one that the host's driver version expects is refused under
/// either policy, and nothing of the device changes.
pub proof fn law_wrong_size_is_refused(
    pre: NvidiaBackend,
    req: Seq<u8>,
    cap: usize,
    post: NvidiaBackend,
    step: Step,
)
    requires
        dispatched(pre, req, cap, post, step),
        req.len() >= MSG_HEADER_SIZE + IOCTL_REQ_SIZE,
        MsgHeader::at(req, 0).msg_type == MsgType::Ioctl.code(),
        pre.handles@.contains_key(MsgHeader::at(req, 0).handle as u64),
        ({
            let q = IoctlReq::at(req.skip(MSG_HEADER_SIZE as int), 0);
            &&& req.len() >= MSG_HEADER_SIZE + IOCTL_REQ_SIZE + q.data_len + q.nested_len
                + q.deep_len
            &&& type_of(q.cmd) == NV_IOCTL_MAGIC
            &&& check(table_view(pre.abi), nr_of(q.cmd), q.data_len) is SizeMismatch
        }),
    ensures
        post.same_device(&pre),
        post.pending is Idle,
        step matches Step::Done { resp, .. } && resp@ == error_resp(
            MsgType::Ioctl,
            Status::IoctlFailed,
            EINVAL,
            cap as int,
        ),
{
}

/// Whether parameters of `n` bytes are what the handler of this ioctl reads and writes.
pub open spec fn suits_its_handler(escape: u32, n: u32) -> bool {
    match spec_fd_offset(escape) {
        Some(offset) => offset + 4 <= n,
        None => {
            &&& escape == NV_ESC_RM_CONTROL ==> n == 32
            &&& escape == NV_ESC_RM_ALLOC ==> n == 48
            &&& escape == NV_ESC_RM_MAP_MEMORY ==> n == MAP_SIZE
            &&& escape == NV_ESC_RM_UNMAP_MEMORY ==> n == UNMAP_SIZE
            &&& escape == NV_ESC_RM_UPDATE_DEVICE_MAPPING_INFO ==> n >= 40
        },
    }
}

/// Whether an entry of a profile asks for a size that its handler can work with.
pub open spec fn suits(e: IoctlEntry) -> bool {
    e.param_size matches Some(n) ==> suits_its_handler(e.escape, n)
}

proof fn lemma_found_suits(table: Seq<IoctlEntry>, escape: u32)
    requires
        forall|k: int| 0 <= k < table.len() ==> suits(#[trigger] table[k]),
    ensures
        spec_lookup(table, escape) matches Some(e) ==> e.escape == escape && suits(e),
    decreases table.len(),
{
    if table.len() > 0 && table[0].escape != escape {
        let rest = table.drop_first();
        assert forall|k: int| 0 <= k < rest.len() implies suits(#[trigger] rest[k]) by {
            assert(rest[k] == table[k + 1]);
        }
        lemma_found_suits(rest, escape);
    }
}

/// An ioctl of the size that its profile expects is long enough for every field that its handler
/// replaces: the profiles and the handlers agree on the layouts.
pub proof fn law_profiles_agree_with_the_handlers(v: DriverVersion, escape: u32, n: u32)
    requires
        check(spec_table_for(v), escape, n) == AbiCheck::Accepted,
    ensures
        suits_its_handler(escape, n),
{
    let t = spec_table_for(v)->0;
    assert forall|k: int| 0 <= k < t.len() implies suits(#[trigger] t[k]) by {}
    lemma_found_suits(t, escape);
}

/// A failure, an ioctl response or a bare header fits its buffer.
proof fn lemma_replies_fit(b: NvidiaBackend)
    ensures
        forall|status: Status, errno: i32|
            #[trigger] error_resp(b.current_msg, status, errno, b.resp_cap as int).len()
                <= b.resp_cap,
        forall|handle: u32, status: i32|
            #[trigger] header_resp(b.current_msg, handle, status, b.resp_cap as int).len()
                <= b.resp_cap,
        forall|out: Seq<u8>, deep: Seq<u8>|
            #[trigger] ioctl_resp(
                b.current_msg,
                b.current_handle,
                b.current_data_len,
                out,
                deep,
                b.resp_cap as int,
            ).len() <= b.resp_cap,
{
}

/// No response is longer than the buffer that it goes into.
#[verifier::rlimit(60)]
pub proof fn law_responses_fit(pre: NvidiaBackend, e: Event, post: NvidiaBackend, step: Step)
    requires
        spec_accepts(pre, e),
        resumed(pre, e, post, step),
    ensures
        step matches Step::Done { resp, .. } ==> resp@.len() <= post.resp_cap,
{
    lemma_replies_fit(post);
    if let (Pending::Files(tree), Event::Collected(files)) = (pre.pending, e) {
        let ordered = if tree == FileTree::Proc {
            by_path(views(files@))
        } else {
            views(files@)
        };
        crate::files::lemma_files_fit(tree, ordered, post.resp_cap as int);
    }
}

/// No response to a message that is served at once is longer than the buffer that it goes into.
#[verifier::rlimit(40)]
pub proof fn law_first_responses_fit(
    pre: NvidiaBackend,
    req: Seq<u8>,
    cap: usize,
    post: NvidiaBackend,
    step: Step,
)
    requires
        dispatched(pre, req, cap, post, step),
    ensures
        step matches Step::Done { resp, .. } ==> resp@.len() <= cap,
{
    lemma_replies_fit(post);
    assert(post.resp_cap == cap);
}

} // verus!
