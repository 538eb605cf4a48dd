//! What mapping device memory means for the driver, the window and the guest.
//!
//! The parameters of `RM_MAP_MEMORY` hold the client at 0, the object at 8, the length at 24, the
//! address at 32, a status at 40, flags at 44 and a descriptor at 48; those of `RM_UNMAP_MEMORY` the
//! address at 16 and a status at 24.
use crate::answer_laws::{
    answered, errno_number, is_sized, lemma_answered, lemma_refused, lemma_waits, serving,
    unchanged,
};
use crate::bytes::{lemma_u32_same, lemma_u64_same, u32_at, u64_at, with_u32, with_u64};
use crate::call_laws::{
    escape_of, law_calls_follow_the_message, law_descriptors_are_the_hosts,
    law_unmap_names_the_hosts_address, magic_of, params_of, refused, signed_handle,
};
use crate::mmap::MmapEntry;
use crate::nvidia::{NvidiaBackend, Pending};
use crate::serve::{dispatched, resumed};
use crate::shm::{PgprotKind, ShmRegion};
use crate::step::{Action, Event, HostCall, Step};
use crate::window_laws::{
    free_run, law_restored_regions_are_freed, lemma_taken_lowest, paged,
};
use crate::wire_laws::law_writing_changes_one_field;
use vstd::prelude::*;

verus! {

/// The protection of a mapping with these flags: bits 23 to 25 hold its caching type.
pub open spec fn protection(flags: u32) -> PgprotKind {
    match (flags >> 23) & 7 {
        0 => PgprotKind::WriteBack,
        1 => PgprotKind::Uncached,
        2 => PgprotKind::WriteCombine,
        3 => PgprotKind::Uncached,
        4 => PgprotKind::Uncached,
        5 => PgprotKind::WriteBack,
        6 => PgprotKind::WriteCombine,
        _ => PgprotKind::Uncached,
    }
}

proof fn lemma_caching(flags: u32)
    ensures
        flags / 0x80_0000 % 8 == (flags >> 23) & 7,
{
    assert(flags / 0x80_0000 % 8 == (flags >> 23) & 7) by (bit_vector);
}

/// The handle at 48 is rewritten; the fields before it read as they were left.
proof fn lemma_left(data: Seq<u8>, guest: u32)
    requires
        data.len() >= 56,
    ensures
        with_u32(data, 48, guest).len() == data.len(),
        u32_at(with_u32(data, 48, guest), 0) == u32_at(data, 0),
        u32_at(with_u32(data, 48, guest), 8) == u32_at(data, 8),
        u64_at(with_u32(data, 48, guest), 24) == u64_at(data, 24),
        u64_at(with_u32(data, 48, guest), 32) == u64_at(data, 32),
        u32_at(with_u32(data, 48, guest), 40) == u32_at(data, 40),
        u32_at(with_u32(data, 48, guest), 44) == u32_at(data, 44),
{
    let p = with_u32(data, 48, guest);
    assert forall|i: int| 0 <= i < 48 implies p[i] == data[i] by {
        law_writing_changes_one_field(data, 48, guest, 0, i);
    }
    law_writing_changes_one_field(data, 48, guest, 0, 0);
    lemma_u32_same(p, 0, data, 0);
    lemma_u32_same(p, 8, data, 8);
    lemma_u64_same(p, 24, data, 24);
    lemma_u64_same(p, 32, data, 32);
    lemma_u32_same(p, 40, data, 40);
    lemma_u32_same(p, 44, data, 44);
}

/// The driver has made a mapping, and it is put into the window: all of the length that the driver
/// answered, of the descriptor that the guest named, at the lowest run of pages that is free in the
/// zone of its caching type. Those pages are no longer free; nothing else has changed.
#[verifier::rlimit(30)]
pub proof fn law_mappings_are_placed_whole(
    b0: NvidiaBackend,
    req: Seq<u8>,
    cap: usize,
    b1: NvidiaBackend,
    call: HostCall,
    data: Vec<u8>,
    nested: Vec<u8>,
    deep: Vec<u8>,
    b2: NvidiaBackend,
    offset: u64,
    length: u64,
    fd: i32,
)
    requires
        b0.shm.wf(),
        magic_of(req) != 0x6d,
        escape_of(req) == 0x4e,
        dispatched(b0, req, cap, b1, Step::Do(Action::Ioctl(call))),
        data@.len() == call.data@.len(),
        resumed(
            b1,
            Event::Returned { result: Ok(()), data, nested, deep },
            b2,
            Step::Do(Action::Place { offset, length, fd }),
        ),
    ensures
        length == u64_at(data@, 24),
        length > 0,
        u32_at(data@, 40) == 0,
        b0.handles@.contains_key(signed_handle(u32_at(params_of(req), 48))),
        fd == b0.handles@[signed_handle(u32_at(params_of(req), 48))],
        free_run(b0.shm.zone(protection(u32_at(data@, 44))), offset as int, paged(length)),
        forall|y: int| #[trigger]
            free_run(b0.shm.zone(protection(u32_at(data@, 44))), y, paged(length)) ==> offset <= y,
        forall|x: int| #[trigger]
            b2.shm.zone(protection(u32_at(data@, 44))).free_set().contains(x) <==> b0.shm.zone(
                protection(u32_at(data@, 44)),
            ).free_set().contains(x) && !(offset <= x < offset + paged(length)),
        forall|k: PgprotKind|
            k != protection(u32_at(data@, 44)) ==> #[trigger] b2.shm.zone(k) == b0.shm.zone(k),
        unchanged(b0, NvidiaBackend { shm: b0.shm, ..b2 }),
        serving(b2, req, cap),
        b2.pending matches Pending::MapPlace { params, region, guest } && {
            &&& params@ == with_u32(data@, 48, u32_at(params_of(req), 48))
            &&& region == ShmRegion { offset, length, pgprot: protection(u32_at(data@, 44)) }
            &&& guest == u32_at(params_of(req), 48)
        },
{
    let guest = u32_at(params_of(req), 48);
    lemma_waits(b0, req, cap, b1, call);
    law_calls_follow_the_message(b0, req, cap, b1, call);
    law_descriptors_are_the_hosts(b0, req, cap, b1, call, 48, signed_handle(guest));
    lemma_map_lengths(b0, req, cap, b1, call);
    lemma_left(data@, guest);
    lemma_caching(u32_at(data@, 44));
    let p = protection(u32_at(data@, 44));
    lemma_taken_lowest(b1.shm.zone(p), b2.shm.zone(p), length, Some(offset));
}

/// A mapping is asked for with all of its parameters.
#[verifier::rlimit(30)]
proof fn lemma_map_lengths(
    b0: NvidiaBackend,
    req: Seq<u8>,
    cap: usize,
    b1: NvidiaBackend,
    call: HostCall,
)
    requires
        magic_of(req) != 0x6d,
        escape_of(req) == 0x4e,
        dispatched(b0, req, cap, b1, Step::Do(Action::Ioctl(call))),
    ensures
        call.data@.len() >= 56,
{
    let step = Step::Do(Action::Ioctl(call));
    crate::call_laws::lemma_forwarded(b0, req, cap, b1, step);
    law_descriptors_are_the_hosts(
        b0,
        req,
        cap,
        b1,
        call,
        48,
        signed_handle(u32_at(params_of(req), 48)),
    );
}

/// A mapping that stands in the window is active there: as long as what was placed, with the
/// driver's address of it, the client and the object that the driver answered, and the handle that
/// the guest named. The guest reads the window offset for an address, its own handle, and everywhere
/// else what the driver left.
#[verifier::rlimit(30)]
pub proof fn law_placed_mappings_are_active(
    b0: NvidiaBackend,
    req: Seq<u8>,
    cap: usize,
    b1: NvidiaBackend,
    call: HostCall,
    data: Vec<u8>,
    nested: Vec<u8>,
    deep: Vec<u8>,
    b2: NvidiaBackend,
    offset: u64,
    length: u64,
    fd: i32,
    b3: NvidiaBackend,
    step: Step,
)
    requires
        is_sized(req),
        b0.shm.wf(),
        magic_of(req) != 0x6d,
        escape_of(req) == 0x4e,
        dispatched(b0, req, cap, b1, Step::Do(Action::Ioctl(call))),
        data@.len() == call.data@.len(),
        resumed(
            b1,
            Event::Returned { result: Ok(()), data, nested, deep },
            b2,
            Step::Do(Action::Place { offset, length, fd }),
        ),
        resumed(b2, Event::Placed(Ok(())), b3, step),
    ensures
        unchanged(b0, NvidiaBackend { shm: b0.shm, active_maps: b0.active_maps, ..b3 }),
        b3.shm == b2.shm,
        b3.active_maps@ == b0.active_maps@.insert(
            offset,
            (MmapEntry {
                host_p_linear_address: u64_at(data@, 32),
                shm_length: u64_at(data@, 24),
                h_client: u32_at(data@, 0),
                h_memory: u32_at(data@, 8),
                map_fd_handle: signed_handle(u32_at(params_of(req), 48)),
                region: ShmRegion {
                    offset,
                    length: u64_at(data@, 24),
                    pgprot: protection(u32_at(data@, 44)),
                },
            }),
        ),
        answered(
            step,
            req,
            cap,
            with_u64(with_u32(data@, 48, u32_at(params_of(req), 48)), 32, offset),
            Seq::empty(),
        ),
{
    let guest = u32_at(params_of(req), 48);
    law_mappings_are_placed_whole(
        b0,
        req,
        cap,
        b1,
        call,
        data,
        nested,
        deep,
        b2,
        offset,
        length,
        fd,
    );
    law_calls_follow_the_message(b0, req, cap, b1, call);
    law_descriptors_are_the_hosts(b0, req, cap, b1, call, 48, signed_handle(guest));
    lemma_map_lengths(b0, req, cap, b1, call);
    lemma_left(data@, guest);
    let p = with_u32(data@, 48, guest);
    law_writing_changes_one_field(p, 32, 0, offset, 0);
    lemma_answered(b3, step, req, cap, with_u64(p, 32, offset), Seq::empty());
}

/// A mapping that cannot be put into the window is given up: the window's own memory goes back under
/// it, its pages are free again if that memory is back, and the guest is out of memory.
#[verifier::rlimit(30)]
pub proof fn law_unplaced_mappings_are_given_up(
    b2: NvidiaBackend,
    params: Vec<u8>,
    region: ShmRegion,
    guest: u32,
    errno: i32,
    b3: NvidiaBackend,
    s3: Step,
    restored: Vec<bool>,
    b4: NvidiaBackend,
    s4: Step,
    req: Seq<u8>,
    cap: usize,
    k: PgprotKind,
    x: int,
)
    requires
        serving(b2, req, cap),
        b2.pending == (Pending::MapPlace { params, region, guest }),
        restored@.len() == 1,
        resumed(b2, Event::Placed(Err(errno)), b3, s3),
        resumed(b3, Event::Restored(restored), b4, s4),
    ensures
        s3 matches Step::Do(Action::Restore(regions)) && regions@ == seq![region],
        unchanged(b2, b3),
        unchanged(b2, NvidiaBackend { shm: b2.shm, ..b4 }),
        b4.shm.zone(k).free_set().contains(x) <==> b2.shm.zone(k).free_set().contains(x) || (
        restored@[0] && k == region.pgprot && region.offset <= x < region.offset + paged(
            region.length,
        )),
        refused(s4, 3, cap, 12),
{
    law_restored_regions_are_freed(b3.shm, b4.shm, seq![region], restored@, k, x);
    assert(seq![region][0] == region);
    lemma_refused(b4, s4, req, cap, 12);
}

/// A mapping that the driver does not make takes nothing: the guest reads the driver's errno, or
/// its status with the guest's own handle in place. One that it makes is refused only where no run
/// of pages in the zone of its caching type has room for it.
#[verifier::rlimit(30)]
pub proof fn law_refused_mappings_take_nothing(
    b0: NvidiaBackend,
    req: Seq<u8>,
    cap: usize,
    b1: NvidiaBackend,
    call: HostCall,
    result: core::result::Result<(), i32>,
    data: Vec<u8>,
    nested: Vec<u8>,
    deep: Vec<u8>,
    b2: NvidiaBackend,
    step: Step,
)
    requires
        is_sized(req),
        b0.shm.wf(),
        magic_of(req) != 0x6d,
        escape_of(req) == 0x4e,
        dispatched(b0, req, cap, b1, Step::Do(Action::Ioctl(call))),
        data@.len() == call.data@.len(),
        result matches Err(errno) ==> errno > i32::MIN,
        resumed(b1, Event::Returned { result, data, nested, deep }, b2, step),
    ensures
        result matches Err(errno) ==> refused(step, 3, cap, errno_number(errno)) && unchanged(
            b0,
            b2,
        ),
        result is Ok && u32_at(data@, 40) != 0 ==> unchanged(b0, b2) && answered(
            step,
            req,
            cap,
            with_u32(data@, 48, u32_at(params_of(req), 48)),
            Seq::empty(),
        ),
        result is Ok && u32_at(data@, 40) == 0 ==> if u64_at(data@, 24) > 0 && exists|y: int| #[trigger]
            free_run(b0.shm.zone(protection(u32_at(data@, 44))), y, paged(u64_at(data@, 24))) {
            step matches Step::Do(Action::Place { .. })
        } else {
            &&& refused(step, 3, cap, 12)
            &&& forall|k: PgprotKind, x: int| #[trigger]
                b2.shm.zone(k).free_set().contains(x) <==> b0.shm.zone(k).free_set().contains(x)
            &&& unchanged(b0, NvidiaBackend { shm: b0.shm, ..b2 })
        },
{
    let guest = u32_at(params_of(req), 48);
    lemma_waits(b0, req, cap, b1, call);
    law_calls_follow_the_message(b0, req, cap, b1, call);
    law_descriptors_are_the_hosts(b0, req, cap, b1, call, 48, signed_handle(guest));
    lemma_map_lengths(b0, req, cap, b1, call);
    lemma_left(data@, guest);
    lemma_caching(u32_at(data@, 44));
    let p = protection(u32_at(data@, 44));
    match result {
        Err(errno) => lemma_refused(b2, step, req, cap, errno),
        Ok(_) => {
            if u32_at(data@, 40) != 0 {
                lemma_answered(b2, step, req, cap, with_u32(data@, 48, guest), Seq::empty());
            } else if step is Done {
                lemma_refused(b2, step, req, cap, 12);
                lemma_taken_lowest(b1.shm.zone(p), b2.shm.zone(p), u64_at(data@, 24), None);
                assert forall|k: PgprotKind, x: int| #[trigger]
                    b2.shm.zone(k).free_set().contains(x) <==> b0.shm.zone(k).free_set().contains(
                        x,
                    ) by {
                    if k != p {
                        assert(b2.shm.zone(k) == b0.shm.zone(k));
                    }
                }
            } else {
                let offset = step->Do_0->Place_offset;
                lemma_taken_lowest(b1.shm.zone(p), b2.shm.zone(p), u64_at(data@, 24), Some(offset));
            }
        },
    }
}

/// Once the driver has unmapped what stands at a window offset, the mapping is no longer active, and
/// the window's own memory goes back under all of it. Where the driver refuses, the mapping stays,
/// and the guest reads the errno, or what the driver left without an address. Unmapping what is not
/// mapped here goes as the driver says.
#[verifier::rlimit(30)]
pub proof fn law_unmapping_forgets_the_mapping(
    b0: NvidiaBackend,
    req: Seq<u8>,
    cap: usize,
    b1: NvidiaBackend,
    call: HostCall,
    result: core::result::Result<(), i32>,
    data: Vec<u8>,
    nested: Vec<u8>,
    deep: Vec<u8>,
    b2: NvidiaBackend,
    step: Step,
)
    requires
        is_sized(req),
        magic_of(req) != 0x6d,
        escape_of(req) == 0x4f,
        dispatched(b0, req, cap, b1, Step::Do(Action::Ioctl(call))),
        data@.len() == call.data@.len(),
        result matches Err(errno) ==> errno > i32::MIN,
        resumed(b1, Event::Returned { result, data, nested, deep }, b2, step),
    ensures
        ({
            let at = u64_at(params_of(req), 16);
            let mapped = b0.active_maps@.contains_key(at);
            match result {
                Err(errno) => unchanged(b0, b2) && refused(step, 3, cap, errno_number(errno)),
                Ok(_) => if !mapped {
                    unchanged(b0, b2) && answered(step, req, cap, data@, Seq::empty())
                } else if u32_at(data@, 24) != 0 {
                    unchanged(b0, b2) && answered(
                        step,
                        req,
                        cap,
                        with_u64(data@, 16, 0),
                        Seq::empty(),
                    )
                } else {
                    &&& unchanged(b0, NvidiaBackend { active_maps: b0.active_maps, ..b2 })
                    &&& b2.active_maps@ == b0.active_maps@.remove(at)
                    &&& step matches Step::Do(Action::Restore(regions)) && regions@
                        == seq![b0.active_maps@[at].region]
                    &&& serving(b2, req, cap)
                    &&& b2.pending matches Pending::UnmapRestore { params, region } && params@
                        == with_u64(data@, 16, 0) && region == b0.active_maps@[at].region
                },
            }
        }),
{
    lemma_waits(b0, req, cap, b1, call);
    law_calls_follow_the_message(b0, req, cap, b1, call);
    law_unmap_names_the_hosts_address(b0, req, cap, b1, call);
    law_writing_changes_one_field(data@, 16, 0, 0, 0);
    let mapped = b0.active_maps@.contains_key(u64_at(params_of(req), 16));
    match result {
        Err(errno) => lemma_refused(b2, step, req, cap, errno),
        Ok(_) => {
            if !mapped {
                lemma_answered(b2, step, req, cap, data@, Seq::empty());
            } else if u32_at(data@, 24) != 0 {
                lemma_answered(b2, step, req, cap, with_u64(data@, 16, 0), Seq::empty());
            }
        },
    }
}

/// Once the memory of an unmapped mapping is back, its pages are free again, and the guest reads what
/// the driver left. Pages whose memory is not back stay taken.
#[verifier::rlimit(30)]
pub proof fn law_unmapped_pages_are_free_again(
    b: NvidiaBackend,
    params: Vec<u8>,
    region: ShmRegion,
    restored: Vec<bool>,
    after: NvidiaBackend,
    step: Step,
    req: Seq<u8>,
    cap: usize,
    k: PgprotKind,
    x: int,
)
    requires
        serving(b, req, cap),
        b.pending == (Pending::UnmapRestore { params, region }),
        params@.len() <= u32::MAX,
        restored@.len() == 1,
        resumed(b, Event::Restored(restored), after, step),
    ensures
        unchanged(b, NvidiaBackend { shm: b.shm, ..after }),
        after.shm.zone(k).free_set().contains(x) <==> b.shm.zone(k).free_set().contains(x) || (
        restored@[0] && k == region.pgprot && region.offset <= x < region.offset + paged(
            region.length,
        )),
        answered(step, req, cap, params@, Seq::empty()),
{
    law_restored_regions_are_freed(b.shm, after.shm, seq![region], restored@, k, x);
    assert(seq![region][0] == region);
    lemma_answered(after, step, req, cap, params@, Seq::empty());
}

} // verus!
