//! Mapping device memory into the shared window and out of it.
use crate::bytes::{get_u32, get_u64, i32_bits, i32_to_bits, put_u32, put_u64, u32_at, u64_at, with_u32, with_u64};
use crate::errno::{EINVAL, ENOMEM};
use crate::forward::{sign_extend, sign_extended, Forward};
use crate::mmap::MmapEntry;
use crate::nvidia::{NvidiaBackend, Pending};
use crate::regions::{gives_back, holds, lemma_allocate_holds, lemma_release_holds, release};
use crate::response::Status;
use crate::shm::{PgprotKind, ShmRegion};
use crate::step::{Action, HostCall, Step};
use crate::zone::{first_fit_taken, round_up, PAGE_SIZE};
use vstd::prelude::*;
use vstd::slice::slice_to_vec;

verus! {

/// The size of `RM_MAP_MEMORY`'s parameters, and where its fields stand.
pub const MAP_SIZE: usize = 56;

pub const MAP_CLIENT: usize = 0;

pub const MAP_MEMORY: usize = 8;

pub const MAP_LENGTH: usize = 24;

pub const MAP_LINEAR: usize = 32;

pub const MAP_STATUS: usize = 40;

pub const MAP_FLAGS: usize = 44;

pub const MAP_FD: usize = 48;

/// The size of `RM_UNMAP_MEMORY`'s parameters, and where its fields stand.
pub const UNMAP_SIZE: usize = 32;

pub const UNMAP_LINEAR: usize = 16;

pub const UNMAP_STATUS: usize = 24;

/// The zone that a mapping with these flags goes into, told by its caching type in bits 23 to 25.
pub open spec fn spec_zone_for(flags: u32) -> PgprotKind {
    let caching = flags / 0x80_0000 % 8;
    if caching == 0 || caching == 5 {
        PgprotKind::WriteBack
    } else if caching == 2 || caching == 6 {
        PgprotKind::WriteCombine
    } else {
        PgprotKind::Uncached
    }
}

pub fn zone_for(flags: u32) -> (r: PgprotKind)
    ensures
        r == spec_zone_for(flags),
{
    match flags / 0x80_0000 % 8 {
        0 | 5 => PgprotKind::WriteBack,
        2 | 6 => PgprotKind::WriteCombine,
        _ => PgprotKind::Uncached,
    }
}

/// The start of `RM_MAP_MEMORY`: the host gets its own descriptor where the guest wrote a handle.
pub open spec fn map_started(pre: NvidiaBackend, f: Forward, post: NvidiaBackend, step: Step) -> bool {
    let guest = u32_at(f.param@, MAP_FD as int);
    let key = sign_extended(guest);
    &&& post.same_device(&pre)
    &&& post.same_message(&pre)
    &&& if f.param@.len() < MAP_SIZE {
        post.fails(step, Status::IoctlFailed, EINVAL)
    } else if !pre.handles@.contains_key(key) {
        post.fails(step, Status::BadHandle, 0)
    } else {
        &&& post.calls(step, f.flat(with_u32(f.param@, MAP_FD as int, i32_bits(pre.handles@[key]))))
        &&& post.pending == Pending::MapMemory { guest, map_fd: pre.handles@[key] }
    }
}

/// The host has made the mapping, or has refused.
///
/// A refusal goes back as it is, with the guest's own handle in it. A mapping gets room in the
/// zone of its caching type and is then put there; without room the guest is out of memory.
pub open spec fn map_done(
    pre: NvidiaBackend,
    guest: u32,
    map_fd: i32,
    result: core::result::Result<(), i32>,
    data: Seq<u8>,
    post: NvidiaBackend,
    step: Step,
) -> bool {
    let params = with_u32(data, MAP_FD as int, guest);
    let length = u64_at(params, MAP_LENGTH as int);
    let pgprot = spec_zone_for(u32_at(params, MAP_FLAGS as int));
    let before = pre.shm.zone(pgprot);
    let after = post.shm.zone(pgprot);
    let want = round_up(length as int, PAGE_SIZE as int);
    &&& post.same_message(&pre)
    &&& post.handles == pre.handles && post.active_maps == pre.active_maps && post.driver
        == pre.driver && post.abi == pre.abi && post.policy == pre.policy && post.watches
        == pre.watches
    &&& post.shm.differs_only_in(&pre.shm, pgprot)
    &&& after.same_place(before)
    &&& match result {
        Err(errno) => post.shm == pre.shm && post.fails(step, Status::IoctlFailed, errno),
        Ok(_) => if u32_at(params, MAP_STATUS as int) != 0 {
            post.shm == pre.shm && post.answers(step, params, Seq::empty())
        } else {
            ||| {
                &&& first_fit_taken(
                    before.free_list(),
                    after.free_list(),
                    want,
                    before.spec_base(),
                    None,
                )
                &&& post.fails(step, Status::IoctlFailed, ENOMEM)
            }
            ||| {
                &&& step matches Step::Do(Action::Place { offset, length: l, fd })
                &&& l == length && fd == map_fd
                &&& first_fit_taken(
                    before.free_list(),
                    after.free_list(),
                    want,
                    before.spec_base(),
                    Some(offset),
                )
                &&& post.pending matches Pending::MapPlace { params: p, region, guest: g }
                &&& p@ == params && g == guest
                &&& region == ShmRegion { offset, length, pgprot }
            }
        },
    }
}

/// The mapping that `params` describe, once it stands in `region`.
pub open spec fn mapping_in(params: Seq<u8>, region: ShmRegion, guest: u32) -> MmapEntry {
    MmapEntry {
        host_p_linear_address: u64_at(params, MAP_LINEAR as int),
        shm_length: region.length,
        h_client: u32_at(params, MAP_CLIENT as int),
        h_memory: u32_at(params, MAP_MEMORY as int),
        map_fd_handle: sign_extended(guest),
        region,
    }
}

/// The mapping stands in the window, or could not be put there.
///
/// The guest gets the window offset where the host's address stood. Where the mapping could not be
/// put, the window's own memory is to go back under its region.
pub open spec fn place_done(
    pre: NvidiaBackend,
    params: Seq<u8>,
    region: ShmRegion,
    guest: u32,
    result: core::result::Result<(), i32>,
    post: NvidiaBackend,
    step: Step,
) -> bool {
    &&& post.same_message(&pre)
    &&& post.handles == pre.handles && post.shm == pre.shm && post.driver == pre.driver && post.abi
        == pre.abi && post.policy == pre.policy && post.watches == pre.watches
    &&& match result {
        Err(_) => {
            &&& post.active_maps == pre.active_maps
            &&& step matches Step::Do(Action::Restore(regions)) && regions@ == seq![region]
            &&& post.pending == Pending::PlaceRestore(region)
        },
        Ok(_) => {
            &&& post.active_maps@ == pre.active_maps@.insert(
                region.offset,
                mapping_in(params, region, guest),
            )
            &&& post.answers(
                step,
                with_u64(params, MAP_LINEAR as int, region.offset),
                Seq::empty(),
            )
        },
    }
}

/// The region that a mapping could not be put into is free again, if its memory is back. The guest
/// is out of memory.
pub open spec fn place_restored(
    pre: NvidiaBackend,
    region: ShmRegion,
    restored: Seq<bool>,
    post: NvidiaBackend,
    step: Step,
) -> bool {
    &&& post.same_message(&pre)
    &&& post.handles == pre.handles && post.active_maps == pre.active_maps && post.driver
        == pre.driver && post.abi == pre.abi && post.policy == pre.policy && post.watches
        == pre.watches
    &&& gives_back(pre.shm, post.shm, seq![region], restored)
    &&& post.fails(step, Status::IoctlFailed, ENOMEM)
}

/// The start of `RM_UNMAP_MEMORY`: where the address is the offset of a mapping, the host gets its
/// own address of it; else it gets what the guest sent.
pub open spec fn unmap_started(pre: NvidiaBackend, f: Forward, post: NvidiaBackend, step: Step) -> bool {
    let key = u64_at(f.param@, UNMAP_LINEAR as int);
    &&& post.same_device(&pre)
    &&& post.same_message(&pre)
    &&& if f.param@.len() < UNMAP_SIZE {
        post.fails(step, Status::IoctlFailed, EINVAL)
    } else if !pre.active_maps@.contains_key(key) {
        post.calls(step, f.flat(f.param@)) && post.pending is UnmapUnknown
    } else {
        &&& post.calls(
            step,
            f.flat(
                with_u64(
                    f.param@,
                    UNMAP_LINEAR as int,
                    pre.active_maps@[key].host_p_linear_address,
                ),
            ),
        )
        &&& post.pending == Pending::Unmap { key }
    }
}

/// The end of an unmap of something that is not mapped here.
pub open spec fn unmap_unknown_done(
    pre: NvidiaBackend,
    result: core::result::Result<(), i32>,
    data: Seq<u8>,
    post: NvidiaBackend,
    step: Step,
) -> bool {
    &&& post.same_device(&pre)
    &&& post.same_message(&pre)
    &&& match result {
        Err(errno) => post.fails(step, Status::IoctlFailed, errno),
        Ok(_) => post.answers(step, data, Seq::empty()),
    }
}

/// The host has unmapped, or has refused.
///
/// Once it has, the mapping is forgotten and the window's own memory goes back under it. Where it
/// has not, the mapping stays.
pub open spec fn unmap_done(
    pre: NvidiaBackend,
    key: u64,
    result: core::result::Result<(), i32>,
    data: Seq<u8>,
    post: NvidiaBackend,
    step: Step,
) -> bool {
    let params = with_u64(data, UNMAP_LINEAR as int, 0);
    &&& post.same_message(&pre)
    &&& post.handles == pre.handles && post.shm == pre.shm && post.driver == pre.driver && post.abi
        == pre.abi && post.policy == pre.policy && post.watches == pre.watches
    &&& match result {
        Err(errno) => post.active_maps == pre.active_maps && post.fails(
            step,
            Status::IoctlFailed,
            errno,
        ),
        Ok(_) => if u32_at(data, UNMAP_STATUS as int) != 0 {
            post.active_maps == pre.active_maps && post.answers(step, params, Seq::empty())
        } else {
            let region = pre.active_maps@[key].region;
            &&& post.active_maps@ == pre.active_maps@.remove(key)
            &&& step matches Step::Do(Action::Restore(regions)) && regions@ == seq![region]
            &&& post.pending matches Pending::UnmapRestore { params: p, region: r } && p@ == params
                && r == region
        },
    }
}

/// The region of an unmapped mapping is free again, if its memory is back.
pub open spec fn unmap_restored(
    pre: NvidiaBackend,
    params: Seq<u8>,
    region: ShmRegion,
    restored: Seq<bool>,
    post: NvidiaBackend,
    step: Step,
) -> bool {
    &&& post.same_message(&pre)
    &&& post.handles == pre.handles && post.active_maps == pre.active_maps && post.driver
        == pre.driver && post.abi == pre.abi && post.policy == pre.policy && post.watches
        == pre.watches
    &&& gives_back(pre.shm, post.shm, seq![region], restored)
    &&& post.answers(step, params, Seq::empty())
}

impl NvidiaBackend {
    pub(crate) fn dispatch_map_memory(&mut self, f: &Forward) -> (step: Step)
        requires
            old(self).wf(),
            old(self).pending is Idle,
        ensures
            final(self).wf(),
            map_started(*old(self), *f, *final(self), step),
    {
        if f.param.len() < MAP_SIZE {
            return self.fail(Status::IoctlFailed, EINVAL);
        }
        let guest: u32 = get_u32(f.param, MAP_FD);
        match self.handles.get_raw(sign_extend(guest)) {
            Ok(map_fd) => {
                let mut data: Vec<u8> = slice_to_vec(f.param);
                put_u32(&mut data, MAP_FD, i32_to_bits(map_fd));
                self.ask(
                    HostCall::flat(f.fd, f.cmd as u64, f.check, data),
                    Pending::MapMemory { guest, map_fd },
                )
            },
            Err(_) => self.fail(Status::BadHandle, 0),
        }
    }

    pub(crate) fn map_returned(
        &mut self,
        guest: u32,
        map_fd: i32,
        result: core::result::Result<(), i32>,
        data: Vec<u8>,
    ) -> (step: Step)
        requires
            old(self).wf(),
            old(self).pending == (Pending::MapMemory { guest, map_fd }),
            data@.len() == old(self).sent.data,
            result matches Err(e) ==> e > i32::MIN,
        ensures
            final(self).wf(),
            map_done(*old(self), guest, map_fd, result, data@, *final(self), step),
    {
        let none: Vec<u8> = Vec::new();
        match result {
            Err(errno) => self.fail(Status::IoctlFailed, errno),
            Ok(_) => {
                let mut params: Vec<u8> = data;
                put_u32(&mut params, MAP_FD, guest);
                if get_u32(params.as_slice(), MAP_STATUS) != 0 {
                    return self.answer(&params, &none);
                }
                let length: u64 = get_u64(params.as_slice(), MAP_LENGTH);
                let pgprot: PgprotKind = zone_for(get_u32(params.as_slice(), MAP_FLAGS));
                let ghost before = self.shm;
                match self.shm.allocate(length, pgprot) {
                    Err(_) => {
                        proof {
                            lemma_unchanged_holds(before, self.shm, self.active_maps@, pgprot);
                        }
                        self.fail(Status::IoctlFailed, ENOMEM)
                    },
                    Ok(region) => {
                        proof {
                            lemma_allocate_holds(before, self.shm, self.active_maps@, region);
                        }
                        self.pending = Pending::MapPlace { params, region, guest };
                        Step::Do(Action::Place { offset: region.offset, length, fd: map_fd })
                    },
                }
            },
        }
    }

    pub(crate) fn map_placed(
        &mut self,
        params: Vec<u8>,
        region: ShmRegion,
        guest: u32,
        result: core::result::Result<(), i32>,
    ) -> (step: Step)
        requires
            old(self).wf(),
            old(self).pending matches Pending::MapPlace { params: p, region: r, guest: g } && p@
                == params@ && r == region && g == guest,
        ensures
            final(self).wf(),
            place_done(*old(self), params@, region, guest, result, *final(self), step),
    {
        match result {
            Err(_) => {
                let mut regions: Vec<ShmRegion> = Vec::new();
                regions.push(region);
                self.pending = Pending::PlaceRestore(region);
                Step::Do(Action::Restore(regions))
            },
            Ok(_) => {
                let entry: MmapEntry = MmapEntry {
                    host_p_linear_address: get_u64(params.as_slice(), MAP_LINEAR),
                    shm_length: region.length,
                    h_client: get_u32(params.as_slice(), MAP_CLIENT),
                    h_memory: get_u32(params.as_slice(), MAP_MEMORY),
                    map_fd_handle: sign_extend(guest),
                    region,
                };
                let ghost maps = self.active_maps@;
                self.active_maps.insert(region.offset, entry);
                let mut out: Vec<u8> = params;
                put_u64(&mut out, MAP_LINEAR, region.offset);
                proof {
                    assert(seq![region][0] == region);
                    assert(holds(self.shm, maps, seq![region]));
                    assert(holds(self.shm, maps.insert(region.offset, entry), Seq::empty()));
                }
                let none: Vec<u8> = Vec::new();
                self.answer(&out, &none)
            },
        }
    }

    pub(crate) fn place_memory_restored(
        &mut self,
        region: ShmRegion,
        restored: Vec<bool>,
    ) -> (step: Step)
        requires
            old(self).wf(),
            old(self).pending == Pending::PlaceRestore(region),
            restored@.len() == 1,
        ensures
            final(self).wf(),
            place_restored(*old(self), region, restored@, *final(self), step),
    {
        let mut regions: Vec<ShmRegion> = Vec::new();
        regions.push(region);
        assert(regions@ =~= seq![region]);
        let ghost before = self.shm;
        release(&mut self.shm, &regions, &restored);
        proof {
            lemma_release_holds(before, self.shm, self.active_maps@, seq![region], restored@);
        }
        self.fail(Status::IoctlFailed, ENOMEM)
    }

    pub(crate) fn dispatch_unmap_memory(&mut self, f: &Forward) -> (step: Step)
        requires
            old(self).wf(),
            old(self).pending is Idle,
        ensures
            final(self).wf(),
            unmap_started(*old(self), *f, *final(self), step),
    {
        if f.param.len() < UNMAP_SIZE {
            return self.fail(Status::IoctlFailed, EINVAL);
        }
        let key: u64 = get_u64(f.param, UNMAP_LINEAR);
        let mut data: Vec<u8> = slice_to_vec(f.param);
        let found: Option<u64> = match self.active_maps.find_by_offset(key) {
            Some(entry) => Some(entry.host_p_linear_address),
            None => None,
        };
        match found {
            Some(addr) => {
                put_u64(&mut data, UNMAP_LINEAR, addr);
                self.ask(HostCall::flat(f.fd, f.cmd as u64, f.check, data), Pending::Unmap { key })
            },
            None => self.ask(
                HostCall::flat(f.fd, f.cmd as u64, f.check, data),
                Pending::UnmapUnknown,
            ),
        }
    }

    pub(crate) fn unmap_unknown_returned(
        &mut self,
        result: core::result::Result<(), i32>,
        data: Vec<u8>,
    ) -> (step: Step)
        requires
            old(self).wf(),
            old(self).pending is UnmapUnknown,
            result matches Err(e) ==> e > i32::MIN,
        ensures
            final(self).wf(),
            unmap_unknown_done(*old(self), result, data@, *final(self), step),
    {
        match result {
            Err(errno) => self.fail(Status::IoctlFailed, errno),
            Ok(_) => {
                let none: Vec<u8> = Vec::new();
                self.answer(&data, &none)
            },
        }
    }

    pub(crate) fn unmap_returned(
        &mut self,
        key: u64,
        result: core::result::Result<(), i32>,
        data: Vec<u8>,
    ) -> (step: Step)
        requires
            old(self).wf(),
            old(self).pending == (Pending::Unmap { key }),
            data@.len() == old(self).sent.data,
            result matches Err(e) ==> e > i32::MIN,
        ensures
            final(self).wf(),
            unmap_done(*old(self), key, result, data@, *final(self), step),
    {
        let none: Vec<u8> = Vec::new();
        match result {
            Err(errno) => self.fail(Status::IoctlFailed, errno),
            Ok(_) => {
                let status: u32 = get_u32(data.as_slice(), UNMAP_STATUS);
                let mut params: Vec<u8> = data;
                put_u64(&mut params, UNMAP_LINEAR, 0);
                if status != 0 {
                    return self.answer(&params, &none);
                }
                let ghost maps = self.active_maps@;
                match self.active_maps.remove(key) {
                    Some(entry) => {
                        let region: ShmRegion = entry.region;
                        let mut regions: Vec<ShmRegion> = Vec::new();
                        regions.push(region);
                        proof {
                            assert(seq![region][0] == region);
                            assert(holds(self.shm, maps.remove(key), seq![region]));
                        }
                        self.pending = Pending::UnmapRestore { params, region };
                        Step::Do(Action::Restore(regions))
                    },
                    None => self.answer(&params, &none),
                }
            },
        }
    }

    pub(crate) fn unmap_memory_restored(
        &mut self,
        params: Vec<u8>,
        region: ShmRegion,
        restored: Vec<bool>,
    ) -> (step: Step)
        requires
            old(self).wf(),
            old(self).pending matches Pending::UnmapRestore { params: p, region: r } && p@ == params@
                && r == region,
            restored@.len() == 1,
        ensures
            final(self).wf(),
            unmap_restored(*old(self), params@, region, restored@, *final(self), step),
    {
        let mut regions: Vec<ShmRegion> = Vec::new();
        regions.push(region);
        assert(regions@ =~= seq![region]);
        let ghost before = self.shm;
        release(&mut self.shm, &regions, &restored);
        proof {
            lemma_release_holds(before, self.shm, self.active_maps@, seq![region], restored@);
        }
        let none: Vec<u8> = Vec::new();
        self.answer(&params, &none)
    }
}

/// A zone that gave nothing out leaves every mapping in place.
proof fn lemma_unchanged_holds(
    before: crate::shm::ShmAllocator,
    after: crate::shm::ShmAllocator,
    maps: Map<u64, MmapEntry>,
    pgprot: PgprotKind,
)
    requires
        holds(before, maps, Seq::empty()),
        after.differs_only_in(&before, pgprot),
        after.zone(pgprot).same_place(before.zone(pgprot)),
        after.zone(pgprot).free_list() == before.zone(pgprot).free_list(),
    ensures
        holds(after, maps, Seq::empty()),
{
    assert forall|k: u64| #[trigger] maps.contains_key(k) implies crate::regions::in_use(
        after,
        maps[k].region,
    ) by {
        let r = maps[k].region;
        if r.pgprot != pgprot {
            assert(after.zone(r.pgprot) == before.zone(r.pgprot));
        } else {
            assert(after.zone(pgprot).free_set() =~= before.zone(pgprot).free_set());
        }
    }
}

} // verus!
