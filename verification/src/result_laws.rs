//! What single functions give back, whatever they are given.
use crate::abi::AbiPolicy;
use crate::bus_laws::{
    law_guard_stands_behind_the_buffer, law_notifications_go_first,
    law_requests_are_the_readable_descriptors, law_responses_go_last, law_slots_hold_a_gpu,
};
use crate::bytes::{i32_bits, u32_at};
use crate::client::{build_check_version_str, build_close, build_open_ctl, read_header};
use crate::client_laws::{
    law_close_request_bytes, law_open_request_bytes, law_version_request_bytes,
};
use crate::error::{DeviceError, Result};
use crate::files::{by_path, keep, views, visit, EntryKind, HostFile, Visit};
use crate::guarded::GuardedBuf;
use crate::handle_table::HandleTable;
use crate::host::gpu_slots;
use crate::ioctl::{lemma_ioc_fields, _IO, _IOC, _IOR, _IOW, _IOWR};
use crate::messages::{MsgHeader, MsgType};
use crate::mmap::{MmapContext, MmapEntry};
use crate::nvidia::NvidiaBackend;
use crate::paths::{spec_file_name, texts};
use crate::pump::event_ready_bytes;
use crate::shm::{PgprotKind, ShmAllocator, ZoneConfig};
use crate::staging::{dangles, refuses, soname_link, verdict, Verdict};
use crate::transport::{kick, plan_event, plan_request, ChainPlan, Descriptor, Kick};
use crate::types::{NvHandle, NvStatus};
use crate::userspace::{load_manifest, Capability, Entry, ManifestFile, UserspaceError};
use crate::virtio::{GpuSlot, VirtioGpuNvConfig};
use crate::window_laws::{law_free_bytes_are_counted, law_fresh_zones_are_free};
use crate::wire_laws::law_header_layout;
use vstd::prelude::*;
use vstd::utf8::encode_utf8;

verus! {

/// An ioctl number holds the direction in its top two bits, then the size, the type `F` and the
/// number: nothing is copied under direction 0, the guest writes under 1, reads under 2, and does both
/// under 3.
pub proof fn law_ioctl_numbers(nr: u32, size: u32, a: u64, b: u64, c: u64, d: u64)
    requires
        nr < 0x100,
        size < 0x4000,
        call_ensures(_IO, (nr,), a),
        call_ensures(_IOW, (nr, size), b),
        call_ensures(_IOR, (nr, size), c),
        call_ensures(_IOWR, (nr, size), d),
    ensures
        a == 0x4600 + nr,
        b == 0x4000_4600 + size * 0x1_0000 + nr,
        c == 0x8000_4600 + size * 0x1_0000 + nr,
        d == 0xc000_4600 + size * 0x1_0000 + nr,
{
    lemma_ioc_fields(0, 0x46, nr, 0);
    lemma_ioc_fields(1, 0x46, nr, size);
    lemma_ioc_fields(2, 0x46, nr, size);
    lemma_ioc_fields(3, 0x46, nr, size);
}

/// An ioctl number of any type holds its four parts.
pub proof fn law_ioctl_number_parts(dir: u32, ty: u32, nr: u32, size: u32, r: u64)
    requires
        dir < 4,
        ty < 0x100,
        nr < 0x100,
        size < 0x4000,
        call_ensures(_IOC, (dir, ty, nr, size), r),
    ensures
        r == dir * 0x4000_0000 + size * 0x1_0000 + ty * 0x100 + nr,
{
}

/// A kick on the first queue is served once guest memory is known; one on the second asks for
/// nothing, and there is no other queue.
pub proof fn law_kicks(queue: u16, has_memory: bool, r: Kick)
    requires
        call_ensures(kick, (queue, has_memory), r),
    ensures
        r == Kick::Serve <==> queue == 0 && has_memory,
        r == Kick::NoMemory <==> queue == 0 && !has_memory,
        r == Kick::Ignore <==> queue == 1,
        r == Kick::Unknown <==> queue >= 2,
{
}

/// A chain's request is what the device may read of it, and its response goes where it may write
/// last.
pub proof fn law_chains_are_planned(chain: Vec<Descriptor>, r: ChainPlan)
    requires
        chain@.len() <= usize::MAX,
        call_ensures(plan_request, (&chain,), r),
    ensures
        forall|i: usize| #[trigger]
            r.request@.contains(i) <==> i < chain@.len() && !chain@[i as int].write_only,
        r.response is None <==> forall|j: int|
            0 <= j < chain@.len() ==> !(#[trigger] chain@[j]).write_only,
        r.response matches Some((i, n)) ==> {
            &&& i < chain@.len()
            &&& chain@[i as int].write_only
            &&& forall|j: int| i < j < chain@.len() ==> !(#[trigger] chain@[j]).write_only
            &&& n <= 65536
            &&& n <= chain@[i as int].len
            &&& n == 65536 || n == chain@[i as int].len
        },
{
    law_requests_are_the_readable_descriptors(chain@);
    law_responses_go_last(chain@);
}

/// A notification goes where the device may write first, cut to what fits there.
pub proof fn law_notifications_are_planned(
    chain: Vec<Descriptor>,
    size: usize,
    r: Option<(usize, usize)>,
)
    requires
        call_ensures(plan_event, (&chain, size), r),
    ensures
        r is None <==> forall|j: int|
            0 <= j < chain@.len() ==> !(#[trigger] chain@[j]).write_only,
        r matches Some((i, n)) ==> {
            &&& i < chain@.len()
            &&& chain@[i as int].write_only
            &&& forall|j: int| 0 <= j < i ==> !(#[trigger] chain@[j]).write_only
            &&& n <= size
            &&& n <= chain@[i as int].len
            &&& n == size || n == chain@[i as int].len
        },
{
    law_notifications_go_first(chain@);
}

/// A tree is walked four levels deep, never through a link, and a file of up to 65536 bytes is taken.
pub proof fn law_trees_are_walked(kind: EntryKind, len: u64, depth: usize, r: Visit)
    requires
        call_ensures(visit, (kind, len, depth), r),
    ensures
        r == Visit::Descend <==> kind == EntryKind::Directory && depth < 4,
        r == Visit::Take <==> kind == EntryKind::Regular && len <= 65536,
        kind == EntryKind::Symlink || kind == EntryKind::Other ==> r == Visit::Pass,
{
}

/// A file that has grown past 65536 bytes is not kept.
pub proof fn law_large_files_are_not_kept(content: Vec<u8>, r: bool)
    requires
        call_ensures(keep, (&content,), r),
    ensures
        r <==> content@.len() <= 65536,
{
}

/// A buffer has its bytes, at least 4096 readable ones behind them, and a guard page behind those.
pub proof fn law_buffers_are_guarded(len: usize, r: Option<GuardedBuf>, guard: usize)
    requires
        call_ensures(GuardedBuf::new, (len,), r),
        r is Some,
        call_ensures(GuardedBuf::guard, (&r->0,), guard),
    ensures
        len > 0,
        r->0.offset == 0,
        r->0.len == len,
        guard >= len + 4096,
        guard < len + 2 * 4096,
        guard as int % 4096 == 0,
        r->0.mapped == guard + 4096,
{
    law_guard_stands_behind_the_buffer(r->0);
}

/// No bytes have no buffer, and any other number has one as long as it can be mapped.
pub proof fn law_buffers_exist(len: usize, r: Option<GuardedBuf>)
    requires
        call_ensures(GuardedBuf::new, (len,), r),
        len <= 0x7fff_0000,
    ensures
        r is Some <==> len > 0,
{
}

/// A notification is sixteen bytes: its type, the handle, and nothing else.
pub proof fn law_notification_bytes(msg_type: u32, handle: u32, r: Vec<u8>)
    requires
        call_ensures(event_ready_bytes, (msg_type, handle), r),
    ensures
        r@.len() == 16,
        u32_at(r@, 0) == msg_type,
        u32_at(r@, 4) == handle,
        u32_at(r@, 8) == 0,
        u32_at(r@, 12) == 0,
{
    law_header_layout(
        MsgHeader { msg_type, handle, status: 0, padding: 0 },
        Seq::empty(),
        0,
    );
}

/// A header of success carries the handle; one of failure none, and the errno as a negative number,
/// however it was given.
pub proof fn law_headers_of_answers(t: MsgType, handle: u32, errno: i32, ok: MsgHeader, err: MsgHeader)
    requires
        errno > i32::MIN,
        call_ensures(MsgHeader::ok, (t, handle), ok),
        call_ensures(MsgHeader::err, (t, errno), err),
    ensures
        MsgType::spec_from_u32(ok.msg_type) == Some(t),
        ok.handle == handle,
        ok.status == 0,
        MsgType::spec_from_u32(err.msg_type) == Some(t),
        err.handle == 0,
        errno >= 0 ==> err.status == -errno,
        errno < 0 ==> err.status == errno,
        ok.padding == 0 && err.padding == 0,
{
}

/// The three messages that a client sends.
pub proof fn law_client_requests(handle: u32, open: Vec<u8>, close: Vec<u8>, version: Vec<u8>)
    requires
        call_ensures(build_open_ctl, (), open),
        call_ensures(build_close, (handle,), close),
        call_ensures(build_check_version_str, (handle,), version),
    ensures
        open@.len() == 24 && u32_at(open@, 0) == 1 && u32_at(open@, 4) == 0 && u32_at(open@, 16)
            == 255 && u32_at(open@, 20) == 0,
        close@.len() == 16 && u32_at(close@, 0) == 2 && u32_at(close@, 4) == handle,
        version@.len() == 112 && u32_at(version@, 0) == 3 && u32_at(version@, 4) == handle
            && u32_at(version@, 16) == 0xc048_46d2 && u32_at(version@, 20) == 72 && version@[40]
            == 0x32,
{
    law_open_request_bytes();
    law_close_request_bytes(handle);
    law_version_request_bytes(handle);
}

/// The kinds of page protection have the numbers 0 to 2 and their own names.
pub proof fn law_protection_numbers(v: u8, k: PgprotKind, r: Option<PgprotKind>, n: u8)
    requires
        call_ensures(PgprotKind::from_u8, (v,), r),
        call_ensures(PgprotKind::to_u8, (k,), n),
    ensures
        r == Some(PgprotKind::WriteBack) <==> v == 0,
        r == Some(PgprotKind::WriteCombine) <==> v == 1,
        r == Some(PgprotKind::Uncached) <==> v == 2,
        r is None <==> v > 2,
        k == PgprotKind::WriteBack ==> n == 0,
        k == PgprotKind::WriteCombine ==> n == 1,
        k == PgprotKind::Uncached ==> n == 2,
        PgprotKind::WriteBack.text() == "WriteBack"@,
        PgprotKind::WriteCombine.text() == "WriteCombine"@,
        PgprotKind::Uncached.text() == "Uncached"@,
{
}

/// The default window is 1 GiB: 32 MiB uncached, 768 MiB write-combined, 224 MiB cached. The small one
/// is 256 MiB: 4, 128 and 124.
pub proof fn law_default_windows(big: ZoneConfig, small: ZoneConfig)
    requires
        call_ensures(ZoneConfig::default_1gib, (), big),
        call_ensures(ZoneConfig::default_256mib, (), small),
    ensures
        big.uc_size == 0x200_0000,
        big.wc_size == 0x3000_0000,
        big.wb_size == 0xe00_0000,
        big.uc_size + big.wc_size + big.wb_size == 0x4000_0000,
        small.uc_size == 0x40_0000,
        small.wc_size == 0x800_0000,
        small.wb_size == 0x7c0_0000,
        small.uc_size + small.wc_size + small.wb_size == 0x1000_0000,
{
}

/// A new backend has nothing open, mapped or known, refuses what its profile does not list, and has
/// every byte of its window free: uncached first, then write-combined, then cached.
pub proof fn law_new_backends_are_empty(cfg: ZoneConfig, b: NvidiaBackend, x: int)
    requires
        cfg.usable(),
        call_ensures(NvidiaBackend::new, (cfg,), b),
    ensures
        b.handles@ == Map::<u64, i32>::empty(),
        b.active_maps@ == Map::<u64, MmapEntry>::empty(),
        b.driver is None,
        b.abi is None,
        b.policy == AbiPolicy::Enforce,
        b.pending is Idle,
        b.shm.zone(PgprotKind::Uncached).free_set().contains(x) <==> 0 <= x < cfg.uc_size,
        b.shm.zone(PgprotKind::WriteCombine).free_set().contains(x) <==> cfg.uc_size <= x
            < cfg.uc_size + cfg.wc_size,
        b.shm.zone(PgprotKind::WriteBack).free_set().contains(x) <==> cfg.uc_size + cfg.wc_size <= x
            < cfg.uc_size + cfg.wc_size + cfg.wb_size,
{
    law_fresh_zones_are_free(
        b.shm.zone(PgprotKind::Uncached),
        0,
        cfg.uc_size as int,
        x,
    );
    law_fresh_zones_are_free(
        b.shm.zone(PgprotKind::WriteCombine),
        cfg.uc_size as int,
        cfg.wc_size as int,
        x,
    );
    law_fresh_zones_are_free(
        b.shm.zone(PgprotKind::WriteBack),
        cfg.uc_size + cfg.wc_size,
        cfg.wb_size as int,
        x,
    );
}

/// The names that a capability gives are the driver's own.
pub proof fn law_category_names(cap: Capability, r: Vec<&'static str>, name: Seq<char>)
    requires
        call_ensures(Capability::categories, (cap,), r),
    ensures
        (exists|i: int| 0 <= i < r@.len() && (#[trigger] r@[i])@ == name) <==> match cap {
            Capability::Utility => name == "nvml"@ || name == "utils"@,
            Capability::Compute => name == "cuda"@ || name == "opencl"@ || name == "optix"@,
            Capability::Graphics => name == "vulkan"@ || name == "egl"@ || name == "egl_headless"@
                || name == "egl_wayland"@ || name == "egl_gbm"@ || name == "egl_x11"@ || name
                == "glx"@ || name == "gbm"@ || name == "glvnd"@,
            Capability::Video => name == "video"@,
        },
{
    let all = r@.map_values(|s: &'static str| s@);
    assert(all == cap.spec_categories());
    assert(all.len() == r@.len());
    assert forall|i: int| 0 <= i < r@.len() implies all[i] == (#[trigger] r@[i])@ by {}
    match cap {
        Capability::Utility => {
            assert(r@[0]@ == "nvml"@ && r@[1]@ == "utils"@);
        },
        Capability::Compute => {
            assert(r@[0]@ == "cuda"@ && r@[1]@ == "opencl"@ && r@[2]@ == "optix"@);
        },
        Capability::Graphics => {
            assert(r@[0]@ == "vulkan"@ && r@[1]@ == "egl"@ && r@[2]@ == "egl_headless"@ && r@[3]@
                == "egl_wayland"@ && r@[4]@ == "egl_gbm"@ && r@[5]@ == "egl_x11"@ && r@[6]@
                == "glx"@ && r@[7]@ == "gbm"@ && r@[8]@ == "glvnd"@);
        },
        Capability::Video => {
            assert(r@[0]@ == "video"@);
        },
    }
}

/// A headless guest asks for every capability.
pub proof fn law_headless_guests_ask_for_everything(r: Vec<Capability>, cap: Capability)
    requires
        call_ensures(Capability::headless_pipeline, (), r),
    ensures
        r@.contains(cap),
        r@.len() == 4,
{
    assert(r@[0] == Capability::Utility && r@[1] == Capability::Compute && r@[2]
        == Capability::Graphics && r@[3] == Capability::Video);
}

/// A share is refused only where the files are of another driver than the loaded one, and a mismatch
/// is not allowed.
pub proof fn law_shares_of_another_driver_are_refused(
    staged: Option<String>,
    loaded: Option<String>,
    v: Verdict,
    allow: bool,
    r: bool,
)
    requires
        call_ensures(verdict, (&staged, &loaded), v),
        call_ensures(refuses, (v, allow), r),
    ensures
        v == Verdict::Unknown <==> staged is None,
        v == Verdict::Unchecked <==> staged is Some && loaded is None,
        staged is Some && loaded is Some ==> (v == Verdict::Matches <==> staged->0@ == loaded->0@),
        r <==> {
            &&& !allow
            &&& staged is Some
            &&& loaded is Some
            &&& staged->0@ != loaded->0@
        },
{
}

/// A link is staged only where the file that it names is staged too.
pub proof fn law_links_lead_somewhere(target: &str, names: Vec<String>, r: bool)
    requires
        call_ensures(dangles, (target, &names), r),
    ensures
        r <==> !exists|i: int|
            0 <= i < names@.len() && spec_file_name(target@) == Some((#[trigger] names@[i])@),
{
    assert(texts(names@).len() == names@.len());
    if !r {
        let n = spec_file_name(target@)->0;
        let i = choose|i: int| 0 <= i < texts(names@).len() && texts(names@)[i] == n;
        assert(texts(names@)[i] == names@[i]@);
    }
    if exists|i: int| 0 <= i < names@.len() && spec_file_name(target@) == Some((#[trigger] names@[i])@) {
        let i = choose|i: int|
            0 <= i < names@.len() && spec_file_name(target@) == Some((#[trigger] names@[i])@);
        assert(texts(names@)[i] == names@[i]@);
    }
}

/// A library needs a link of the name that it is asked for by, unless its file has that name.
pub proof fn law_libraries_get_a_link(soname: &str, path: &str, r: Option<String>)
    requires
        call_ensures(soname_link, (soname, path), r),
        spec_file_name(path@) is Some,
    ensures
        r is None <==> spec_file_name(path@) == Some(soname@),
        r matches Some(link) ==> link@ == soname@,
{
}

/// A manifest that is not there, or cannot be read, is said to be so, by its path.
pub proof fn law_missing_manifests_are_named(
    path: &str,
    file: ManifestFile,
    r: core::result::Result<Vec<Entry>, UserspaceError>,
)
    requires
        call_ensures(load_manifest, (path, file), r),
    ensures
        file is Absent ==> (r matches Err(UserspaceError::NoManifest(p)) && p@ == path@),
        file matches ManifestFile::Unreadable(why) ==> (r matches Err(
            UserspaceError::Io { path: p, source },
        ) && p@ == path@ && source@ == why@),
        file matches ManifestFile::Text(_) ==> (r matches Err(e) ==> (e matches UserspaceError::Malformed {
            path: p,
            ..
        } && p@ == path@)),
{
}

/// Zero is the handle of no object and the status of a call that went well.
pub proof fn law_zero_is_none_and_well(h: NvHandle, ok: NvStatus, s: NvStatus, r: bool)
    requires
        call_ensures(NvHandle::NULL, (), h),
        call_ensures(NvStatus::OK, (), ok),
        call_ensures(NvStatus::is_ok, (s,), r),
    ensures
        h.0 == 0,
        ok.0 == 0,
        r <==> s.0 == 0,
{
}

/// The GPUs of a host are numbered in the order of their addresses.
pub proof fn law_gpus_are_numbered(found: Vec<HostFile>, r: Vec<GpuSlot>, i: int)
    requires
        call_ensures(gpu_slots, (found,), r),
        0 <= i < r@.len(),
        r@.len() <= u32::MAX,
    ensures
        r@.len() == found@.len(),
        u32_at(r@[i].wire(), 16) == i,
{
    let sorted = by_path(views(found@));
    law_slots_hold_a_gpu(r@[i], sorted[i].path, i as u32, sorted[i].content);
}

/// The config gives the driver version, cut to 31 bytes and ended by a zero, the GPUs, of which there
/// can be eight, and the five escapes that name a descriptor.
pub proof fn law_config_says_what_the_host_has(
    version: &str,
    gpus: &[GpuSlot],
    c: VirtioGpuNvConfig,
    i: int,
)
    requires
        call_ensures(VirtioGpuNvConfig::new, (version, gpus), c),
    ensures
        0 <= i < 32 ==> c.driver_version@[i] == if i < 31 && i < encode_utf8(version@).len() {
            encode_utf8(version@)[i]
        } else {
            0u8
        },
        c.num_gpus == if gpus@.len() < 8 {
            gpus@.len() as int
        } else {
            8
        },
        c.caps == 0,
        0 <= i < c.num_gpus ==> c.gpus@[i] == gpus@[i],
        c.num_fd_translations == 5,
        c.fd_translations@[0].nr == 201 && c.fd_translations@[0].payload_offset == 0,
        c.fd_translations@[1].nr == 206 && c.fd_translations@[1].payload_offset == 8,
        c.fd_translations@[2].nr == 207 && c.fd_translations@[2].payload_offset == 8,
        c.fd_translations@[3].nr == 0x27 && c.fd_translations@[3].payload_offset == 48,
        c.fd_translations@[4].nr == 0x4e && c.fd_translations@[4].payload_offset == 48,
{
    assert(c.driver_version@.len() == 32);
}

/// Looking a handle up gives the descriptor that was put in under it, or says that there is none.
pub proof fn law_handles_are_looked_up(t: HandleTable, handle: u64, r: Result<i32>)
    requires
        call_ensures(HandleTable::get_raw, (&t, handle), r),
    ensures
        t@.contains_key(handle) ==> r == Ok::<i32, DeviceError>(t@[handle]),
        !t@.contains_key(handle) ==> r == Err::<i32, DeviceError>(DeviceError::BadHandle(handle)),
{
}

/// Looking a mapping up by its offset gives the one that stands there, if any does; by its object, one
/// of that object. A handle carries a mapping if one was made on it.
pub proof fn law_mappings_are_looked_up<'a>(
    c: &'a MmapContext,
    at: u64,
    h_client: u32,
    h_memory: u32,
    handle: u64,
    by_offset: Option<&'a MmapEntry>,
    by_object: Option<&'a MmapEntry>,
    has: bool,
)
    requires
        call_ensures(MmapContext::find_by_offset, (c, at), by_offset),
        call_ensures(MmapContext::find_by_object, (c, h_client, h_memory), by_object),
        call_ensures(MmapContext::fd_has_mapping, (c, handle), has),
    ensures
        by_offset is Some <==> c@.contains_key(at),
        by_offset matches Some(e) ==> *e == c@[at],
        by_object matches Some(e) ==> e.h_client == h_client && e.h_memory == h_memory,
        has <==> exists|k: u64| #[trigger] c@.contains_key(k) && c@[k].map_fd_handle == handle,
{
}

/// What a window tells of itself: its free bytes, zone by zone, uncached first, then write-combined, then
/// cached; where each zone begins, one behind another; and how large it is.
pub proof fn law_windows_tell_of_themselves(
    a: ShmAllocator,
    free: (u64, u64, u64),
    uc: u64,
    wc: u64,
    wb: u64,
    total: u64,
)
    requires
        a.wf(),
        call_ensures(ShmAllocator::free_bytes, (&a,), free),
        call_ensures(ShmAllocator::uc_zone_offset, (&a,), uc),
        call_ensures(ShmAllocator::wc_zone_offset, (&a,), wc),
        call_ensures(ShmAllocator::wb_zone_offset, (&a,), wb),
        call_ensures(ShmAllocator::total_size, (&a,), total),
    ensures
        free.0 == a.zone(PgprotKind::Uncached).free_set().len(),
        free.1 == a.zone(PgprotKind::WriteCombine).free_set().len(),
        free.2 == a.zone(PgprotKind::WriteBack).free_set().len(),
        uc == 0,
        wc == a.zone(PgprotKind::Uncached).spec_size(),
        wb == wc + a.zone(PgprotKind::WriteCombine).spec_size(),
        total == wb + a.zone(PgprotKind::WriteBack).spec_size(),
{
    law_free_bytes_are_counted(a.zone(PgprotKind::Uncached), 1);
    law_free_bytes_are_counted(a.zone(PgprotKind::WriteCombine), 1);
    law_free_bytes_are_counted(a.zone(PgprotKind::WriteBack), 1);
}

/// What a backend tells of itself: how many handles are open, and the free bytes of its window.
pub proof fn law_backends_tell_of_themselves(
    b: NvidiaBackend,
    handles: usize,
    free: (u64, u64, u64),
)
    requires
        b.wf(),
        call_ensures(NvidiaBackend::handle_count, (&b,), handles),
        call_ensures(NvidiaBackend::shm_free_bytes, (&b,), free),
    ensures
        handles == b.handles@.len(),
        free.0 == b.shm.zone(PgprotKind::Uncached).free_set().len(),
        free.1 == b.shm.zone(PgprotKind::WriteCombine).free_set().len(),
        free.2 == b.shm.zone(PgprotKind::WriteBack).free_set().len(),
{
    law_free_bytes_are_counted(b.shm.zone(PgprotKind::Uncached), 1);
    law_free_bytes_are_counted(b.shm.zone(PgprotKind::WriteCombine), 1);
    law_free_bytes_are_counted(b.shm.zone(PgprotKind::WriteBack), 1);
}

/// The default backend has a window of 1 GiB, all of it free: 32 MiB uncached, 768 MiB write-combined
/// and 224 MiB cached, in this order.
pub proof fn law_default_backend(b: NvidiaBackend, x: int)
    requires
        call_ensures(NvidiaBackend::with_default_zones, (), b),
    ensures
        b.shm.zone(PgprotKind::Uncached).free_set().contains(x) <==> 0 <= x < 0x200_0000,
        b.shm.zone(PgprotKind::WriteCombine).free_set().contains(x) <==> 0x200_0000 <= x < 0x3200_0000,
        b.shm.zone(PgprotKind::WriteBack).free_set().contains(x) <==> 0x3200_0000 <= x < 0x4000_0000,
        b.handles@ == Map::<u64, i32>::empty(),
        b.policy == AbiPolicy::Enforce,
{
    law_fresh_zones_are_free(b.shm.zone(PgprotKind::Uncached), 0, 0x200_0000, x);
    law_fresh_zones_are_free(b.shm.zone(PgprotKind::WriteCombine), 0x200_0000, 0x3000_0000, x);
    law_fresh_zones_are_free(b.shm.zone(PgprotKind::WriteBack), 0x3200_0000, 0xe00_0000, x);
}

/// A response begins with its header, if it is long enough for one.
pub proof fn law_headers_of_responses(resp: &[u8], r: Option<MsgHeader>)
    requires
        call_ensures(read_header, (resp,), r),
    ensures
        r is None <==> resp@.len() < 16,
        r matches Some(h) ==> {
            &&& h.msg_type == u32_at(resp@, 0)
            &&& h.handle == u32_at(resp@, 4)
            &&& i32_bits(h.status) == u32_at(resp@, 8)
        },
{
    law_header_layout(
        MsgHeader { msg_type: 0, handle: 0, status: 0, padding: 0 },
        resp@,
        0,
    );
}

} // verus!
