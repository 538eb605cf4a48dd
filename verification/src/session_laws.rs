//! What becomes of each message but an `Ioctl`, told by its bytes.
use crate::answer_laws::{errno_number, unchanged};
use crate::bytes::u32_at;
use crate::call_laws::{carries, lemma_forwarded, reading, refused};
use crate::error::DeviceError;
use crate::files::FileTree;
use crate::forward::Forward;
use crate::handle_table::lists_values;
use crate::laws::lemma_region_listed;
use crate::messages::{MsgType, OpenReq};
use crate::mmap::{carried_by, MmapEntry};
use crate::nvidia::{spec_device_path, NvidiaBackend, Pending};
use crate::response::Status;
use crate::serve::{
    close_started, closed, dispatched, forwarded, open_started, regions_of, resumed, spec_accepts,
    teardown_started,
};
use crate::shm::{PgprotKind, ShmRegion};
use crate::step::{Action, Event, HostCall, Step};
use crate::text::{decimal, number};
use crate::watch::{added_at, WatchLog};
use crate::window_laws::{law_restored_regions_are_freed, paged};
use crate::wire_laws::{law_bare_answer, law_failure_numbers};
use vstd::prelude::*;

verus! {

/// The message is served, and went well: a bare answer with this handle, and these descriptors to
/// close.
pub open spec fn done(step: Step, kind: u32, handle: u32, cap: usize, closes: Seq<i32>) -> bool {
    &&& step matches Step::Done { resp, close } && close@ == closes && (cap >= 16 ==> {
        &&& resp@.len() == 16
        &&& u32_at(resp@, 0) == kind
        &&& u32_at(resp@, 4) == handle
        &&& u32_at(resp@, 8) == 0
        &&& u32_at(resp@, 12) == 0
    }) && (cap < 16 ==> resp@.len() == 0)
}

/// The device that a number opens.
pub open spec fn device_named(number: u32) -> Option<Seq<char>> {
    if number < 8 {
        Some("/dev/nvidia"@.push(('0' as int + number) as char))
    } else if number == 255 {
        Some("/dev/nvidiactl"@)
    } else if number == 256 {
        Some("/dev/nvidia-uvm"@)
    } else if number == 257 {
        Some("/dev/nvidia-uvm-tools"@)
    } else if number == 258 {
        Some("/dev/nvidia-modeset"@)
    } else {
        None
    }
}

/// A backend that serves a message of this type and handle.
pub open spec fn serves_type(b: NvidiaBackend, kind: u32, handle: u32, cap: usize) -> bool {
    &&& MsgType::spec_from_u32(kind) == Some(b.current_msg)
    &&& b.current_handle == handle
    &&& b.resp_cap == cap
}

proof fn lemma_failed(b: NvidiaBackend, step: Step, kind: u32, cap: usize, status: Status, errno: i32)
    requires
        MsgType::spec_from_u32(kind) == Some(b.current_msg),
        b.resp_cap == cap,
        b.fails(step, status, errno),
        errno > i32::MIN,
    ensures
        errno != 0 ==> refused(step, kind, cap, errno_number(errno)),
        errno == 0 && status == Status::InvalidMsgType ==> refused(step, kind, cap, 71),
        errno == 0 && status == Status::InvalidDevice ==> refused(step, kind, cap, 19),
        errno == 0 && status == Status::OpenFailed ==> refused(step, kind, cap, 5),
        errno == 0 && status == Status::BadHandle ==> refused(step, kind, cap, 9),
{
    if 16 <= cap {
        law_failure_numbers(b.current_msg, status, errno, cap as int);
    }
}

/// A message that is too short for a header, or of no known type, is a protocol error and changes
/// nothing.
#[verifier::rlimit(30)]
pub proof fn law_strangers_are_refused(
    pre: NvidiaBackend,
    req: Seq<u8>,
    cap: usize,
    post: NvidiaBackend,
    step: Step,
)
    requires
        dispatched(pre, req, cap, post, step),
        req.len() < 16 || u32_at(req, 0) == 0 || u32_at(req, 0) > 7,
    ensures
        unchanged(pre, post),
        req.len() >= 16 ==> refused(step, 3, cap, 71),
        req.len() < 16 ==> refused(step, pre.current_msg.code(), cap, 71),
{
    if req.len() >= 16 {
        lemma_failed(post, step, 3, cap, Status::InvalidMsgType, 0);
    } else {
        lemma_failed(post, step, pre.current_msg.code(), cap, Status::InvalidMsgType, 0);
    }
}

/// `Open` opens the device with the number at 16: one of eight GPUs, the control device, one of the
/// two of unified memory, or mode setting. Any other number is no such device.
#[verifier::rlimit(30)]
pub proof fn law_open_opens_the_device(
    pre: NvidiaBackend,
    req: Seq<u8>,
    cap: usize,
    post: NvidiaBackend,
    step: Step,
)
    requires
        dispatched(pre, req, cap, post, step),
        req.len() >= 16,
        u32_at(req, 0) == 1,
    ensures
        unchanged(pre, post),
        if req.len() >= 24 && device_named(u32_at(req, 16)) is Some {
            &&& step matches Step::Do(Action::Open(path)) && path@ == device_named(
                u32_at(req, 16),
            )->0
            &&& post.pending is Open
            &&& serves_type(post, 1, u32_at(req, 4), cap)
        } else {
            refused(step, 1, cap, 19)
        },
{
    let payload = req.skip(16);
    let mid = NvidiaBackend {
        current_msg: MsgType::Open,
        current_handle: u32_at(req, 4),
        resp_cap: cap,
        ..pre
    };
    assert(open_started(mid, payload, post, step));
    if req.len() >= 24 {
        assert(OpenReq::at(payload, 0).device_type == u32_at(req, 16));
        let n = u32_at(req, 16);
        if n < 8 {
            reveal_with_fuel(number, 2);
            assert(decimal(n as nat) =~= seq![('0' as int + n) as char]);
            assert("/dev/nvidia"@ + decimal(n as nat) =~= "/dev/nvidia"@.push(
                ('0' as int + n) as char,
            ));
        }
    }
    if step is Done {
        lemma_failed(post, step, 1, cap, Status::InvalidDevice, 0);
    }
}

/// A device that was opened gets a handle that was not in use, which the guest reads in the header.
/// From then on the handle stands for the descriptor, and a watcher is told of both. One that could
/// not be opened changes nothing, and the guest reads the errno.
#[verifier::rlimit(30)]
pub proof fn law_opened_devices_get_a_handle(
    pre: NvidiaBackend,
    req: Seq<u8>,
    cap: usize,
    result: core::result::Result<i32, i32>,
    post: NvidiaBackend,
    step: Step,
)
    requires
        pre.wf(),
        pre.pending is Open,
        serves_type(pre, 1, u32_at(req, 4), cap),
        pre.handles.spec_next() <= u32::MAX,
        result matches Err(errno) ==> errno > i32::MIN,
        resumed(pre, Event::Opened(result), post, step),
    ensures
        result matches Err(errno) ==> unchanged(pre, post) && refused(
            step,
            1,
            cap,
            errno_number(errno),
        ),
        result matches Ok(fd) ==> exists|handle: u32|
            {
                &&& handle > 0
                &&& !pre.handles@.contains_key(handle as u64)
                &&& post.handles@ == pre.handles@.insert(handle as u64, fd)
                &&& post.watches.added@ == pre.watches.added@.push((handle, fd))
                &&& post.watches.removed@ == pre.watches.removed@
                &&& #[trigger] done(step, 1, handle, cap, Seq::empty())
            },
        result is Ok ==> unchanged(
            pre,
            NvidiaBackend { handles: pre.handles, watches: pre.watches, ..post },
        ),
{
    match result {
        Err(errno) => {
            lemma_failed(post, step, 1, cap, Status::OpenFailed, errno);
        },
        Ok(fd) => {
            let handle = pre.handles.spec_next() as u32;
            law_bare_answer(MsgType::Open, handle, 0, cap as int);
            if pre.handles@.contains_key(handle as u64) {
                assert(handle < pre.handles.spec_next());
            }
            assert(step->close@ =~= Seq::<i32>::empty());
            assert(done(step, 1, handle, cap, Seq::empty()));
        },
    }
}

/// `Mmap` hands out no address: it is invalid where it is not whole, has nothing to find on a handle
/// that maps nothing, and is not supported on any other. `Munmap` that is whole has nothing to do.
/// Neither changes anything.
#[verifier::rlimit(30)]
pub proof fn law_mmap_hands_out_nothing(
    pre: NvidiaBackend,
    req: Seq<u8>,
    cap: usize,
    post: NvidiaBackend,
    step: Step,
)
    requires
        dispatched(pre, req, cap, post, step),
        req.len() >= 16,
        u32_at(req, 0) == 4 || u32_at(req, 0) == 5,
    ensures
        unchanged(pre, post),
        u32_at(req, 0) == 4 && req.len() < 40 ==> refused(step, 4, cap, 22),
        u32_at(req, 0) == 4 && req.len() >= 40 && (forall|k: u64| #[trigger]
            pre.active_maps@.contains_key(k) ==> pre.active_maps@[k].map_fd_handle != u32_at(
                req,
                4,
            )) ==> refused(step, 4, cap, 2),
        u32_at(req, 0) == 4 && req.len() >= 40 && (exists|k: u64| #[trigger]
            pre.active_maps@.contains_key(k) && pre.active_maps@[k].map_fd_handle == u32_at(req, 4))
            ==> refused(step, 4, cap, 95),
        u32_at(req, 0) == 5 && req.len() < 24 ==> refused(step, 5, cap, 22),
        u32_at(req, 0) == 5 && req.len() >= 24 ==> done(step, 5, 0, cap, Seq::empty()),
{
    if u32_at(req, 0) == 4 {
        if req.len() < 40 {
            lemma_failed(post, step, 4, cap, Status::InvalidMsgType, 22);
        } else if forall|k: u64| #[trigger]
            pre.active_maps@.contains_key(k) ==> pre.active_maps@[k].map_fd_handle != u32_at(
                req,
                4,
            ) {
            lemma_failed(post, step, 4, cap, Status::BadHandle, 2);
        } else {
            lemma_failed(post, step, 4, cap, Status::IoctlFailed, 95);
        }
    } else {
        if req.len() < 24 {
            lemma_failed(post, step, 5, cap, Status::InvalidMsgType, 22);
        } else {
            law_bare_answer(MsgType::Munmap, 0, 0, cap as int);
            assert(step->close@ =~= Seq::<i32>::empty());
        }
    }
}

/// `GetProcFiles` collects the files of the proc tree, `GetSysFiles` those of the sys tree.
#[verifier::rlimit(30)]
pub proof fn law_files_are_collected(
    pre: NvidiaBackend,
    req: Seq<u8>,
    cap: usize,
    post: NvidiaBackend,
    step: Step,
)
    requires
        dispatched(pre, req, cap, post, step),
        req.len() >= 16,
        u32_at(req, 0) == 6 || u32_at(req, 0) == 7,
    ensures
        unchanged(pre, post),
        serves_type(post, u32_at(req, 0), u32_at(req, 4), cap),
        u32_at(req, 0) == 6 ==> step == Step::Do(Action::Collect(FileTree::Proc)) && post.pending
            == Pending::Files(FileTree::Proc),
        u32_at(req, 0) == 7 ==> step == Step::Do(Action::Collect(FileTree::Sys)) && post.pending
            == Pending::Files(FileTree::Sys),
{
}

/// The handle is forgotten, and its descriptor is to be closed; one that is not open is a bad
/// descriptor.
pub open spec fn forgets(
    before: NvidiaBackend,
    handle: u32,
    cap: usize,
    after: NvidiaBackend,
    step: Step,
) -> bool {
    &&& after.handles@ == before.handles@.remove(handle as u64)
    &&& after.handles.spec_next() == before.handles.spec_next()
    &&& if before.handles@.contains_key(handle as u64) {
        done(step, 2, 0, cap, seq![before.handles@[handle as u64]])
    } else {
        refused(step, 2, cap, 9) && after.watches == before.watches
    }
}

proof fn lemma_closed(before: NvidiaBackend, handle: u32, cap: usize, after: NvidiaBackend, step: Step)
    requires
        serves_type(before, 2, handle, cap),
        closed(before, after, step),
    ensures
        forgets(before, handle, cap, after, step),
{
    if before.handles@.contains_key(handle as u64) {
        law_bare_answer(MsgType::Close, 0, 0, cap as int);
    } else {
        lemma_failed(after, step, 2, cap, Status::BadHandle, 0);
    }
}

/// `Close` gives up every mapping that was made on the handle at 4, and no other. Where there is
/// none, the handle is forgotten at once; else the window's own memory first goes back under the
/// regions of those mappings, and under nothing else.
#[verifier::rlimit(30)]
pub proof fn law_close_gives_up_its_mappings(
    pre: NvidiaBackend,
    req: Seq<u8>,
    cap: usize,
    post: NvidiaBackend,
    step: Step,
)
    requires
        dispatched(pre, req, cap, post, step),
        req.len() >= 16,
        u32_at(req, 0) == 2,
    ensures
        post.shm == pre.shm,
        post.driver == pre.driver,
        post.abi == pre.abi,
        post.policy == pre.policy,
        forall|k: u64| #[trigger]
            post.active_maps@.contains_key(k) <==> pre.active_maps@.contains_key(k)
                && pre.active_maps@[k].map_fd_handle != u32_at(req, 4),
        forall|k: u64| #[trigger]
            post.active_maps@.contains_key(k) ==> post.active_maps@[k] == pre.active_maps@[k],
        (forall|k: u64| #[trigger]
            pre.active_maps@.contains_key(k) ==> pre.active_maps@[k].map_fd_handle != u32_at(
                req,
                4,
            )) ==> forgets(pre, u32_at(req, 4), cap, post, step),
        (exists|k: u64| #[trigger]
            pre.active_maps@.contains_key(k) && pre.active_maps@[k].map_fd_handle == u32_at(req, 4))
            ==> {
            &&& step matches Step::Do(Action::Restore(regions)) && {
                &&& forall|k: u64| #[trigger]
                    pre.active_maps@.contains_key(k) && pre.active_maps@[k].map_fd_handle == u32_at(
                        req,
                        4,
                    ) ==> regions@.contains(pre.active_maps@[k].region)
                &&& forall|i: int|
                    0 <= i < regions@.len() ==> exists|k: u64| #[trigger]
                        pre.active_maps@.contains_key(k) && pre.active_maps@[k].map_fd_handle
                            == u32_at(req, 4) && pre.active_maps@[k].region == #[trigger] regions@[i]
                &&& post.pending matches Pending::Close(waiting) && waiting@ == regions@
            }
            &&& post.handles == pre.handles
            &&& post.watches == pre.watches
            &&& serves_type(post, 2, u32_at(req, 4), cap)
        },
{
    let mid = NvidiaBackend {
        current_msg: MsgType::Close,
        current_handle: u32_at(req, 4),
        resp_cap: cap,
        ..pre
    };
    let mine = carried_by(pre.active_maps@, u32_at(req, 4) as u64);
    assert(close_started(mid, post, step));
    if mine.dom().is_empty() {
        lemma_closed(mid, u32_at(req, 4), cap, post, step);
        assert forall|k: u64| #[trigger]
            pre.active_maps@.contains_key(k) implies pre.active_maps@[k].map_fd_handle != u32_at(
            req,
            4,
        ) by {
            assert(!mine.dom().contains(k));
        }
    } else {
        let regions = step->Do_0->Restore_0@;
        let some = mine.dom().choose();
        assert(mine.dom().contains(some));
        assert(pre.active_maps@.contains_key(some));
        assert forall|k: u64| #[trigger]
            pre.active_maps@.contains_key(k) && pre.active_maps@[k].map_fd_handle == u32_at(
                req,
                4,
            ) implies regions.contains(pre.active_maps@[k].region) by {
            assert(mine.contains_key(k));
            let i = lemma_region_listed(regions, mine, k);
            assert(regions[i] == pre.active_maps@[k].region);
        }
        assert forall|i: int| 0 <= i < regions.len() implies exists|k: u64| #[trigger]
            pre.active_maps@.contains_key(k) && pre.active_maps@[k].map_fd_handle == u32_at(req, 4)
                && pre.active_maps@[k].region == #[trigger] regions[i] by {
            let k = lemma_listed(regions, mine, i);
            assert(mine.contains_key(k));
            assert(pre.active_maps@.contains_key(k));
        }
    }
}

/// A region of a list is that of a listed mapping.
proof fn lemma_listed(
    regions: Seq<ShmRegion>,
    maps: Map<u64, MmapEntry>,
    i: int,
) -> (k: u64)
    requires
        regions_of(regions, maps),
        0 <= i < regions.len(),
    ensures
        maps.contains_key(k),
        maps[k].region == regions[i],
{
    let entries = choose|entries: Seq<MmapEntry>| #[trigger]
        lists_values(entries, maps) && regions == entries.map_values(
            |e: MmapEntry| e.region,
        );
    let keys = choose|keys: Seq<u64>|
        #![trigger keys.to_set()]
        keys.no_duplicates() && keys.to_set() == maps.dom() && entries == keys.map_values(
            |k: u64| maps[k],
        );
    assert(keys.to_set().contains(keys[i]));
    assert(entries[i] == maps[keys[i]]);
    keys[i]
}

/// Once the memory of a closed handle's mappings is back, the handle is forgotten, and the pages of
/// the regions whose memory is back are free again, and no others.
#[verifier::rlimit(30)]
pub proof fn law_closed_handles_are_forgotten(
    pre: NvidiaBackend,
    handle: u32,
    cap: usize,
    regions: Vec<ShmRegion>,
    restored: Vec<bool>,
    post: NvidiaBackend,
    step: Step,
    k: PgprotKind,
    x: int,
)
    requires
        serves_type(pre, 2, handle, cap),
        pre.pending == Pending::Close(regions),
        resumed(pre, Event::Restored(restored), post, step),
    ensures
        post.active_maps == pre.active_maps,
        post.driver == pre.driver,
        post.abi == pre.abi,
        post.policy == pre.policy,
        forgets(pre, handle, cap, post, step),
        post.shm.zone(k).free_set().contains(x) <==> {
            ||| pre.shm.zone(k).free_set().contains(x)
            ||| exists|i: int|
                0 <= i < regions@.len() && restored@[i] && (#[trigger] regions@[i]).pgprot == k
                    && regions@[i].offset <= x < regions@[i].offset + paged(regions@[i].length)
        },
{
    lemma_closed(pre, handle, cap, post, step);
    law_restored_regions_are_freed(pre.shm, post.shm, regions@, restored@, k, x);
}

/// Where a handle first stands in a list.
proof fn lemma_added_at(added: Seq<(u32, i32)>, handle: u32)
    ensures
        0 <= added_at(added, handle) <= added.len(),
        forall|i: int| 0 <= i < added_at(added, handle) ==> (#[trigger] added[i]).0 != handle,
        added_at(added, handle) < added.len() ==> added[added_at(added, handle)].0 == handle,
    decreases added.len(),
{
    if added.len() > 0 && added[0].0 != handle {
        let rest = added.drop_first();
        lemma_added_at(rest, handle);
        assert forall|i: int| 0 <= i < added_at(added, handle) implies (#[trigger] added[i]).0
            != handle by {
            if i > 0 {
                assert(rest[i - 1] == added[i]);
            }
        }
        if added_at(added, handle) < added.len() {
            assert(rest[added_at(rest, handle)] == added[added_at(added, handle)]);
        }
    }
}

/// A watcher that has not been told of a handle yet never hears of it once it is closed; one that
/// has been told is told that it is gone.
pub proof fn law_watchers_hear_of_what_they_know(log: WatchLog, handle: u32)
    ensures
        (exists|i: int| 0 <= i < log.added@.len() && (#[trigger] log.added@[i]).0 == handle) ==> {
            &&& log.after_close(handle).1 == log.removed@
            &&& log.after_close(handle).0.len() == log.added@.len() - 1
            &&& exists|i: int|
                0 <= i < log.added@.len() && (#[trigger] log.added@[i]).0 == handle
                    && log.after_close(handle).0 == log.added@.remove(i)
        },
        (forall|i: int| 0 <= i < log.added@.len() ==> (#[trigger] log.added@[i]).0 != handle) ==> {
            &&& log.after_close(handle).0 == log.added@
            &&& log.after_close(handle).1 == log.removed@.push(handle)
        },
{
    lemma_added_at(log.added@, handle);
    let i = added_at(log.added@, handle);
    if i < log.added@.len() {
        assert(log.added@[i].0 == handle);
    }
}

/// What a step asks for can be answered: an open with a descriptor or an errno, a call with blocks of
/// the lengths that were sent, a collection with files, and a restoration with an outcome for each
/// region. A call is not answered with blocks of other lengths.
#[verifier::rlimit(30)]
pub proof fn law_outcomes_are_accepted(
    pre: NvidiaBackend,
    req: Seq<u8>,
    cap: usize,
    post: NvidiaBackend,
    step: Step,
    e: Event,
)
    requires
        dispatched(pre, req, cap, post, step),
        step is Do,
    ensures
        step->Do_0 is Open ==> match e {
            Event::Opened(Ok(_)) => spec_accepts(post, e) <==> post.handles.spec_next() < u64::MAX,
            Event::Opened(Err(errno)) => spec_accepts(post, e) <==> errno > i32::MIN,
            _ => !spec_accepts(post, e),
        },
        step->Do_0 matches Action::Ioctl(call) ==> match e {
            Event::Returned { result, data, nested, deep } => spec_accepts(post, e) <==> {
                &&& data@.len() == call.data@.len()
                &&& nested@.len() == call.nested@.len()
                &&& deep@.len() == call.deep@.len()
                &&& result matches Err(errno) ==> errno > i32::MIN
            },
            _ => !spec_accepts(post, e),
        },
        step->Do_0 is Collect ==> (spec_accepts(post, e) <==> e is Collected),
        step->Do_0 matches Action::Restore(regions) ==> match e {
            Event::Restored(done) => spec_accepts(post, e) <==> done@.len() == regions@.len(),
            _ => !spec_accepts(post, e),
        },
        !(step->Do_0 is Place),
{
    if step->Do_0 is Ioctl {
        let call = step->Do_0->Ioctl_0;
        lemma_forwarded(pre, req, cap, post, step);
        let f = choose|f: Forward| carries(pre, req, cap, f, post, step);
        lemma_awaits(reading(pre, req, cap), f, post, call);
    } else {
        lemma_not_a_call(pre, req, cap, post, step);
    }
}

/// A forwarded ioctl waits for its blocks.
proof fn lemma_awaits(mid: NvidiaBackend, f: Forward, post: NvidiaBackend, call: HostCall)
    requires
        forwarded(mid, f, post, Step::Do(Action::Ioctl(call))),
    ensures
        post.awaits_return(),
        post.sent.data == call.data@.len(),
        post.sent.nested == call.nested@.len(),
        post.sent.deep == call.deep@.len(),
{
    assert(call@.data == call.data@ && call@.nested == call.nested@ && call@.deep == call.deep@);
    assert(call.data.len() == call.data@.len() && call.nested.len() == call.nested@.len()
        && call.deep.len() == call.deep@.len());
}

/// What the other steps wait for.
#[verifier::rlimit(30)]
proof fn lemma_not_a_call(pre: NvidiaBackend, req: Seq<u8>, cap: usize, post: NvidiaBackend, step: Step)
    requires
        dispatched(pre, req, cap, post, step),
        step is Do,
        !(step->Do_0 is Ioctl),
    ensures
        step->Do_0 is Open ==> post.pending is Open,
        step->Do_0 matches Action::Collect(tree) ==> post.pending == Pending::Files(tree),
        step->Do_0 matches Action::Restore(regions) ==> (post.pending matches Pending::Close(waiting)
            && waiting@ == regions@),
        !(step->Do_0 is Place),
{
}

/// A number that is no GPU's is an invalid kind of device, and that of a GPU past the eighth is out of
/// range.
pub proof fn law_bad_devices_are_told_apart(n: u32)
    ensures
        spec_device_path(n) is Ok <==> device_named(n) is Some,
        8 <= n <= 254 ==> spec_device_path(n) == Err::<Seq<char>, DeviceError>(
            DeviceError::GpuIndexOutOfRange(n),
        ),
        n >= 259 ==> spec_device_path(n) == Err::<Seq<char>, DeviceError>(
            DeviceError::InvalidDeviceKind(n),
        ),
{
}

/// A teardown gives up every mapping. Where there is none, every open descriptor is to be closed, each
/// once, no handle is left, and the numbering starts over; else the window's own memory first goes back
/// under the regions of all of them.
pub proof fn law_teardown_gives_up_everything(pre: NvidiaBackend, post: NvidiaBackend, step: Step, h: u64)
    requires
        teardown_started(pre, post, step),
    ensures
        post.active_maps@ == Map::<u64, MmapEntry>::empty(),
        post.shm == pre.shm,
        post.driver == pre.driver && post.abi == pre.abi && post.policy == pre.policy,
        pre.active_maps@.dom().is_empty() ==> {
            &&& post.handles@ == Map::<u64, i32>::empty()
            &&& post.handles.spec_next() == 1
            &&& post.pending is Idle
            &&& step matches Step::Done { resp, close } && resp@.len() == 0 && (
            pre.handles@.contains_key(h) ==> close@.contains(pre.handles@[h]))
        },
        !pre.active_maps@.dom().is_empty() ==> {
            &&& post.handles == pre.handles
            &&& step matches Step::Do(Action::Restore(regions)) && (pre.active_maps@.contains_key(h)
                ==> regions@.contains(pre.active_maps@[h].region))
        },
{
    if pre.active_maps@.dom().is_empty() {
        if pre.handles@.contains_key(h) {
            let close = step->close@;
            let keys = choose|keys: Seq<u64>|
                #![trigger keys.to_set()]
                keys.no_duplicates() && keys.to_set() == pre.handles@.dom() && close
                    == keys.map_values(|k: u64| pre.handles@[k]);
            assert(keys.to_set().contains(h));
            let i = choose|i: int| 0 <= i < keys.len() && keys[i] == h;
            assert(close[i] == pre.handles@[h]);
        }
    } else if pre.active_maps@.contains_key(h) {
        let regions = step->Do_0->Restore_0@;
        let i = lemma_region_listed(regions, pre.active_maps@, h);
        assert(regions[i] == pre.active_maps@[h].region);
    }
}

} // verus!
