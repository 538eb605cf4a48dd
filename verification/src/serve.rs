//! Serving messages: from the first byte of a request to the response.
use crate::abi::{check, table_view, AbiCheck};
use crate::errno::{EINVAL, ENOENT, ENOTSUP};
use crate::files::{by_path, files_resp, sort_by_path, views, write_files, FileTree, FileView, HostFile};
use crate::forward::{
    fd_done, fd_started, info_done, info_started, nested_done, nested_started, retry_done, route,
    simple_done, simple_started, spec_route, Forward, Route,
};
use crate::handle_table::lists_values;
use crate::ioctl::{nr_of, type_of, NV_IOCTL_MAGIC};
use crate::mapping::{
    map_done, map_started, place_done, place_restored, unmap_done, unmap_restored, unmap_started,
    unmap_unknown_done,
};
use crate::messages::{
    IoctlReq, MsgHeader, MsgType, OpenReq, IOCTL_REQ_SIZE, MMAP_REQ_SIZE, MSG_HEADER_SIZE,
    MUNMAP_REQ_SIZE, OPEN_REQ_SIZE,
};
use crate::mmap::{carried_by, MmapEntry};
use crate::nvidia::{device_path, spec_device_path, NvidiaBackend, Pending};
use crate::regions::{gives_back, holds, in_use, lemma_release_holds, release};
use crate::response::{header_resp, write_hdr, Status};
use crate::shm::ShmRegion;
use crate::step::{Action, Event, Step};
use crate::watch::WatchLog;
use vstd::prelude::*;
use vstd::slice::{slice_subrange, slice_to_vec};

verus! {

/// The start of `Open`: a device that exists is to be opened.
pub open spec fn open_started(pre: NvidiaBackend, payload: Seq<u8>, post: NvidiaBackend, step: Step) -> bool {
    &&& post.same_device(&pre)
    &&& post.same_message(&pre)
    &&& if payload.len() < OPEN_REQ_SIZE {
        post.fails(step, Status::InvalidDevice, 0)
    } else {
        match spec_device_path(OpenReq::at(payload, 0).device_type) {
            Err(_) => post.fails(step, Status::InvalidDevice, 0),
            Ok(path) => {
                &&& step matches Step::Do(Action::Open(p)) && p@ == path
                &&& post.pending is Open
            },
        }
    }
}

/// The end of `Open`: the new handle travels in the header.
pub open spec fn open_done(
    pre: NvidiaBackend,
    result: core::result::Result<i32, i32>,
    post: NvidiaBackend,
    step: Step,
) -> bool {
    &&& post.same_message(&pre)
    &&& match result {
        Err(errno) => post.same_device(&pre) && post.fails(step, Status::OpenFailed, errno),
        Ok(fd) => {
            let handle = pre.handles.spec_next();
            &&& post.handles@ == pre.handles@.insert(handle, fd)
            &&& post.handles.spec_next() == handle + 1
            &&& post.watches.added@ == pre.watches.added@.push((handle as u32, fd))
            &&& post.watches.removed@ == pre.watches.removed@
            &&& post.shm == pre.shm && post.active_maps == pre.active_maps && post.driver
                == pre.driver && post.abi == pre.abi && post.policy == pre.policy
            &&& post.replies(
                step,
                header_resp(post.current_msg, handle as u32, 0, post.resp_cap as int),
            )
        },
    }
}

/// `Mmap`: a mapping made on the handle exists or not, but the window has no place in the guest's
/// address space yet, so there is no address to hand back.
pub open spec fn mmap_served(pre: NvidiaBackend, payload: Seq<u8>, post: NvidiaBackend, step: Step) -> bool {
    &&& post.same_device(&pre)
    &&& post.same_message(&pre)
    &&& if payload.len() < MMAP_REQ_SIZE {
        post.fails(step, Status::InvalidMsgType, EINVAL)
    } else if forall|k: u64| #[trigger]
        pre.active_maps@.contains_key(k) ==> pre.active_maps@[k].map_fd_handle != pre.named() {
        post.fails(step, Status::BadHandle, ENOENT)
    } else {
        post.fails(step, Status::IoctlFailed, ENOTSUP)
    }
}

/// `Munmap`: nothing was handed out, so there is nothing to take back, and that is a success.
pub open spec fn munmap_served(
    pre: NvidiaBackend,
    payload: Seq<u8>,
    post: NvidiaBackend,
    step: Step,
) -> bool {
    &&& post.same_device(&pre)
    &&& post.same_message(&pre)
    &&& if payload.len() < MUNMAP_REQ_SIZE {
        post.fails(step, Status::InvalidMsgType, EINVAL)
    } else {
        post.replies(step, header_resp(post.current_msg, 0, 0, post.resp_cap as int))
    }
}

pub open spec fn files_started(pre: NvidiaBackend, tree: FileTree, post: NvidiaBackend, step: Step) -> bool {
    &&& post.same_device(&pre)
    &&& post.same_message(&pre)
    &&& step matches Step::Do(Action::Collect(t)) && t == tree
    &&& post.pending == Pending::Files(tree)
}

/// The end of `GetProcFiles` or `GetSysFiles`. The proc tree is walked in no particular order, so
/// its files are put in that of their paths.
pub open spec fn files_done(
    pre: NvidiaBackend,
    tree: FileTree,
    files: Seq<FileView>,
    post: NvidiaBackend,
    step: Step,
) -> bool {
    let ordered = if tree == FileTree::Proc {
        by_path(files)
    } else {
        files
    };
    &&& post.same_device(&pre)
    &&& post.same_message(&pre)
    &&& post.replies(step, files_resp(tree, ordered, post.resp_cap as int))
}

/// `regions` are those of the mappings in `maps`, in some order.
pub open spec fn regions_of(regions: Seq<ShmRegion>, maps: Map<u64, MmapEntry>) -> bool {
    exists|entries: Seq<MmapEntry>| #[trigger]
        lists_values(entries, maps) && regions == entries.map_values(|e: MmapEntry| e.region)
}

/// The handle that the message names is gone, and its descriptor is to be closed.
pub open spec fn closed(pre: NvidiaBackend, post: NvidiaBackend, step: Step) -> bool {
    &&& post.same_message(&pre)
    &&& post.driver == pre.driver && post.abi == pre.abi && post.policy == pre.policy
    &&& post.handles@ == pre.handles@.remove(pre.named())
    &&& post.handles.spec_next() == pre.handles.spec_next()
    &&& if pre.handles@.contains_key(pre.named()) {
        &&& (post.watches.added@, post.watches.removed@) == pre.watches.after_close(
            pre.current_handle,
        )
        &&& post.pending is Idle
        &&& step matches Step::Done { resp, close } && resp@ == header_resp(
            post.current_msg,
            0,
            0,
            post.resp_cap as int,
        ) && close@ == seq![pre.handles@[pre.named()]]
    } else {
        post.watches == pre.watches && post.fails(step, Status::BadHandle, 0)
    }
}

/// The start of `Close`: closing a device descriptor releases whatever it was mapping.
pub open spec fn close_started(pre: NvidiaBackend, post: NvidiaBackend, step: Step) -> bool {
    let mine = carried_by(pre.active_maps@, pre.named());
    &&& post.active_maps@ == pre.active_maps@.remove_keys(mine.dom())
    &&& post.shm == pre.shm
    &&& if mine.dom().is_empty() {
        closed(pre, post, step)
    } else {
        &&& post.same_message(&pre)
        &&& post.handles == pre.handles && post.driver == pre.driver && post.abi == pre.abi
            && post.policy == pre.policy && post.watches == pre.watches
        &&& step matches Step::Do(Action::Restore(regions)) && regions_of(regions@, mine)
        &&& post.pending matches Pending::Close(waiting) && step->Do_0->Restore_0@ == waiting@
    }
}

/// The end of `Close`, once the memory of its mappings is back.
pub open spec fn close_done(
    pre: NvidiaBackend,
    regions: Seq<ShmRegion>,
    restored: Seq<bool>,
    post: NvidiaBackend,
    step: Step,
) -> bool {
    &&& post.active_maps == pre.active_maps
    &&& gives_back(pre.shm, post.shm, regions, restored)
    &&& closed(pre, post, step)
}

impl NvidiaBackend {
    fn handle_open(&mut self, payload: &[u8]) -> (step: Step)
        requires
            old(self).wf(),
            old(self).pending is Idle,
        ensures
            final(self).wf(),
            open_started(*old(self), payload@, *final(self), step),
    {
        if payload.len() < OPEN_REQ_SIZE {
            return self.fail(Status::InvalidDevice, 0);
        }
        let req: OpenReq = OpenReq::read(payload, 0);
        match device_path(req.device_type) {
            Ok(path) => {
                self.pending = Pending::Open;
                Step::Do(Action::Open(path))
            },
            Err(_) => self.fail(Status::InvalidDevice, 0),
        }
    }

    fn opened(&mut self, result: core::result::Result<i32, i32>) -> (step: Step)
        requires
            old(self).wf(),
            old(self).pending is Open,
            result matches Err(e) ==> e > i32::MIN,
            result is Ok ==> old(self).handles.spec_next() < u64::MAX,
        ensures
            final(self).wf(),
            open_done(*old(self), result, *final(self), step),
    {
        match result {
            Err(errno) => self.fail(Status::OpenFailed, errno),
            Ok(fd) => {
                let handle: u64 = self.handles.insert(fd);
                self.watches.opened(handle as u32, fd);
                self.pending = Pending::Idle;
                Step::Done {
                    resp: write_hdr(self.current_msg, handle as u32, 0, self.resp_cap),
                    close: Vec::new(),
                }
            },
        }
    }

    fn handle_mmap(&mut self, payload: &[u8]) -> (step: Step)
        requires
            old(self).wf(),
            old(self).pending is Idle,
        ensures
            final(self).wf(),
            mmap_served(*old(self), payload@, *final(self), step),
    {
        if payload.len() < MMAP_REQ_SIZE {
            return self.fail(Status::InvalidMsgType, EINVAL);
        }
        if !self.active_maps.fd_has_mapping(self.current_handle as u64) {
            return self.fail(Status::BadHandle, ENOENT);
        }
        self.fail(Status::IoctlFailed, ENOTSUP)
    }

    fn handle_munmap(&mut self, payload: &[u8]) -> (step: Step)
        requires
            old(self).wf(),
            old(self).pending is Idle,
        ensures
            final(self).wf(),
            munmap_served(*old(self), payload@, *final(self), step),
    {
        if payload.len() < MUNMAP_REQ_SIZE {
            return self.fail(Status::InvalidMsgType, EINVAL);
        }
        Step::Done {
            resp: write_hdr(self.current_msg, 0, 0, self.resp_cap),
            close: Vec::new(),
        }
    }

    fn handle_get_files(&mut self, tree: FileTree) -> (step: Step)
        requires
            old(self).wf(),
            old(self).pending is Idle,
        ensures
            final(self).wf(),
            files_started(*old(self), tree, *final(self), step),
    {
        self.pending = Pending::Files(tree);
        Step::Do(Action::Collect(tree))
    }

    fn files_collected(&mut self, tree: FileTree, files: Vec<HostFile>) -> (step: Step)
        requires
            old(self).wf(),
            old(self).pending == Pending::Files(tree),
        ensures
            final(self).wf(),
            files_done(*old(self), tree, views(files@), *final(self), step),
    {
        let ordered: Vec<HostFile> = if tree == FileTree::Proc {
            sort_by_path(files)
        } else {
            files
        };
        self.pending = Pending::Idle;
        Step::Done { resp: write_files(tree, &ordered, self.resp_cap), close: Vec::new() }
    }

    fn handle_close(&mut self) -> (step: Step)
        requires
            old(self).wf(),
            old(self).pending is Idle,
        ensures
            final(self).wf(),
            close_started(*old(self), *final(self), step),
    {
        let ghost mine = carried_by(self.active_maps@, self.named());
        let ghost maps = self.active_maps@;
        let entries: Vec<MmapEntry> = self.active_maps.take_for_fd(self.current_handle as u64);
        proof {
            lemma_listed_regions(entries@, mine);
        }
        if entries.len() == 0 {
            proof {
                lemma_taken_holds(self.shm, maps, mine, entries@);
                assert(entries@.map_values(|e: MmapEntry| e.region) =~= Seq::<ShmRegion>::empty());
            }
            return self.finish_close();
        }
        let regions: Vec<ShmRegion> = regions_in(&entries);
        let waiting: Vec<ShmRegion> = slice_to_vec(regions.as_slice());
        proof {
            lemma_taken_holds(self.shm, maps, mine, entries@);
        }
        self.pending = Pending::Close(waiting);
        Step::Do(Action::Restore(regions))
    }

    fn close_restored(&mut self, regions: Vec<ShmRegion>, restored: Vec<bool>) -> (step: Step)
        requires
            old(self).wf(),
            old(self).pending matches Pending::Close(waiting) && waiting@ == regions@,
            restored@.len() == regions@.len(),
        ensures
            final(self).wf(),
            close_done(*old(self), regions@, restored@, *final(self), step),
    {
        let ghost before = self.shm;
        release(&mut self.shm, &regions, &restored);
        proof {
            lemma_release_holds(before, self.shm, self.active_maps@, regions@, restored@);
        }
        self.pending = Pending::Idle;
        self.finish_close()
    }

    /// Forget the handle that the message names.
    fn finish_close(&mut self) -> (step: Step)
        requires
            old(self).wf(),
            old(self).pending is Idle,
        ensures
            final(self).wf(),
            final(self).shm == old(self).shm,
            final(self).active_maps == old(self).active_maps,
            closed(*old(self), *final(self), step),
    {
        match self.handles.remove(self.current_handle as u64) {
            Ok(fd) => {
                self.watches.closed(self.current_handle);
                let mut close: Vec<i32> = Vec::new();
                close.push(fd);
                assert(close@ =~= seq![fd]);
                Step::Done { resp: write_hdr(self.current_msg, 0, 0, self.resp_cap), close }
            },
            Err(_) => self.fail(Status::BadHandle, 0),
        }
    }
}

/// The regions of these mappings, in their order.
fn regions_in(entries: &Vec<MmapEntry>) -> (r: Vec<ShmRegion>)
    ensures
        r@ == entries@.map_values(|e: MmapEntry| e.region),
{
    let mut r: Vec<ShmRegion> = Vec::new();
    let mut i: usize = 0;
    while i < entries.len()
        invariant
            i <= entries@.len(),
            r@ == entries@.take(i as int).map_values(|e: MmapEntry| e.region),
        decreases entries.len() - i,
    {
        r.push(entries[i].region);
        i = i + 1;
        assert(r@ =~= entries@.take(i as int).map_values(|e: MmapEntry| e.region));
    }
    assert(entries@.take(i as int) =~= entries@);
    r
}

proof fn lemma_listed_regions(entries: Seq<MmapEntry>, mine: Map<u64, MmapEntry>)
    requires
        lists_values(entries, mine),
    ensures
        regions_of(entries.map_values(|e: MmapEntry| e.region), mine),
        entries.len() == 0 <==> mine.dom().is_empty(),
{
    let keys = choose|keys: Seq<u64>|
        #![trigger keys.to_set()]
        keys.no_duplicates() && keys.to_set() == mine.dom() && entries == keys.map_values(
            |k: u64| mine[k],
        );
    assert(entries.len() == keys.len());
    if keys.len() > 0 {
        assert(keys.to_set().contains(keys[0]));
    } else {
        assert(keys.to_set() =~= Set::<u64>::empty());
    }
}

/// Mappings that are taken out of the table wait with their regions still in use.
proof fn lemma_taken_holds(
    shm: crate::shm::ShmAllocator,
    maps: Map<u64, MmapEntry>,
    mine: Map<u64, MmapEntry>,
    entries: Seq<MmapEntry>,
)
    requires
        holds(shm, maps, Seq::empty()),
        mine.dom().subset_of(maps.dom()),
        forall|k: u64| #[trigger] mine.contains_key(k) ==> mine[k] == maps[k],
        lists_values(entries, mine),
    ensures
        holds(
            shm,
            maps.remove_keys(mine.dom()),
            entries.map_values(|e: MmapEntry| e.region),
        ),
{
    let keys = choose|keys: Seq<u64>|
        #![trigger keys.to_set()]
        keys.no_duplicates() && keys.to_set() == mine.dom() && entries == keys.map_values(
            |k: u64| mine[k],
        );
    let left = maps.remove_keys(mine.dom());
    let regions = entries.map_values(|e: MmapEntry| e.region);
    assert forall|i: int| 0 <= i < regions.len() implies #[trigger] regions[i] == maps[keys[i]].region
        && maps.contains_key(keys[i]) && mine.contains_key(keys[i]) by {
        assert(keys.to_set().contains(keys[i]));
    }
    assert forall|i: int| 0 <= i < regions.len() implies in_use(shm, #[trigger] regions[i]) by {
        assert(maps.contains_key(keys[i]));
    }
    assert forall|i: int, j: int|
        #![trigger regions[i], regions[j]]
        0 <= i < j < regions.len() implies regions[i].bytes().disjoint(regions[j].bytes()) by {
        assert(maps.contains_key(keys[i]) && maps.contains_key(keys[j]));
        assert(keys[i] != keys[j]);
    }
    assert forall|i: int, k: u64|
        #![trigger regions[i], left.contains_key(k)]
        0 <= i < regions.len() && left.contains_key(k) implies regions[i].bytes().disjoint(
        left[k].region.bytes(),
    ) by {
        assert(maps.contains_key(keys[i]) && maps.contains_key(k));
        assert(keys[i] != k);
    }
    assert forall|j: u64, k: u64|
        #![trigger left.contains_key(j), left.contains_key(k)]
        left.contains_key(j) && left.contains_key(k) && j != k implies left[j].region.bytes().disjoint(
        left[k].region.bytes(),
    ) by {
        assert(maps.contains_key(j) && maps.contains_key(k));
    }
    assert forall|k: u64| #[trigger] left.contains_key(k) implies left[k].region.offset == k && in_use(
        shm,
        left[k].region,
    ) by {
        assert(maps.contains_key(k));
    }
}

/// How the ABI profile stands to an ioctl. Only NVIDIA's own magic is described by the tables.
pub open spec fn standing(b: NvidiaBackend, cmd: u32, data_len: u32) -> AbiCheck {
    if type_of(cmd) == NV_IOCTL_MAGIC {
        check(table_view(b.abi), nr_of(cmd), data_len)
    } else {
        AbiCheck::NoProfile
    }
}

/// The start of an ioctl whose route is known.
pub open spec fn forwarded(pre: NvidiaBackend, f: Forward, post: NvidiaBackend, step: Step) -> bool {
    match spec_route(f.cmd) {
        Route::Nested { outer, ptr } => nested_started(pre, f, outer, ptr, post, step),
        Route::FdCarrying(offset) => fd_started(pre, f, offset, post, step),
        Route::MapMemory => map_started(pre, f, post, step),
        Route::UnmapMemory => unmap_started(pre, f, post, step),
        Route::MappingInfo => info_started(pre, f, post, step),
        Route::Simple => simple_started(pre, f, post, step),
    }
}

/// `Ioctl`: a request that is whole, names an open handle and is not refused by the ABI policy
/// goes on to the host.
pub open spec fn ioctl_served(pre: NvidiaBackend, payload: Seq<u8>, post: NvidiaBackend, step: Step) -> bool {
    let req = IoctlReq::at(payload, 0);
    let body = payload.skip(IOCTL_REQ_SIZE as int);
    let param_len = req.data_len + req.nested_len;
    let mid = NvidiaBackend { current_data_len: req.data_len, ..pre };
    let standing = standing(pre, req.cmd, req.data_len);
    if payload.len() < IOCTL_REQ_SIZE {
        post.same_device(&pre) && post.same_message(&pre) && post.fails(
            step,
            Status::InvalidMsgType,
            0,
        )
    } else if body.len() < param_len + req.deep_len {
        post.same_device(&pre) && post.same_message(&pre) && post.fails(
            step,
            Status::InvalidMsgType,
            EINVAL,
        )
    } else if !pre.handles@.contains_key(pre.named()) {
        post.same_device(&mid) && post.same_message(&mid) && post.fails(step, Status::BadHandle, 0)
    } else if pre.policy.spec_refusal(standing) is Some {
        post.same_device(&mid) && post.same_message(&mid) && post.fails(
            step,
            Status::IoctlFailed,
            pre.policy.spec_refusal(standing)->0,
        )
    } else {
        exists|f: Forward|
            {
                &&& f.fd == pre.handles@[pre.named()]
                &&& f.cmd == req.cmd
                &&& f.check == standing
                &&& f.param@ == body.take(param_len)
                &&& f.deep@ == body.subrange(param_len, param_len + req.deep_len)
                &&& f.deep_ptr_offset == req.deep_ptr_offset
                &&& #[trigger] forwarded(mid, f, post, step)
            }
    }
}

/// What a message does, and the first step of serving it.
pub open spec fn dispatched(
    pre: NvidiaBackend,
    req: Seq<u8>,
    cap: usize,
    post: NvidiaBackend,
    step: Step,
) -> bool {
    let hdr = MsgHeader::at(req, 0);
    let kind = MsgType::spec_from_u32(hdr.msg_type);
    let payload = req.skip(MSG_HEADER_SIZE as int);
    let short = NvidiaBackend { resp_cap: cap, ..pre };
    let unknown = NvidiaBackend { current_msg: MsgType::Ioctl, resp_cap: cap, ..pre };
    let mid = NvidiaBackend {
        current_msg: kind->0,
        current_handle: hdr.handle,
        resp_cap: cap,
        ..pre
    };
    if req.len() < MSG_HEADER_SIZE {
        post.same_device(&short) && post.same_message(&short) && post.fails(
            step,
            Status::InvalidMsgType,
            0,
        )
    } else {
        match kind {
            None => post.same_device(&unknown) && post.same_message(&unknown) && post.fails(
                step,
                Status::InvalidMsgType,
                0,
            ),
            Some(MsgType::Open) => open_started(mid, payload, post, step),
            Some(MsgType::Close) => close_started(mid, post, step),
            Some(MsgType::Ioctl) => ioctl_served(mid, payload, post, step),
            Some(MsgType::Mmap) => mmap_served(mid, payload, post, step),
            Some(MsgType::Munmap) => munmap_served(mid, payload, post, step),
            Some(MsgType::GetProcFiles) => files_started(mid, FileTree::Proc, post, step),
            Some(MsgType::GetSysFiles) => files_started(mid, FileTree::Sys, post, step),
        }
    }
}

/// The start of a teardown: every mapping is given up.
pub open spec fn teardown_started(pre: NvidiaBackend, post: NvidiaBackend, step: Step) -> bool {
    &&& post.active_maps@ == Map::<u64, MmapEntry>::empty()
    &&& post.shm == pre.shm
    &&& if pre.active_maps@.dom().is_empty() {
        torn_down(pre, post, step)
    } else {
        &&& post.same_message(&pre)
        &&& post.handles == pre.handles && post.driver == pre.driver && post.abi == pre.abi
            && post.policy == pre.policy && post.watches == pre.watches
        &&& step matches Step::Do(Action::Restore(regions)) && regions_of(
            regions@,
            pre.active_maps@,
        )
        &&& post.pending matches Pending::Teardown(waiting) && step->Do_0->Restore_0@ == waiting@
    }
}

/// No handle is left, and every descriptor is to be closed.
pub open spec fn torn_down(pre: NvidiaBackend, post: NvidiaBackend, step: Step) -> bool {
    &&& post.same_message(&pre)
    &&& post.driver == pre.driver && post.abi == pre.abi && post.policy == pre.policy
    &&& post.handles@ == Map::<u64, i32>::empty()
    &&& post.handles.spec_next() == 1
    &&& post.watches.added@.len() == 0
    &&& post.watches.removed@.len() == 0
    &&& post.pending is Idle
    &&& step matches Step::Done { resp, close } && resp@.len() == 0 && lists_values(
        close@,
        pre.handles@,
    )
}

pub open spec fn teardown_done(
    pre: NvidiaBackend,
    regions: Seq<ShmRegion>,
    restored: Seq<bool>,
    post: NvidiaBackend,
    step: Step,
) -> bool {
    &&& post.active_maps == pre.active_maps
    &&& gives_back(pre.shm, post.shm, regions, restored)
    &&& torn_down(pre, post, step)
}

/// Whether `e` can be the outcome of what the backend is waiting for: an errno has an absolute
/// value, blocks keep their lengths, every region has its outcome, and a descriptor finds a handle.
pub open spec fn spec_accepts(b: NvidiaBackend, e: Event) -> bool {
    match (b.pending, e) {
        (Pending::Open, Event::Opened(Ok(_))) => b.handles.spec_next() < u64::MAX,
        (Pending::Open, Event::Opened(Err(errno))) => errno > i32::MIN,
        (Pending::Files(_), Event::Collected(_)) => true,
        (Pending::Close(regions), Event::Restored(done)) => done@.len() == regions@.len(),
        (Pending::Teardown(regions), Event::Restored(done)) => done@.len() == regions@.len(),
        (Pending::UnmapRestore { .. }, Event::Restored(done)) => done@.len() == 1,
        (Pending::PlaceRestore(_), Event::Restored(done)) => done@.len() == 1,
        (Pending::MapPlace { .. }, Event::Placed(_)) => true,
        (_, Event::Returned { result, data, nested, deep }) => {
            &&& b.awaits_return()
            &&& result matches Err(errno) ==> errno > i32::MIN
            &&& data@.len() == b.sent.data
            &&& nested@.len() == b.sent.nested
            &&& deep@.len() == b.sent.deep
        },
        _ => false,
    }
}

/// What an event does, and the next step of serving the message.
pub open spec fn resumed(pre: NvidiaBackend, e: Event, post: NvidiaBackend, step: Step) -> bool {
    match (pre.pending, e) {
        (Pending::Open, Event::Opened(r)) => open_done(pre, r, post, step),
        (Pending::Files(tree), Event::Collected(files)) => files_done(
            pre,
            tree,
            views(files@),
            post,
            step,
        ),
        (Pending::Close(regions), Event::Restored(done)) => close_done(
            pre,
            regions@,
            done@,
            post,
            step,
        ),
        (Pending::Teardown(regions), Event::Restored(done)) => teardown_done(
            pre,
            regions@,
            done@,
            post,
            step,
        ),
        (Pending::UnmapRestore { params, region }, Event::Restored(done)) => unmap_restored(
            pre,
            params@,
            region,
            done@,
            post,
            step,
        ),
        (Pending::PlaceRestore(region), Event::Restored(done)) => place_restored(
            pre,
            region,
            done@,
            post,
            step,
        ),
        (Pending::MapPlace { params, region, guest }, Event::Placed(r)) => place_done(
            pre,
            params@,
            region,
            guest,
            r,
            post,
            step,
        ),
        (
            Pending::Nested { ptr, slot, deep_ptr },
            Event::Returned { result, data, nested, deep },
        ) => nested_done(
            pre,
            ptr,
            slot,
            deep_ptr,
            result,
            data@,
            nested@,
            deep@,
            post,
            step,
        ),
        (
            Pending::Simple { fd, cmd, check, retry },
            Event::Returned { result, data, .. },
        ) => simple_done(pre, fd, cmd, check, retry, result, data@, post, step),
        (Pending::SimpleRetry, Event::Returned { result, data, .. }) => retry_done(
            pre,
            result,
            data@,
            post,
            step,
        ),
        (
            Pending::FdCarrying { fd_offset, guest },
            Event::Returned { result, data, .. },
        ) => fd_done(pre, fd_offset, guest, result, data@, post, step),
        (Pending::MappingInfo, Event::Returned { result, data, .. }) => info_done(
            pre,
            result,
            data@,
            post,
            step,
        ),
        (
            Pending::MapMemory { guest, map_fd },
            Event::Returned { result, data, .. },
        ) => map_done(pre, guest, map_fd, result, data@, post, step),
        (Pending::UnmapUnknown, Event::Returned { result, data, .. }) => unmap_unknown_done(
            pre,
            result,
            data@,
            post,
            step,
        ),
        (Pending::Unmap { key }, Event::Returned { result, data, .. }) => unmap_done(
            pre,
            key,
            result,
            data@,
            post,
            step,
        ),
        _ => false,
    }
}

impl NvidiaBackend {
    /// Whether a host ioctl is under way.
    pub open spec fn awaits_return(&self) -> bool {
        match self.pending {
            Pending::Nested { .. }
            | Pending::Simple { .. }
            | Pending::SimpleRetry
            | Pending::FdCarrying { .. }
            | Pending::MappingInfo
            | Pending::MapMemory { .. }
            | Pending::UnmapUnknown
            | Pending::Unmap { .. } => true,
            _ => false,
        }
    }

    fn handle_ioctl(&mut self, payload: &[u8]) -> (step: Step)
        requires
            old(self).wf(),
            old(self).pending is Idle,
        ensures
            final(self).wf(),
            ioctl_served(*old(self), payload@, *final(self), step),
    {
        if payload.len() < IOCTL_REQ_SIZE {
            return self.fail(Status::InvalidMsgType, 0);
        }
        let req: IoctlReq = IoctlReq::read(payload, 0);
        // The guest sends the top-level struct and the blocks that pointers refer to, back to
        // back.
        let body: &[u8] = slice_subrange(payload, IOCTL_REQ_SIZE, payload.len());
        assert(body@ =~= payload@.skip(IOCTL_REQ_SIZE as int));
        let param_len: u64 = req.data_len as u64 + req.nested_len as u64;
        let want: u64 = param_len + req.deep_len as u64;
        if (body.len() as u64) < want {
            return self.fail(Status::InvalidMsgType, EINVAL);
        }
        let param: &[u8] = slice_subrange(body, 0, param_len as usize);
        let deep: &[u8] = slice_subrange(body, param_len as usize, want as usize);
        assert(param@ =~= body@.take(param_len as int));
        self.current_data_len = req.data_len;
        let fd: i32 = match self.handles.get_raw(self.current_handle as u64) {
            Ok(fd) => fd,
            Err(_) => {
                return self.fail(Status::BadHandle, 0);
            },
        };
        let standing: AbiCheck = if req.cmd / 0x100 % 0x100 == NV_IOCTL_MAGIC {
            self.check_abi(req.cmd % 0x100, req.data_len)
        } else {
            AbiCheck::NoProfile
        };
        if let Some(errno) = self.policy.refusal(standing) {
            return self.fail(Status::IoctlFailed, errno);
        }
        let f: Forward = Forward {
            fd,
            cmd: req.cmd,
            check: standing,
            param,
            deep,
            deep_ptr_offset: req.deep_ptr_offset,
        };
        let ghost mid = *self;
        let step: Step = match route(req.cmd) {
            Route::Nested { outer, ptr } => self.dispatch_nested(&f, outer, ptr),
            Route::FdCarrying(offset) => self.dispatch_fd_carrying(&f, offset),
            Route::MapMemory => self.dispatch_map_memory(&f),
            Route::UnmapMemory => self.dispatch_unmap_memory(&f),
            Route::MappingInfo => self.dispatch_update_device_mapping_info(&f),
            Route::Simple => self.dispatch_simple(&f),
        };
        assert(forwarded(mid, f, *self, step));
        step
    }

    /// Begin to serve a message whose response goes into a buffer of `resp_cap` bytes.
    pub fn dispatch(&mut self, req_buf: &[u8], resp_cap: usize) -> (step: Step)
        requires
            old(self).wf(),
            old(self).pending is Idle,
        ensures
            final(self).wf(),
            dispatched(*old(self), req_buf@, resp_cap, *final(self), step),
    {
        self.resp_cap = resp_cap;
        if req_buf.len() < MSG_HEADER_SIZE {
            return self.fail(Status::InvalidMsgType, 0);
        }
        let hdr: MsgHeader = MsgHeader::read(req_buf, 0);
        let msg_type: MsgType = match MsgType::from_u32(hdr.msg_type) {
            Some(t) => t,
            None => {
                self.current_msg = MsgType::Ioctl;
                return self.fail(Status::InvalidMsgType, 0);
            },
        };
        self.current_msg = msg_type;
        // The handle travels in the header, not the payload: every message after Open acts on
        // one, and Open's response returns one the same way.
        self.current_handle = hdr.handle;
        let payload: &[u8] = slice_subrange(req_buf, MSG_HEADER_SIZE, req_buf.len());
        assert(payload@ =~= req_buf@.skip(MSG_HEADER_SIZE as int));
        match msg_type {
            MsgType::Open => self.handle_open(payload),
            MsgType::Close => self.handle_close(),
            MsgType::Ioctl => self.handle_ioctl(payload),
            MsgType::Mmap => self.handle_mmap(payload),
            MsgType::Munmap => self.handle_munmap(payload),
            MsgType::GetProcFiles => self.handle_get_files(FileTree::Proc),
            MsgType::GetSysFiles => self.handle_get_files(FileTree::Sys),
        }
    }

    /// Whether an event can be the outcome of what the backend is waiting for.
    pub fn accepts(&self, event: &Event) -> (r: bool)
        ensures
            r == spec_accepts(*self, *event),
    {
        let ioctl: bool = match &self.pending {
            Pending::Nested { .. }
            | Pending::Simple { .. }
            | Pending::SimpleRetry
            | Pending::FdCarrying { .. }
            | Pending::MappingInfo
            | Pending::MapMemory { .. }
            | Pending::UnmapUnknown
            | Pending::Unmap { .. } => true,
            _ => false,
        };
        match event {
            Event::Opened(result) => match (&self.pending, result) {
                (Pending::Open, Ok(_)) => !self.handles.exhausted(),
                (Pending::Open, Err(errno)) => *errno > i32::MIN,
                _ => false,
            },
            Event::Collected(_) => match &self.pending {
                Pending::Files(_) => true,
                _ => false,
            },
            Event::Restored(done) => match &self.pending {
                Pending::Close(regions) => done.len() == regions.len(),
                Pending::Teardown(regions) => done.len() == regions.len(),
                Pending::UnmapRestore { .. } => done.len() == 1,
                Pending::PlaceRestore(_) => done.len() == 1,
                _ => false,
            },
            Event::Placed(_) => match &self.pending {
                Pending::MapPlace { .. } => true,
                _ => false,
            },
            Event::Returned { result, data, nested, deep } => {
                let errno_ok: bool = match result {
                    Err(errno) => *errno > i32::MIN,
                    Ok(_) => true,
                };
                ioctl && errno_ok && data.len() == self.sent.data && nested.len()
                    == self.sent.nested && deep.len() == self.sent.deep
            },
        }
    }

    /// Go on with a message once its action has been performed.
    pub fn resume(&mut self, event: Event) -> (step: Step)
        requires
            old(self).wf(),
            spec_accepts(*old(self), event),
        ensures
            final(self).wf(),
            resumed(*old(self), event, *final(self), step),
    {
        match event {
            Event::Opened(result) => self.opened(result),
            Event::Collected(files) => {
                let tree: FileTree = match &self.pending {
                    Pending::Files(tree) => *tree,
                    _ => FileTree::Proc,
                };
                self.files_collected(tree, files)
            },
            Event::Placed(result) => {
                if let Pending::MapPlace { params, region, guest } = &self.pending {
                    let params: Vec<u8> = slice_to_vec(params.as_slice());
                    let region: ShmRegion = *region;
                    let guest: u32 = *guest;
                    return self.map_placed(params, region, guest, result);
                }
                self.fail(Status::IoctlFailed, 0)
            },
            Event::Restored(done) => {
                match &self.pending {
                    Pending::Close(regions) => {
                        let regions: Vec<ShmRegion> = slice_to_vec(regions.as_slice());
                        self.close_restored(regions, done)
                    },
                    Pending::Teardown(regions) => {
                        let regions: Vec<ShmRegion> = slice_to_vec(regions.as_slice());
                        self.teardown_restored(regions, done)
                    },
                    Pending::UnmapRestore { params, region } => {
                        let params: Vec<u8> = slice_to_vec(params.as_slice());
                        let region: ShmRegion = *region;
                        self.unmap_memory_restored(params, region, done)
                    },
                    Pending::PlaceRestore(region) => {
                        let region: ShmRegion = *region;
                        self.place_memory_restored(region, done)
                    },
                    _ => self.fail(Status::IoctlFailed, 0),
                }
            },
            Event::Returned { result, data, nested, deep } => {
                match &self.pending {
                    Pending::Nested { ptr, slot, deep_ptr } => {
                        let (ptr, slot, deep_ptr): (usize, Option<(usize, u32)>, Option<usize>) = (
                            *ptr,
                            *slot,
                            *deep_ptr,
                        );
                        self.nested_returned(ptr, slot, deep_ptr, result, data, nested, deep)
                    },
                    Pending::Simple { fd, cmd, check, retry } => {
                        let (fd, cmd, check, retry): (i32, u32, AbiCheck, bool) = (
                            *fd,
                            *cmd,
                            *check,
                            *retry,
                        );
                        self.simple_returned(fd, cmd, check, retry, result, data)
                    },
                    Pending::SimpleRetry => self.retry_returned(result, data),
                    Pending::FdCarrying { fd_offset, guest } => {
                        let (fd_offset, guest): (usize, u32) = (*fd_offset, *guest);
                        self.fd_returned(fd_offset, guest, result, data)
                    },
                    Pending::MappingInfo => self.info_returned(result, data),
                    Pending::MapMemory { guest, map_fd } => {
                        let (guest, map_fd): (u32, i32) = (*guest, *map_fd);
                        self.map_returned(guest, map_fd, result, data)
                    },
                    Pending::UnmapUnknown => self.unmap_unknown_returned(result, data),
                    Pending::Unmap { key } => {
                        let key: u64 = *key;
                        self.unmap_returned(key, result, data)
                    },
                    _ => self.fail(Status::IoctlFailed, 0),
                }
            },
        }
    }

    /// Give up everything the guest left behind: on VM shutdown, ordinary or not.
    ///
    /// The memory of every mapping goes back under the window before any descriptor is closed. A
    /// guest process that exits without unmapping is the normal case.
    pub fn teardown(&mut self) -> (step: Step)
        requires
            old(self).wf(),
            old(self).pending is Idle,
        ensures
            final(self).wf(),
            teardown_started(*old(self), *final(self), step),
    {
        let ghost maps = self.active_maps@;
        let entries: Vec<MmapEntry> = self.active_maps.drain();
        proof {
            lemma_listed_regions(entries@, maps);
            lemma_taken_holds(self.shm, maps, maps, entries@);
            assert(maps.remove_keys(maps.dom()) =~= Map::<u64, MmapEntry>::empty());
        }
        if entries.len() == 0 {
            assert(entries@.map_values(|e: MmapEntry| e.region) =~= Seq::<ShmRegion>::empty());
            return self.finish_teardown();
        }
        let regions: Vec<ShmRegion> = regions_in(&entries);
        let waiting: Vec<ShmRegion> = slice_to_vec(regions.as_slice());
        self.pending = Pending::Teardown(waiting);
        Step::Do(Action::Restore(regions))
    }

    fn teardown_restored(&mut self, regions: Vec<ShmRegion>, restored: Vec<bool>) -> (step: Step)
        requires
            old(self).wf(),
            old(self).pending matches Pending::Teardown(waiting) && waiting@ == regions@,
            restored@.len() == regions@.len(),
        ensures
            final(self).wf(),
            teardown_done(*old(self), regions@, restored@, *final(self), step),
    {
        let ghost before = self.shm;
        release(&mut self.shm, &regions, &restored);
        proof {
            lemma_release_holds(before, self.shm, self.active_maps@, regions@, restored@);
        }
        self.pending = Pending::Idle;
        self.finish_teardown()
    }

    /// Forget every handle.
    fn finish_teardown(&mut self) -> (step: Step)
        requires
            old(self).wf(),
            old(self).pending is Idle,
        ensures
            final(self).wf(),
            final(self).shm == old(self).shm,
            final(self).active_maps == old(self).active_maps,
            torn_down(*old(self), *final(self), step),
    {
        let close: Vec<i32> = self.handles.drain_all();
        self.watches = WatchLog::new();
        Step::Done { resp: Vec::new(), close }
    }
}

} // verus!
