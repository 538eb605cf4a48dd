//! Forwarding ioctls: what goes to the host in place of what the guest sent, and what goes back.
use crate::abi::AbiCheck;
use crate::bytes::{
    append, get_u32, get_u64, i32_bits, i32_to_bits, put_u32, put_u64, u32_at, u64_at, with_u32, with_u64, zeroed, zeros,
};
use crate::errno::{EBUSY, EINVAL};
use crate::ioctl::{
    nr_of, type_of, NV_ESC_ALLOC_OS_EVENT, NV_ESC_CHECK_VERSION_STR, NV_ESC_FREE_OS_EVENT,
    NV_ESC_REGISTER_FD, NV_ESC_RM_ALLOC, NV_ESC_RM_ALLOC_MEMORY, NV_ESC_RM_CONTROL,
    NV_ESC_RM_MAP_MEMORY, NV_ESC_RM_UNMAP_MEMORY, NV_ESC_RM_UPDATE_DEVICE_MAPPING_INFO,
    NV_ESC_SYS_PARAMS,
};
use crate::mmap::MmapEntry;
use crate::nvidia::{learned, NvidiaBackend, Pending};
use crate::response::Status;
use crate::step::{CallView, HostCall, Step};
use vstd::prelude::*;
use vstd::slice::{slice_subrange, slice_to_vec};

verus! {

/// The type field of nvidia-modeset ioctls, `m`.
pub const MODESET_MAGIC: u32 = 0x6d;

/// The RM control that exports an object to a descriptor, and where its block names it.
pub const CTRL_EXPORT_OBJECT_TO_FD: u32 = 0x3d05;

pub const EXPORT_FD_OFFSET: usize = 16;

/// The RM control that imports an object from a descriptor, and where its block names it.
pub const CTRL_IMPORT_OBJECT_FROM_FD: u32 = 0x3d06;

pub const IMPORT_FD_OFFSET: usize = 0;

/// Where an ioctl goes.
#[derive(Clone, Copy, Debug, PartialEq, Eq, Structural)]
pub enum Route {
    /// The struct of `outer` bytes holds a pointer at `ptr`.
    Nested { outer: usize, ptr: usize },
    /// The struct holds a descriptor at this offset.
    FdCarrying(usize),
    MapMemory,
    UnmapMemory,
    MappingInfo,
    /// The host gets what the guest sent.
    Simple,
}

/// Where the struct of an escape holds a descriptor, for those that only need that one translated.
pub open spec fn spec_fd_offset(escape: u32) -> Option<usize> {
    if escape == NV_ESC_REGISTER_FD {
        Some(0)
    } else if escape == NV_ESC_ALLOC_OS_EVENT || escape == NV_ESC_FREE_OS_EVENT {
        Some(8)
    } else if escape == NV_ESC_RM_ALLOC_MEMORY {
        Some(48)
    } else {
        None
    }
}

pub fn fd_offset(escape: u32) -> (r: Option<usize>)
    ensures
        r == spec_fd_offset(escape),
{
    if escape == NV_ESC_REGISTER_FD {
        Some(0)
    } else if escape == NV_ESC_ALLOC_OS_EVENT || escape == NV_ESC_FREE_OS_EVENT {
        Some(8)
    } else if escape == NV_ESC_RM_ALLOC_MEMORY {
        Some(48)
    } else {
        None
    }
}

/// Modeset ioctls are told by their type; all others by their escape alone.
pub open spec fn spec_route(cmd: u32) -> Route {
    let escape = nr_of(cmd);
    if type_of(cmd) == MODESET_MAGIC {
        Route::Nested { outer: 16, ptr: 8 }
    } else if spec_fd_offset(escape) is Some {
        Route::FdCarrying(spec_fd_offset(escape)->0)
    } else if escape == NV_ESC_RM_MAP_MEMORY {
        Route::MapMemory
    } else if escape == NV_ESC_RM_UNMAP_MEMORY {
        Route::UnmapMemory
    } else if escape == NV_ESC_RM_UPDATE_DEVICE_MAPPING_INFO {
        Route::MappingInfo
    } else if escape == NV_ESC_RM_CONTROL {
        Route::Nested { outer: 32, ptr: 16 }
    } else if escape == NV_ESC_RM_ALLOC {
        Route::Nested { outer: 48, ptr: 16 }
    } else {
        Route::Simple
    }
}

pub fn route(cmd: u32) -> (r: Route)
    ensures
        r == spec_route(cmd),
{
    let escape: u32 = cmd % 0x100;
    if cmd / 0x100 % 0x100 == MODESET_MAGIC {
        return Route::Nested { outer: 16, ptr: 8 };
    }
    if let Some(offset) = fd_offset(escape) {
        return Route::FdCarrying(offset);
    }
    if escape == NV_ESC_RM_MAP_MEMORY {
        Route::MapMemory
    } else if escape == NV_ESC_RM_UNMAP_MEMORY {
        Route::UnmapMemory
    } else if escape == NV_ESC_RM_UPDATE_DEVICE_MAPPING_INFO {
        Route::MappingInfo
    } else if escape == NV_ESC_RM_CONTROL {
        Route::Nested { outer: 32, ptr: 16 }
    } else if escape == NV_ESC_RM_ALLOC {
        Route::Nested { outer: 48, ptr: 16 }
    } else {
        Route::Simple
    }
}

/// A guest handle that travels as a signed 32-bit number.
pub open spec fn sign_extended(v: u32) -> u64 {
    if v < 0x8000_0000 {
        v as u64
    } else {
        (v + 0xffff_ffff_0000_0000) as u64
    }
}

pub(crate) fn sign_extend(v: u32) -> (r: u64)
    ensures
        r == sign_extended(v),
{
    if v < 0x8000_0000 {
        v as u64
    } else {
        v as u64 + 0xffff_ffff_0000_0000
    }
}

/// An ioctl on its way to the host: the descriptor it goes to, its number and its blocks.
pub struct Forward<'a> {
    pub fd: i32,
    pub cmd: u32,
    pub check: AbiCheck,
    /// The top-level struct and the nested block, back to back.
    pub param: &'a [u8],
    pub deep: &'a [u8],
    pub deep_ptr_offset: u32,
}

impl<'a> Forward<'a> {
    /// The same ioctl with these parameters and no pointer.
    pub open spec fn flat(&self, data: Seq<u8>) -> CallView {
        CallView::flat(self.fd, self.cmd as u64, self.check, data)
    }
}

/// Where the nested block of an RM control names a descriptor, if it does.
pub open spec fn fd_slot(cmd: u32, data: Seq<u8>, nested: Seq<u8>) -> Option<usize> {
    if nr_of(cmd) != NV_ESC_RM_CONTROL {
        None
    } else if u32_at(data, 8) == CTRL_EXPORT_OBJECT_TO_FD && nested.len() >= 20 {
        Some(EXPORT_FD_OFFSET)
    } else if u32_at(data, 8) == CTRL_IMPORT_OBJECT_FROM_FD && nested.len() >= 4 {
        Some(IMPORT_FD_OFFSET)
    } else {
        None
    }
}

/// The start of an ioctl whose struct of `outer` bytes holds a pointer at `ptr`.
///
/// The host gets the guest's struct and nested block, with the address of the block in the pointer
/// and a host descriptor where the block names a guest handle. A second-level block needs a
/// pointer inside the nested one.
pub open spec fn nested_started(
    pre: NvidiaBackend,
    f: Forward,
    outer: usize,
    ptr: usize,
    post: NvidiaBackend,
    step: Step,
) -> bool {
    let data = f.param@.take(outer as int);
    let nested = f.param@.skip(outer as int);
    let slot = fd_slot(f.cmd, data, nested);
    let guest = u32_at(nested, slot->0 as int);
    &&& post.same_device(&pre)
    &&& post.same_message(&pre)
    &&& if f.param@.len() < outer {
        post.fails(step, Status::IoctlFailed, EINVAL)
    } else if f.deep@.len() > 0 && f.deep_ptr_offset + 8 > nested.len() {
        post.fails(step, Status::IoctlFailed, EINVAL)
    } else if slot is Some && !pre.handles@.contains_key(sign_extended(guest)) {
        post.fails(step, Status::BadHandle, 0)
    } else {
        let deep_ptr = if f.deep@.len() > 0 {
            Some(f.deep_ptr_offset as usize)
        } else {
            None
        };
        &&& post.calls(
            step,
            CallView {
                fd: f.fd,
                request: f.cmd as u64,
                check: f.check,
                data,
                nested: if slot is Some {
                    with_u32(nested, slot->0 as int, i32_bits(pre.handles@[sign_extended(guest)]))
                } else {
                    nested
                },
                nested_ptr: if nested.len() > 0 {
                    Some(ptr)
                } else {
                    None
                },
                deep: f.deep@,
                deep_ptr,
            },
        )
        &&& post.pending == Pending::Nested {
            ptr,
            slot: if slot is Some {
                Some((slot->0, guest))
            } else {
                None
            },
            deep_ptr,
        }
    }
}

/// A nested block as the guest gets it back: its own handle where a descriptor stood, nothing
/// where a host address stood.
pub open spec fn nested_back(
    nested: Seq<u8>,
    slot: Option<(usize, u32)>,
    deep_ptr: Option<usize>,
) -> Seq<u8> {
    let own = match slot {
        Some((offset, guest)) => with_u32(nested, offset as int, guest),
        None => nested,
    };
    match deep_ptr {
        Some(p) => with_u64(own, p as int, 0),
        None => own,
    }
}

/// The end of an ioctl with a pointer.
pub open spec fn nested_done(
    pre: NvidiaBackend,
    ptr: usize,
    slot: Option<(usize, u32)>,
    deep_ptr: Option<usize>,
    result: core::result::Result<(), i32>,
    data: Seq<u8>,
    nested: Seq<u8>,
    deep: Seq<u8>,
    post: NvidiaBackend,
    step: Step,
) -> bool {
    &&& post.same_device(&pre)
    &&& post.same_message(&pre)
    &&& match result {
        Err(errno) => post.fails(step, Status::IoctlFailed, errno),
        Ok(_) => post.answers(
            step,
            with_u64(data, ptr as int, 0) + nested_back(nested, slot, deep_ptr),
            deep,
        ),
    }
}

impl NvidiaBackend {
    pub(crate) fn dispatch_nested(&mut self, f: &Forward, outer: usize, ptr: usize) -> (step: Step)
        requires
            old(self).wf(),
            old(self).pending is Idle,
            12 <= outer,
            ptr + 8 <= outer,
        ensures
            final(self).wf(),
            nested_started(*old(self), *f, outer, ptr, *final(self), step),
    {
        if f.param.len() < outer {
            return self.fail(Status::IoctlFailed, EINVAL);
        }
        let data: Vec<u8> = slice_to_vec(slice_subrange(f.param, 0, outer));
        let mut nested: Vec<u8> = slice_to_vec(slice_subrange(f.param, outer, f.param.len()));
        assert(data@ =~= f.param@.take(outer as int));
        assert(nested@ =~= f.param@.skip(outer as int));
        let deep: Vec<u8> = slice_to_vec(f.deep);
        let mut deep_ptr: Option<usize> = None;
        if deep.len() > 0 {
            if f.deep_ptr_offset as u64 + 8 > nested.len() as u64 {
                return self.fail(Status::IoctlFailed, EINVAL);
            }
            deep_ptr = Some(f.deep_ptr_offset as usize);
        }
        let mut slot: Option<(usize, u32)> = None;
        if f.cmd % 0x100 == NV_ESC_RM_CONTROL {
            let ctrl: u32 = get_u32(data.as_slice(), 8);
            let named: Option<usize> = if ctrl == CTRL_EXPORT_OBJECT_TO_FD && nested.len() >= 20 {
                Some(EXPORT_FD_OFFSET)
            } else if ctrl == CTRL_IMPORT_OBJECT_FROM_FD && nested.len() >= 4 {
                Some(IMPORT_FD_OFFSET)
            } else {
                None
            };
            if let Some(offset) = named {
                let guest: u32 = get_u32(nested.as_slice(), offset);
                match self.handles.get_raw(sign_extend(guest)) {
                    Ok(host) => {
                        slot = Some((offset, guest));
                        put_u32(&mut nested, offset, i32_to_bits(host));
                    },
                    Err(_) => {
                        return self.fail(Status::BadHandle, 0);
                    },
                }
            }
        }
        let nested_ptr: Option<usize> = if nested.len() > 0 {
            Some(ptr)
        } else {
            None
        };
        let call: HostCall = HostCall {
            fd: f.fd,
            request: f.cmd as u64,
            check: f.check,
            data,
            nested,
            nested_ptr,
            deep,
            deep_ptr,
        };
        self.ask(call, Pending::Nested { ptr, slot, deep_ptr })
    }

    pub(crate) fn nested_returned(
        &mut self,
        ptr: usize,
        slot: Option<(usize, u32)>,
        deep_ptr: Option<usize>,
        result: core::result::Result<(), i32>,
        data: Vec<u8>,
        nested: Vec<u8>,
        deep: Vec<u8>,
    ) -> (step: Step)
        requires
            old(self).wf(),
            old(self).pending == (Pending::Nested { ptr, slot, deep_ptr }),
            data@.len() == old(self).sent.data,
            nested@.len() == old(self).sent.nested,
            result matches Err(e) ==> e > i32::MIN,
        ensures
            final(self).wf(),
            nested_done(
                *old(self),
                ptr,
                slot,
                deep_ptr,
                result,
                data@,
                nested@,
                deep@,
                *final(self),
                step,
            ),
    {
        match result {
            Err(errno) => self.fail(Status::IoctlFailed, errno),
            Ok(_) => {
                let mut out: Vec<u8> = data;
                let mut block: Vec<u8> = nested;
                if let Some((offset, guest)) = slot {
                    put_u32(&mut block, offset, guest);
                }
                if let Some(p) = deep_ptr {
                    put_u64(&mut block, p, 0);
                }
                put_u64(&mut out, ptr, 0);
                append(&mut out, block.as_slice());
                self.answer(&out, &deep)
            },
        }
    }
}

/// The parameters of a plain ioctl as the host gets them: a version check always asks for the
/// query form.
pub open spec fn simple_params(escape: u32, param: Seq<u8>) -> Seq<u8> {
    if escape == NV_ESC_CHECK_VERSION_STR && param.len() >= 4 {
        param.update(0, 0x32)
    } else {
        param
    }
}

/// Whether a busy device is asked once more, in the second form of the call.
pub open spec fn may_retry(escape: u32, param: Seq<u8>) -> bool {
    escape == NV_ESC_SYS_PARAMS && param.len() >= 4 && param[0] == 0
}

pub open spec fn simple_started(pre: NvidiaBackend, f: Forward, post: NvidiaBackend, step: Step) -> bool {
    let escape = nr_of(f.cmd);
    &&& post.same_device(&pre)
    &&& post.same_message(&pre)
    &&& post.calls(step, f.flat(simple_params(escape, f.param@)))
    &&& post.pending == Pending::Simple {
        fd: f.fd,
        cmd: f.cmd,
        check: f.check,
        retry: may_retry(escape, f.param@),
    }
}

/// The end of a plain ioctl, or its second try.
///
/// A device too busy for `NV_ESC_SYS_PARAMS` is no failure: where a second try is not possible the
/// guest gets a block of zeros. A version check teaches the backend the host's driver version.
pub open spec fn simple_done(
    pre: NvidiaBackend,
    fd: i32,
    cmd: u32,
    check: AbiCheck,
    retry: bool,
    result: core::result::Result<(), i32>,
    data: Seq<u8>,
    post: NvidiaBackend,
    step: Step,
) -> bool {
    let escape = nr_of(cmd);
    &&& post.same_message(&pre)
    &&& match result {
        Ok(_) => {
            &&& post.handles == pre.handles && post.shm == pre.shm && post.active_maps
                == pre.active_maps && post.policy == pre.policy && post.watches == pre.watches
            &&& if escape == NV_ESC_CHECK_VERSION_STR {
                learned(pre, data, post)
            } else {
                post.driver == pre.driver && post.abi == pre.abi
            }
            &&& post.answers(step, data, Seq::empty())
        },
        Err(errno) => {
            &&& post.same_device(&pre)
            &&& if escape == NV_ESC_SYS_PARAMS && errno == EBUSY && retry {
                &&& post.calls(step, CallView::flat(fd, cmd as u64, check, data.update(0, 2)))
                &&& post.pending is SimpleRetry
            } else if escape == NV_ESC_SYS_PARAMS && errno == EBUSY {
                post.answers(step, zeros(data.len()), Seq::empty())
            } else {
                post.fails(step, Status::IoctlFailed, errno)
            }
        },
    }
}

/// The end of a second try: a device that still refuses gets the guest a block of zeros.
pub open spec fn retry_done(
    pre: NvidiaBackend,
    result: core::result::Result<(), i32>,
    data: Seq<u8>,
    post: NvidiaBackend,
    step: Step,
) -> bool {
    &&& post.same_device(&pre)
    &&& post.same_message(&pre)
    &&& match result {
        Ok(_) => post.answers(step, data, Seq::empty()),
        Err(_) => post.answers(step, zeros(data.len()), Seq::empty()),
    }
}

/// The start of an ioctl that holds a descriptor at `offset`: the host gets its own descriptor
/// where the guest wrote a handle.
pub open spec fn fd_started(
    pre: NvidiaBackend,
    f: Forward,
    offset: usize,
    post: NvidiaBackend,
    step: Step,
) -> bool {
    let guest = u32_at(f.param@, offset as int);
    &&& post.same_device(&pre)
    &&& post.same_message(&pre)
    &&& if f.param@.len() < offset + 4 {
        post.fails(step, Status::IoctlFailed, EINVAL)
    } else if !pre.handles@.contains_key(guest as u64) {
        post.fails(step, Status::BadHandle, 0)
    } else {
        &&& post.calls(
            step,
            f.flat(with_u32(f.param@, offset as int, i32_bits(pre.handles@[guest as u64]))),
        )
        &&& post.pending == Pending::FdCarrying { fd_offset: offset, guest }
    }
}

/// The end of such an ioctl: the guest reads back the handle it wrote.
pub open spec fn fd_done(
    pre: NvidiaBackend,
    offset: usize,
    guest: u32,
    result: core::result::Result<(), i32>,
    data: Seq<u8>,
    post: NvidiaBackend,
    step: Step,
) -> bool {
    &&& post.same_device(&pre)
    &&& post.same_message(&pre)
    &&& match result {
        Err(errno) => post.fails(step, Status::IoctlFailed, errno),
        Ok(_) => post.answers(step, with_u32(data, offset as int, guest), Seq::empty()),
    }
}

/// Whether `addr` is the host address of an active mapping of this object.
pub open spec fn address_of(maps: Map<u64, MmapEntry>, h_client: u32, h_memory: u32, addr: u64) -> bool {
    exists|k: u64| #[trigger]
        maps.contains_key(k) && maps[k].h_client == h_client && maps[k].h_memory == h_memory
            && maps[k].host_p_linear_address == addr
}

/// Whether the object has no active mapping.
pub open spec fn unmapped(maps: Map<u64, MmapEntry>, h_client: u32, h_memory: u32) -> bool {
    forall|k: u64| #[trigger]
        maps.contains_key(k) ==> !(maps[k].h_client == h_client && maps[k].h_memory == h_memory)
}

/// The start of `RM_UPDATE_DEVICE_MAPPING_INFO`: both addresses become the host's address of a
/// mapping of the object, or the guest's old one where it has none.
pub open spec fn info_started(pre: NvidiaBackend, f: Forward, post: NvidiaBackend, step: Step) -> bool {
    let p = f.param@;
    let h_client = u32_at(p, 0);
    let h_memory = u32_at(p, 8);
    &&& post.same_device(&pre)
    &&& post.same_message(&pre)
    &&& if p.len() < 40 {
        post.fails(step, Status::IoctlFailed, EINVAL)
    } else {
        &&& exists|addr: u64|
            {
                &&& address_of(pre.active_maps@, h_client, h_memory, addr) || (unmapped(
                    pre.active_maps@,
                    h_client,
                    h_memory,
                ) && addr == u64_at(p, 16))
                &&& #[trigger] post.calls(step, f.flat(with_u64(with_u64(p, 16, addr), 24, addr)))
            }
        &&& post.pending is MappingInfo
    }
}

/// The end of `RM_UPDATE_DEVICE_MAPPING_INFO`: the guest sees no address.
pub open spec fn info_done(
    pre: NvidiaBackend,
    result: core::result::Result<(), i32>,
    data: Seq<u8>,
    post: NvidiaBackend,
    step: Step,
) -> bool {
    &&& post.same_device(&pre)
    &&& post.same_message(&pre)
    &&& match result {
        Err(errno) => post.fails(step, Status::IoctlFailed, errno),
        Ok(_) => post.answers(step, with_u64(with_u64(data, 16, 0), 24, 0), Seq::empty()),
    }
}

impl NvidiaBackend {
    pub(crate) fn dispatch_simple(&mut self, f: &Forward) -> (step: Step)
        requires
            old(self).wf(),
            old(self).pending is Idle,
        ensures
            final(self).wf(),
            simple_started(*old(self), *f, *final(self), step),
    {
        let escape: u32 = f.cmd % 0x100;
        let mut data: Vec<u8> = slice_to_vec(f.param);
        let retry: bool = escape == NV_ESC_SYS_PARAMS && data.len() >= 4 && data[0] == 0;
        if escape == NV_ESC_CHECK_VERSION_STR && data.len() >= 4 {
            data[0] = 0x32;
        }
        self.ask(
            HostCall::flat(f.fd, f.cmd as u64, f.check, data),
            Pending::Simple { fd: f.fd, cmd: f.cmd, check: f.check, retry },
        )
    }

    pub(crate) fn simple_returned(
        &mut self,
        fd: i32,
        cmd: u32,
        check: AbiCheck,
        retry: bool,
        result: core::result::Result<(), i32>,
        data: Vec<u8>,
    ) -> (step: Step)
        requires
            old(self).wf(),
            old(self).pending == (Pending::Simple { fd, cmd, check, retry }),
            data@.len() == old(self).sent.data,
            result matches Err(e) ==> e > i32::MIN,
        ensures
            final(self).wf(),
            simple_done(
                *old(self),
                fd,
                cmd,
                check,
                retry,
                result,
                data@,
                *final(self),
                step,
            ),
    {
        let escape: u32 = cmd % 0x100;
        let none: Vec<u8> = Vec::new();
        match result {
            Ok(_) => {
                self.pending = Pending::Idle;
                if escape == NV_ESC_CHECK_VERSION_STR {
                    self.learn_driver_version(data.as_slice());
                }
                self.answer(&data, &none)
            },
            Err(errno) => if escape == NV_ESC_SYS_PARAMS && errno == EBUSY {
                if retry {
                    let mut again: Vec<u8> = data;
                    again[0] = 2;
                    self.ask(HostCall::flat(fd, cmd as u64, check, again), Pending::SimpleRetry)
                } else {
                    let blank: Vec<u8> = zeroed(data.len());
                    self.answer(&blank, &none)
                }
            } else {
                self.fail(Status::IoctlFailed, errno)
            },
        }
    }

    pub(crate) fn retry_returned(
        &mut self,
        result: core::result::Result<(), i32>,
        data: Vec<u8>,
    ) -> (step: Step)
        requires
            old(self).wf(),
            old(self).pending is SimpleRetry,
        ensures
            final(self).wf(),
            retry_done(*old(self), result, data@, *final(self), step),
    {
        let none: Vec<u8> = Vec::new();
        match result {
            Ok(_) => self.answer(&data, &none),
            Err(_) => {
                let blank: Vec<u8> = zeroed(data.len());
                self.answer(&blank, &none)
            },
        }
    }

    pub(crate) fn dispatch_fd_carrying(&mut self, f: &Forward, offset: usize) -> (step: Step)
        requires
            old(self).wf(),
            old(self).pending is Idle,
            offset <= 48,
        ensures
            final(self).wf(),
            fd_started(*old(self), *f, offset, *final(self), step),
    {
        if f.param.len() < offset + 4 {
            return self.fail(Status::IoctlFailed, EINVAL);
        }
        let guest: u32 = get_u32(f.param, offset);
        match self.handles.get_raw(guest as u64) {
            Ok(host) => {
                let mut data: Vec<u8> = slice_to_vec(f.param);
                put_u32(&mut data, offset, i32_to_bits(host));
                self.ask(
                    HostCall::flat(f.fd, f.cmd as u64, f.check, data),
                    Pending::FdCarrying { fd_offset: offset, guest },
                )
            },
            Err(_) => self.fail(Status::BadHandle, 0),
        }
    }

    pub(crate) fn fd_returned(
        &mut self,
        offset: usize,
        guest: u32,
        result: core::result::Result<(), i32>,
        data: Vec<u8>,
    ) -> (step: Step)
        requires
            old(self).wf(),
            old(self).pending == (Pending::FdCarrying { fd_offset: offset, guest }),
            data@.len() == old(self).sent.data,
            result matches Err(e) ==> e > i32::MIN,
        ensures
            final(self).wf(),
            fd_done(*old(self), offset, guest, result, data@, *final(self), step),
    {
        match result {
            Err(errno) => self.fail(Status::IoctlFailed, errno),
            Ok(_) => {
                let mut out: Vec<u8> = data;
                put_u32(&mut out, offset, guest);
                let none: Vec<u8> = Vec::new();
                self.answer(&out, &none)
            },
        }
    }

    pub(crate) fn dispatch_update_device_mapping_info(&mut self, f: &Forward) -> (step: Step)
        requires
            old(self).wf(),
            old(self).pending is Idle,
        ensures
            final(self).wf(),
            info_started(*old(self), *f, *final(self), step),
    {
        if f.param.len() < 40 {
            return self.fail(Status::IoctlFailed, EINVAL);
        }
        let h_client: u32 = get_u32(f.param, 0);
        let h_memory: u32 = get_u32(f.param, 8);
        let old_addr: u64 = get_u64(f.param, 16);
        let addr: u64 = match self.active_maps.find_by_object(h_client, h_memory) {
            Some(entry) => {
                assert(exists|k: u64| #[trigger]
                    self.active_maps@.contains_key(k) && self.active_maps@[k] == *entry);
                entry.host_p_linear_address
            },
            None => old_addr,
        };
        let mut data: Vec<u8> = slice_to_vec(f.param);
        put_u64(&mut data, 16, addr);
        put_u64(&mut data, 24, addr);
        let ghost call = f.flat(with_u64(with_u64(f.param@, 16, addr), 24, addr));
        let step: Step = self.ask(
            HostCall::flat(f.fd, f.cmd as u64, f.check, data),
            Pending::MappingInfo,
        );
        assert(self.calls(step, call));
        step
    }

    pub(crate) fn info_returned(
        &mut self,
        result: core::result::Result<(), i32>,
        data: Vec<u8>,
    ) -> (step: Step)
        requires
            old(self).wf(),
            old(self).pending is MappingInfo,
            data@.len() == old(self).sent.data,
            result matches Err(e) ==> e > i32::MIN,
        ensures
            final(self).wf(),
            info_done(*old(self), result, data@, *final(self), step),
    {
        match result {
            Err(errno) => self.fail(Status::IoctlFailed, errno),
            Ok(_) => {
                let mut out: Vec<u8> = data;
                put_u64(&mut out, 16, 0);
                put_u64(&mut out, 24, 0);
                let none: Vec<u8> = Vec::new();
                self.answer(&out, &none)
            },
        }
    }
}

} // verus!
