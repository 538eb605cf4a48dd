//! The backend: what each message of a guest does to the device.
//!
//! Host descriptors, host addresses and the window's free space live here; the guest sees handles
//! and window offsets instead.
use crate::abi::{
    check, check_table, read_version, table_view, version_in, AbiCheck, AbiPolicy,
};
use crate::error::{DeviceError, Result};
use crate::files::FileTree;
use crate::handle_table::HandleTable;
use crate::messages::{DeviceKind, MsgType};
use crate::mmap::{MmapContext, MmapEntry};
use crate::regions::holds;
use crate::response::{error_resp, ioctl_resp, write_error_resp, write_ioctl_resp, Status};
use crate::shm::{PgprotKind, ShmAllocator, ShmRegion, ZoneConfig};
use crate::step::{Action, CallView, HostCall, Step};
use crate::text::{decimal, push_decimal};
use crate::version::DriverVersion;
use crate::versions::{spec_table_for, table_for, IoctlEntry};
use crate::watch::WatchLog;
use vstd::prelude::*;
use vstd::string::StringExecFns;

verus! {

/// How many GPUs a guest can open.
pub const MAX_GPU: u32 = 8;

/// The host path an `Open` refers to.
///
/// No render node is reported to the guest, so no index of one is valid.
pub open spec fn spec_device_path(device_type: u32) -> core::result::Result<
    Seq<char>,
    DeviceError,
> {
    match DeviceKind::spec_from_device_type(device_type) {
        None => Err(DeviceError::InvalidDeviceKind(device_type)),
        Some(DeviceKind::Gpu(n)) => if n >= MAX_GPU {
            Err(DeviceError::GpuIndexOutOfRange(n))
        } else {
            Ok("/dev/nvidia"@ + decimal(n as nat))
        },
        Some(DeviceKind::Ctl) => Ok("/dev/nvidiactl"@),
        Some(DeviceKind::Uvm) => Ok("/dev/nvidia-uvm"@),
        Some(DeviceKind::UvmTools) => Ok("/dev/nvidia-uvm-tools"@),
        Some(DeviceKind::Modeset) => Ok("/dev/nvidia-modeset"@),
        Some(DeviceKind::Dri(_)) => Err(DeviceError::InvalidDeviceKind(device_type)),
    }
}

pub fn device_path(device_type: u32) -> (r: Result<String>)
    ensures
        match (r, spec_device_path(device_type)) {
            (Ok(p), Ok(text)) => p@ == text,
            (Err(e), Err(f)) => e == f,
            _ => false,
        },
{
    match DeviceKind::from_device_type(device_type) {
        None => Err(DeviceError::InvalidDeviceKind(device_type)),
        Some(kind) => match kind {
            DeviceKind::Gpu(n) => if n >= MAX_GPU {
                Err(DeviceError::GpuIndexOutOfRange(n))
            } else {
                let mut path: String = String::from_str("/dev/nvidia");
                push_decimal(&mut path, n as u64);
                Ok(path)
            },
            DeviceKind::Ctl => Ok(String::from_str("/dev/nvidiactl")),
            DeviceKind::Uvm => Ok(String::from_str("/dev/nvidia-uvm")),
            DeviceKind::UvmTools => Ok(String::from_str("/dev/nvidia-uvm-tools")),
            DeviceKind::Modeset => Ok(String::from_str("/dev/nvidia-modeset")),
            DeviceKind::Dri(_) => Err(DeviceError::InvalidDeviceKind(device_type)),
        },
    }
}

/// What the backend is waiting for.
pub enum Pending {
    /// Nothing: the next move is a message.
    Idle,
    Open,
    Files(FileTree),
    /// The memory of the mappings on a handle that is being closed.
    Close(Vec<ShmRegion>),
    /// The memory of every mapping.
    Teardown(Vec<ShmRegion>),
    /// An ioctl with a pointer at `ptr`; `slot` is where the nested block carries a descriptor and
    /// the guest handle that stood there.
    Nested { ptr: usize, slot: Option<(usize, u32)>, deep_ptr: Option<usize> },
    Simple { fd: i32, cmd: u32, check: AbiCheck, retry: bool },
    /// The second try of a call that found the device busy.
    SimpleRetry,
    FdCarrying { fd_offset: usize, guest: u32 },
    MappingInfo,
    MapMemory { guest: u32, map_fd: i32 },
    /// A host mapping on its way into the window.
    MapPlace { params: Vec<u8>, region: ShmRegion, guest: u32 },
    /// A region that a host mapping could not be put into.
    PlaceRestore(ShmRegion),
    UnmapUnknown,
    Unmap { key: u64 },
    UnmapRestore { params: Vec<u8>, region: ShmRegion },
}

/// The lengths of the blocks of a host ioctl.
#[derive(Clone, Copy, Debug, PartialEq, Eq, Structural)]
pub struct Sent {
    pub data: usize,
    pub nested: usize,
    pub deep: usize,
}

/// The regions that wait for their memory to be mapped or restored.
pub open spec fn pending_regions(p: Pending) -> Seq<ShmRegion> {
    match p {
        Pending::Close(regions) => regions@,
        Pending::Teardown(regions) => regions@,
        Pending::MapPlace { region, .. } => seq![region],
        Pending::PlaceRestore(region) => seq![region],
        Pending::UnmapRestore { region, .. } => seq![region],
        _ => Seq::empty(),
    }
}

pub struct NvidiaBackend {
    /// The message being served, so a response can echo its type, and the handle it named.
    pub current_msg: MsgType,
    pub current_handle: u32,
    /// Top-level parameter length of the ioctl being served. The response has to split the bytes
    /// the same way the request did.
    pub current_data_len: u32,
    /// The size of the buffer that the response goes into.
    pub resp_cap: usize,
    pub handles: HandleTable,
    pub shm: ShmAllocator,
    /// Active `RM_MAP_MEMORY` mappings, keyed by window offset.
    ///
    /// The offset is written into pLinearAddress in the response, so userspace echoes it back as
    /// pLinearAddress in `RM_UNMAP_MEMORY`. This gives a unique, unambiguous lookup key without
    /// leaking host addresses.
    pub active_maps: MmapContext,
    /// Host driver version, learned from the first successful `NV_ESC_CHECK_VERSION_STR`.
    pub driver: Option<DriverVersion>,
    /// ABI profile selected for `driver`, if one exists.
    pub abi: Option<Vec<IoctlEntry>>,
    pub policy: AbiPolicy,
    pub watches: WatchLog,
    pub pending: Pending,
    pub sent: Sent,
}

impl NvidiaBackend {
    /// What the pending stage relies on.
    pub open spec fn pending_ok(&self) -> bool {
        match self.pending {
            Pending::Nested { ptr, slot, deep_ptr } => {
                &&& ptr + 8 <= self.sent.data
                &&& slot matches Some((s, _)) ==> s + 4 <= self.sent.nested
                &&& deep_ptr matches Some(p) ==> p + 8 <= self.sent.nested
            },
            Pending::Simple { retry, .. } => retry ==> self.sent.data >= 4,
            Pending::FdCarrying { fd_offset, .. } => fd_offset + 4 <= self.sent.data,
            Pending::MappingInfo => self.sent.data >= 40,
            Pending::MapMemory { .. } => self.sent.data >= 56,
            Pending::MapPlace { params, .. } => params@.len() >= 56,
            Pending::Unmap { key } => self.sent.data >= 32 && self.active_maps@.contains_key(key),
            _ => true,
        }
    }

    /// What every message keeps: the tables are sound, the profile is the driver's, and no byte of
    /// the window is both free and held, or held by two mappings or pending moves.
    pub open spec fn wf(&self) -> bool {
        &&& self.handles.wf()
        &&& self.shm.wf()
        &&& self.shm.page_aligned()
        &&& holds(self.shm, self.active_maps@, pending_regions(self.pending))
        &&& self.pending_ok()
        &&& match self.driver {
            Some(v) => table_view(self.abi) == spec_table_for(v),
            None => self.abi is None,
        }
    }

    /// Everything that outlives a message is as it is in `other`.
    pub open spec fn same_device(&self, other: &Self) -> bool {
        &&& self.handles == other.handles
        &&& self.shm == other.shm
        &&& self.active_maps == other.active_maps
        &&& self.driver == other.driver
        &&& self.abi == other.abi
        &&& self.policy == other.policy
        &&& self.watches == other.watches
    }

    /// Both are serving the same message.
    pub open spec fn same_message(&self, other: &Self) -> bool {
        &&& self.current_msg == other.current_msg
        &&& self.current_handle == other.current_handle
        &&& self.current_data_len == other.current_data_len
        &&& self.resp_cap == other.resp_cap
    }

    /// The message is served with the response `bytes`.
    pub open spec fn replies(&self, step: Step, bytes: Seq<u8>) -> bool {
        &&& self.pending is Idle
        &&& step matches Step::Done { resp, close } && resp@ == bytes && close@.len() == 0
    }

    /// The message fails.
    pub open spec fn fails(&self, step: Step, status: Status, errno: i32) -> bool {
        self.replies(step, error_resp(self.current_msg, status, errno, self.resp_cap as int))
    }

    /// The ioctl succeeds with these parameter bytes and this second-level block.
    pub open spec fn answers(&self, step: Step, out: Seq<u8>, deep: Seq<u8>) -> bool {
        self.replies(
            step,
            ioctl_resp(
                self.current_msg,
                self.current_handle,
                self.current_data_len,
                out,
                deep,
                self.resp_cap as int,
            ),
        )
    }

    /// The host is asked to make this call.
    pub open spec fn calls(&self, step: Step, call: CallView) -> bool {
        &&& step matches Step::Do(Action::Ioctl(c)) && c@ == call
        &&& call.wf()
        &&& self.sent == (Sent {
            data: call.data.len() as usize,
            nested: call.nested.len() as usize,
            deep: call.deep.len() as usize,
        })
    }

    /// The descriptor of the handle that the message names.
    pub open spec fn named(&self) -> u64 {
        self.current_handle as u64
    }

    /// A backend with a custom window split.
    pub fn new(cfg: ZoneConfig) -> (r: Self)
        requires
            cfg.usable(),
        ensures
            r.wf(),
            r.idle_and_empty(),
            r.shm.spec_total_size() == cfg.spec_total(),
            r.shm.zone(PgprotKind::Uncached).fresh(0, cfg.uc_size as int),
            r.shm.zone(PgprotKind::WriteCombine).fresh(
                cfg.uc_size as int,
                cfg.wc_size as int,
            ),
            r.shm.zone(PgprotKind::WriteBack).fresh(
                cfg.uc_size + cfg.wc_size,
                cfg.wb_size as int,
            ),
    {
        NvidiaBackend {
            current_msg: MsgType::Ioctl,
            current_handle: 0,
            current_data_len: 0,
            resp_cap: 0,
            handles: HandleTable::new(),
            shm: ShmAllocator::new(cfg),
            active_maps: MmapContext::new(),
            driver: None,
            abi: None,
            policy: AbiPolicy::Enforce,
            watches: WatchLog::new(),
            pending: Pending::Idle,
            sent: Sent { data: 0, nested: 0, deep: 0 },
        }
    }

    /// Nothing is open, mapped, known of the driver or under way.
    pub open spec fn idle_and_empty(&self) -> bool {
        &&& self.current_msg == MsgType::Ioctl
        &&& self.current_handle == 0
        &&& self.current_data_len == 0
        &&& self.handles@ == Map::<u64, i32>::empty()
        &&& self.handles.spec_next() == 1
        &&& self.active_maps@ == Map::<u64, MmapEntry>::empty()
        &&& self.driver is None
        &&& self.abi is None
        &&& self.policy == AbiPolicy::Enforce
        &&& self.watches.added@.len() == 0
        &&& self.watches.removed@.len() == 0
        &&& self.pending is Idle
    }

    /// A backend with the default 1 GiB window.
    pub fn with_default_zones() -> (r: Self)
        ensures
            r.wf(),
            r.idle_and_empty(),
            r.shm.spec_total_size() == 1024 * 1024 * 1024,
            r.shm.zone(PgprotKind::Uncached).fresh(0, 32int * 1024 * 1024),
            r.shm.zone(PgprotKind::WriteCombine).fresh(32int * 1024 * 1024, 768int * 1024 * 1024),
            r.shm.zone(PgprotKind::WriteBack).fresh(800int * 1024 * 1024, 224int * 1024 * 1024),
    {
        Self::new(ZoneConfig::default_1gib())
    }

    /// Choose what happens to ioctls that the profile does not describe.
    pub fn set_abi_policy(&mut self, policy: AbiPolicy)
        requires
            old(self).wf(),
        ensures
            final(self).wf(),
            *final(self) == (NvidiaBackend { policy, ..*old(self) }),
    {
        self.policy = policy;
    }

    /// Total window size.
    pub fn shm_total_size(&self) -> (r: u64)
        ensures
            r == self.shm.spec_total_size(),
    {
        self.shm.total_size()
    }

    /// How many host descriptors the guest currently holds open.
    pub fn handle_count(&self) -> (r: usize)
        ensures
            r == self.handles@.len(),
    {
        self.handles.len()
    }

    /// Free bytes per zone, as `(uc, wc, wb)`.
    pub fn shm_free_bytes(&self) -> (r: (u64, u64, u64))
        requires
            self.wf(),
        ensures
            r.0 == crate::zone::total_len(
                self.shm.zone(PgprotKind::Uncached).free_list(),
            ),
            r.1 == crate::zone::total_len(
                self.shm.zone(PgprotKind::WriteCombine).free_list(),
            ),
            r.2 == crate::zone::total_len(
                self.shm.zone(PgprotKind::WriteBack).free_list(),
            ),
    {
        self.shm.free_bytes()
    }

    /// Descriptors opened and handles closed since this was last asked.
    pub fn take_watch_updates(&mut self) -> (r: (Vec<(u32, i32)>, Vec<u32>))
        requires
            old(self).wf(),
        ensures
            final(self).wf(),
            r.0@ == old(self).watches.added@,
            r.1@ == old(self).watches.removed@,
            final(self).watches.added@.len() == 0,
            final(self).watches.removed@.len() == 0,
            *final(self) == (NvidiaBackend { watches: final(self).watches, ..*old(self) }),
    {
        self.watches.take()
    }

    /// Learn the host driver version from a successful `NV_ESC_CHECK_VERSION_STR` reply and select
    /// the ABI profile for it. The first version learned stays.
    pub fn learn_driver_version(&mut self, param_buf: &[u8])
        requires
            old(self).wf(),
        ensures
            final(self).wf(),
            learned(*old(self), param_buf@, *final(self)),
            *final(self) == (NvidiaBackend {
                driver: final(self).driver,
                abi: final(self).abi,
                ..*old(self)
            }),
    {
        if self.driver.is_some() {
            return;
        }
        if let Some(v) = read_version(param_buf) {
            self.driver = Some(v);
            self.abi = table_for(v);
        }
    }

    /// Check one guest ioctl against the host's ABI profile.
    pub fn check_abi(&self, escape: u32, param_size: u32) -> (r: AbiCheck)
        ensures
            r == check(table_view(self.abi), escape, param_size),
    {
        check_table(&self.abi, escape, param_size)
    }

    /// End the message with a failure.
    pub(crate) fn fail(&mut self, status: Status, errno: i32) -> (step: Step)
        requires
            errno > i32::MIN,
        ensures
            final(self).same_device(old(self)),
            final(self).same_message(old(self)),
            final(self).fails(step, status, errno),
    {
        self.pending = Pending::Idle;
        Step::Done {
            resp: write_error_resp(self.current_msg, status, errno, self.resp_cap),
            close: Vec::new(),
        }
    }

    /// End an ioctl with the bytes that go back.
    pub(crate) fn answer(&mut self, out: &Vec<u8>, deep: &Vec<u8>) -> (step: Step)
        ensures
            final(self).same_device(old(self)),
            final(self).same_message(old(self)),
            final(self).answers(step, out@, deep@),
    {
        self.pending = Pending::Idle;
        Step::Done {
            resp: write_ioctl_resp(
                self.current_msg,
                self.current_handle,
                self.current_data_len,
                out.as_slice(),
                deep.as_slice(),
                self.resp_cap,
            ),
            close: Vec::new(),
        }
    }

    /// Ask for a host call, and remember what it is for.
    pub(crate) fn ask(&mut self, call: HostCall, pending: Pending) -> (step: Step)
        requires
            call@.wf(),
        ensures
            final(self).same_device(old(self)),
            final(self).same_message(old(self)),
            final(self).calls(step, call@),
            final(self).pending == pending,
    {
        self.sent = Sent {
            data: call.data.len(),
            nested: call.nested.len(),
            deep: call.deep.len(),
        };
        self.pending = pending;
        Step::Do(Action::Ioctl(call))
    }
}

/// The version and profile after a reply: those it gives, unless they were known before or it
/// gives none.
pub open spec fn learned(pre: NvidiaBackend, reply: Seq<u8>, post: NvidiaBackend) -> bool {
    match (pre.driver, version_in(reply)) {
        (None, Some(v)) => post.driver == Some(v) && table_view(post.abi) == spec_table_for(v),
        _ => post.driver == pre.driver && post.abi == pre.abi,
    }
}

} // verus!
