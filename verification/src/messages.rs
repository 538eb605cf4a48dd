//! Wire messages of virtio-gpu-nv.
//!
//! One descriptor chain carries one operation: the guest fills a readable buffer with a
//! `MsgHeader` and a request payload, the device fills a writable one with a `MsgHeader` and a
//! response payload. All fields are little-endian and packed without gaps. The guest driver is
//! compiled into a guest kernel and cannot negotiate, so these layouts do not change.
use crate::bytes::{
    append_u32, append_u64, bits_i32, get_u32, get_u64, i32_bits, i32_from_bits, i32_to_bits,
    lemma_u32_round_trip, lemma_u32_same, lemma_u64_round_trip, lemma_u64_same, u32_at, u32_bytes,
    u64_at, u64_bytes,
};
use vstd::prelude::*;

verus! {

/// Identifies the kind of message in a `MsgHeader`.
#[derive(Clone, Copy, Debug, PartialEq, Eq, Structural)]
pub enum MsgType {
    /// Open a `/dev/nvidia*` device.
    Open,
    /// Close a previously opened handle.
    Close,
    /// Forward a raw ioctl.
    Ioctl,
    /// Map device memory into the shared window.
    Mmap,
    /// Release a mapping made by `Mmap`.
    Munmap,
    /// The contents of the host's `/proc/driver/nvidia` tree.
    GetProcFiles,
    /// The same for the sysfs attributes the userspace driver looks for.
    GetSysFiles,
}

impl MsgType {
    /// The wire discriminant.
    pub open spec fn code(self) -> u32 {
        match self {
            MsgType::Open => 1,
            MsgType::Close => 2,
            MsgType::Ioctl => 3,
            MsgType::Mmap => 4,
            MsgType::Munmap => 5,
            MsgType::GetProcFiles => 6,
            MsgType::GetSysFiles => 7,
        }
    }

    pub open spec fn spec_from_u32(v: u32) -> Option<MsgType> {
        if v == 1 {
            Some(MsgType::Open)
        } else if v == 2 {
            Some(MsgType::Close)
        } else if v == 3 {
            Some(MsgType::Ioctl)
        } else if v == 4 {
            Some(MsgType::Mmap)
        } else if v == 5 {
            Some(MsgType::Munmap)
        } else if v == 6 {
            Some(MsgType::GetProcFiles)
        } else if v == 7 {
            Some(MsgType::GetSysFiles)
        } else {
            None
        }
    }

    pub fn to_u32(self) -> (r: u32)
        ensures
            r == self.code(),
    {
        match self {
            MsgType::Open => 1,
            MsgType::Close => 2,
            MsgType::Ioctl => 3,
            MsgType::Mmap => 4,
            MsgType::Munmap => 5,
            MsgType::GetProcFiles => 6,
            MsgType::GetSysFiles => 7,
        }
    }

    /// Decode a wire discriminant.
    pub fn from_u32(v: u32) -> (r: Option<Self>)
        ensures
            r == Self::spec_from_u32(v),
    {
        match v {
            1 => Some(MsgType::Open),
            2 => Some(MsgType::Close),
            3 => Some(MsgType::Ioctl),
            4 => Some(MsgType::Mmap),
            5 => Some(MsgType::Munmap),
            6 => Some(MsgType::GetProcFiles),
            7 => Some(MsgType::GetSysFiles),
            _ => None,
        }
    }
}

/// A message type decodes from its own discriminant, and from no other.
pub proof fn law_message_types_round_trip(t: MsgType, v: u32)
    ensures
        MsgType::spec_from_u32(v) == Some(t) <==> v == t.code(),
        MsgType::spec_from_u32(v) is None <==> v == 0 || v > 7,
{
}

/// The size of each part of a message.
pub const MSG_HEADER_SIZE: usize = 16;

pub const OPEN_REQ_SIZE: usize = 8;

pub const IOCTL_REQ_SIZE: usize = 24;

pub const IOCTL_RESP_SIZE: usize = 12;

pub const MMAP_REQ_SIZE: usize = 24;

pub const MMAP_RESP_SIZE: usize = 24;

pub const MUNMAP_REQ_SIZE: usize = 8;

pub const FILE_ENTRY_SIZE: usize = 8;

/// Every message starts with this header, in both directions.
#[derive(Clone, Copy, Debug, Default, PartialEq, Eq, Structural)]
pub struct MsgHeader {
    /// One of the `MsgType` values.
    pub msg_type: u32,
    /// On a request, the handle to act on. On an `Open` response, the handle the guest should
    /// use from then on.
    pub handle: u32,
    /// Zero on success, negative errno on failure. The driver tests the sign.
    pub status: i32,
    pub padding: u32,
}

impl MsgHeader {
    /// The bytes on the wire.
    pub open spec fn wire(self) -> Seq<u8> {
        u32_bytes(self.msg_type) + u32_bytes(self.handle) + u32_bytes(i32_bits(self.status)) + u32_bytes(self.padding)
    }

    /// What the bytes at `off` hold.
    pub open spec fn at(s: Seq<u8>, off: int) -> Self {
        MsgHeader {
            msg_type: u32_at(s, off),
            handle: u32_at(s, off + 4),
            status: bits_i32(u32_at(s, off + 8)),
            padding: u32_at(s, off + 12),
        }
    }

    pub fn read(buf: &[u8], off: usize) -> (r: Self)
        requires
            off + MSG_HEADER_SIZE <= buf@.len(),
        ensures
            r == Self::at(buf@, off as int),
    {
        let n: usize = buf.len();
        MsgHeader {
            msg_type: get_u32(buf, off),
            handle: get_u32(buf, off + 4),
            status: i32_from_bits(get_u32(buf, off + 8)),
            padding: get_u32(buf, off + 12),
        }
    }

    pub fn to_bytes(&self) -> (r: Vec<u8>)
        ensures
            r@ == self.wire(),
            r@.len() == MSG_HEADER_SIZE,
    {
        let mut out: Vec<u8> = Vec::new();
        append_u32(&mut out, self.msg_type);
        append_u32(&mut out, self.handle);
        append_u32(&mut out, i32_to_bits(self.status));
        append_u32(&mut out, self.padding);
        assert(out@ =~= self.wire());
        out
    }

    /// A success response carrying `handle`.
    pub fn ok(msg_type: MsgType, handle: u32) -> (r: Self)
        ensures
            r == (MsgHeader { msg_type: msg_type.code(), handle, status: 0, padding: 0 }),
    {
        MsgHeader { msg_type: msg_type.to_u32(), handle, status: 0, padding: 0 }
    }

    /// A failure response. `errno` is given as a positive number and stored negated, which is the
    /// one direction that is easy to get wrong.
    pub fn err(msg_type: MsgType, errno: i32) -> (r: Self)
        requires
            errno > i32::MIN,
        ensures
            r == (MsgHeader {
                msg_type: msg_type.code(),
                handle: 0,
                status: if errno < 0 { errno } else { (-errno) as i32 },
                padding: 0,
            }),
            errno != 0 ==> r.status < 0,
    {
        let status: i32 = if errno < 0 { errno } else { -errno };
        MsgHeader { msg_type: msg_type.to_u32(), handle: 0, status, padding: 0 }
    }
}

/// A `MsgHeader` reads back from its own bytes, wherever they stand.
pub proof fn law_msg_header_round_trips(v: MsgHeader, s: Seq<u8>, off: int)
    requires
        0 <= off,
        off + MSG_HEADER_SIZE <= s.len(),
        s.subrange(off, off + MSG_HEADER_SIZE) == v.wire(),
    ensures
        v.wire().len() == MSG_HEADER_SIZE,
        MsgHeader::at(s, off) == v,
{
    let w = s.subrange(off, off + MSG_HEADER_SIZE);
    lemma_u32_round_trip(v.msg_type);
    assert forall|i: int| 0 <= i < 4 implies #[trigger] s[off + 0 + i] == u32_bytes(v.msg_type)[i] by {
        assert(w[0 + i] == s[off + 0 + i]);
    }
    lemma_u32_same(s, off + 0, u32_bytes(v.msg_type), 0);
    lemma_u32_round_trip(v.handle);
    assert forall|i: int| 0 <= i < 4 implies #[trigger] s[off + 4 + i] == u32_bytes(v.handle)[i] by {
        assert(w[4 + i] == s[off + 4 + i]);
    }
    lemma_u32_same(s, off + 4, u32_bytes(v.handle), 0);
    lemma_u32_round_trip(i32_bits(v.status));
    assert forall|i: int| 0 <= i < 4 implies #[trigger] s[off + 8 + i] == u32_bytes(i32_bits(v.status))[i] by {
        assert(w[8 + i] == s[off + 8 + i]);
    }
    lemma_u32_same(s, off + 8, u32_bytes(i32_bits(v.status)), 0);
    lemma_u32_round_trip(v.padding);
    assert forall|i: int| 0 <= i < 4 implies #[trigger] s[off + 12 + i] == u32_bytes(v.padding)[i] by {
        assert(w[12 + i] == s[off + 12 + i]);
    }
    lemma_u32_same(s, off + 12, u32_bytes(v.padding), 0);
}

/// `/dev/nvidiactl`.
pub const DEV_CTL: u32 = 255;

/// `/dev/nvidia-uvm`.
pub const DEV_UVM: u32 = 256;

/// `/dev/nvidia-uvm-tools`.
pub const DEV_UVM_TOOLS: u32 = 257;

/// `/dev/nvidia-modeset`.
pub const DEV_MODESET: u32 = 258;

/// Render nodes start here.
pub const DEV_DRI_BASE: u32 = 512;

/// Highest GPU index expressible before the control device's value.
pub const MAX_GPU_INDEX: u32 = 254;

/// Which device an `Open` refers to.
///
/// The wire encoding is one flat `u32`: a GPU is its own minor number, and the singleton devices
/// take values above every possible minor.
#[derive(Clone, Copy, Debug, PartialEq, Eq, Structural)]
pub enum DeviceKind {
    /// `/dev/nvidiaN`, where N is the guest's minor number.
    Gpu(u32),
    Ctl,
    Uvm,
    UvmTools,
    Modeset,
    /// A DRM render node, by its index in the list the device reported.
    Dri(u32),
}

impl DeviceKind {
    pub open spec fn spec_from_device_type(v: u32) -> Option<DeviceKind> {
        if v <= MAX_GPU_INDEX {
            Some(DeviceKind::Gpu(v))
        } else if v == DEV_CTL {
            Some(DeviceKind::Ctl)
        } else if v == DEV_UVM {
            Some(DeviceKind::Uvm)
        } else if v == DEV_UVM_TOOLS {
            Some(DeviceKind::UvmTools)
        } else if v == DEV_MODESET {
            Some(DeviceKind::Modeset)
        } else if v >= DEV_DRI_BASE {
            Some(DeviceKind::Dri((v - DEV_DRI_BASE) as u32))
        } else {
            None
        }
    }

    /// Decode the `device_type` field of an `OpenReq`.
    ///
    /// Returns `None` for anything unrecognised. Render nodes decode, since the Vulkan and EGL
    /// userspace enumerates the GPU through them, but none can be opened, because the device
    /// reports none.
    pub fn from_device_type(v: u32) -> (r: Option<Self>)
        ensures
            r == Self::spec_from_device_type(v),
    {
        if v <= MAX_GPU_INDEX {
            Some(DeviceKind::Gpu(v))
        } else if v == DEV_CTL {
            Some(DeviceKind::Ctl)
        } else if v == DEV_UVM {
            Some(DeviceKind::Uvm)
        } else if v == DEV_UVM_TOOLS {
            Some(DeviceKind::UvmTools)
        } else if v == DEV_MODESET {
            Some(DeviceKind::Modeset)
        } else if v >= DEV_DRI_BASE {
            Some(DeviceKind::Dri(v - DEV_DRI_BASE))
        } else {
            None
        }
    }

    /// Whether a `device_type` can name the device.
    pub open spec fn expressible(self) -> bool {
        match self {
            DeviceKind::Gpu(n) => n <= MAX_GPU_INDEX,
            DeviceKind::Dri(n) => DEV_DRI_BASE + n <= u32::MAX,
            _ => true,
        }
    }

    /// The `device_type` that names the device.
    pub open spec fn code(self) -> int {
        match self {
            DeviceKind::Gpu(n) => n as int,
            DeviceKind::Ctl => DEV_CTL as int,
            DeviceKind::Uvm => DEV_UVM as int,
            DeviceKind::UvmTools => DEV_UVM_TOOLS as int,
            DeviceKind::Modeset => DEV_MODESET as int,
            DeviceKind::Dri(n) => DEV_DRI_BASE + n,
        }
    }

    /// Encode for the `device_type` field of an `OpenReq`.
    pub fn to_device_type(self) -> (r: u32)
        requires
            self.expressible(),
        ensures
            r == self.code(),
    {
        match self {
            DeviceKind::Gpu(n) => n,
            DeviceKind::Ctl => DEV_CTL,
            DeviceKind::Uvm => DEV_UVM,
            DeviceKind::UvmTools => DEV_UVM_TOOLS,
            DeviceKind::Modeset => DEV_MODESET,
            DeviceKind::Dri(n) => DEV_DRI_BASE + n,
        }
    }
}

/// A device decodes from its own `device_type`, and from no other.
pub proof fn law_device_types_round_trip(k: DeviceKind, v: u32)
    ensures
        DeviceKind::spec_from_device_type(v) == Some(k) <==> k.expressible() && v == k.code(),
        DeviceKind::spec_from_device_type(v) is None <==> DEV_MODESET < v < DEV_DRI_BASE,
{
}

/// Request payload for `MsgType::Open`.
///
/// The response is a bare `MsgHeader`: the new handle travels in `MsgHeader::handle`.
#[derive(Clone, Copy, Debug, Default, PartialEq, Eq, Structural)]
pub struct OpenReq {
    /// See `DeviceKind::from_device_type`.
    pub device_type: u32,
    /// The guest's `open(2)` flags.
    pub flags: u32,
}

impl OpenReq {
    /// The bytes on the wire.
    pub open spec fn wire(self) -> Seq<u8> {
        u32_bytes(self.device_type) + u32_bytes(self.flags)
    }

    /// What the bytes at `off` hold.
    pub open spec fn at(s: Seq<u8>, off: int) -> Self {
        OpenReq {
            device_type: u32_at(s, off),
            flags: u32_at(s, off + 4),
        }
    }

    pub fn read(buf: &[u8], off: usize) -> (r: Self)
        requires
            off + OPEN_REQ_SIZE <= buf@.len(),
        ensures
            r == Self::at(buf@, off as int),
    {
        let n: usize = buf.len();
        OpenReq {
            device_type: get_u32(buf, off),
            flags: get_u32(buf, off + 4),
        }
    }

    pub fn to_bytes(&self) -> (r: Vec<u8>)
        ensures
            r@ == self.wire(),
            r@.len() == OPEN_REQ_SIZE,
    {
        let mut out: Vec<u8> = Vec::new();
        append_u32(&mut out, self.device_type);
        append_u32(&mut out, self.flags);
        assert(out@ =~= self.wire());
        out
    }
}

/// A `OpenReq` reads back from its own bytes, wherever they stand.
pub proof fn law_open_req_round_trips(v: OpenReq, s: Seq<u8>, off: int)
    requires
        0 <= off,
        off + OPEN_REQ_SIZE <= s.len(),
        s.subrange(off, off + OPEN_REQ_SIZE) == v.wire(),
    ensures
        v.wire().len() == OPEN_REQ_SIZE,
        OpenReq::at(s, off) == v,
{
    let w = s.subrange(off, off + OPEN_REQ_SIZE);
    lemma_u32_round_trip(v.device_type);
    assert forall|i: int| 0 <= i < 4 implies #[trigger] s[off + 0 + i] == u32_bytes(v.device_type)[i] by {
        assert(w[0 + i] == s[off + 0 + i]);
    }
    lemma_u32_same(s, off + 0, u32_bytes(v.device_type), 0);
    lemma_u32_round_trip(v.flags);
    assert forall|i: int| 0 <= i < 4 implies #[trigger] s[off + 4 + i] == u32_bytes(v.flags)[i] by {
        assert(w[4 + i] == s[off + 4 + i]);
    }
    lemma_u32_same(s, off + 4, u32_bytes(v.flags), 0);
}

/// Request payload for `MsgType::Ioctl`.
///
/// Layout: `MsgHeader` | `IoctlReq` | `data_len` bytes | `nested_len` bytes | `deep_len` bytes.
///
/// The nested block is data an ioctl parameter points at. The guest cannot pass a pointer that
/// means anything on the host, so it sends the pointed-to bytes alongside.
#[derive(Clone, Copy, Debug, Default, PartialEq, Eq, Structural)]
pub struct IoctlReq {
    /// The ioctl request number.
    pub cmd: u32,
    /// Bytes of top-level parameter struct following this header.
    pub data_len: u32,
    /// Where the nested block begins, measured from the start of the payload; zero when there is
    /// none.
    pub nested_offset: u32,
    /// Bytes of nested data following the top-level struct.
    pub nested_len: u32,
    /// Where, inside the nested block, a further pointer sits. Only meaningful when `deep_len` is
    /// non-zero.
    pub deep_ptr_offset: u32,
    /// Bytes of a second-level block following the nested block: what the pointer at
    /// `deep_ptr_offset` points at in the guest.
    pub deep_len: u32,
}

impl IoctlReq {
    /// The bytes on the wire.
    pub open spec fn wire(self) -> Seq<u8> {
        u32_bytes(self.cmd) + u32_bytes(self.data_len) + u32_bytes(self.nested_offset) + u32_bytes(self.nested_len) + u32_bytes(self.deep_ptr_offset) + u32_bytes(self.deep_len)
    }

    /// What the bytes at `off` hold.
    pub open spec fn at(s: Seq<u8>, off: int) -> Self {
        IoctlReq {
            cmd: u32_at(s, off),
            data_len: u32_at(s, off + 4),
            nested_offset: u32_at(s, off + 8),
            nested_len: u32_at(s, off + 12),
            deep_ptr_offset: u32_at(s, off + 16),
            deep_len: u32_at(s, off + 20),
        }
    }

    pub fn read(buf: &[u8], off: usize) -> (r: Self)
        requires
            off + IOCTL_REQ_SIZE <= buf@.len(),
        ensures
            r == Self::at(buf@, off as int),
    {
        let n: usize = buf.len();
        IoctlReq {
            cmd: get_u32(buf, off),
            data_len: get_u32(buf, off + 4),
            nested_offset: get_u32(buf, off + 8),
            nested_len: get_u32(buf, off + 12),
            deep_ptr_offset: get_u32(buf, off + 16),
            deep_len: get_u32(buf, off + 20),
        }
    }

    pub fn to_bytes(&self) -> (r: Vec<u8>)
        ensures
            r@ == self.wire(),
            r@.len() == IOCTL_REQ_SIZE,
    {
        let mut out: Vec<u8> = Vec::new();
        append_u32(&mut out, self.cmd);
        append_u32(&mut out, self.data_len);
        append_u32(&mut out, self.nested_offset);
        append_u32(&mut out, self.nested_len);
        append_u32(&mut out, self.deep_ptr_offset);
        append_u32(&mut out, self.deep_len);
        assert(out@ =~= self.wire());
        out
    }
}

/// A `IoctlReq` reads back from its own bytes, wherever they stand.
pub proof fn law_ioctl_req_round_trips(v: IoctlReq, s: Seq<u8>, off: int)
    requires
        0 <= off,
        off + IOCTL_REQ_SIZE <= s.len(),
        s.subrange(off, off + IOCTL_REQ_SIZE) == v.wire(),
    ensures
        v.wire().len() == IOCTL_REQ_SIZE,
        IoctlReq::at(s, off) == v,
{
    let w = s.subrange(off, off + IOCTL_REQ_SIZE);
    lemma_u32_round_trip(v.cmd);
    assert forall|i: int| 0 <= i < 4 implies #[trigger] s[off + 0 + i] == u32_bytes(v.cmd)[i] by {
        assert(w[0 + i] == s[off + 0 + i]);
    }
    lemma_u32_same(s, off + 0, u32_bytes(v.cmd), 0);
    lemma_u32_round_trip(v.data_len);
    assert forall|i: int| 0 <= i < 4 implies #[trigger] s[off + 4 + i] == u32_bytes(v.data_len)[i] by {
        assert(w[4 + i] == s[off + 4 + i]);
    }
    lemma_u32_same(s, off + 4, u32_bytes(v.data_len), 0);
    lemma_u32_round_trip(v.nested_offset);
    assert forall|i: int| 0 <= i < 4 implies #[trigger] s[off + 8 + i] == u32_bytes(v.nested_offset)[i] by {
        assert(w[8 + i] == s[off + 8 + i]);
    }
    lemma_u32_same(s, off + 8, u32_bytes(v.nested_offset), 0);
    lemma_u32_round_trip(v.nested_len);
    assert forall|i: int| 0 <= i < 4 implies #[trigger] s[off + 12 + i] == u32_bytes(v.nested_len)[i] by {
        assert(w[12 + i] == s[off + 12 + i]);
    }
    lemma_u32_same(s, off + 12, u32_bytes(v.nested_len), 0);
    lemma_u32_round_trip(v.deep_ptr_offset);
    assert forall|i: int| 0 <= i < 4 implies #[trigger] s[off + 16 + i] == u32_bytes(v.deep_ptr_offset)[i] by {
        assert(w[16 + i] == s[off + 16 + i]);
    }
    lemma_u32_same(s, off + 16, u32_bytes(v.deep_ptr_offset), 0);
    lemma_u32_round_trip(v.deep_len);
    assert forall|i: int| 0 <= i < 4 implies #[trigger] s[off + 20 + i] == u32_bytes(v.deep_len)[i] by {
        assert(w[20 + i] == s[off + 20 + i]);
    }
    lemma_u32_same(s, off + 20, u32_bytes(v.deep_len), 0);
}

/// Response payload for `MsgType::Ioctl`.
///
/// Layout: `MsgHeader` | `IoctlResp` | `data_len` bytes | `nested_len` bytes | `deep_len` bytes.
#[derive(Clone, Copy, Debug, Default, PartialEq, Eq, Structural)]
pub struct IoctlResp {
    pub data_len: u32,
    pub nested_len: u32,
    /// Bytes of second-level block following the nested block, for the guest to copy back to
    /// where its own pointer points.
    pub deep_len: u32,
}

impl IoctlResp {
    /// The bytes on the wire.
    pub open spec fn wire(self) -> Seq<u8> {
        u32_bytes(self.data_len) + u32_bytes(self.nested_len) + u32_bytes(self.deep_len)
    }

    /// What the bytes at `off` hold.
    pub open spec fn at(s: Seq<u8>, off: int) -> Self {
        IoctlResp {
            data_len: u32_at(s, off),
            nested_len: u32_at(s, off + 4),
            deep_len: u32_at(s, off + 8),
        }
    }

    pub fn read(buf: &[u8], off: usize) -> (r: Self)
        requires
            off + IOCTL_RESP_SIZE <= buf@.len(),
        ensures
            r == Self::at(buf@, off as int),
    {
        let n: usize = buf.len();
        IoctlResp {
            data_len: get_u32(buf, off),
            nested_len: get_u32(buf, off + 4),
            deep_len: get_u32(buf, off + 8),
        }
    }

    pub fn to_bytes(&self) -> (r: Vec<u8>)
        ensures
            r@ == self.wire(),
            r@.len() == IOCTL_RESP_SIZE,
    {
        let mut out: Vec<u8> = Vec::new();
        append_u32(&mut out, self.data_len);
        append_u32(&mut out, self.nested_len);
        append_u32(&mut out, self.deep_len);
        assert(out@ =~= self.wire());
        out
    }
}

/// A `IoctlResp` reads back from its own bytes, wherever they stand.
pub proof fn law_ioctl_resp_round_trips(v: IoctlResp, s: Seq<u8>, off: int)
    requires
        0 <= off,
        off + IOCTL_RESP_SIZE <= s.len(),
        s.subrange(off, off + IOCTL_RESP_SIZE) == v.wire(),
    ensures
        v.wire().len() == IOCTL_RESP_SIZE,
        IoctlResp::at(s, off) == v,
{
    let w = s.subrange(off, off + IOCTL_RESP_SIZE);
    lemma_u32_round_trip(v.data_len);
    assert forall|i: int| 0 <= i < 4 implies #[trigger] s[off + 0 + i] == u32_bytes(v.data_len)[i] by {
        assert(w[0 + i] == s[off + 0 + i]);
    }
    lemma_u32_same(s, off + 0, u32_bytes(v.data_len), 0);
    lemma_u32_round_trip(v.nested_len);
    assert forall|i: int| 0 <= i < 4 implies #[trigger] s[off + 4 + i] == u32_bytes(v.nested_len)[i] by {
        assert(w[4 + i] == s[off + 4 + i]);
    }
    lemma_u32_same(s, off + 4, u32_bytes(v.nested_len), 0);
    lemma_u32_round_trip(v.deep_len);
    assert forall|i: int| 0 <= i < 4 implies #[trigger] s[off + 8 + i] == u32_bytes(v.deep_len)[i] by {
        assert(w[8 + i] == s[off + 8 + i]);
    }
    lemma_u32_same(s, off + 8, u32_bytes(v.deep_len), 0);
}

/// Request payload for `MsgType::Mmap`.
#[derive(Clone, Copy, Debug, Default, PartialEq, Eq, Structural)]
pub struct MmapReq {
    pub size: u64,
    pub offset: u64,
    pub prot: u32,
    pub padding: u32,
}

impl MmapReq {
    /// The bytes on the wire.
    pub open spec fn wire(self) -> Seq<u8> {
        u64_bytes(self.size) + u64_bytes(self.offset) + u32_bytes(self.prot) + u32_bytes(self.padding)
    }

    /// What the bytes at `off` hold.
    pub open spec fn at(s: Seq<u8>, off: int) -> Self {
        MmapReq {
            size: u64_at(s, off),
            offset: u64_at(s, off + 8),
            prot: u32_at(s, off + 16),
            padding: u32_at(s, off + 20),
        }
    }

    pub fn read(buf: &[u8], off: usize) -> (r: Self)
        requires
            off + MMAP_REQ_SIZE <= buf@.len(),
        ensures
            r == Self::at(buf@, off as int),
    {
        let n: usize = buf.len();
        MmapReq {
            size: get_u64(buf, off),
            offset: get_u64(buf, off + 8),
            prot: get_u32(buf, off + 16),
            padding: get_u32(buf, off + 20),
        }
    }

    pub fn to_bytes(&self) -> (r: Vec<u8>)
        ensures
            r@ == self.wire(),
            r@.len() == MMAP_REQ_SIZE,
    {
        let mut out: Vec<u8> = Vec::new();
        append_u64(&mut out, self.size);
        append_u64(&mut out, self.offset);
        append_u32(&mut out, self.prot);
        append_u32(&mut out, self.padding);
        assert(out@ =~= self.wire());
        out
    }
}

/// A `MmapReq` reads back from its own bytes, wherever they stand.
pub proof fn law_mmap_req_round_trips(v: MmapReq, s: Seq<u8>, off: int)
    requires
        0 <= off,
        off + MMAP_REQ_SIZE <= s.len(),
        s.subrange(off, off + MMAP_REQ_SIZE) == v.wire(),
    ensures
        v.wire().len() == MMAP_REQ_SIZE,
        MmapReq::at(s, off) == v,
{
    let w = s.subrange(off, off + MMAP_REQ_SIZE);
    lemma_u64_round_trip(v.size);
    assert forall|i: int| 0 <= i < 8 implies #[trigger] s[off + 0 + i] == u64_bytes(v.size)[i] by {
        assert(w[0 + i] == s[off + 0 + i]);
    }
    lemma_u64_same(s, off + 0, u64_bytes(v.size), 0);
    lemma_u64_round_trip(v.offset);
    assert forall|i: int| 0 <= i < 8 implies #[trigger] s[off + 8 + i] == u64_bytes(v.offset)[i] by {
        assert(w[8 + i] == s[off + 8 + i]);
    }
    lemma_u64_same(s, off + 8, u64_bytes(v.offset), 0);
    lemma_u32_round_trip(v.prot);
    assert forall|i: int| 0 <= i < 4 implies #[trigger] s[off + 16 + i] == u32_bytes(v.prot)[i] by {
        assert(w[16 + i] == s[off + 16 + i]);
    }
    lemma_u32_same(s, off + 16, u32_bytes(v.prot), 0);
    lemma_u32_round_trip(v.padding);
    assert forall|i: int| 0 <= i < 4 implies #[trigger] s[off + 20 + i] == u32_bytes(v.padding)[i] by {
        assert(w[20 + i] == s[off + 20 + i]);
    }
    lemma_u32_same(s, off + 20, u32_bytes(v.padding), 0);
}

/// Response payload for `MsgType::Mmap`.
#[derive(Clone, Copy, Debug, Default, PartialEq, Eq, Structural)]
pub struct MmapResp {
    /// Where the guest should map from, in its own physical address space.
    pub guest_phys_addr: u64,
    pub size: u64,
    /// Identifier the guest passes back to `Munmap`.
    pub mapping_id: u32,
    pub padding: u32,
}

impl MmapResp {
    /// The bytes on the wire.
    pub open spec fn wire(self) -> Seq<u8> {
        u64_bytes(self.guest_phys_addr) + u64_bytes(self.size) + u32_bytes(self.mapping_id) + u32_bytes(self.padding)
    }

    /// What the bytes at `off` hold.
    pub open spec fn at(s: Seq<u8>, off: int) -> Self {
        MmapResp {
            guest_phys_addr: u64_at(s, off),
            size: u64_at(s, off + 8),
            mapping_id: u32_at(s, off + 16),
            padding: u32_at(s, off + 20),
        }
    }

    pub fn read(buf: &[u8], off: usize) -> (r: Self)
        requires
            off + MMAP_RESP_SIZE <= buf@.len(),
        ensures
            r == Self::at(buf@, off as int),
    {
        let n: usize = buf.len();
        MmapResp {
            guest_phys_addr: get_u64(buf, off),
            size: get_u64(buf, off + 8),
            mapping_id: get_u32(buf, off + 16),
            padding: get_u32(buf, off + 20),
        }
    }

    pub fn to_bytes(&self) -> (r: Vec<u8>)
        ensures
            r@ == self.wire(),
            r@.len() == MMAP_RESP_SIZE,
    {
        let mut out: Vec<u8> = Vec::new();
        append_u64(&mut out, self.guest_phys_addr);
        append_u64(&mut out, self.size);
        append_u32(&mut out, self.mapping_id);
        append_u32(&mut out, self.padding);
        assert(out@ =~= self.wire());
        out
    }
}

/// A `MmapResp` reads back from its own bytes, wherever they stand.
pub proof fn law_mmap_resp_round_trips(v: MmapResp, s: Seq<u8>, off: int)
    requires
        0 <= off,
        off + MMAP_RESP_SIZE <= s.len(),
        s.subrange(off, off + MMAP_RESP_SIZE) == v.wire(),
    ensures
        v.wire().len() == MMAP_RESP_SIZE,
        MmapResp::at(s, off) == v,
{
    let w = s.subrange(off, off + MMAP_RESP_SIZE);
    lemma_u64_round_trip(v.guest_phys_addr);
    assert forall|i: int| 0 <= i < 8 implies #[trigger] s[off + 0 + i] == u64_bytes(v.guest_phys_addr)[i] by {
        assert(w[0 + i] == s[off + 0 + i]);
    }
    lemma_u64_same(s, off + 0, u64_bytes(v.guest_phys_addr), 0);
    lemma_u64_round_trip(v.size);
    assert forall|i: int| 0 <= i < 8 implies #[trigger] s[off + 8 + i] == u64_bytes(v.size)[i] by {
        assert(w[8 + i] == s[off + 8 + i]);
    }
    lemma_u64_same(s, off + 8, u64_bytes(v.size), 0);
    lemma_u32_round_trip(v.mapping_id);
    assert forall|i: int| 0 <= i < 4 implies #[trigger] s[off + 16 + i] == u32_bytes(v.mapping_id)[i] by {
        assert(w[16 + i] == s[off + 16 + i]);
    }
    lemma_u32_same(s, off + 16, u32_bytes(v.mapping_id), 0);
    lemma_u32_round_trip(v.padding);
    assert forall|i: int| 0 <= i < 4 implies #[trigger] s[off + 20 + i] == u32_bytes(v.padding)[i] by {
        assert(w[20 + i] == s[off + 20 + i]);
    }
    lemma_u32_same(s, off + 20, u32_bytes(v.padding), 0);
}

/// Request payload for `MsgType::Munmap`.
#[derive(Clone, Copy, Debug, Default, PartialEq, Eq, Structural)]
pub struct MunmapReq {
    pub mapping_id: u32,
    pub padding: u32,
}

impl MunmapReq {
    /// The bytes on the wire.
    pub open spec fn wire(self) -> Seq<u8> {
        u32_bytes(self.mapping_id) + u32_bytes(self.padding)
    }

    /// What the bytes at `off` hold.
    pub open spec fn at(s: Seq<u8>, off: int) -> Self {
        MunmapReq {
            mapping_id: u32_at(s, off),
            padding: u32_at(s, off + 4),
        }
    }

    pub fn read(buf: &[u8], off: usize) -> (r: Self)
        requires
            off + MUNMAP_REQ_SIZE <= buf@.len(),
        ensures
            r == Self::at(buf@, off as int),
    {
        let n: usize = buf.len();
        MunmapReq {
            mapping_id: get_u32(buf, off),
            padding: get_u32(buf, off + 4),
        }
    }

    pub fn to_bytes(&self) -> (r: Vec<u8>)
        ensures
            r@ == self.wire(),
            r@.len() == MUNMAP_REQ_SIZE,
    {
        let mut out: Vec<u8> = Vec::new();
        append_u32(&mut out, self.mapping_id);
        append_u32(&mut out, self.padding);
        assert(out@ =~= self.wire());
        out
    }
}

/// A `MunmapReq` reads back from its own bytes, wherever they stand.
pub proof fn law_munmap_req_round_trips(v: MunmapReq, s: Seq<u8>, off: int)
    requires
        0 <= off,
        off + MUNMAP_REQ_SIZE <= s.len(),
        s.subrange(off, off + MUNMAP_REQ_SIZE) == v.wire(),
    ensures
        v.wire().len() == MUNMAP_REQ_SIZE,
        MunmapReq::at(s, off) == v,
{
    let w = s.subrange(off, off + MUNMAP_REQ_SIZE);
    lemma_u32_round_trip(v.mapping_id);
    assert forall|i: int| 0 <= i < 4 implies #[trigger] s[off + 0 + i] == u32_bytes(v.mapping_id)[i] by {
        assert(w[0 + i] == s[off + 0 + i]);
    }
    lemma_u32_same(s, off + 0, u32_bytes(v.mapping_id), 0);
    lemma_u32_round_trip(v.padding);
    assert forall|i: int| 0 <= i < 4 implies #[trigger] s[off + 4 + i] == u32_bytes(v.padding)[i] by {
        assert(w[4 + i] == s[off + 4 + i]);
    }
    lemma_u32_same(s, off + 4, u32_bytes(v.padding), 0);
}

/// One file in the response to `GetProcFiles` or `GetSysFiles`.
///
/// The response is a bare stream of these, with no `MsgHeader`, each followed by `path_len` bytes
/// of path and `content_len` bytes of content, terminated by an entry whose `path_len` is zero.
#[derive(Clone, Copy, Debug, Default, PartialEq, Eq, Structural)]
pub struct FileEntry {
    /// Zero marks the end of the stream.
    pub path_len: u32,
    pub content_len: u32,
}

impl FileEntry {
    /// The bytes on the wire.
    pub open spec fn wire(self) -> Seq<u8> {
        u32_bytes(self.path_len) + u32_bytes(self.content_len)
    }

    /// What the bytes at `off` hold.
    pub open spec fn at(s: Seq<u8>, off: int) -> Self {
        FileEntry {
            path_len: u32_at(s, off),
            content_len: u32_at(s, off + 4),
        }
    }

    pub fn read(buf: &[u8], off: usize) -> (r: Self)
        requires
            off + FILE_ENTRY_SIZE <= buf@.len(),
        ensures
            r == Self::at(buf@, off as int),
    {
        let n: usize = buf.len();
        FileEntry {
            path_len: get_u32(buf, off),
            content_len: get_u32(buf, off + 4),
        }
    }

    pub fn to_bytes(&self) -> (r: Vec<u8>)
        ensures
            r@ == self.wire(),
            r@.len() == FILE_ENTRY_SIZE,
    {
        let mut out: Vec<u8> = Vec::new();
        append_u32(&mut out, self.path_len);
        append_u32(&mut out, self.content_len);
        assert(out@ =~= self.wire());
        out
    }
}

/// A `FileEntry` reads back from its own bytes, wherever they stand.
pub proof fn law_file_entry_round_trips(v: FileEntry, s: Seq<u8>, off: int)
    requires
        0 <= off,
        off + FILE_ENTRY_SIZE <= s.len(),
        s.subrange(off, off + FILE_ENTRY_SIZE) == v.wire(),
    ensures
        v.wire().len() == FILE_ENTRY_SIZE,
        FileEntry::at(s, off) == v,
{
    let w = s.subrange(off, off + FILE_ENTRY_SIZE);
    lemma_u32_round_trip(v.path_len);
    assert forall|i: int| 0 <= i < 4 implies #[trigger] s[off + 0 + i] == u32_bytes(v.path_len)[i] by {
        assert(w[0 + i] == s[off + 0 + i]);
    }
    lemma_u32_same(s, off + 0, u32_bytes(v.path_len), 0);
    lemma_u32_round_trip(v.content_len);
    assert forall|i: int| 0 <= i < 4 implies #[trigger] s[off + 4 + i] == u32_bytes(v.content_len)[i] by {
        assert(w[4 + i] == s[off + 4 + i]);
    }
    lemma_u32_same(s, off + 4, u32_bytes(v.content_len), 0);
}

} // verus!
