//! `NV_ESC_*` ioctl numbers.
//!
//! Two escape namespaces share the number field of an ioctl: frontend escapes start at
//! `NV_IOCTL_BASE`, resource manager escapes end at `NV_ESC_RM_LOCKLESS_DIAGNOSTIC`.
use vstd::prelude::*;

verus! {

pub const NV_IOCTL_BASE: u32 = 200;

pub const NV_ESC_CARD_INFO: u32 = NV_IOCTL_BASE + 0;

pub const NV_ESC_REGISTER_FD: u32 = NV_IOCTL_BASE + 1;

pub const NV_ESC_ALLOC_OS_EVENT: u32 = NV_IOCTL_BASE + 6;

pub const NV_ESC_FREE_OS_EVENT: u32 = NV_IOCTL_BASE + 7;

pub const NV_ESC_STATUS_CODE: u32 = NV_IOCTL_BASE + 9;

pub const NV_ESC_CHECK_VERSION_STR: u32 = NV_IOCTL_BASE + 10;

pub const NV_ESC_IOCTL_XFER_CMD: u32 = NV_IOCTL_BASE + 11;

pub const NV_ESC_ATTACH_GPUS_TO_FD: u32 = NV_IOCTL_BASE + 12;

pub const NV_ESC_QUERY_DEVICE_INTR: u32 = NV_IOCTL_BASE + 13;

pub const NV_ESC_SYS_PARAMS: u32 = NV_IOCTL_BASE + 14;

pub const NV_ESC_EXPORT_TO_DMABUF_FD: u32 = NV_IOCTL_BASE + 17;

pub const NV_ESC_WAIT_OPEN_COMPLETE: u32 = NV_IOCTL_BASE + 18;

pub const NV_ESC_RM_ALLOC_MEMORY: u32 = 0x27;

pub const NV_ESC_RM_ALLOC_OBJECT: u32 = 0x28;

pub const NV_ESC_RM_FREE: u32 = 0x29;

pub const NV_ESC_RM_CONTROL: u32 = 0x2A;

pub const NV_ESC_RM_ALLOC: u32 = 0x2B;

pub const NV_ESC_RM_DUP_OBJECT: u32 = 0x34;

pub const NV_ESC_RM_SHARE: u32 = 0x35;

pub const NV_ESC_RM_I2C_ACCESS: u32 = 0x39;

pub const NV_ESC_RM_IDLE_CHANNELS: u32 = 0x41;

pub const NV_ESC_RM_VID_HEAP_CONTROL: u32 = 0x4A;

pub const NV_ESC_RM_ACCESS_REGISTRY: u32 = 0x4D;

pub const NV_ESC_RM_MAP_MEMORY: u32 = 0x4E;

pub const NV_ESC_RM_UNMAP_MEMORY: u32 = 0x4F;

pub const NV_ESC_RM_GET_EVENT_DATA: u32 = 0x52;

pub const NV_ESC_RM_ALLOC_CONTEXT_DMA2: u32 = 0x54;

pub const NV_ESC_RM_ADD_VBLANK_CALLBACK: u32 = 0x56;

pub const NV_ESC_RM_MAP_MEMORY_DMA: u32 = 0x57;

pub const NV_ESC_RM_UNMAP_MEMORY_DMA: u32 = 0x58;

pub const NV_ESC_RM_BIND_CONTEXT_DMA: u32 = 0x59;

pub const NV_ESC_RM_EXPORT_OBJECT_TO_FD: u32 = 0x5C;

pub const NV_ESC_RM_IMPORT_OBJECT_FROM_FD: u32 = 0x5D;

pub const NV_ESC_RM_UPDATE_DEVICE_MAPPING_INFO: u32 = 0x5E;

pub const NV_ESC_RM_LOCKLESS_DIAGNOSTIC: u32 = 0x5F;

/// `/dev/nvidia-uvm` ioctl numbers.
pub const UVM_INITIALIZE: u32 = 0x01;

pub const UVM_DEINITIALIZE: u32 = 0x02;

/// The magic of `/dev/nvidia*` ioctls, `F`.
pub const NV_IOCTL_MAGIC: u32 = 0x46;

/// An ioctl number: direction in the top two bits, then fourteen bits of size, eight of type and
/// eight of number.
pub open spec fn ioc(dir: u32, ty: u32, nr: u32, size: u32) -> u64 {
    ((dir << 30u32) | (size << 16u32) | (ty << 8u32) | nr) as u64
}

#[allow(non_snake_case)]
pub fn _IOC(dir: u32, ty: u32, nr: u32, size: u32) -> (r: u64)
    ensures
        r == ioc(dir, ty, nr, size),
        dir < 4 && size < 0x4000 && ty < 0x100 && nr < 0x100 ==> r == dir * 0x4000_0000 + size
            * 0x1_0000 + ty * 0x100 + nr,
{
    proof {
        lemma_ioc_fields(dir, ty, nr, size);
    }
    ((dir << 30u32) | (size << 16u32) | (ty << 8u32) | nr) as u64
}

#[allow(non_snake_case)]
pub fn _IO(nr: u32) -> (r: u64)
    ensures
        r == ioc(0, NV_IOCTL_MAGIC, nr, 0),
{
    _IOC(0, NV_IOCTL_MAGIC, nr, 0)
}

#[allow(non_snake_case)]
pub fn _IOW(nr: u32, size: u32) -> (r: u64)
    ensures
        r == ioc(1, NV_IOCTL_MAGIC, nr, size),
{
    _IOC(1, NV_IOCTL_MAGIC, nr, size)
}

#[allow(non_snake_case)]
pub fn _IOR(nr: u32, size: u32) -> (r: u64)
    ensures
        r == ioc(2, NV_IOCTL_MAGIC, nr, size),
{
    _IOC(2, NV_IOCTL_MAGIC, nr, size)
}

#[allow(non_snake_case)]
pub fn _IOWR(nr: u32, size: u32) -> (r: u64)
    ensures
        r == ioc(3, NV_IOCTL_MAGIC, nr, size),
{
    _IOC(3, NV_IOCTL_MAGIC, nr, size)
}

/// The escape of an ioctl number: its number field.
pub open spec fn nr_of(cmd: u32) -> u32 {
    cmd % 0x100
}

/// The type field of an ioctl number, which tells the drivers apart.
pub open spec fn type_of(cmd: u32) -> u32 {
    cmd / 0x100 % 0x100
}

/// The size field of an ioctl number.
pub open spec fn size_of_arg(cmd: u32) -> u32 {
    cmd / 0x1_0000 % 0x4000
}

pub(crate) proof fn lemma_ioc_fields(dir: u32, ty: u32, nr: u32, size: u32)
    ensures
        dir < 4 && size < 0x4000 && ty < 0x100 && nr < 0x100 ==> ioc(dir, ty, nr, size) == dir
            * 0x4000_0000 + size * 0x1_0000 + ty * 0x100 + nr,
{
    assert(dir < 4 && size < 0x4000 && ty < 0x100 && nr < 0x100 ==> ((dir << 30u32) | (size << 16u32)
        | (ty << 8u32) | nr) == dir * 0x4000_0000 + size * 0x1_0000 + ty * 0x100 + nr)
        by (bit_vector);
}

/// An ioctl number gives back the fields it was made of.
pub proof fn law_ioctl_number_fields(dir: u32, ty: u32, nr: u32, size: u32)
    requires
        dir < 4,
        size < 0x4000,
        ty < 0x100,
        nr < 0x100,
    ensures
        ioc(dir, ty, nr, size) <= u32::MAX,
        nr_of(ioc(dir, ty, nr, size) as u32) == nr,
        type_of(ioc(dir, ty, nr, size) as u32) == ty,
        size_of_arg(ioc(dir, ty, nr, size) as u32) == size,
{
    lemma_ioc_fields(dir, ty, nr, size);
}

pub open spec fn frontend_escapes() -> Set<u32> {
    set![
        NV_ESC_CARD_INFO,
        NV_ESC_REGISTER_FD,
        NV_ESC_ALLOC_OS_EVENT,
        NV_ESC_FREE_OS_EVENT,
        NV_ESC_STATUS_CODE,
        NV_ESC_CHECK_VERSION_STR,
        NV_ESC_IOCTL_XFER_CMD,
        NV_ESC_ATTACH_GPUS_TO_FD,
        NV_ESC_QUERY_DEVICE_INTR,
        NV_ESC_SYS_PARAMS,
        NV_ESC_EXPORT_TO_DMABUF_FD,
        NV_ESC_WAIT_OPEN_COMPLETE,
    ]
}

pub open spec fn rm_escapes() -> Set<u32> {
    set![
        NV_ESC_RM_ALLOC_MEMORY,
        NV_ESC_RM_ALLOC_OBJECT,
        NV_ESC_RM_FREE,
        NV_ESC_RM_CONTROL,
        NV_ESC_RM_ALLOC,
        NV_ESC_RM_DUP_OBJECT,
        NV_ESC_RM_SHARE,
        NV_ESC_RM_I2C_ACCESS,
        NV_ESC_RM_IDLE_CHANNELS,
        NV_ESC_RM_VID_HEAP_CONTROL,
        NV_ESC_RM_ACCESS_REGISTRY,
        NV_ESC_RM_MAP_MEMORY,
        NV_ESC_RM_UNMAP_MEMORY,
        NV_ESC_RM_GET_EVENT_DATA,
        NV_ESC_RM_ALLOC_CONTEXT_DMA2,
        NV_ESC_RM_ADD_VBLANK_CALLBACK,
        NV_ESC_RM_MAP_MEMORY_DMA,
        NV_ESC_RM_UNMAP_MEMORY_DMA,
        NV_ESC_RM_BIND_CONTEXT_DMA,
        NV_ESC_RM_EXPORT_OBJECT_TO_FD,
        NV_ESC_RM_IMPORT_OBJECT_FROM_FD,
        NV_ESC_RM_UPDATE_DEVICE_MAPPING_INFO,
        NV_ESC_RM_LOCKLESS_DIAGNOSTIC,
    ]
}

/// The two namespaces never collide.
pub proof fn law_escape_namespaces_are_disjoint(e: u32)
    ensures
        frontend_escapes().contains(e) ==> e >= NV_IOCTL_BASE,
        rm_escapes().contains(e) ==> e <= NV_ESC_RM_LOCKLESS_DIAGNOSTIC,
        !(frontend_escapes().contains(e) && rm_escapes().contains(e)),
{
}

} // verus!
