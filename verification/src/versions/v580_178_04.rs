//! ABI table for NVIDIA driver version 580.178.04.
use crate::ioctl::{
    NV_ESC_ALLOC_OS_EVENT,
    NV_ESC_ATTACH_GPUS_TO_FD,
    NV_ESC_CARD_INFO,
    NV_ESC_CHECK_VERSION_STR,
    NV_ESC_FREE_OS_EVENT,
    NV_ESC_REGISTER_FD,
    NV_ESC_RM_ALLOC,
    NV_ESC_RM_ALLOC_CONTEXT_DMA2,
    NV_ESC_RM_ALLOC_MEMORY,
    NV_ESC_RM_CONTROL,
    NV_ESC_RM_DUP_OBJECT,
    NV_ESC_RM_FREE,
    NV_ESC_RM_IDLE_CHANNELS,
    NV_ESC_RM_MAP_MEMORY,
    NV_ESC_RM_MAP_MEMORY_DMA,
    NV_ESC_RM_UNMAP_MEMORY,
    NV_ESC_RM_UNMAP_MEMORY_DMA,
    NV_ESC_RM_UPDATE_DEVICE_MAPPING_INFO,
    NV_ESC_RM_VID_HEAP_CONTROL,
    NV_ESC_SYS_PARAMS,
    NV_ESC_WAIT_OPEN_COMPLETE,
};
use crate::versions::v535_129_03::{entry, spec_entry};
pub use crate::versions::v535_129_03::{IoctlEntry, IoctlKind};
use vstd::prelude::*;

verus! {

/// The escapes of 580.178.04, with their parameter sizes.
///
/// The last ones are used by the driver with parameters whose size is not recorded; their numbers
/// hold none either.
pub open spec fn spec_table() -> Seq<IoctlEntry> {
    seq![
        spec_entry(NV_ESC_CHECK_VERSION_STR, 72, IoctlKind::Simple, Some(72)),
        spec_entry(NV_ESC_CARD_INFO, 4096, IoctlKind::Bytes, None),
        spec_entry(NV_ESC_REGISTER_FD, 4, IoctlKind::FdCarrying, Some(4)),
        spec_entry(NV_ESC_ALLOC_OS_EVENT, 16, IoctlKind::FdCarrying, Some(16)),
        spec_entry(NV_ESC_FREE_OS_EVENT, 16, IoctlKind::FdCarrying, Some(16)),
        spec_entry(NV_ESC_SYS_PARAMS, 8, IoctlKind::Simple, Some(8)),
        spec_entry(NV_ESC_RM_ALLOC_MEMORY, 56, IoctlKind::FdCarrying, Some(56)),
        spec_entry(NV_ESC_RM_FREE, 16, IoctlKind::Simple, Some(16)),
        spec_entry(NV_ESC_RM_CONTROL, 32, IoctlKind::RmControl, Some(32)),
        spec_entry(NV_ESC_RM_ALLOC, 48, IoctlKind::RmAlloc, Some(48)),
        spec_entry(NV_ESC_RM_VID_HEAP_CONTROL, 184, IoctlKind::Simple, Some(184)),
        spec_entry(NV_ESC_RM_MAP_MEMORY, 56, IoctlKind::Mapping, Some(56)),
        spec_entry(NV_ESC_RM_UNMAP_MEMORY, 32, IoctlKind::Simple, Some(32)),
        spec_entry(NV_ESC_RM_MAP_MEMORY_DMA, 64, IoctlKind::Simple, Some(64)),
        spec_entry(NV_ESC_RM_UNMAP_MEMORY_DMA, 48, IoctlKind::Simple, Some(48)),
        spec_entry(NV_ESC_RM_UPDATE_DEVICE_MAPPING_INFO, 40, IoctlKind::Simple, Some(40)),
        spec_entry(NV_ESC_ATTACH_GPUS_TO_FD, 0, IoctlKind::Bytes, None),
        spec_entry(NV_ESC_WAIT_OPEN_COMPLETE, 0, IoctlKind::Bytes, None),
        spec_entry(NV_ESC_RM_DUP_OBJECT, 0, IoctlKind::Bytes, None),
        spec_entry(NV_ESC_RM_IDLE_CHANNELS, 0, IoctlKind::Bytes, None),
        spec_entry(NV_ESC_RM_ALLOC_CONTEXT_DMA2, 0, IoctlKind::Bytes, None),
    ]
}

/// Build the ioctl table for 580.178.04.
pub fn table() -> (r: Vec<IoctlEntry>)
    ensures
        r@ == spec_table(),
{
    let mut t: Vec<IoctlEntry> = Vec::new();
    t.push(entry(NV_ESC_CHECK_VERSION_STR, 72, IoctlKind::Simple, Some(72)));
    t.push(entry(NV_ESC_CARD_INFO, 4096, IoctlKind::Bytes, None));
    t.push(entry(NV_ESC_REGISTER_FD, 4, IoctlKind::FdCarrying, Some(4)));
    t.push(entry(NV_ESC_ALLOC_OS_EVENT, 16, IoctlKind::FdCarrying, Some(16)));
    t.push(entry(NV_ESC_FREE_OS_EVENT, 16, IoctlKind::FdCarrying, Some(16)));
    t.push(entry(NV_ESC_SYS_PARAMS, 8, IoctlKind::Simple, Some(8)));
    t.push(entry(NV_ESC_RM_ALLOC_MEMORY, 56, IoctlKind::FdCarrying, Some(56)));
    t.push(entry(NV_ESC_RM_FREE, 16, IoctlKind::Simple, Some(16)));
    t.push(entry(NV_ESC_RM_CONTROL, 32, IoctlKind::RmControl, Some(32)));
    t.push(entry(NV_ESC_RM_ALLOC, 48, IoctlKind::RmAlloc, Some(48)));
    t.push(entry(NV_ESC_RM_VID_HEAP_CONTROL, 184, IoctlKind::Simple, Some(184)));
    t.push(entry(NV_ESC_RM_MAP_MEMORY, 56, IoctlKind::Mapping, Some(56)));
    t.push(entry(NV_ESC_RM_UNMAP_MEMORY, 32, IoctlKind::Simple, Some(32)));
    t.push(entry(NV_ESC_RM_MAP_MEMORY_DMA, 64, IoctlKind::Simple, Some(64)));
    t.push(entry(NV_ESC_RM_UNMAP_MEMORY_DMA, 48, IoctlKind::Simple, Some(48)));
    t.push(entry(NV_ESC_RM_UPDATE_DEVICE_MAPPING_INFO, 40, IoctlKind::Simple, Some(40)));
    t.push(entry(NV_ESC_ATTACH_GPUS_TO_FD, 0, IoctlKind::Bytes, None));
    t.push(entry(NV_ESC_WAIT_OPEN_COMPLETE, 0, IoctlKind::Bytes, None));
    t.push(entry(NV_ESC_RM_DUP_OBJECT, 0, IoctlKind::Bytes, None));
    t.push(entry(NV_ESC_RM_IDLE_CHANNELS, 0, IoctlKind::Bytes, None));
    t.push(entry(NV_ESC_RM_ALLOC_CONTEXT_DMA2, 0, IoctlKind::Bytes, None));
    assert(t@ =~= spec_table());
    t
}

} // verus!
