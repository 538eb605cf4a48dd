//! ABI table for NVIDIA driver version 595.58.03.
use crate::ioctl::{
    NV_ESC_ALLOC_OS_EVENT,
    NV_ESC_CARD_INFO,
    NV_ESC_CHECK_VERSION_STR,
    NV_ESC_FREE_OS_EVENT,
    NV_ESC_REGISTER_FD,
    NV_ESC_RM_ALLOC,
    NV_ESC_RM_CONTROL,
    NV_ESC_RM_FREE,
    NV_ESC_RM_MAP_MEMORY,
    NV_ESC_RM_MAP_MEMORY_DMA,
    NV_ESC_RM_UNMAP_MEMORY,
};
use crate::versions::v535_129_03::{entry, spec_entry};
pub use crate::versions::v535_129_03::{IoctlEntry, IoctlKind};
use vstd::prelude::*;

verus! {

/// The escapes of 595.58.03, with their parameter sizes.
pub open spec fn spec_table() -> Seq<IoctlEntry> {
    seq![
        spec_entry(NV_ESC_CHECK_VERSION_STR, 4096, IoctlKind::Simple, Some(72)),
        spec_entry(NV_ESC_CARD_INFO, 4096, IoctlKind::Simple, None),
        spec_entry(NV_ESC_REGISTER_FD, 8, IoctlKind::FdCarrying, Some(4)),
        spec_entry(NV_ESC_RM_ALLOC, 48, IoctlKind::RmAlloc, Some(48)),
        spec_entry(NV_ESC_RM_CONTROL, 56, IoctlKind::RmControl, Some(32)),
        spec_entry(NV_ESC_RM_FREE, 16, IoctlKind::Simple, Some(16)),
        spec_entry(NV_ESC_RM_MAP_MEMORY, 56, IoctlKind::Mapping, Some(56)),
        spec_entry(NV_ESC_RM_UNMAP_MEMORY, 40, IoctlKind::Simple, Some(32)),
        spec_entry(NV_ESC_ALLOC_OS_EVENT, 16, IoctlKind::FdCarrying, Some(16)),
        spec_entry(NV_ESC_FREE_OS_EVENT, 16, IoctlKind::FdCarrying, Some(16)),
        spec_entry(NV_ESC_RM_MAP_MEMORY_DMA, 64, IoctlKind::Simple, Some(64)),
    ]
}

/// Build the ioctl table for 595.58.03.
pub fn table() -> (r: Vec<IoctlEntry>)
    ensures
        r@ == spec_table(),
{
    let mut t: Vec<IoctlEntry> = Vec::new();
    t.push(entry(NV_ESC_CHECK_VERSION_STR, 4096, IoctlKind::Simple, Some(72)));
    t.push(entry(NV_ESC_CARD_INFO, 4096, IoctlKind::Simple, None));
    t.push(entry(NV_ESC_REGISTER_FD, 8, IoctlKind::FdCarrying, Some(4)));
    t.push(entry(NV_ESC_RM_ALLOC, 48, IoctlKind::RmAlloc, Some(48)));
    t.push(entry(NV_ESC_RM_CONTROL, 56, IoctlKind::RmControl, Some(32)));
    t.push(entry(NV_ESC_RM_FREE, 16, IoctlKind::Simple, Some(16)));
    t.push(entry(NV_ESC_RM_MAP_MEMORY, 56, IoctlKind::Mapping, Some(56)));
    t.push(entry(NV_ESC_RM_UNMAP_MEMORY, 40, IoctlKind::Simple, Some(32)));
    t.push(entry(NV_ESC_ALLOC_OS_EVENT, 16, IoctlKind::FdCarrying, Some(16)));
    t.push(entry(NV_ESC_FREE_OS_EVENT, 16, IoctlKind::FdCarrying, Some(16)));
    t.push(entry(NV_ESC_RM_MAP_MEMORY_DMA, 64, IoctlKind::Simple, Some(64)));
    assert(t@ =~= spec_table());
    t
}

} // verus!
