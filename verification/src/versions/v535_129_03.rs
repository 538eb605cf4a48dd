//! ABI table for NVIDIA driver version 535.129.03.
use crate::ioctl::{
    NV_ESC_ALLOC_OS_EVENT,
    NV_ESC_CARD_INFO,
    NV_ESC_CHECK_VERSION_STR,
    NV_ESC_FREE_OS_EVENT,
    NV_ESC_REGISTER_FD,
    NV_ESC_RM_ALLOC,
    NV_ESC_RM_CONTROL,
    NV_ESC_RM_FREE,
    NV_ESC_RM_MAP_MEMORY,
    NV_ESC_RM_UNMAP_MEMORY,
    _IOWR,
    NV_IOCTL_MAGIC,
    ioc,
};
use vstd::prelude::*;

verus! {

/// The category of ioctl handling the backend must apply.
#[derive(Clone, Copy, Debug, PartialEq, Eq, Structural)]
pub enum IoctlKind {
    /// Copy params in, call host ioctl, copy params out. No handles, no mmaps.
    Simple,
    /// Contains an embedded guest handle, which must be replaced by the host's file descriptor
    /// before the host ioctl is issued.
    FdCarrying,
    /// Produces a new host mmap region; the backend allocates window space and returns the offset.
    Mapping,
    /// `NV_ESC_RM_CONTROL`: nested dispatch on the embedded control command.
    RmControl,
    /// `NV_ESC_RM_ALLOC`: nested dispatch on the embedded allocation class.
    RmAlloc,
    /// As many bytes as the call passes: an array, or a block whose size is not recorded.
    Bytes,
}

/// A single entry in the per-version ioctl table.
#[derive(Clone, Copy, Debug, PartialEq, Eq, Structural)]
pub struct IoctlEntry {
    /// Linux ioctl number (as returned by `_IOWR(NV_ESC_*, size)`), as the release's list has it.
    ///
    /// For some escapes the list has another size in it than that of the parameter block, such as
    /// a page for the version string. There the number only names the escape: the device never
    /// takes a length from it, calls reach the host under the number that the guest used, and
    /// `param_size` alone says how long the block is.
    pub number: u64,
    /// Raw NV_ESC_* index.
    pub escape: u32,
    pub kind: IoctlKind,
    /// Bytes of the parameter block that goes to the host, or `None` where the length varies from
    /// call to call. This is what a guest is held to.
    pub param_size: Option<u32>,
}

/// The entry of one escape.
pub open spec fn spec_entry(
    escape: u32,
    size: u32,
    kind: IoctlKind,
    param_size: Option<u32>,
) -> IoctlEntry {
    IoctlEntry { number: ioc(3, NV_IOCTL_MAGIC, escape, size), escape, kind, param_size }
}

pub fn entry(escape: u32, size: u32, kind: IoctlKind, param_size: Option<u32>) -> (r: IoctlEntry)
    ensures
        r == spec_entry(escape, size, kind, param_size),
{
    IoctlEntry { number: _IOWR(escape, size), escape, kind, param_size }
}

/// The escapes of 535.129.03, with their parameter sizes.
pub open spec fn spec_table() -> Seq<IoctlEntry> {
    seq![
        spec_entry(NV_ESC_CHECK_VERSION_STR, 4096, IoctlKind::Simple, Some(72)),
        spec_entry(NV_ESC_CARD_INFO, 4096, IoctlKind::Simple, None),
        spec_entry(NV_ESC_REGISTER_FD, 8, IoctlKind::FdCarrying, Some(4)),
        spec_entry(NV_ESC_RM_ALLOC, 48, IoctlKind::RmAlloc, Some(48)),
        spec_entry(NV_ESC_RM_CONTROL, 56, IoctlKind::RmControl, Some(32)),
        spec_entry(NV_ESC_RM_FREE, 16, IoctlKind::Simple, Some(16)),
        spec_entry(NV_ESC_RM_MAP_MEMORY, 56, IoctlKind::Mapping, Some(56)),
        spec_entry(NV_ESC_RM_UNMAP_MEMORY, 40, IoctlKind::Simple, Some(32)),
        spec_entry(NV_ESC_ALLOC_OS_EVENT, 16, IoctlKind::FdCarrying, Some(16)),
        spec_entry(NV_ESC_FREE_OS_EVENT, 16, IoctlKind::FdCarrying, Some(16)),
    ]
}

/// Build the ioctl table for 535.129.03.
pub fn table() -> (r: Vec<IoctlEntry>)
    ensures
        r@ == spec_table(),
{
    let mut t: Vec<IoctlEntry> = Vec::new();
    t.push(entry(NV_ESC_CHECK_VERSION_STR, 4096, IoctlKind::Simple, Some(72)));
    t.push(entry(NV_ESC_CARD_INFO, 4096, IoctlKind::Simple, None));
    t.push(entry(NV_ESC_REGISTER_FD, 8, IoctlKind::FdCarrying, Some(4)));
    t.push(entry(NV_ESC_RM_ALLOC, 48, IoctlKind::RmAlloc, Some(48)));
    t.push(entry(NV_ESC_RM_CONTROL, 56, IoctlKind::RmControl, Some(32)));
    t.push(entry(NV_ESC_RM_FREE, 16, IoctlKind::Simple, Some(16)));
    t.push(entry(NV_ESC_RM_MAP_MEMORY, 56, IoctlKind::Mapping, Some(56)));
    t.push(entry(NV_ESC_RM_UNMAP_MEMORY, 40, IoctlKind::Simple, Some(32)));
    t.push(entry(NV_ESC_ALLOC_OS_EVENT, 16, IoctlKind::FdCarrying, Some(16)));
    t.push(entry(NV_ESC_FREE_OS_EVENT, 16, IoctlKind::FdCarrying, Some(16)));
    assert(t@ =~= spec_table());
    t
}

} // verus!
