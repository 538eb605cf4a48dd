//! Common NVIDIA types shared across ioctl structs.
use vstd::prelude::*;

verus! {

/// Opaque RM object handle. Clients allocate these; the driver tracks them.
#[derive(Clone, Copy, Debug, PartialEq, Eq, Hash, Structural)]
pub struct NvHandle(pub u32);

impl NvHandle {
    /// The handle that names no object.
    #[allow(non_snake_case)]
    pub fn NULL() -> (r: NvHandle)
        ensures
            r == NvHandle(0),
    {
        NvHandle(0)
    }
}

/// NVIDIA status code returned inside ioctl parameter structs.
#[derive(Clone, Copy, Debug, PartialEq, Eq, Structural)]
pub struct NvStatus(pub u32);

impl NvStatus {
    /// The status of a call that went well.
    #[allow(non_snake_case)]
    pub fn OK() -> (r: NvStatus)
        ensures
            r == NvStatus(0),
    {
        NvStatus(0)
    }

    pub fn is_ok(self) -> (r: bool)
        ensures
            r == (self.0 == 0),
    {
        self.0 == 0
    }
}

/// 64-bit GPU virtual address (returned by mapping operations).
pub type NvP64 = u64;

/// GPU device memory address.
pub type NvU64 = u64;

pub type NvU32 = u32;

pub type NvU16 = u16;

pub type NvU8 = u8;

pub type NvBool = u8;

pub type NvS32 = i32;

} // verus!
