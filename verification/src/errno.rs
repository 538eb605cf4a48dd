//! The errno values of Linux that the device answers with.
use vstd::prelude::*;

verus! {

pub const ENOENT: i32 = 2;

pub const EIO: i32 = 5;

pub const EBADF: i32 = 9;

pub const ENOMEM: i32 = 12;

pub const EBUSY: i32 = 16;

pub const ENODEV: i32 = 19;

pub const EINVAL: i32 = 22;

pub const ENOTTY: i32 = 25;

pub const ENOSPC: i32 = 28;

pub const EPROTO: i32 = 71;

pub const ENOTSUP: i32 = 95;

} // verus!
