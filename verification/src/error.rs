//! Why the device could not do what it was asked.
use crate::shm::PgprotKind;
use crate::text::{decimal, hex, push_decimal, push_hex};
use vstd::prelude::*;
use vstd::string::StringExecFns;

verus! {

/// What went wrong below the device.
#[derive(Clone, Copy, Debug, PartialEq, Eq, Structural)]
pub enum IoError {
    /// No free extent of the zone can hold the allocation.
    OutOfMemory {
        pgprot: PgprotKind,
        length: u64,
        free_bytes: u64,
        largest_free: u64,
        extents: usize,
    },
    /// The region is not in use, or not inside its zone.
    InvalidInput { pgprot: PgprotKind, offset: u64, length: u64 },
    /// The host refused a call with this errno.
    Os(i32),
}

impl IoError {
    pub open spec fn text(self) -> Seq<char> {
        match self {
            IoError::OutOfMemory { pgprot, length, free_bytes, largest_free, extents } => "SHM "@
                + pgprot.text() + " zone cannot satisfy "@ + decimal(length as nat) + " bytes: "@
                + decimal(free_bytes as nat)
                + " free in total but largest contiguous extent is "@ + decimal(
                largest_free as nat,
            ) + " ("@ + decimal(extents as nat) + " free extents)"@,
            IoError::InvalidInput { pgprot, offset, length } => "SHM free of "@ + pgprot.text()
                + " region at "@ + hex(offset as nat) + "+"@ + hex(length as nat)
                + " is out of range or already free"@,
            IoError::Os(errno) => "os error "@ + signed(errno as int),
        }
    }

    pub fn to_string(&self) -> (r: String)
        ensures
            r@ == self.text(),
    {
        let mut out: String = String::new();
        match *self {
            IoError::OutOfMemory { pgprot, length, free_bytes, largest_free, extents } => {
                out.append("SHM ");
                out.append(pgprot.name());
                out.append(" zone cannot satisfy ");
                push_decimal(&mut out, length);
                out.append(" bytes: ");
                push_decimal(&mut out, free_bytes);
                out.append(" free in total but largest contiguous extent is ");
                push_decimal(&mut out, largest_free);
                out.append(" (");
                push_decimal(&mut out, extents as u64);
                out.append(" free extents)");
            },
            IoError::InvalidInput { pgprot, offset, length } => {
                out.append("SHM free of ");
                out.append(pgprot.name());
                out.append(" region at ");
                push_hex(&mut out, offset);
                out.append("+");
                push_hex(&mut out, length);
                out.append(" is out of range or already free");
            },
            IoError::Os(errno) => {
                out.append("os error ");
                push_signed(&mut out, errno);
            },
        }
        assert(out@ =~= self.text());
        out
    }
}

/// `n` in decimal, behind a minus sign where it is negative.
pub open spec fn signed(n: int) -> Seq<char> {
    if n < 0 {
        "-"@ + decimal((-n) as nat)
    } else {
        decimal(n as nat)
    }
}

fn push_signed(out: &mut String, n: i32)
    ensures
        final(out)@ == old(out)@ + signed(n as int),
{
    if n < 0 {
        out.append("-");
        push_decimal(out, (-(n as i64)) as u64);
    } else {
        push_decimal(out, n as u64);
    }
    assert(out@ =~= old(out)@ + signed(n as int));
}

#[derive(Clone, Copy, Debug, PartialEq, Eq, Structural)]
pub enum DeviceError {
    Io(IoError),
    BufferTooSmall { need: usize, have: usize },
    BadHandle(u64),
    UnknownMsgType(u32),
    InvalidDeviceKind(u32),
    GpuIndexOutOfRange(u32),
}

pub type Result<T> = core::result::Result<T, DeviceError>;

impl DeviceError {
    pub open spec fn text(self) -> Seq<char> {
        match self {
            DeviceError::Io(e) => "I/O error: "@ + e.text(),
            DeviceError::BufferTooSmall { need, have } => "descriptor buffer too small: need "@
                + decimal(need as nat) + ", have "@ + decimal(have as nat),
            DeviceError::BadHandle(h) => "unknown guest handle "@ + decimal(h as nat),
            DeviceError::UnknownMsgType(t) => "unknown message type "@ + decimal(t as nat),
            DeviceError::InvalidDeviceKind(k) => "invalid device kind "@ + decimal(k as nat),
            DeviceError::GpuIndexOutOfRange(i) => "GPU index "@ + decimal(i as nat)
                + " out of range"@,
        }
    }

    pub fn to_string(&self) -> (r: String)
        ensures
            r@ == self.text(),
    {
        let mut out: String = String::new();
        match *self {
            DeviceError::Io(e) => {
                out.append("I/O error: ");
                out.append(e.to_string().as_str());
            },
            DeviceError::BufferTooSmall { need, have } => {
                out.append("descriptor buffer too small: need ");
                push_decimal(&mut out, need as u64);
                out.append(", have ");
                push_decimal(&mut out, have as u64);
            },
            DeviceError::BadHandle(h) => {
                out.append("unknown guest handle ");
                push_decimal(&mut out, h);
            },
            DeviceError::UnknownMsgType(t) => {
                out.append("unknown message type ");
                push_decimal(&mut out, t as u64);
            },
            DeviceError::InvalidDeviceKind(k) => {
                out.append("invalid device kind ");
                push_decimal(&mut out, k as u64);
            },
            DeviceError::GpuIndexOutOfRange(i) => {
                out.append("GPU index ");
                push_decimal(&mut out, i as u64);
                out.append(" out of range");
            },
        }
        assert(out@ =~= self.text());
        out
    }
}

} // verus!
