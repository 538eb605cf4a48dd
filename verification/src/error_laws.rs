//! What each failure says.
use crate::error::{signed, DeviceError, IoError};
use crate::manifest::{quoted_char, quoted_text, ErrorView};
use crate::shm::PgprotKind;
use crate::text::{decimal, hex};
use crate::userspace::UserspaceError;
use vstd::prelude::*;

verus! {

/// A negative number has a minus sign before its digits.
pub proof fn law_signs(n: int)
    ensures
        n < 0 ==> signed(n) == "-"@ + decimal((-n) as nat),
        n >= 0 ==> signed(n) == decimal(n as nat),
{
}

/// A zone without room says what was asked of it, how much it has and in how many pieces.
pub proof fn law_full_zones_say_so(
    pgprot: PgprotKind,
    length: u64,
    free_bytes: u64,
    largest_free: u64,
    extents: usize,
)
    ensures
        (IoError::OutOfMemory { pgprot, length, free_bytes, largest_free, extents }).text() == "SHM "@
            + pgprot.text() + " zone cannot satisfy "@ + decimal(length as nat) + " bytes: "@
            + decimal(free_bytes as nat) + " free in total but largest contiguous extent is "@
            + decimal(largest_free as nat) + " ("@ + decimal(extents as nat) + " free extents)"@,
{
}

/// The other failures below the device.
pub proof fn law_io_errors_say_what_happened(pgprot: PgprotKind, offset: u64, length: u64, errno: i32)
    ensures
        (IoError::InvalidInput { pgprot, offset, length }).text() == "SHM free of "@ + pgprot.text()
            + " region at "@ + hex(offset as nat) + "+"@ + hex(length as nat)
            + " is out of range or already free"@,
        IoError::Os(errno).text() == "os error "@ + signed(errno as int),
{
}

/// A failure of the device names what was wrong with what it was given.
pub proof fn law_device_errors_say_what_was_wrong(e: IoError, need: usize, have: usize, h: u64, n: u32)
    ensures
        DeviceError::Io(e).text() == "I/O error: "@ + e.text(),
        (DeviceError::BufferTooSmall { need, have }).text() == "descriptor buffer too small: need "@
            + decimal(need as nat) + ", have "@ + decimal(have as nat),
        DeviceError::BadHandle(h).text() == "unknown guest handle "@ + decimal(h as nat),
        DeviceError::UnknownMsgType(n).text() == "unknown message type "@ + decimal(n as nat),
        DeviceError::InvalidDeviceKind(n).text() == "invalid device kind "@ + decimal(n as nat),
        DeviceError::GpuIndexOutOfRange(n).text() == "GPU index "@ + decimal(n as nat)
            + " out of range"@,
{
}

/// A manifest that cannot be had names its path, and what went wrong.
pub proof fn law_manifest_errors_name_the_path(path: String, why: String)
    ensures
        UserspaceError::NoManifest(path).text() == "no driver manifest at "@ + path@
            + " -- this host's driver predates one, or is not installed"@,
        (UserspaceError::Io { path, source: why }).text() == "reading "@ + path@ + ": "@ + why@,
        (UserspaceError::Malformed { path, detail: why }).text() == path@
            + " is not the array of objects a driver manifest is: "@ + why@,
{
}

/// A manifest that cannot be read says where it stops being one.
pub proof fn law_manifest_errors_say_where(b: u8, key: Seq<char>)
    ensures
        ErrorView::NoArray.text() == "expected a top-level array"@,
        ErrorView::NotAnObject(b).text() == "expected an object, found "@ + quoted_char(b as char),
        ErrorView::EndInArray.text() == "file ended inside the array"@,
        ErrorView::NoKey.text() == "expected a key"@,
        ErrorView::NoColon(key).text() == "no ':' after key "@ + quoted_text(key),
        ErrorView::NotAStringInArray.text() == "expected a string in an array"@,
        ErrorView::NoName.text() == "an entry has no \"name\""@,
        ErrorView::EndInString.text() == "file ended inside a string"@,
        ErrorView::EndInEscape.text() == "file ended inside an escape"@,
{
}

} // verus!
