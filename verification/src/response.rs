//! What the device writes back for a message.
use crate::bytes::append;
use crate::errno::{EBADF, EIO, ENODEV, ENOSPC, EPROTO};
use crate::messages::{IoctlResp, MsgHeader, MsgType, IOCTL_RESP_SIZE, MSG_HEADER_SIZE};
use vstd::prelude::*;

verus! {

/// Backend-side result codes, mapped to the errno the guest driver sees.
///
/// The driver has no status vocabulary of its own: it tests `(s32)status < 0` and returns that
/// value from the syscall, so every one of these has to become a plausible errno or userspace gets
/// a nonsense failure.
#[derive(Clone, Copy, Debug, PartialEq, Eq, Structural)]
pub enum Status {
    Success,
    InvalidMsgType,
    InvalidDevice,
    OpenFailed,
    BadHandle,
    IoctlFailed,
    BufferTooSmall,
}

impl Status {
    pub open spec fn spec_errno(self) -> i32 {
        match self {
            Status::Success => 0,
            Status::InvalidMsgType => EPROTO,
            Status::InvalidDevice => ENODEV,
            Status::OpenFailed => EIO,
            Status::BadHandle => EBADF,
            Status::IoctlFailed => EIO,
            Status::BufferTooSmall => ENOSPC,
        }
    }

    /// The number of the status.
    pub open spec fn code(self) -> u32 {
        match self {
            Status::Success => 0,
            Status::InvalidMsgType => 1,
            Status::InvalidDevice => 2,
            Status::OpenFailed => 3,
            Status::BadHandle => 4,
            Status::IoctlFailed => 5,
            Status::BufferTooSmall => 6,
        }
    }

    /// The status of this number.
    pub fn from_u32(v: u32) -> (r: Self)
        requires
            v <= 6,
        ensures
            r.code() == v,
    {
        match v {
            0 => Status::Success,
            1 => Status::InvalidMsgType,
            2 => Status::InvalidDevice,
            3 => Status::OpenFailed,
            4 => Status::BadHandle,
            5 => Status::IoctlFailed,
            _ => Status::BufferTooSmall,
        }
    }

    pub fn errno(self) -> (r: i32)
        ensures
            r == self.spec_errno(),
    {
        match self {
            Status::Success => 0,
            Status::InvalidMsgType => EPROTO,
            Status::InvalidDevice => ENODEV,
            Status::OpenFailed => EIO,
            Status::BadHandle => EBADF,
            Status::IoctlFailed => EIO,
            Status::BufferTooSmall => ENOSPC,
        }
    }
}

/// A bare header, or nothing where the response buffer of `cap` bytes cannot hold one.
pub open spec fn header_resp(msg: MsgType, handle: u32, status: i32, cap: int) -> Seq<u8> {
    if cap < MSG_HEADER_SIZE {
        Seq::empty()
    } else {
        MsgHeader { msg_type: msg.code(), handle, status, padding: 0 }.wire()
    }
}

/// The errno that a failure reports: the host's own where it gave one, else that of the status.
pub open spec fn reported(status: Status, errno: i32) -> int {
    if errno > 0 {
        errno as int
    } else if errno < 0 {
        -errno
    } else {
        status.spec_errno() as int
    }
}

/// A failure: a header without a handle, its status the negated errno.
pub open spec fn error_resp(msg: MsgType, status: Status, errno: i32, cap: int) -> Seq<u8> {
    header_resp(msg, 0, (-reported(status, errno)) as i32, cap)
}

/// How many of `len` bytes belong to the top-level struct, of which the request sent `data_len`.
pub open spec fn data_part(data_len: u32, len: int) -> int {
    if data_len < len {
        data_len as int
    } else {
        len
    }
}

/// A successful ioctl: header, lengths, the parameter bytes and the second-level block.
///
/// The split between the top-level struct and the nested block is that of the request, because the
/// guest copies exactly `data_len` bytes back to the caller's struct and reads any nested block
/// after it. Where the buffer is too small the response says so instead.
pub open spec fn ioctl_resp(
    msg: MsgType,
    handle: u32,
    data_len: u32,
    out: Seq<u8>,
    deep: Seq<u8>,
    cap: int,
) -> Seq<u8> {
    if cap < MSG_HEADER_SIZE + IOCTL_RESP_SIZE + out.len() + deep.len() {
        error_resp(msg, Status::BufferTooSmall, 0, cap)
    } else {
        let first = data_part(data_len, out.len() as int);
        MsgHeader { msg_type: msg.code(), handle, status: 0, padding: 0 }.wire() + IoctlResp {
            data_len: first as u32,
            nested_len: (out.len() - first) as u32,
            deep_len: deep.len() as u32,
        }.wire() + out + deep
    }
}

/// Write a bare response header.
pub fn write_hdr(msg: MsgType, handle: u32, status: i32, cap: usize) -> (r: Vec<u8>)
    ensures
        r@ == header_resp(msg, handle, status, cap as int),
{
    if cap < MSG_HEADER_SIZE {
        return Vec::new();
    }
    MsgHeader { msg_type: msg.to_u32(), handle, status, padding: 0 }.to_bytes()
}

/// Write a failure.
///
/// The status is negative in the response because the driver tests its sign and returns it
/// straight out of the syscall.
pub fn write_error_resp(msg: MsgType, status: Status, errno: i32, cap: usize) -> (r: Vec<u8>)
    requires
        errno > i32::MIN,
    ensures
        r@ == error_resp(msg, status, errno, cap as int),
{
    let e: i32 = if errno > 0 {
        errno
    } else if errno < 0 {
        -errno
    } else {
        status.errno()
    };
    write_hdr(msg, 0, -e, cap)
}

/// Write a successful ioctl response.
pub fn write_ioctl_resp(
    msg: MsgType,
    handle: u32,
    data_len: u32,
    out: &[u8],
    deep: &[u8],
    cap: usize,
) -> (r: Vec<u8>)
    ensures
        r@ == ioctl_resp(msg, handle, data_len, out@, deep@, cap as int),
{
    let fixed: usize = MSG_HEADER_SIZE + IOCTL_RESP_SIZE;
    if cap < fixed || cap - fixed < out.len() || cap - fixed - out.len() < deep.len() {
        return write_error_resp(msg, Status::BufferTooSmall, 0, cap);
    }
    let first: usize = if (data_len as u64) < out.len() as u64 {
        data_len as usize
    } else {
        out.len()
    };
    let mut r: Vec<u8> = MsgHeader { msg_type: msg.to_u32(), handle, status: 0, padding: 0 }.to_bytes();
    let lengths: Vec<u8> = IoctlResp {
        data_len: first as u32,
        nested_len: (out.len() - first) as u32,
        deep_len: deep.len() as u32,
    }.to_bytes();
    append(&mut r, lengths.as_slice());
    append(&mut r, out);
    append(&mut r, deep);
    r
}

/// A failure never reads as success, and no response is longer than its buffer.
pub proof fn law_failures_are_negative(msg: MsgType, status: Status, errno: i32, cap: int)
    requires
        status != Status::Success,
        errno > i32::MIN,
        cap >= 0,
    ensures
        error_resp(msg, status, errno, cap).len() <= cap,
        cap >= MSG_HEADER_SIZE ==> {
            let h = MsgHeader::at(error_resp(msg, status, errno, cap), 0);
            &&& h.status < 0
            &&& h.status == -reported(status, errno)
            &&& h.handle == 0
            &&& h.msg_type == msg.code()
        },
{
    if cap >= MSG_HEADER_SIZE {
        let v = MsgHeader {
            msg_type: msg.code(),
            handle: 0,
            status: (-reported(status, errno)) as i32,
            padding: 0,
        };
        let s = error_resp(msg, status, errno, cap);
        assert(s.subrange(0, 0 + MSG_HEADER_SIZE) =~= v.wire());
        crate::messages::law_msg_header_round_trips(v, s, 0);
    }
}

/// A successful ioctl response splits back into the bytes it carries.
pub proof fn law_ioctl_response_splits(
    msg: MsgType,
    handle: u32,
    data_len: u32,
    out: Seq<u8>,
    deep: Seq<u8>,
    cap: int,
)
    requires
        cap >= MSG_HEADER_SIZE + IOCTL_RESP_SIZE + out.len() + deep.len(),
        out.len() - data_part(data_len, out.len() as int) <= u32::MAX,
        deep.len() <= u32::MAX,
    ensures
        ({
            let s = ioctl_resp(msg, handle, data_len, out, deep, cap);
            let h = MsgHeader::at(s, 0);
            let l = IoctlResp::at(s, 16);
            &&& s.len() <= cap
            &&& h.status == 0 && h.handle == handle && h.msg_type == msg.code()
            &&& l.data_len == data_part(data_len, out.len() as int)
            &&& l.data_len + l.nested_len == out.len()
            &&& l.deep_len == deep.len()
            &&& s.skip(28) == out + deep
        }),
{
    let s = ioctl_resp(msg, handle, data_len, out, deep, cap);
    let first = data_part(data_len, out.len() as int);
    let h = MsgHeader { msg_type: msg.code(), handle, status: 0, padding: 0 };
    let l = IoctlResp {
        data_len: first as u32,
        nested_len: (out.len() - first) as u32,
        deep_len: deep.len() as u32,
    };
    assert(h.wire().len() == 16);
    assert(l.wire().len() == 12);
    assert(s.subrange(0, 0 + MSG_HEADER_SIZE) =~= h.wire());
    assert(s.subrange(16, 16 + IOCTL_RESP_SIZE) =~= l.wire());
    crate::messages::law_msg_header_round_trips(h, s, 0);
    crate::messages::law_ioctl_resp_round_trips(l, s, 16);
    assert(s.skip(28) =~= out + deep);
}

} // verus!
