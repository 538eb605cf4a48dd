//! Messages that a client sends to try a device out: open the control device, ask for the driver
//! version, close again.
use crate::abi::{read_version, version_in};
use crate::bytes::{append, append_u32, u32_bytes, zeroed, zeros};
use crate::ioctl::{ioc, _IOWR, NV_ESC_CHECK_VERSION_STR, NV_IOCTL_MAGIC};
use crate::messages::{
    DeviceKind, IoctlReq, IoctlResp, MsgHeader, MsgType, OpenReq, DEV_CTL, IOCTL_REQ_SIZE,
    IOCTL_RESP_SIZE, MSG_HEADER_SIZE, OPEN_REQ_SIZE,
};
use crate::version::DriverVersion;
use vstd::prelude::*;
use vstd::slice::slice_subrange;

verus! {

/// The size of `nv_ioctl_rm_api_version_t`: cmd (4), reply (4), a version string (64).
pub const VERSION_PARAMS: u32 = 72;

/// A request's header.
pub open spec fn request_header(t: MsgType, handle: u32) -> MsgHeader {
    MsgHeader { msg_type: t.code(), handle, status: 0, padding: 0 }
}

/// Open `/dev/nvidiactl`.
pub fn build_open_ctl() -> (r: Vec<u8>)
    ensures
        r@ == request_header(MsgType::Open, 0).wire() + (OpenReq {
            device_type: DEV_CTL,
            flags: 0,
        }).wire(),
{
    let mut r: Vec<u8> = MsgHeader::ok(MsgType::Open, 0).to_bytes();
    let open: Vec<u8> = OpenReq { device_type: DEV_CTL, flags: 0 }.to_bytes();
    append(&mut r, open.as_slice());
    r
}

/// Close a handle. It travels in the header.
pub fn build_close(handle: u32) -> (r: Vec<u8>)
    ensures
        r@ == request_header(MsgType::Close, handle).wire(),
{
    MsgHeader::ok(MsgType::Close, handle).to_bytes()
}

/// The version request: the size of its parameters stands in its number.
pub open spec fn version_request() -> IoctlReq {
    IoctlReq {
        cmd: ioc(3, NV_IOCTL_MAGIC, NV_ESC_CHECK_VERSION_STR, VERSION_PARAMS) as u32,
        data_len: VERSION_PARAMS,
        nested_offset: 0,
        nested_len: 0,
        deep_ptr_offset: 0,
        deep_len: 0,
    }
}

/// Ask for the host's driver version, in query form: the driver fills in its version string
/// without checking for a match.
pub fn build_check_version_str(handle: u32) -> (r: Vec<u8>)
    ensures
        r@ == request_header(MsgType::Ioctl, handle).wire() + version_request().wire() + zeros(
            VERSION_PARAMS as nat,
        ).update(0, 0x32),
{
    let mut r: Vec<u8> = MsgHeader::ok(MsgType::Ioctl, handle).to_bytes();
    let req: Vec<u8> = IoctlReq {
        cmd: _IOWR(NV_ESC_CHECK_VERSION_STR, VERSION_PARAMS) as u32,
        data_len: VERSION_PARAMS,
        nested_offset: 0,
        nested_len: 0,
        deep_ptr_offset: 0,
        deep_len: 0,
    }.to_bytes();
    append(&mut r, req.as_slice());
    let mut params: Vec<u8> = zeroed(VERSION_PARAMS as usize);
    params[0] = 0x32;
    append(&mut r, params.as_slice());
    r
}

/// What a response begins with.
pub fn read_header(resp: &[u8]) -> (r: Option<MsgHeader>)
    ensures
        r == (if resp@.len() < MSG_HEADER_SIZE {
            None
        } else {
            Some(MsgHeader::at(resp@, 0))
        }),
{
    if resp.len() < MSG_HEADER_SIZE {
        None
    } else {
        Some(MsgHeader::read(resp, 0))
    }
}

/// The parameter block of a successful response to the version request.
pub open spec fn version_block(resp: Seq<u8>) -> Option<Seq<u8>> {
    let fixed = MSG_HEADER_SIZE + IOCTL_RESP_SIZE;
    let len = IoctlResp::at(resp, MSG_HEADER_SIZE as int).data_len;
    if resp.len() < fixed || MsgHeader::at(resp, 0).status != 0 || len < VERSION_PARAMS
        || resp.len() < fixed + len {
        None
    } else {
        Some(resp.subrange(fixed, fixed + VERSION_PARAMS))
    }
}

/// The driver version that a response gives.
pub fn read_version_reply(resp: &[u8]) -> (r: Option<DriverVersion>)
    ensures
        r == (match version_block(resp@) {
            Some(block) => version_in(block),
            None => None,
        }),
{
    let fixed: usize = MSG_HEADER_SIZE + IOCTL_RESP_SIZE;
    if resp.len() < fixed {
        return None;
    }
    let hdr: MsgHeader = MsgHeader::read(resp, 0);
    let lengths: IoctlResp = IoctlResp::read(resp, MSG_HEADER_SIZE);
    if hdr.status != 0 || lengths.data_len < VERSION_PARAMS || ((resp.len() - fixed) as u64) < (
    lengths.data_len as u64) {
        return None;
    }
    read_version(slice_subrange(resp, fixed, fixed + VERSION_PARAMS as usize))
}

/// A message on a byte stream: its length, and its bytes.
pub open spec fn framed(payload: Seq<u8>) -> Seq<u8> {
    u32_bytes(payload.len() as u32) + payload
}

pub fn frame(payload: &[u8]) -> (r: Vec<u8>)
    ensures
        r@ == framed(payload@),
{
    let mut r: Vec<u8> = Vec::new();
    append_u32(&mut r, payload.len() as u32);
    append(&mut r, payload);
    assert(r@ =~= framed(payload@));
    r
}

/// What a client sends is what the device reads: the control device to open, the handle to close,
/// a version request with its parameters whole.
pub proof fn law_client_messages_are_understood(handle: u32)
    ensures
        ({
            let m = request_header(MsgType::Open, 0).wire() + (OpenReq {
                device_type: DEV_CTL,
                flags: 0,
            }).wire();
            &&& MsgType::spec_from_u32(MsgHeader::at(m, 0).msg_type) == Some(MsgType::Open)
            &&& DeviceKind::spec_from_device_type(OpenReq::at(m, 16).device_type) == Some(
                DeviceKind::Ctl,
            )
        }),
        ({
            let m = request_header(MsgType::Close, handle).wire();
            &&& MsgType::spec_from_u32(MsgHeader::at(m, 0).msg_type) == Some(MsgType::Close)
            &&& MsgHeader::at(m, 0).handle == handle
        }),
        ({
            let m = request_header(MsgType::Ioctl, handle).wire() + version_request().wire()
                + zeros(VERSION_PARAMS as nat).update(0, 0x32);
            &&& MsgType::spec_from_u32(MsgHeader::at(m, 0).msg_type) == Some(MsgType::Ioctl)
            &&& MsgHeader::at(m, 0).handle == handle
            &&& IoctlReq::at(m, 16) == version_request()
            &&& m.len() == MSG_HEADER_SIZE + IOCTL_REQ_SIZE + VERSION_PARAMS
        }),
{
    let open = OpenReq { device_type: DEV_CTL, flags: 0 };
    let a = request_header(MsgType::Open, 0).wire() + open.wire();
    assert(a.subrange(0, 0 + MSG_HEADER_SIZE) =~= request_header(MsgType::Open, 0).wire());
    assert(a.subrange(16, 16 + OPEN_REQ_SIZE) =~= open.wire());
    crate::messages::law_msg_header_round_trips(request_header(MsgType::Open, 0), a, 0);
    crate::messages::law_open_req_round_trips(open, a, 16);
    let b = request_header(MsgType::Close, handle).wire();
    assert(b.subrange(0, 0 + MSG_HEADER_SIZE) =~= b);
    crate::messages::law_msg_header_round_trips(request_header(MsgType::Close, handle), b, 0);
    let c = request_header(MsgType::Ioctl, handle).wire() + version_request().wire() + zeros(
        VERSION_PARAMS as nat,
    ).update(0, 0x32);
    assert(c.subrange(0, 0 + MSG_HEADER_SIZE) =~= request_header(MsgType::Ioctl, handle).wire());
    assert(c.subrange(16, 16 + IOCTL_REQ_SIZE) =~= version_request().wire());
    crate::messages::law_msg_header_round_trips(request_header(MsgType::Ioctl, handle), c, 0);
    crate::messages::law_ioctl_req_round_trips(version_request(), c, 16);
}

} // verus!
