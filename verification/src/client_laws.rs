//! What a client sends and reads, byte by byte.
use crate::bytes::{u32_at, zeros};
use crate::client::{framed, request_header, version_block, version_request, VERSION_PARAMS};
use crate::ioctl::lemma_ioc_fields;
use crate::messages::{IoctlResp, MsgType, OpenReq, DEV_CTL};
use crate::wire_laws::{law_header_layout, law_ioctl_answer_layout, lemma_reads};
use vstd::prelude::*;

verus! {

/// Opening the control device takes 24 bytes: type 1, no handle, and device 255 without flags.
pub proof fn law_open_request_bytes()
    ensures
        ({
            let m = request_header(MsgType::Open, 0).wire() + (OpenReq {
                device_type: DEV_CTL,
                flags: 0,
            }).wire();
            &&& m.len() == 24
            &&& u32_at(m, 0) == 1
            &&& u32_at(m, 4) == 0
            &&& u32_at(m, 8) == 0
            &&& u32_at(m, 12) == 0
            &&& u32_at(m, 16) == 255
            &&& u32_at(m, 20) == 0
        }),
{
    let h = request_header(MsgType::Open, 0);
    let o = OpenReq { device_type: DEV_CTL, flags: 0 };
    let m = h.wire() + o.wire();
    lemma_reads(m, 0, 1);
    lemma_reads(m, 4, 0);
    lemma_reads(m, 8, 0);
    lemma_reads(m, 12, 0);
    lemma_reads(m, 16, 255);
    lemma_reads(m, 20, 0);
}

/// Closing a handle takes 16 bytes: type 2 and the handle.
pub proof fn law_close_request_bytes(handle: u32)
    ensures
        ({
            let m = request_header(MsgType::Close, handle).wire();
            &&& m.len() == 16
            &&& u32_at(m, 0) == 2
            &&& u32_at(m, 4) == handle
            &&& u32_at(m, 8) == 0
            &&& u32_at(m, 12) == 0
        }),
{
    law_header_layout(request_header(MsgType::Close, handle), Seq::empty(), 0);
}

/// Asking for the driver version takes 112 bytes: type 3 and the handle, the ioctl number that reads
/// and writes 72 bytes under escape 210, its length, no other block, and 72 bytes of parameters that
/// are zero but for the query form in the first.
pub proof fn law_version_request_bytes(handle: u32)
    ensures
        ({
            let m = request_header(MsgType::Ioctl, handle).wire() + version_request().wire()
                + zeros(72).update(0, 0x32);
            &&& m.len() == 112
            &&& u32_at(m, 0) == 3
            &&& u32_at(m, 4) == handle
            &&& u32_at(m, 8) == 0
            &&& u32_at(m, 12) == 0
            &&& u32_at(m, 16) == 0xc048_46d2
            &&& u32_at(m, 20) == 72
            &&& u32_at(m, 24) == 0
            &&& u32_at(m, 28) == 0
            &&& u32_at(m, 32) == 0
            &&& u32_at(m, 36) == 0
            &&& m[40] == 0x32
            &&& forall|i: int| 41 <= i < 112 ==> #[trigger] m[i] == 0
        }),
        VERSION_PARAMS == 72,
{
    let h = request_header(MsgType::Ioctl, handle);
    let q = version_request();
    let m = h.wire() + q.wire() + zeros(72).update(0, 0x32);
    lemma_ioc_fields(3, 0x46, 210, 72);
    assert(q.cmd == 0xc048_46d2);
    lemma_reads(m, 0, 3);
    lemma_reads(m, 4, handle);
    lemma_reads(m, 8, 0);
    lemma_reads(m, 12, 0);
    lemma_reads(m, 16, q.cmd);
    lemma_reads(m, 20, 72);
    lemma_reads(m, 24, 0);
    lemma_reads(m, 28, 0);
    lemma_reads(m, 32, 0);
    lemma_reads(m, 36, 0);
}

/// On a stream a message stands behind its length in four bytes.
pub proof fn law_frames_give_the_length(payload: Seq<u8>)
    requires
        payload.len() <= u32::MAX,
    ensures
        framed(payload).len() == 4 + payload.len(),
        u32_at(framed(payload), 0) == payload.len(),
        framed(payload).skip(4) == payload,
{
    let f = framed(payload);
    lemma_reads(f, 0, payload.len() as u32);
    assert(f.skip(4) =~= payload);
}

/// The version stands in the 72 bytes from 28 on of an answer whose status at 8 is zero and whose
/// struct, as long as the number at 16 says, is all there; any other answer gives none.
pub proof fn law_version_answers_are_read(resp: Seq<u8>)
    ensures
        version_block(resp) is Some <==> {
            &&& resp.len() >= 28
            &&& u32_at(resp, 8) == 0
            &&& u32_at(resp, 16) >= 72
            &&& resp.len() >= 28 + u32_at(resp, 16)
        },
        version_block(resp) matches Some(block) ==> block == resp.subrange(28, 100),
{
    law_header_layout(request_header(MsgType::Ioctl, 0), resp, 0);
    law_ioctl_answer_layout(IoctlResp { data_len: 0, nested_len: 0, deep_len: 0 }, resp, 16);
}

} // verus!
