//! Where each field of a message stands.
//!
//! Both halves of the device are built apart from each other, so what they agree on is a position
//! and a number, not a name.
use crate::bytes::{
    bits_i32, i32_bits, lemma_u32_round_trip, lemma_u32_same, lemma_u64_round_trip, lemma_u64_same,
    u32_at, u32_bytes, u64_at, u64_bytes, with_u32, with_u64,
};
use crate::messages::{
    DeviceKind, FileEntry, IoctlReq, IoctlResp, MmapReq, MmapResp, MsgHeader, MsgType, MunmapReq,
    OpenReq,
};
use crate::response::{error_resp, header_resp, ioctl_resp, Status};
use vstd::prelude::*;

verus! {

/// Numbers stand with their least significant byte first, negative ones as two's complement.
pub proof fn law_numbers_are_little_endian(s: Seq<u8>, at: int, v: u32, w: u64, n: i32)
    ensures
        u32_at(s, at) == s[at] + 0x100 * s[at + 1] + 0x1_0000 * s[at + 2] + 0x100_0000 * s[at + 3],
        u64_at(s, at) == s[at] + 0x100 * s[at + 1] + 0x1_0000 * s[at + 2] + 0x100_0000 * s[at + 3]
            + 0x1_0000_0000 * s[at + 4] + 0x100_0000_0000 * s[at + 5] + 0x1_0000_0000_0000 * s[at
            + 6] + 0x100_0000_0000_0000 * s[at + 7],
        u32_bytes(v).len() == 4,
        u32_at(u32_bytes(v), 0) == v,
        u64_bytes(w).len() == 8,
        u64_at(u64_bytes(w), 0) == w,
        n >= 0 ==> i32_bits(n) == n,
        n < 0 ==> i32_bits(n) == n + 0x1_0000_0000,
        bits_i32(i32_bits(n)) == n,
        i32_bits(bits_i32(v)) == v,
{
    lemma_u32_round_trip(v);
    lemma_u64_round_trip(w);
}

/// Writing a number changes its own bytes and no others.
pub proof fn law_writing_changes_one_field(s: Seq<u8>, at: int, v: u32, w: u64, i: int)
    requires
        0 <= at,
    ensures
        at + 4 <= s.len() ==> {
            &&& with_u32(s, at, v).len() == s.len()
            &&& u32_at(with_u32(s, at, v), at) == v
            &&& 0 <= i < s.len() && !(at <= i < at + 4) ==> with_u32(s, at, v)[i] == s[i]
        },
        at + 8 <= s.len() ==> {
            &&& with_u64(s, at, w).len() == s.len()
            &&& u64_at(with_u64(s, at, w), at) == w
            &&& 0 <= i < s.len() && !(at <= i < at + 8) ==> with_u64(s, at, w)[i] == s[i]
        },
{
    lemma_u32_round_trip(v);
    lemma_u64_round_trip(w);
    if at + 4 <= s.len() {
        let t = with_u32(s, at, v);
        assert forall|k: int| 0 <= k < 4 implies #[trigger] t[at + k] == u32_bytes(v)[0 + k] by {}
        lemma_u32_same(t, at, u32_bytes(v), 0);
    }
    if at + 8 <= s.len() {
        let t = with_u64(s, at, w);
        assert forall|k: int| 0 <= k < 8 implies #[trigger] t[at + k] == u64_bytes(w)[0 + k] by {}
        lemma_u64_same(t, at, u64_bytes(w), 0);
    }
}

/// A number reads where its bytes stand in a longer text.
pub(crate) proof fn lemma_reads(s: Seq<u8>, at: int, v: u32)
    requires
        0 <= at,
        at + 4 <= s.len(),
        forall|k: int| 0 <= k < 4 ==> #[trigger] s[at + k] == u32_bytes(v)[0 + k],
    ensures
        u32_at(s, at) == v,
{
    lemma_u32_round_trip(v);
    lemma_u32_same(s, at, u32_bytes(v), 0);
}

pub(crate) proof fn lemma_reads_long(s: Seq<u8>, at: int, v: u64)
    requires
        0 <= at,
        at + 8 <= s.len(),
        forall|k: int| 0 <= k < 8 ==> #[trigger] s[at + k] == u64_bytes(v)[0 + k],
    ensures
        u64_at(s, at) == v,
{
    lemma_u64_round_trip(v);
    lemma_u64_same(s, at, u64_bytes(v), 0);
}

/// A message begins with sixteen bytes: its type, a handle, a status and padding.
pub proof fn law_header_layout(h: MsgHeader, s: Seq<u8>, at: int)
    ensures
        h.wire().len() == 16,
        u32_at(h.wire(), 0) == h.msg_type,
        u32_at(h.wire(), 4) == h.handle,
        u32_at(h.wire(), 8) == i32_bits(h.status),
        u32_at(h.wire(), 12) == h.padding,
        MsgHeader::at(s, at).msg_type == u32_at(s, at),
        MsgHeader::at(s, at).handle == u32_at(s, at + 4),
        i32_bits(MsgHeader::at(s, at).status) == u32_at(s, at + 8),
        MsgHeader::at(s, at).padding == u32_at(s, at + 12),
{
    let w = h.wire();
    lemma_reads(w, 0, h.msg_type);
    lemma_reads(w, 4, h.handle);
    lemma_reads(w, 8, i32_bits(h.status));
    lemma_reads(w, 12, h.padding);
}

/// A message type has one number, from one to seven; every other number is no type.
pub proof fn law_message_numbers(v: u32)
    ensures
        MsgType::spec_from_u32(v) == Some(MsgType::Open) <==> v == 1,
        MsgType::spec_from_u32(v) == Some(MsgType::Close) <==> v == 2,
        MsgType::spec_from_u32(v) == Some(MsgType::Ioctl) <==> v == 3,
        MsgType::spec_from_u32(v) == Some(MsgType::Mmap) <==> v == 4,
        MsgType::spec_from_u32(v) == Some(MsgType::Munmap) <==> v == 5,
        MsgType::spec_from_u32(v) == Some(MsgType::GetProcFiles) <==> v == 6,
        MsgType::spec_from_u32(v) == Some(MsgType::GetSysFiles) <==> v == 7,
        MsgType::spec_from_u32(v) is None <==> v == 0 || v > 7,
        MsgType::spec_from_u32(v) matches Some(t) ==> t.code() == v,
{
}

/// A device has one number: a GPU its own, up to 254, then the control device, the two of unified
/// memory, mode setting, and from 512 on the render nodes.
pub proof fn law_device_numbers(v: u32, n: u32)
    ensures
        DeviceKind::spec_from_device_type(v) == Some(DeviceKind::Gpu(n)) <==> v == n && n <= 254,
        DeviceKind::spec_from_device_type(v) == Some(DeviceKind::Ctl) <==> v == 255,
        DeviceKind::spec_from_device_type(v) == Some(DeviceKind::Uvm) <==> v == 256,
        DeviceKind::spec_from_device_type(v) == Some(DeviceKind::UvmTools) <==> v == 257,
        DeviceKind::spec_from_device_type(v) == Some(DeviceKind::Modeset) <==> v == 258,
        DeviceKind::spec_from_device_type(v) == Some(DeviceKind::Dri(n)) <==> v == 512 + n,
        DeviceKind::spec_from_device_type(v) is None <==> 259 <= v <= 511,
        DeviceKind::spec_from_device_type(v) matches Some(k) ==> k.code() == v,
{
}

/// What follows the header of an `Open`: the device and the flags.
pub proof fn law_open_layout(r: OpenReq, s: Seq<u8>, at: int)
    ensures
        r.wire().len() == 8,
        u32_at(r.wire(), 0) == r.device_type,
        u32_at(r.wire(), 4) == r.flags,
        OpenReq::at(s, at).device_type == u32_at(s, at),
        OpenReq::at(s, at).flags == u32_at(s, at + 4),
{
    lemma_reads(r.wire(), 0, r.device_type);
    lemma_reads(r.wire(), 4, r.flags);
}

/// What follows the header of an `Ioctl`: its number, the length of its struct, where its nested
/// block begins and how long it is, where that holds a pointer and how long the second-level block
/// is.
pub proof fn law_ioctl_layout(r: IoctlReq, s: Seq<u8>, at: int)
    ensures
        r.wire().len() == 24,
        u32_at(r.wire(), 0) == r.cmd,
        u32_at(r.wire(), 4) == r.data_len,
        u32_at(r.wire(), 8) == r.nested_offset,
        u32_at(r.wire(), 12) == r.nested_len,
        u32_at(r.wire(), 16) == r.deep_ptr_offset,
        u32_at(r.wire(), 20) == r.deep_len,
        IoctlReq::at(s, at).cmd == u32_at(s, at),
        IoctlReq::at(s, at).data_len == u32_at(s, at + 4),
        IoctlReq::at(s, at).nested_offset == u32_at(s, at + 8),
        IoctlReq::at(s, at).nested_len == u32_at(s, at + 12),
        IoctlReq::at(s, at).deep_ptr_offset == u32_at(s, at + 16),
        IoctlReq::at(s, at).deep_len == u32_at(s, at + 20),
{
    let w = r.wire();
    lemma_reads(w, 0, r.cmd);
    lemma_reads(w, 4, r.data_len);
    lemma_reads(w, 8, r.nested_offset);
    lemma_reads(w, 12, r.nested_len);
    lemma_reads(w, 16, r.deep_ptr_offset);
    lemma_reads(w, 20, r.deep_len);
}

/// What follows the header of the answer to an `Ioctl`: the lengths of the three blocks.
pub proof fn law_ioctl_answer_layout(r: IoctlResp, s: Seq<u8>, at: int)
    ensures
        r.wire().len() == 12,
        u32_at(r.wire(), 0) == r.data_len,
        u32_at(r.wire(), 4) == r.nested_len,
        u32_at(r.wire(), 8) == r.deep_len,
        IoctlResp::at(s, at).data_len == u32_at(s, at),
        IoctlResp::at(s, at).nested_len == u32_at(s, at + 4),
        IoctlResp::at(s, at).deep_len == u32_at(s, at + 8),
{
    let w = r.wire();
    lemma_reads(w, 0, r.data_len);
    lemma_reads(w, 4, r.nested_len);
    lemma_reads(w, 8, r.deep_len);
}

/// What follows the header of a `Mmap`: how much to map, from where, and with what protection.
pub proof fn law_mmap_layout(q: MmapReq, s: Seq<u8>, at: int)
    ensures
        q.wire().len() == 24,
        u64_at(q.wire(), 0) == q.size,
        u64_at(q.wire(), 8) == q.offset,
        u32_at(q.wire(), 16) == q.prot,
        u32_at(q.wire(), 20) == q.padding,
        MmapReq::at(s, at).size == u64_at(s, at),
        MmapReq::at(s, at).offset == u64_at(s, at + 8),
        MmapReq::at(s, at).prot == u32_at(s, at + 16),
        MmapReq::at(s, at).padding == u32_at(s, at + 20),
{
    let w = q.wire();
    lemma_reads_long(w, 0, q.size);
    lemma_reads_long(w, 8, q.offset);
    lemma_reads(w, 16, q.prot);
    lemma_reads(w, 20, q.padding);
}

/// What follows the header of the answer to a `Mmap`: an address, a size and an identifier.
pub proof fn law_mmap_answer_layout(a: MmapResp, s: Seq<u8>, at: int)
    ensures
        a.wire().len() == 24,
        u64_at(a.wire(), 0) == a.guest_phys_addr,
        u64_at(a.wire(), 8) == a.size,
        u32_at(a.wire(), 16) == a.mapping_id,
        u32_at(a.wire(), 20) == a.padding,
        MmapResp::at(s, at).guest_phys_addr == u64_at(s, at),
        MmapResp::at(s, at).size == u64_at(s, at + 8),
        MmapResp::at(s, at).mapping_id == u32_at(s, at + 16),
        MmapResp::at(s, at).padding == u32_at(s, at + 20),
{
    let w = a.wire();
    lemma_reads_long(w, 0, a.guest_phys_addr);
    lemma_reads_long(w, 8, a.size);
    lemma_reads(w, 16, a.mapping_id);
    lemma_reads(w, 20, a.padding);
}

/// What follows the header of a `Munmap`: the identifier.
pub proof fn law_munmap_layout(u: MunmapReq, s: Seq<u8>, at: int)
    ensures
        u.wire().len() == 8,
        u32_at(u.wire(), 0) == u.mapping_id,
        u32_at(u.wire(), 4) == u.padding,
        MunmapReq::at(s, at).mapping_id == u32_at(s, at),
        MunmapReq::at(s, at).padding == u32_at(s, at + 4),
{
    lemma_reads(u.wire(), 0, u.mapping_id);
    lemma_reads(u.wire(), 4, u.padding);
}

/// What stands before a file of a stream: the lengths of its path and of its contents.
pub proof fn law_file_entry_layout(f: FileEntry, s: Seq<u8>, at: int)
    ensures
        f.wire().len() == 8,
        u32_at(f.wire(), 0) == f.path_len,
        u32_at(f.wire(), 4) == f.content_len,
        FileEntry::at(s, at).path_len == u32_at(s, at),
        FileEntry::at(s, at).content_len == u32_at(s, at + 4),
{
    lemma_reads(f.wire(), 0, f.path_len);
    lemma_reads(f.wire(), 4, f.content_len);
}

/// A bare answer has sixteen bytes, or none where they do not fit: the type of the message, a
/// handle, the status and nothing.
pub proof fn law_bare_answer(msg: MsgType, handle: u32, status: i32, cap: int)
    ensures
        cap < 16 ==> header_resp(msg, handle, status, cap).len() == 0,
        cap >= 16 ==> {
            let r = header_resp(msg, handle, status, cap);
            &&& r.len() == 16
            &&& MsgType::spec_from_u32(u32_at(r, 0)) == Some(msg)
            &&& u32_at(r, 4) == handle
            &&& u32_at(r, 8) == i32_bits(status)
            &&& u32_at(r, 12) == 0
        },
{
    let h = MsgHeader { msg_type: msg.code(), handle, status, padding: 0 };
    law_header_layout(h, Seq::empty(), 0);
}

/// A failure is a bare answer without a handle. Its status is the negated errno that the host gave,
/// or where it gave none one that says what was wrong: a protocol error for a message that is none,
/// no such device, an input/output error for an open or an ioctl that failed, a bad descriptor for
/// a handle that is not open, and no space for an answer that does not fit.
pub proof fn law_failure_numbers(msg: MsgType, status: Status, errno: i32, cap: int)
    requires
        errno > i32::MIN,
        cap >= 16,
    ensures
        error_resp(msg, status, errno, cap).len() == 16,
        MsgType::spec_from_u32(u32_at(error_resp(msg, status, errno, cap), 0)) == Some(msg),
        u32_at(error_resp(msg, status, errno, cap), 4) == 0,
        errno > 0 ==> u32_at(error_resp(msg, status, errno, cap), 8) == 0x1_0000_0000 - errno,
        errno < 0 ==> u32_at(error_resp(msg, status, errno, cap), 8) == 0x1_0000_0000 + errno,
        errno == 0 ==> u32_at(error_resp(msg, status, errno, cap), 8) == (match status {
            Status::Success => 0,
            Status::InvalidMsgType => 0x1_0000_0000 - 71,
            Status::InvalidDevice => 0x1_0000_0000 - 19,
            Status::OpenFailed => 0x1_0000_0000 - 5,
            Status::BadHandle => 0x1_0000_0000 - 9,
            Status::IoctlFailed => 0x1_0000_0000 - 5,
            Status::BufferTooSmall => 0x1_0000_0000 - 28,
        }),
{
    let e = if errno > 0 {
        errno as int
    } else if errno < 0 {
        -errno
    } else {
        status.spec_errno() as int
    };
    law_bare_answer(msg, 0, (-e) as i32, cap);
}

/// A status has one number, from nought to six.
pub proof fn law_status_numbers(s: Status)
    ensures
        s.code() == 0 <==> s == Status::Success,
        s.code() == 1 <==> s == Status::InvalidMsgType,
        s.code() == 2 <==> s == Status::InvalidDevice,
        s.code() == 3 <==> s == Status::OpenFailed,
        s.code() == 4 <==> s == Status::BadHandle,
        s.code() == 5 <==> s == Status::IoctlFailed,
        s.code() == 6 <==> s == Status::BufferTooSmall,
        s.code() <= 6,
{
}

/// The answer to an ioctl that went well: the header with the handle it came on, the lengths of the
/// blocks, split as the request was, and the blocks one behind another.
pub proof fn law_ioctl_answer(
    msg: MsgType,
    handle: u32,
    data_len: u32,
    out: Seq<u8>,
    deep: Seq<u8>,
    cap: int,
)
    requires
        out.len() + deep.len() <= u32::MAX,
    ensures
        cap < 28 + out.len() + deep.len() ==> ioctl_resp(msg, handle, data_len, out, deep, cap)
            == error_resp(msg, Status::BufferTooSmall, 0, cap),
        cap >= 28 + out.len() + deep.len() ==> {
            let r = ioctl_resp(msg, handle, data_len, out, deep, cap);
            &&& r.len() == 28 + out.len() + deep.len()
            &&& MsgType::spec_from_u32(u32_at(r, 0)) == Some(msg)
            &&& u32_at(r, 4) == handle
            &&& u32_at(r, 8) == 0
            &&& u32_at(r, 12) == 0
            &&& u32_at(r, 16) == (if data_len < out.len() {
                data_len as int
            } else {
                out.len() as int
            })
            &&& u32_at(r, 16) + u32_at(r, 20) == out.len()
            &&& u32_at(r, 24) == deep.len()
            &&& r.subrange(28, 28 + out.len() as int) == out
            &&& r.skip(28 + out.len() as int) == deep
        },
{
    if cap >= 28 + out.len() + deep.len() {
        let r = ioctl_resp(msg, handle, data_len, out, deep, cap);
        let first = if data_len < out.len() {
            data_len as int
        } else {
            out.len() as int
        };
        let h = MsgHeader { msg_type: msg.code(), handle, status: 0, padding: 0 };
        let l = IoctlResp {
            data_len: first as u32,
            nested_len: (out.len() - first) as u32,
            deep_len: deep.len() as u32,
        };
        assert(h.wire().len() == 16 && l.wire().len() == 12);
        assert(r =~= h.wire() + l.wire() + out + deep);
        lemma_reads(r, 0, h.msg_type);
        lemma_reads(r, 4, h.handle);
        lemma_reads(r, 8, 0);
        lemma_reads(r, 12, 0);
        lemma_reads(r, 16, l.data_len);
        lemma_reads(r, 20, l.nested_len);
        lemma_reads(r, 24, l.deep_len);
        assert(r.subrange(28, 28 + out.len() as int) =~= out);
        assert(r.skip(28 + out.len() as int) =~= deep);
    }
}

} // verus!
