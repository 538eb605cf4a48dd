//! What the driver is asked when a guest sends an `Ioctl`, told by the bytes of the message.
//!
//! A message has its type at 0 and a handle at 4. An `Ioctl` has its number at 16, the length of
//! its struct at 20, that of its nested block at 28, the place of a pointer in that block at 32,
//! the length of what it points at at 36, and the blocks one behind another from 40 on.
use crate::abi::{check, table_view, AbiCheck, AbiPolicy};
use crate::bytes::{
    i32_bits, lemma_u32_same, lemma_u64_same, u32_at, u64_at, with_u32, with_u64,
};
use crate::forward::{address_of, sign_extended, unmapped, Forward};
use crate::messages::{MsgHeader, MsgType};
use crate::nvidia::NvidiaBackend;
use crate::response::Status;
use crate::serve::{dispatched, forwarded, ioctl_served, standing};
use crate::step::{Action, CallView, HostCall, Step};
use crate::wire_laws::{law_failure_numbers, law_header_layout, law_writing_changes_one_field};
use vstd::prelude::*;

verus! {

/// The struct and the nested block of an `Ioctl`, back to back.
pub open spec fn params_of(req: Seq<u8>) -> Seq<u8> {
    req.subrange(40, 40 + u32_at(req, 20) + u32_at(req, 28))
}

/// The second-level block of an `Ioctl`.
pub open spec fn deep_of(req: Seq<u8>) -> Seq<u8> {
    let at = 40 + u32_at(req, 20) + u32_at(req, 28);
    req.subrange(at, at + u32_at(req, 36))
}

/// The number and the type of an ioctl, its low bytes.
pub open spec fn escape_of(req: Seq<u8>) -> u32 {
    u32_at(req, 16) % 256
}

pub open spec fn magic_of(req: Seq<u8>) -> u32 {
    u32_at(req, 16) / 256 % 256
}

/// The length of the part of the parameters that holds the pointer to the rest, where they are in
/// two parts.
pub open spec fn outer_of(req: Seq<u8>) -> Option<int> {
    if magic_of(req) == 0x6d {
        Some(16)
    } else if escape_of(req) == 0x2a {
        Some(32)
    } else if escape_of(req) == 0x2b {
        Some(48)
    } else {
        None
    }
}

/// Where a plain struct names a descriptor by a guest handle.
pub open spec fn names_fd_at(req: Seq<u8>) -> Option<int> {
    if magic_of(req) == 0x6d {
        None
    } else if escape_of(req) == 201 {
        Some(0)
    } else if escape_of(req) == 206 || escape_of(req) == 207 {
        Some(8)
    } else if escape_of(req) == 0x27 {
        Some(48)
    } else {
        None
    }
}

/// Whether the driver reads what the guest wrote, in one part and without a rewritten field.
pub open spec fn is_plain(req: Seq<u8>) -> bool {
    &&& outer_of(req) is None
    &&& names_fd_at(req) is None
    &&& escape_of(req) != 0x4e
    &&& escape_of(req) != 0x4f
    &&& escape_of(req) != 0x5e
}

/// Where the nested block of a control names a descriptor by a guest handle.
pub open spec fn control_names_fd_at(req: Seq<u8>) -> Option<int> {
    let nested = params_of(req).len() - outer_of(req)->0;
    let control = u32_at(params_of(req), 8);
    if escape_of(req) != 0x2a {
        None
    } else if control == 0x3d05 && nested >= 20 {
        Some(16)
    } else if control == 0x3d06 && nested >= 4 {
        Some(0)
    } else {
        None
    }
}

/// The handle that a field means where it is read as a signed number.
pub open spec fn signed_handle(v: u32) -> u64 {
    if v < 0x8000_0000 {
        v as u64
    } else {
        (v + 0xffff_ffff_0000_0000) as u64
    }
}

/// The message is served, and fails: a bare answer with the negated errno.
pub open spec fn refused(step: Step, kind: u32, cap: usize, errno: int) -> bool {
    &&& step matches Step::Done { resp, close } && close@.len() == 0 && (cap >= 16 ==> {
        &&& resp@.len() == 16
        &&& u32_at(resp@, 0) == kind
        &&& u32_at(resp@, 4) == 0
        &&& u32_at(resp@, 8) == 0x1_0000_0000 - errno
        &&& u32_at(resp@, 12) == 0
    }) && (cap < 16 ==> resp@.len() == 0)
}

/// The backend once it has read the header and the lengths of an `Ioctl`.
pub(crate) open spec fn reading(pre: NvidiaBackend, req: Seq<u8>, cap: usize) -> NvidiaBackend {
    NvidiaBackend {
        current_msg: MsgType::Ioctl,
        current_handle: u32_at(req, 4),
        current_data_len: u32_at(req, 20),
        resp_cap: cap,
        ..pre
    }
}

/// What is forwarded holds the bytes of the message.
pub(crate) open spec fn carries(
    pre: NvidiaBackend,
    req: Seq<u8>,
    cap: usize,
    f: Forward,
    post: NvidiaBackend,
    step: Step,
) -> bool {
    &&& f.fd == pre.handles@[u32_at(req, 4) as u64]
    &&& f.cmd == u32_at(req, 16)
    &&& f.check == (if magic_of(req) == 0x46 {
        check(table_view(pre.abi), escape_of(req), u32_at(req, 20))
    } else {
        AbiCheck::NoProfile
    })
    &&& f.param@ == params_of(req)
    &&& f.deep@ == deep_of(req)
    &&& f.deep_ptr_offset == u32_at(req, 32)
    &&& forwarded(reading(pre, req, cap), f, post, step)
}

/// A message whose first step is a call into the driver is a whole `Ioctl`, and what is forwarded
/// holds its bytes.
#[verifier::rlimit(30)]
pub(crate) proof fn lemma_forwarded(
    pre: NvidiaBackend,
    req: Seq<u8>,
    cap: usize,
    post: NvidiaBackend,
    step: Step,
)
    requires
        dispatched(pre, req, cap, post, step),
        step is Do,
        step->Do_0 is Ioctl,
    ensures
        u32_at(req, 0) == 3,
        req.len() >= 40 + u32_at(req, 20) + u32_at(req, 28) + u32_at(req, 36),
        pre.handles@.contains_key(u32_at(req, 4) as u64),
        exists|f: Forward| carries(pre, req, cap, f, post, step),
{
    law_header_layout(
        MsgHeader { msg_type: 0, handle: 0, status: 0, padding: 0 },
        req,
        0,
    );
    let payload = req.skip(16);
    assert(req.len() >= 16);
    assert(u32_at(req, 0) == 3);
    assert(payload.len() >= 24);
    lemma_field(req, 16, 0);
    lemma_field(req, 16, 4);
    lemma_field(req, 16, 12);
    lemma_field(req, 16, 16);
    lemma_field(req, 16, 20);
    let body = payload.skip(24);
    let n = u32_at(req, 20) + u32_at(req, 28);
    assert(body.len() >= n + u32_at(req, 36));
    assert(body.take(n) =~= params_of(req));
    assert(body.subrange(n, n + u32_at(req, 36)) =~= deep_of(req));
    let mid = NvidiaBackend {
        current_msg: MsgType::Ioctl,
        current_handle: u32_at(req, 4),
        resp_cap: cap,
        ..pre
    };
    assert(ioctl_served(mid, payload, post, step));
    let f = choose|f: Forward|
        {
            &&& f.fd == mid.handles@[mid.named()]
            &&& f.cmd == u32_at(req, 16)
            &&& f.check == standing(mid, u32_at(req, 16), u32_at(req, 20))
            &&& f.param@ == body.take(n)
            &&& f.deep@ == body.subrange(n, n + u32_at(req, 36))
            &&& f.deep_ptr_offset == u32_at(req, 32)
            &&& #[trigger] forwarded(
                NvidiaBackend { current_data_len: u32_at(req, 20), ..mid },
                f,
                post,
                step,
            )
        };
    assert(carries(pre, req, cap, f, post, step));
}

/// A field of the rest of a message is a field of the message.
proof fn lemma_field(req: Seq<u8>, from: int, at: int)
    requires
        0 <= from,
        0 <= at,
        from + at + 4 <= req.len(),
    ensures
        u32_at(req.skip(from), at) == u32_at(req, from + at),
{
}

/// Whatever an ioctl is, the driver is asked on the descriptor that the handle table holds for the
/// handle in the message's header, with the number in the message, and for as many bytes as the
/// message gives. Nothing but an `Ioctl` leads to a call at once, and a call leaves the device as
/// it was.
#[verifier::rlimit(30)]
pub proof fn law_calls_follow_the_message(
    pre: NvidiaBackend,
    req: Seq<u8>,
    cap: usize,
    post: NvidiaBackend,
    call: HostCall,
)
    requires
        dispatched(pre, req, cap, post, Step::Do(Action::Ioctl(call))),
    ensures
        u32_at(req, 0) == 3,
        req.len() >= 40 + u32_at(req, 20) + u32_at(req, 28) + u32_at(req, 36),
        call.request == u32_at(req, 16),
        pre.handles@.contains_key(u32_at(req, 4) as u64),
        call.fd == pre.handles@[u32_at(req, 4) as u64],
        call.data@.len() + call.nested@.len() == u32_at(req, 20) + u32_at(req, 28),
        call.check == (if magic_of(req) == 0x46 {
            check(table_view(pre.abi), escape_of(req), u32_at(req, 20))
        } else {
            AbiCheck::NoProfile
        }),
        post.handles == pre.handles,
        post.shm == pre.shm,
        post.active_maps == pre.active_maps,
        post.driver == pre.driver,
        post.abi == pre.abi,
        post.policy == pre.policy,
        post.watches == pre.watches,
{
    let step = Step::Do(Action::Ioctl(call));
    lemma_forwarded(pre, req, cap, post, step);
    let f = choose|f: Forward| carries(pre, req, cap, f, post, step);
    lemma_asked(reading(pre, req, cap), f, post, call);
}

/// Whatever its route, a forwarded ioctl goes to its descriptor with its number.
proof fn lemma_asked(mid: NvidiaBackend, f: Forward, post: NvidiaBackend, call: HostCall)
    requires
        forwarded(mid, f, post, Step::Do(Action::Ioctl(call))),
    ensures
        call.request == f.cmd,
        call.fd == f.fd,
        call.check == f.check,
        call.data@.len() + call.nested@.len() == f.param@.len(),
        post.same_device(&mid),
        post.same_message(&mid),
{
    assert(call@.data == call.data@ && call@.nested == call.nested@);
}

/// An ioctl that is neither in two parts nor names a descriptor or a mapping goes to the driver as
/// the guest wrote it. A version check asks for the query form, whatever the guest asked for.
#[verifier::rlimit(30)]
pub proof fn law_plain_calls_carry_the_guests_bytes(
    pre: NvidiaBackend,
    req: Seq<u8>,
    cap: usize,
    post: NvidiaBackend,
    call: HostCall,
)
    requires
        dispatched(pre, req, cap, post, Step::Do(Action::Ioctl(call))),
        is_plain(req),
    ensures
        call.nested@.len() == 0,
        call.nested_ptr is None,
        call.deep@.len() == 0,
        call.deep_ptr is None,
        call.data@.len() == params_of(req).len(),
        forall|i: int|
            0 <= i < params_of(req).len() && !(escape_of(req) == 210 && params_of(req).len() >= 4
                && i == 0) ==> #[trigger] call.data@[i] == req[40 + i],
        escape_of(req) == 210 && params_of(req).len() >= 4 ==> call.data@[0] == 0x32,
{
    let step = Step::Do(Action::Ioctl(call));
    lemma_forwarded(pre, req, cap, post, step);
    assert(call@.data == call.data@ && call@.nested == call.nested@ && call@.deep == call.deep@);
}

/// Where a struct names a descriptor, the driver reads the one that the handle table holds for the
/// handle that the guest wrote, and the guest's bytes everywhere else.
#[verifier::rlimit(30)]
pub proof fn law_descriptors_are_the_hosts(
    pre: NvidiaBackend,
    req: Seq<u8>,
    cap: usize,
    post: NvidiaBackend,
    call: HostCall,
    at: int,
    key: u64,
)
    requires
        dispatched(pre, req, cap, post, Step::Do(Action::Ioctl(call))),
        ({
            ||| names_fd_at(req) == Some(at) && key == u32_at(params_of(req), at)
            ||| {
                &&& at == 48
                &&& magic_of(req) != 0x6d
                &&& escape_of(req) == 0x4e
                &&& key == signed_handle(u32_at(params_of(req), 48))
            }
        }),
    ensures
        call.nested@.len() == 0,
        call.nested_ptr is None,
        call.deep@.len() == 0,
        call.deep_ptr is None,
        at + 4 <= call.data@.len() == params_of(req).len(),
        pre.handles@.contains_key(key),
        u32_at(call.data@, at) == i32_bits(pre.handles@[key]),
        forall|i: int|
            0 <= i < params_of(req).len() && !(at <= i < at + 4) ==> #[trigger] call.data@[i]
                == req[40 + i],
{
    let step = Step::Do(Action::Ioctl(call));
    lemma_forwarded(pre, req, cap, post, step);
    assert(call@.data == call.data@ && call@.nested == call.nested@ && call@.deep == call.deep@);
    let p = params_of(req);
    let v = i32_bits(pre.handles@[key]);
    assert(call.data@ == with_u32(p, at, v));
    assert forall|i: int| 0 <= i < p.len() && !(at <= i < at + 4) implies #[trigger] call.data@[i]
        == req[40 + i] by {
        law_writing_changes_one_field(p, at, v, 0, i);
    }
    law_writing_changes_one_field(p, at, v, 0, 0);
}

/// Unmapping what is mapped at a window offset, the driver reads its own address of that mapping
/// and the guest's bytes everywhere else; unmapping anything else it reads what the guest wrote.
#[verifier::rlimit(30)]
pub proof fn law_unmap_names_the_hosts_address(
    pre: NvidiaBackend,
    req: Seq<u8>,
    cap: usize,
    post: NvidiaBackend,
    call: HostCall,
)
    requires
        dispatched(pre, req, cap, post, Step::Do(Action::Ioctl(call))),
        magic_of(req) != 0x6d,
        escape_of(req) == 0x4f,
    ensures
        call.nested@.len() == 0,
        call.nested_ptr is None,
        call.deep@.len() == 0,
        call.deep_ptr is None,
        32 <= call.data@.len() == params_of(req).len(),
        u64_at(call.data@, 16) == (if pre.active_maps@.contains_key(u64_at(params_of(req), 16)) {
            pre.active_maps@[u64_at(params_of(req), 16)].host_p_linear_address
        } else {
            u64_at(params_of(req), 16)
        }),
        forall|i: int|
            0 <= i < params_of(req).len() && !(16 <= i < 24) ==> #[trigger] call.data@[i] == req[40
                + i],
{
    let step = Step::Do(Action::Ioctl(call));
    lemma_forwarded(pre, req, cap, post, step);
    assert(call@.data == call.data@ && call@.nested == call.nested@ && call@.deep == call.deep@);
    let p = params_of(req);
    let v = pre.active_maps@[u64_at(p, 16)].host_p_linear_address;
    if pre.active_maps@.contains_key(u64_at(p, 16)) {
        assert(call.data@ == with_u64(p, 16, v));
        assert forall|i: int| 0 <= i < p.len() && !(16 <= i < 24) implies #[trigger] call.data@[i]
            == req[40 + i] by {
            law_writing_changes_one_field(p, 16, 0, v, i);
        }
        law_writing_changes_one_field(p, 16, 0, v, 0);
    }
}

/// Where a mapping's addresses are updated, the driver reads one address in both places: its own
/// address of a mapping of the object, or the guest's old one where the object has none.
#[verifier::rlimit(30)]
pub proof fn law_update_names_the_hosts_address(
    pre: NvidiaBackend,
    req: Seq<u8>,
    cap: usize,
    post: NvidiaBackend,
    call: HostCall,
)
    requires
        dispatched(pre, req, cap, post, Step::Do(Action::Ioctl(call))),
        magic_of(req) != 0x6d,
        escape_of(req) == 0x5e,
    ensures
        call.nested@.len() == 0,
        call.nested_ptr is None,
        call.deep@.len() == 0,
        call.deep_ptr is None,
        40 <= call.data@.len() == params_of(req).len(),
        u64_at(call.data@, 16) == u64_at(call.data@, 24),
        (forall|k: u64| #[trigger]
            pre.active_maps@.contains_key(k) ==> !(pre.active_maps@[k].h_client == u32_at(
                params_of(req),
                0,
            ) && pre.active_maps@[k].h_memory == u32_at(params_of(req), 8))) ==> u64_at(
            call.data@,
            16,
        ) == u64_at(params_of(req), 16),
        (exists|k: u64| #[trigger]
            pre.active_maps@.contains_key(k) && pre.active_maps@[k].h_client == u32_at(
                params_of(req),
                0,
            ) && pre.active_maps@[k].h_memory == u32_at(params_of(req), 8)) ==> exists|k: u64| #[trigger]
            pre.active_maps@.contains_key(k) && pre.active_maps@[k].h_client == u32_at(
                params_of(req),
                0,
            ) && pre.active_maps@[k].h_memory == u32_at(params_of(req), 8)
                && pre.active_maps@[k].host_p_linear_address == u64_at(call.data@, 16),
        forall|i: int|
            0 <= i < params_of(req).len() && !(16 <= i < 32) ==> #[trigger] call.data@[i] == req[40
                + i],
{
    let step = Step::Do(Action::Ioctl(call));
    lemma_forwarded(pre, req, cap, post, step);
    assert(call@.data == call.data@ && call@.nested == call.nested@ && call@.deep == call.deep@);
    let p = params_of(req);
    let f = choose|f: Forward| carries(pre, req, cap, f, post, step);
    let addr = choose|addr: u64|
        {
            &&& address_of(pre.active_maps@, u32_at(p, 0), u32_at(p, 8), addr) || (unmapped(
                pre.active_maps@,
                u32_at(p, 0),
                u32_at(p, 8),
            ) && addr == u64_at(p, 16))
            &&& #[trigger] post.calls(step, f.flat(with_u64(with_u64(p, 16, addr), 24, addr)))
        };
    let q = with_u64(p, 16, addr);
    assert(call.data@ == with_u64(q, 24, addr));
    law_writing_changes_one_field(p, 16, 0, addr, 0);
    law_writing_changes_one_field(q, 24, 0, addr, 0);
    assert forall|k: int| 0 <= k < 8 implies #[trigger] call.data@[16 + k] == q[16 + k] by {
        law_writing_changes_one_field(q, 24, 0, addr, 16 + k);
    }
    lemma_u64_same(call.data@, 16, q, 16);
    assert forall|i: int| 0 <= i < p.len() && !(16 <= i < 32) implies #[trigger] call.data@[i]
        == req[40 + i] by {
        law_writing_changes_one_field(p, 16, 0, addr, i);
        law_writing_changes_one_field(q, 24, 0, addr, i);
    }
}

/// An ioctl in two parts goes to the driver in two parts: the struct as the guest wrote it, with a
/// place for the address of the rest, and the rest with the host's descriptor where a control names
/// one. The second-level block goes along as it is, its address where the guest said.
#[verifier::rlimit(30)]
pub proof fn law_calls_in_two_parts(
    pre: NvidiaBackend,
    req: Seq<u8>,
    cap: usize,
    post: NvidiaBackend,
    call: HostCall,
)
    requires
        dispatched(pre, req, cap, post, Step::Do(Action::Ioctl(call))),
        outer_of(req) is Some,
    ensures
        outer_of(req)->0 <= params_of(req).len(),
        call.data@ == params_of(req).take(outer_of(req)->0),
        call.nested@.len() == params_of(req).len() - outer_of(req)->0,
        call.nested@.len() > 0 ==> call.nested_ptr == Some(
            if magic_of(req) == 0x6d {
                8usize
            } else {
                16usize
            },
        ),
        call.nested@.len() == 0 ==> call.nested_ptr is None,
        call.deep@ == deep_of(req),
        call.deep@.len() > 0 ==> call.deep_ptr == Some(u32_at(req, 32) as usize) && u32_at(req, 32)
            + 8 <= call.nested@.len(),
        call.deep@.len() == 0 ==> call.deep_ptr is None,
        control_names_fd_at(req) matches Some(at) ==> {
            let key = signed_handle(u32_at(params_of(req), outer_of(req)->0 + at));
            &&& pre.handles@.contains_key(key)
            &&& u32_at(call.nested@, at) == i32_bits(pre.handles@[key])
        },
        forall|i: int|
            0 <= i < call.nested@.len() && !(control_names_fd_at(req) matches Some(at) && at <= i
                < at + 4) ==> #[trigger] call.nested@[i] == params_of(req)[outer_of(req)->0 + i],
{
    let step = Step::Do(Action::Ioctl(call));
    lemma_forwarded(pre, req, cap, post, step);
    let p = params_of(req);
    let outer = outer_of(req)->0;
    let data = p.take(outer);
    let nested = p.skip(outer);
    assert(call@.data == call.data@ && call@.nested == call.nested@ && call@.deep == call.deep@);
    assert(p.len() >= outer);
    lemma_u32_same(data, 8, p, 8);
    if control_names_fd_at(req) is Some {
        let at = control_names_fd_at(req)->0;
        let guest = u32_at(nested, at);
        lemma_u32_same(nested, at, p, outer + at);
        let v = i32_bits(pre.handles@[sign_extended(guest)]);
        assert(call.nested@ == with_u32(nested, at, v));
        law_writing_changes_one_field(nested, at, v, 0, 0);
        assert forall|i: int| 0 <= i < nested.len() && !(at <= i < at + 4) implies #[trigger] call.nested@[i]
            == p[outer + i] by {
            law_writing_changes_one_field(nested, at, v, 0, i);
        }
    } else {
        assert(call.nested@ == nested);
    }
}

/// Whether the parameters of an `Ioctl` are long enough for what is read and rewritten in them.
pub open spec fn is_ample(req: Seq<u8>) -> bool {
    let n = params_of(req).len();
    match outer_of(req) {
        Some(outer) => n >= outer && (u32_at(req, 36) > 0 ==> u32_at(req, 32) + 8 <= n - outer),
        None => {
            &&& names_fd_at(req) matches Some(at) ==> n >= at + 4
            &&& escape_of(req) == 0x4e ==> n >= 56
            &&& escape_of(req) == 0x4f ==> n >= 32
            &&& escape_of(req) == 0x5e ==> n >= 40
        },
    }
}

/// Whether every handle in the parameters of an `Ioctl` is open.
pub open spec fn names_open_handles(pre: NvidiaBackend, req: Seq<u8>) -> bool {
    let p = params_of(req);
    match outer_of(req) {
        Some(outer) => control_names_fd_at(req) matches Some(at) ==> pre.handles@.contains_key(
            signed_handle(u32_at(p, outer + at)),
        ),
        None => {
            &&& names_fd_at(req) matches Some(at) ==> pre.handles@.contains_key(
                u32_at(p, at) as u64,
            )
            &&& escape_of(req) == 0x4e ==> pre.handles@.contains_key(signed_handle(u32_at(p, 48)))
        },
    }
}

/// Whether the host's profile refuses an `Ioctl`, and with what errno: a size that it does not
/// list, or, unless strangers are let through, an escape that it does not list.
pub open spec fn profile_refuses(pre: NvidiaBackend, req: Seq<u8>) -> Option<int> {
    if magic_of(req) != 0x46 {
        None
    } else {
        match check(table_view(pre.abi), escape_of(req), u32_at(req, 20)) {
            AbiCheck::SizeMismatch { .. } => Some(22),
            AbiCheck::UnknownEscape => if pre.policy == AbiPolicy::Enforce {
                Some(25)
            } else {
                None
            },
            _ => None,
        }
    }
}

/// A forwarded ioctl that is long enough and names open handles is asked of the driver, and any other
/// is refused.
#[verifier::spinoff_prover]
#[verifier::rlimit(30)]
proof fn lemma_asked_or_refused(
    pre: NvidiaBackend,
    req: Seq<u8>,
    cap: usize,
    f: Forward,
    post: NvidiaBackend,
    step: Step,
)
    requires
        carries(pre, req, cap, f, post, step),
        req.len() >= 40 + u32_at(req, 20) + u32_at(req, 28) + u32_at(req, 36),
    ensures
        !is_ample(req) ==> refused(step, 3, cap, 22),
        is_ample(req) && !names_open_handles(pre, req) ==> refused(step, 3, cap, 9),
        is_ample(req) && names_open_handles(pre, req) ==> step is Do && step->Do_0 is Ioctl,
{
    let p = params_of(req);
    assert(p.len() == u32_at(req, 20) + u32_at(req, 28));
    assert(deep_of(req).len() == u32_at(req, 36));
    if outer_of(req) is Some && p.len() >= outer_of(req)->0 {
        let outer = outer_of(req)->0;
        lemma_u32_same(p.take(outer), 8, p, 8);
        if control_names_fd_at(req) is Some {
            let at = control_names_fd_at(req)->0;
            lemma_u32_same(p.skip(outer), at, p, outer + at);
        }
    }
    if cap >= 16 {
        law_failure_numbers(MsgType::Ioctl, Status::BadHandle, 0, cap as int);
        law_failure_numbers(MsgType::Ioctl, Status::IoctlFailed, 22, cap as int);
    }
}

/// What becomes of an `Ioctl` at once. One that is too short for its header is a protocol error, one
/// whose blocks are not all there is invalid, one on a handle that is not open is a bad descriptor,
/// and one that the profile refuses fails as it says. One whose parameters are too short is invalid,
/// and one that names a handle that is not open is a bad descriptor. Any other is asked of the
/// driver.
#[verifier::spinoff_prover]
#[verifier::rlimit(30)]
pub proof fn law_ioctls_are_asked_or_refused(
    pre: NvidiaBackend,
    req: Seq<u8>,
    cap: usize,
    post: NvidiaBackend,
    step: Step,
)
    requires
        dispatched(pre, req, cap, post, step),
        req.len() >= 16,
        u32_at(req, 0) == 3,
    ensures
        step is Do ==> step->Do_0 is Ioctl,
        ({
            let n = u32_at(req, 20) + u32_at(req, 28) + u32_at(req, 36);
            if req.len() < 40 {
                refused(step, 3, cap, 71)
            } else if req.len() < 40 + n {
                refused(step, 3, cap, 22)
            } else if !pre.handles@.contains_key(u32_at(req, 4) as u64) {
                refused(step, 3, cap, 9)
            } else if profile_refuses(pre, req) is Some {
                refused(step, 3, cap, profile_refuses(pre, req)->0)
            } else if !is_ample(req) {
                refused(step, 3, cap, 22)
            } else if !names_open_handles(pre, req) {
                refused(step, 3, cap, 9)
            } else {
                step is Do
            }
        }),
{
    let payload = req.skip(16);
    let mid = NvidiaBackend {
        current_msg: MsgType::Ioctl,
        current_handle: u32_at(req, 4),
        resp_cap: cap,
        ..pre
    };
    assert(ioctl_served(mid, payload, post, step));
    lemma_served(pre, req, cap, post, step);
}

/// What becomes of an `Ioctl` once its header has been read.
#[verifier::spinoff_prover]
#[verifier::rlimit(30)]
proof fn lemma_served(
    pre: NvidiaBackend,
    req: Seq<u8>,
    cap: usize,
    post: NvidiaBackend,
    step: Step,
)
    requires
        req.len() >= 16,
        ioctl_served(
            NvidiaBackend {
                current_msg: MsgType::Ioctl,
                current_handle: u32_at(req, 4),
                resp_cap: cap,
                ..pre
            },
            req.skip(16),
            post,
            step,
        ),
    ensures
        step is Do ==> step->Do_0 is Ioctl,
        ({
            let n = u32_at(req, 20) + u32_at(req, 28) + u32_at(req, 36);
            if req.len() < 40 {
                refused(step, 3, cap, 71)
            } else if req.len() < 40 + n {
                refused(step, 3, cap, 22)
            } else if !pre.handles@.contains_key(u32_at(req, 4) as u64) {
                refused(step, 3, cap, 9)
            } else if profile_refuses(pre, req) is Some {
                refused(step, 3, cap, profile_refuses(pre, req)->0)
            } else if !is_ample(req) {
                refused(step, 3, cap, 22)
            } else if !names_open_handles(pre, req) {
                refused(step, 3, cap, 9)
            } else {
                step is Do
            }
        }),
{
    let payload = req.skip(16);
    let mid = NvidiaBackend {
        current_msg: MsgType::Ioctl,
        current_handle: u32_at(req, 4),
        resp_cap: cap,
        ..pre
    };
    if cap >= 16 {
        law_failure_numbers(MsgType::Ioctl, Status::InvalidMsgType, 0, cap as int);
        law_failure_numbers(MsgType::Ioctl, Status::InvalidMsgType, 22, cap as int);
        law_failure_numbers(MsgType::Ioctl, Status::BadHandle, 0, cap as int);
        law_failure_numbers(MsgType::Ioctl, Status::IoctlFailed, 22, cap as int);
        law_failure_numbers(MsgType::Ioctl, Status::IoctlFailed, 25, cap as int);
    }
    if req.len() >= 40 {
        lemma_field(req, 16, 0);
        lemma_field(req, 16, 4);
        lemma_field(req, 16, 12);
        lemma_field(req, 16, 16);
        lemma_field(req, 16, 20);
        let body = payload.skip(24);
        let n = u32_at(req, 20) + u32_at(req, 28);
        if body.len() >= n + u32_at(req, 36) && pre.handles@.contains_key(u32_at(req, 4) as u64)
            && profile_refuses(pre, req) is None {
            assert(body.take(n) =~= params_of(req));
            assert(body.subrange(n, n + u32_at(req, 36)) =~= deep_of(req));
            let f = choose|f: Forward|
                {
                    &&& f.fd == mid.handles@[mid.named()]
                    &&& f.cmd == u32_at(req, 16)
                    &&& f.check == standing(mid, u32_at(req, 16), u32_at(req, 20))
                    &&& f.param@ == body.take(n)
                    &&& f.deep@ == body.subrange(n, n + u32_at(req, 36))
                    &&& f.deep_ptr_offset == u32_at(req, 32)
                    &&& #[trigger] forwarded(
                        NvidiaBackend { current_data_len: u32_at(req, 20), ..mid },
                        f,
                        post,
                        step,
                    )
                };
            assert(carries(pre, req, cap, f, post, step));
            lemma_asked_or_refused(pre, req, cap, f, post, step);
        }
    }
}

/// Before a call is made, the address of each block is written where the call says, and nothing else of
/// it changes.
pub proof fn law_blocks_are_linked(c: CallView, nested_addr: u64, deep_addr: u64, i: int)
    requires
        c.wf(),
    ensures
        c.linked(nested_addr, deep_addr).fd == c.fd,
        c.linked(nested_addr, deep_addr).request == c.request,
        c.linked(nested_addr, deep_addr).deep == c.deep,
        c.linked(nested_addr, deep_addr).data.len() == c.data.len(),
        c.linked(nested_addr, deep_addr).nested.len() == c.nested.len(),
        c.nested_ptr matches Some(p) ==> u64_at(c.linked(nested_addr, deep_addr).data, p as int)
            == nested_addr,
        c.deep_ptr matches Some(p) ==> u64_at(c.linked(nested_addr, deep_addr).nested, p as int)
            == deep_addr,
        0 <= i < c.data.len() && !(c.nested_ptr matches Some(p) && p <= i < p + 8) ==> c.linked(
            nested_addr,
            deep_addr,
        ).data[i] == c.data[i],
        0 <= i < c.nested.len() && !(c.deep_ptr matches Some(p) && p <= i < p + 8) ==> c.linked(
            nested_addr,
            deep_addr,
        ).nested[i] == c.nested[i],
{
    if c.nested_ptr is Some {
        law_writing_changes_one_field(c.data, c.nested_ptr->0 as int, 0, nested_addr, i);
    }
    if c.deep_ptr is Some {
        law_writing_changes_one_field(c.nested, c.deep_ptr->0 as int, 0, deep_addr, i);
    }
}

} // verus!
