//! What a guest reads when the driver has answered, told by the bytes of its message and those that
//! the driver left.
use crate::bytes::{lemma_u32_same, u32_at, u64_at, with_u32, with_u64, zeros};
use crate::call_laws::{
    carries, control_names_fd_at, escape_of, is_plain, law_calls_follow_the_message,
    law_calls_in_two_parts, law_descriptors_are_the_hosts, law_plain_calls_carry_the_guests_bytes,
    law_update_names_the_hosts_address, lemma_forwarded, magic_of, names_fd_at, outer_of,
    params_of, refused, signed_handle,
};
use crate::forward::Forward;
use crate::messages::MsgType;
use crate::nvidia::{NvidiaBackend, Pending};
use crate::response::Status;
use crate::serve::{dispatched, resumed};
use crate::step::{Action, Event, HostCall, Step};
use crate::wire_laws::{law_failure_numbers, law_ioctl_answer, law_writing_changes_one_field};
use vstd::prelude::*;

verus! {

/// The `Ioctl` is served, and went well: behind the header with its own handle stand the lengths of
/// the blocks, split as in the message, and then the blocks. Where that does not fit, there is no
/// space.
pub open spec fn answered(
    step: Step,
    req: Seq<u8>,
    cap: usize,
    out: Seq<u8>,
    deep: Seq<u8>,
) -> bool {
    if cap < 28 + out.len() + deep.len() {
        refused(step, 3, cap, 28)
    } else {
        step matches Step::Done { resp, close } && close@.len() == 0 && {
            &&& resp@.len() == 28 + out.len() + deep.len()
            &&& u32_at(resp@, 0) == 3
            &&& u32_at(resp@, 4) == u32_at(req, 4)
            &&& u32_at(resp@, 8) == 0
            &&& u32_at(resp@, 12) == 0
            &&& u32_at(resp@, 16) == if u32_at(req, 20) < out.len() {
                u32_at(req, 20) as int
            } else {
                out.len() as int
            }
            &&& u32_at(resp@, 16) + u32_at(resp@, 20) == out.len()
            &&& u32_at(resp@, 24) == deep.len()
            &&& resp@.subrange(28, 28 + out.len() as int) == out
            &&& resp@.skip(28 + out.len() as int) == deep
        }
    }
}

/// The number of an errno: a failure without one is an input/output error.
pub open spec fn errno_number(errno: i32) -> int {
    if errno == 0 {
        5
    } else if errno > 0 {
        errno as int
    } else {
        -errno
    }
}

/// The lengths in a message are those of a buffer.
pub open spec fn is_sized(req: Seq<u8>) -> bool {
    u32_at(req, 20) + u32_at(req, 28) + u32_at(req, 36) <= u32::MAX
}

/// A backend that serves this message.
pub open spec fn serving(b: NvidiaBackend, req: Seq<u8>, cap: usize) -> bool {
    &&& b.current_msg == MsgType::Ioctl
    &&& b.current_handle == u32_at(req, 4)
    &&& b.current_data_len == u32_at(req, 20)
    &&& b.resp_cap == cap
}

pub(crate) proof fn lemma_answered(
    b: NvidiaBackend,
    step: Step,
    req: Seq<u8>,
    cap: usize,
    out: Seq<u8>,
    deep: Seq<u8>,
)
    requires
        serving(b, req, cap),
        b.answers(step, out, deep),
        out.len() + deep.len() <= u32::MAX,
    ensures
        answered(step, req, cap, out, deep),
{
    law_ioctl_answer(MsgType::Ioctl, b.current_handle, b.current_data_len, out, deep, cap as int);
    if 16 <= cap {
        law_failure_numbers(MsgType::Ioctl, Status::BufferTooSmall, 0, cap as int);
    }
}

pub(crate) proof fn lemma_refused(b: NvidiaBackend, step: Step, req: Seq<u8>, cap: usize, errno: i32)
    requires
        serving(b, req, cap),
        b.fails(step, Status::IoctlFailed, errno),
        errno > i32::MIN,
    ensures
        refused(step, 3, cap, errno_number(errno)),
{
    if 16 <= cap {
        law_failure_numbers(MsgType::Ioctl, Status::IoctlFailed, errno, cap as int);
    }
}

/// What the backend waits for once it has asked the driver.
#[verifier::rlimit(30)]
pub(crate) proof fn lemma_waits(
    b0: NvidiaBackend,
    req: Seq<u8>,
    cap: usize,
    b1: NvidiaBackend,
    call: HostCall,
)
    requires
        dispatched(b0, req, cap, b1, Step::Do(Action::Ioctl(call))),
    ensures
        serving(b1, req, cap),
        is_plain(req) ==> b1.pending == (Pending::Simple {
            fd: call.fd,
            cmd: u32_at(req, 16),
            check: call.check,
            retry: escape_of(req) == 214 && params_of(req).len() >= 4 && params_of(req)[0] == 0,
        }) && call.request == u32_at(req, 16),
        names_fd_at(req) matches Some(at) ==> b1.pending == (Pending::FdCarrying {
            fd_offset: at as usize,
            guest: u32_at(params_of(req), at),
        }),
        magic_of(req) != 0x6d && escape_of(req) == 0x5e ==> b1.pending is MappingInfo,
        magic_of(req) != 0x6d && escape_of(req) == 0x4e ==> b1.pending == (Pending::MapMemory {
            guest: u32_at(params_of(req), 48),
            map_fd: b0.handles@[signed_handle(u32_at(params_of(req), 48))],
        }),
        magic_of(req) != 0x6d && escape_of(req) == 0x4f ==> if b0.active_maps@.contains_key(
            u64_at(params_of(req), 16),
        ) {
            b1.pending == (Pending::Unmap { key: u64_at(params_of(req), 16) })
        } else {
            b1.pending is UnmapUnknown
        },
        outer_of(req) matches Some(outer) ==> outer <= params_of(req).len() && b1.pending == (
        Pending::Nested {
            ptr: if magic_of(req) == 0x6d {
                8
            } else {
                16
            },
            slot: match control_names_fd_at(req) {
                Some(at) => Some((at as usize, u32_at(params_of(req), outer + at))),
                None => None,
            },
            deep_ptr: if u32_at(req, 36) > 0 {
                Some(u32_at(req, 32) as usize)
            } else {
                None
            },
        }),
{
    let step = Step::Do(Action::Ioctl(call));
    lemma_forwarded(b0, req, cap, b1, step);
    let f = choose|f: Forward| carries(b0, req, cap, f, b1, step);
    let p = params_of(req);
    if outer_of(req) is Some {
        let outer = outer_of(req)->0;
        assert(p.len() >= outer);
        lemma_u32_same(p.take(outer), 8, p, 8);
        if control_names_fd_at(req) is Some {
            let at = control_names_fd_at(req)->0;
            lemma_u32_same(p.skip(outer), at, p, outer + at);
        }
    }
}

/// What outlives a message is as it was.
pub open spec fn unchanged(before: NvidiaBackend, after: NvidiaBackend) -> bool {
    &&& after.handles == before.handles
    &&& after.shm == before.shm
    &&& after.active_maps == before.active_maps
    &&& after.driver == before.driver
    &&& after.abi == before.abi
    &&& after.policy == before.policy
    &&& after.watches == before.watches
}

/// Once the driver has answered a plain ioctl, the guest reads the bytes that the driver left, or
/// the driver's errno. Only a device that is too busy for its system parameters is not taken at its
/// word: it is asked once more, on the same descriptor, with the same number and in the second form,
/// where the guest used the first; else the guest reads zeros.
#[verifier::rlimit(30)]
pub proof fn law_plain_answers_are_the_drivers(
    b0: NvidiaBackend,
    req: Seq<u8>,
    cap: usize,
    b1: NvidiaBackend,
    call: HostCall,
    result: core::result::Result<(), i32>,
    data: Vec<u8>,
    nested: Vec<u8>,
    deep: Vec<u8>,
    b2: NvidiaBackend,
    step: Step,
)
    requires
        is_sized(req),
        is_plain(req),
        dispatched(b0, req, cap, b1, Step::Do(Action::Ioctl(call))),
        data@.len() == call.data@.len(),
        result matches Err(errno) ==> errno > i32::MIN,
        resumed(b1, Event::Returned { result, data, nested, deep }, b2, step),
    ensures
        result is Ok ==> answered(step, req, cap, data@, Seq::empty()),
        result is Ok && escape_of(req) == 210 ==> unchanged(
            b0,
            NvidiaBackend { driver: b0.driver, abi: b0.abi, ..b2 },
        ),
        !(result is Ok && escape_of(req) == 210) ==> unchanged(b0, b2),
        result matches Err(errno) ==> {
            ||| escape_of(req) == 214 && errno == 16
            ||| refused(step, 3, cap, errno_number(errno))
        },
        result == Err::<(), i32>(16) && escape_of(req) == 214 ==> if params_of(req).len() >= 4
            && params_of(req)[0] == 0 {
            &&& step matches Step::Do(Action::Ioctl(again)) && {
                &&& again.fd == call.fd
                &&& again.request == call.request
                &&& again.check == call.check
                &&& again.data@ == data@.update(0, 2)
                &&& again.nested@.len() == 0
                &&& again.nested_ptr is None
                &&& again.deep@.len() == 0
                &&& again.deep_ptr is None
            }
            &&& serving(b2, req, cap)
            &&& b2.pending is SimpleRetry
        } else {
            answered(step, req, cap, Seq::new(data@.len(), |i: int| 0u8), Seq::empty())
        },
{
    lemma_waits(b0, req, cap, b1, call);
    law_calls_follow_the_message(b0, req, cap, b1, call);
    law_plain_calls_carry_the_guests_bytes(b0, req, cap, b1, call);
    let blank = Seq::new(data@.len(), |i: int| 0u8);
    assert(zeros(data@.len()) =~= blank);
    match result {
        Ok(_) => {
            lemma_answered(b2, step, req, cap, data@, Seq::empty());
        },
        Err(errno) => {
            if escape_of(req) == 214 && errno == 16 {
                if params_of(req).len() >= 4 && params_of(req)[0] == 0 {
                    let again = step->Do_0->Ioctl_0;
                    assert(again@.data == again.data@ && again@.nested == again.nested@
                        && again@.deep == again.deep@);
                } else {
                    lemma_answered(b2, step, req, cap, blank, Seq::empty());
                }
            } else {
                lemma_refused(b2, step, req, cap, errno);
            }
        },
    }
}

/// Once a device that was busy has been asked again, the guest reads what the driver left, or zeros
/// where it refused once more.
#[verifier::rlimit(30)]
pub proof fn law_second_tries_end(
    b: NvidiaBackend,
    req: Seq<u8>,
    cap: usize,
    result: core::result::Result<(), i32>,
    data: Vec<u8>,
    nested: Vec<u8>,
    deep: Vec<u8>,
    after: NvidiaBackend,
    step: Step,
)
    requires
        serving(b, req, cap),
        b.pending is SimpleRetry,
        data@.len() <= u32::MAX,
        resumed(b, Event::Returned { result, data, nested, deep }, after, step),
    ensures
        unchanged(b, after),
        result is Ok ==> answered(step, req, cap, data@, Seq::empty()),
        result is Err ==> answered(
            step,
            req,
            cap,
            Seq::new(data@.len(), |i: int| 0u8),
            Seq::empty(),
        ),
{
    let blank = Seq::new(data@.len(), |i: int| 0u8);
    assert(zeros(data@.len()) =~= blank);
    if result is Ok {
        lemma_answered(after, step, req, cap, data@, Seq::empty());
    } else {
        lemma_answered(after, step, req, cap, blank, Seq::empty());
    }
}

/// Once the driver has answered an ioctl that names a descriptor, the guest reads the handle that it
/// wrote itself, and everywhere else what the driver left.
#[verifier::rlimit(30)]
pub proof fn law_answers_name_the_guests_handle(
    b0: NvidiaBackend,
    req: Seq<u8>,
    cap: usize,
    b1: NvidiaBackend,
    call: HostCall,
    result: core::result::Result<(), i32>,
    data: Vec<u8>,
    nested: Vec<u8>,
    deep: Vec<u8>,
    b2: NvidiaBackend,
    step: Step,
)
    requires
        is_sized(req),
        names_fd_at(req) is Some,
        dispatched(b0, req, cap, b1, Step::Do(Action::Ioctl(call))),
        data@.len() == call.data@.len(),
        result matches Err(errno) ==> errno > i32::MIN,
        resumed(b1, Event::Returned { result, data, nested, deep }, b2, step),
    ensures
        unchanged(b0, b2),
        result is Ok ==> answered(
            step,
            req,
            cap,
            with_u32(data@, names_fd_at(req)->0, u32_at(params_of(req), names_fd_at(req)->0)),
            Seq::empty(),
        ),
        result matches Err(errno) ==> refused(step, 3, cap, errno_number(errno)),
{
    let at = names_fd_at(req)->0;
    let guest = u32_at(params_of(req), at);
    lemma_waits(b0, req, cap, b1, call);
    law_calls_follow_the_message(b0, req, cap, b1, call);
    law_descriptors_are_the_hosts(b0, req, cap, b1, call, at, guest as u64);
    law_writing_changes_one_field(data@, at, guest, 0, 0);
    match result {
        Ok(_) => lemma_answered(b2, step, req, cap, with_u32(data@, at, guest), Seq::empty()),
        Err(errno) => lemma_refused(b2, step, req, cap, errno),
    }
}

/// Once the driver has updated the addresses of a mapping, the guest reads none, and everywhere else
/// what the driver left.
#[verifier::rlimit(30)]
pub proof fn law_update_answers_hold_no_address(
    b0: NvidiaBackend,
    req: Seq<u8>,
    cap: usize,
    b1: NvidiaBackend,
    call: HostCall,
    result: core::result::Result<(), i32>,
    data: Vec<u8>,
    nested: Vec<u8>,
    deep: Vec<u8>,
    b2: NvidiaBackend,
    step: Step,
)
    requires
        is_sized(req),
        magic_of(req) != 0x6d,
        escape_of(req) == 0x5e,
        dispatched(b0, req, cap, b1, Step::Do(Action::Ioctl(call))),
        data@.len() == call.data@.len(),
        result matches Err(errno) ==> errno > i32::MIN,
        resumed(b1, Event::Returned { result, data, nested, deep }, b2, step),
    ensures
        unchanged(b0, b2),
        result is Ok ==> answered(
            step,
            req,
            cap,
            with_u64(with_u64(data@, 16, 0), 24, 0),
            Seq::empty(),
        ),
        result matches Err(errno) ==> refused(step, 3, cap, errno_number(errno)),
{
    lemma_waits(b0, req, cap, b1, call);
    law_calls_follow_the_message(b0, req, cap, b1, call);
    law_update_names_the_hosts_address(b0, req, cap, b1, call);
    let once = with_u64(data@, 16, 0);
    law_writing_changes_one_field(data@, 16, 0, 0, 0);
    law_writing_changes_one_field(once, 24, 0, 0, 0);
    match result {
        Ok(_) => lemma_answered(b2, step, req, cap, with_u64(once, 24, 0), Seq::empty()),
        Err(errno) => lemma_refused(b2, step, req, cap, errno),
    }
}

/// The nested block that a guest reads: what the driver left, with the guest's own handle where a
/// control names a descriptor, and no address where the second-level block was pointed at.
pub open spec fn nested_read(req: Seq<u8>, left: Seq<u8>) -> Seq<u8> {
    let own = match control_names_fd_at(req) {
        Some(at) => with_u32(left, at, u32_at(params_of(req), outer_of(req)->0 + at)),
        None => left,
    };
    if u32_at(req, 36) > 0 {
        with_u64(own, u32_at(req, 32) as int, 0)
    } else {
        own
    }
}

/// Once the driver has answered an ioctl in two parts, the guest reads the struct that the driver
/// left, without the address in it, behind it the nested block, and then the second-level block as
/// the driver left it.
#[verifier::rlimit(30)]
pub proof fn law_answers_in_two_parts(
    b0: NvidiaBackend,
    req: Seq<u8>,
    cap: usize,
    b1: NvidiaBackend,
    call: HostCall,
    result: core::result::Result<(), i32>,
    data: Vec<u8>,
    nested: Vec<u8>,
    deep: Vec<u8>,
    b2: NvidiaBackend,
    step: Step,
)
    requires
        is_sized(req),
        outer_of(req) is Some,
        dispatched(b0, req, cap, b1, Step::Do(Action::Ioctl(call))),
        data@.len() == call.data@.len(),
        nested@.len() == call.nested@.len(),
        deep@.len() == call.deep@.len(),
        result matches Err(errno) ==> errno > i32::MIN,
        resumed(b1, Event::Returned { result, data, nested, deep }, b2, step),
    ensures
        unchanged(b0, b2),
        result is Ok ==> answered(
            step,
            req,
            cap,
            with_u64(
                data@,
                if magic_of(req) == 0x6d {
                    8
                } else {
                    16
                },
                0,
            ) + nested_read(req, nested@),
            deep@,
        ),
        result matches Err(errno) ==> refused(step, 3, cap, errno_number(errno)),
{
    lemma_waits(b0, req, cap, b1, call);
    law_calls_follow_the_message(b0, req, cap, b1, call);
    law_calls_in_two_parts(b0, req, cap, b1, call);
    let ptr = if magic_of(req) == 0x6d {
        8int
    } else {
        16
    };
    let top = with_u64(data@, ptr, 0);
    let rest = nested_read(req, nested@);
    law_writing_changes_one_field(data@, ptr, 0, 0, 0);
    let own = match control_names_fd_at(req) {
        Some(at) => with_u32(nested@, at, u32_at(params_of(req), outer_of(req)->0 + at)),
        None => nested@,
    };
    if control_names_fd_at(req) is Some {
        let at = control_names_fd_at(req)->0;
        law_writing_changes_one_field(
            nested@,
            at,
            u32_at(params_of(req), outer_of(req)->0 + at),
            0,
            0,
        );
    }
    law_writing_changes_one_field(own, u32_at(req, 32) as int, 0, 0, 0);
    assert(rest.len() == nested@.len());
    assert(call.deep@.len() == u32_at(req, 36));
    match result {
        Ok(_) => {
            assert(b2.answers(step, top + rest, deep@));
            lemma_answered(b2, step, req, cap, top + rest, deep@);
        },
        Err(errno) => lemma_refused(b2, step, req, cap, errno),
    }
}

} // verus!
