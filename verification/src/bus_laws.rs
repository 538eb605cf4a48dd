//! What a guest finds on the bus, by position and number, and what a watcher does with descriptors.
use crate::bytes::u32_at;
use crate::guarded::GuardedBuf;
use crate::pump::{ready, Pump, PumpAction, PumpEvent, PumpState};
use crate::transport::{first_writable, readable, response_in, Descriptor};
use crate::virtio::{
    clamped, law_config_layout, law_slot_layout, slot_of, spec_fd_carrying_ioctls, GpuSlot,
    VirtioGpuNvConfig, CONTROL_QUEUE, EVENT_QUEUE, NUM_QUEUES, QUEUE_SIZE, VIRTIO_ID_GPU_NV,
};
use vstd::prelude::*;

verus! {

/// The device has number 45 and two queues of 256 entries: requests on the first, notifications on
/// the second.
pub proof fn law_device_on_the_bus(queue: u16)
    ensures
        VIRTIO_ID_GPU_NV == 45,
        QUEUE_SIZE == 256,
        queue < NUM_QUEUES <==> queue < 2,
        queue == CONTROL_QUEUE <==> queue == 0,
        queue == EVENT_QUEUE <==> queue == 1,
{
}

/// A slot for a GPU takes 476 bytes: fifteen of its address and a zero, its minor number at 16, how
/// much of its text there is at 20, and up to 448 bytes of the text from 28 on. What is not used is
/// zero.
pub proof fn law_slots_hold_a_gpu(s: GpuSlot, addr: Seq<u8>, minor: u32, info: Seq<u8>)
    requires
        slot_of(s, addr, minor, info),
    ensures
        s.wire().len() == 476,
        forall|i: int|
            0 <= i < 16 ==> #[trigger] s.wire()[i] == if i < 15 && i < addr.len() {
                addr[i]
            } else {
                0u8
            },
        u32_at(s.wire(), 16) == minor,
        u32_at(s.wire(), 20) == if info.len() < 448 {
            info.len() as int
        } else {
            448
        },
        u32_at(s.wire(), 24) == 0,
        forall|i: int|
            28 <= i < 476 ==> #[trigger] s.wire()[i] == if i - 28 < info.len() {
                info[i - 28]
            } else {
                0u8
            },
{
    law_slot_layout(s);
    let w = s.wire();
    assert(s.pci_addr@.len() == 16);
    assert forall|i: int| 0 <= i < 16 implies #[trigger] w[i] == if i < 15 && i < addr.len() {
        addr[i]
    } else {
        0u8
    } by {
        assert(w.subrange(0, 16)[i] == w[i]);
    }
    assert forall|i: int| 28 <= i < 476 implies #[trigger] w[i] == if i - 28 < info.len() {
        info[i - 28]
    } else {
        0u8
    } by {
        assert(w.subrange(28, 476)[i - 28] == w[i]);
    }
    assert(s.padding@[0] == 0);
    assert(w[24] == 0 && w[25] == 0 && w[26] == 0 && w[27] == 0);
}

/// The config takes 4016 bytes: the driver version, the number of GPUs at 32, capability bits at 36,
/// eight device ids from 40 on, eight slots of 476 bytes from 72 on, the number of translations at
/// 3880, and sixteen of them from 3888 on, each an escape and an offset.
pub proof fn law_config_positions(c: VirtioGpuNvConfig, g: int, t: int)
    requires
        0 <= g < 8,
        0 <= t < 16,
    ensures
        c.wire().len() == 4016,
        c.wire().subrange(0, 32) == c.driver_version@,
        u32_at(c.wire(), 32) == c.num_gpus,
        u32_at(c.wire(), 36) == c.caps,
        u32_at(c.wire(), 40 + 4 * g) == c.gpu_device_ids@[g],
        c.wire().subrange(72 + 476 * g, 72 + 476 * g + 476) == c.gpus@[g].wire(),
        u32_at(c.wire(), 3880) == c.num_fd_translations,
        u32_at(c.wire(), 3888 + 8 * t) == c.fd_translations@[t].nr,
        u32_at(c.wire(), 3888 + 8 * t + 4) == c.fd_translations@[t].payload_offset,
{
    law_config_layout(c, g, t);
}

/// The guest is told of exactly five escapes that name a descriptor, and where: 201 at 0, 206 and
/// 207 at 8, 0x27 and 0x4e at 48.
pub proof fn law_guest_is_told_of_descriptors(escape: u32, offset: u32)
    ensures
        spec_fd_carrying_ioctls().len() == 5,
        spec_fd_carrying_ioctls().contains((escape, offset)) <==> {
            ||| escape == 201 && offset == 0
            ||| (escape == 206 || escape == 207) && offset == 8
            ||| (escape == 0x27 || escape == 0x4e) && offset == 48
        },
{
    let l = spec_fd_carrying_ioctls();
    assert(l[0] == (201u32, 0u32));
    assert(l[1] == (206u32, 8u32));
    assert(l[2] == (207u32, 8u32));
    assert(l[3] == (0x27u32, 48u32));
    assert(l[4] == (0x4eu32, 48u32));
    if l.contains((escape, offset)) {
        let i = choose|i: int| 0 <= i < l.len() && l[i] == (escape, offset);
        assert(i == 0 || i == 1 || i == 2 || i == 3 || i == 4);
    }
}

/// A read of the config gives the bytes from the offset on: as many as were asked for, or as many as
/// there are.
pub proof fn law_config_reads_are_clamped(s: Seq<u8>, offset: int, size: int)
    requires
        0 <= offset,
        0 <= size,
    ensures
        offset >= s.len() ==> clamped(s, offset, size).len() == 0,
        offset < s.len() ==> clamped(s, offset, size).len() == if size < s.len() - offset {
            size
        } else {
            s.len() - offset
        },
        forall|i: int|
            0 <= i < clamped(s, offset, size).len() ==> #[trigger] clamped(s, offset, size)[i]
                == s[offset + i],
{
}

/// The request of a chain is all of its readable descriptors and nothing else, in their order.
pub proof fn law_requests_are_the_readable_descriptors(chain: Seq<Descriptor>)
    requires
        chain.len() <= usize::MAX,
    ensures
        forall|i: usize| #[trigger]
            readable(chain).contains(i) <==> i < chain.len() && !chain[i as int].write_only,
        forall|a: int, b: int|
            #![trigger readable(chain)[a], readable(chain)[b]]
            0 <= a < b < readable(chain).len() ==> readable(chain)[a] < readable(chain)[b],
    decreases chain.len(),
{
    if chain.len() > 0 {
        let less = chain.drop_last();
        let n = less.len() as usize;
        law_requests_are_the_readable_descriptors(less);
        let before = readable(less);
        let all = readable(chain);
        if !chain.last().write_only {
            assert(all == before.push(n));
            assert(all[before.len() as int] == n);
            assert forall|a: int| 0 <= a < before.len() implies (#[trigger] before[a]) < n by {
                assert(before.contains(before[a]));
            }
            assert forall|i: usize| #[trigger]
                all.contains(i) <==> i < chain.len() && !chain[i as int].write_only by {
                if before.contains(i) {
                    let a = choose|a: int| 0 <= a < before.len() && before[a] == i;
                    assert(all[a] == i);
                    assert(chain[i as int] == less[i as int]);
                }
                if all.contains(i) && i != n {
                    let a = choose|a: int| 0 <= a < all.len() && all[a] == i;
                    assert(before[a] == i);
                    assert(before.contains(i));
                    assert(chain[i as int] == less[i as int]);
                }
                if i < chain.len() && !chain[i as int].write_only && i != n {
                    assert(chain[i as int] == less[i as int]);
                    assert(before.contains(i));
                }
            }
        } else {
            assert(all == before);
            assert forall|i: usize| #[trigger]
                all.contains(i) <==> i < chain.len() && !chain[i as int].write_only by {
                if i < less.len() {
                    assert(chain[i as int] == less[i as int]);
                }
            }
        }
    }
}

/// The response of a chain goes into its last writable descriptor, up to 65536 bytes; a chain
/// without one has none.
pub proof fn law_responses_go_last(chain: Seq<Descriptor>)
    requires
        chain.len() <= usize::MAX,
    ensures
        match response_in(chain) {
            Some((i, n)) => {
                &&& i < chain.len()
                &&& chain[i as int].write_only
                &&& forall|j: int| i < j < chain.len() ==> !(#[trigger] chain[j]).write_only
                &&& n == if chain[i as int].len < 65536 {
                    chain[i as int].len as int
                } else {
                    65536
                }
            },
            None => forall|j: int| 0 <= j < chain.len() ==> !(#[trigger] chain[j]).write_only,
        },
    decreases chain.len(),
{
    if chain.len() > 0 && !chain.last().write_only {
        let less = chain.drop_last();
        law_responses_go_last(less);
        assert forall|j: int| 0 <= j < less.len() implies #[trigger] chain[j] == less[j] by {}
    }
}

/// A notification goes into the first writable descriptor of its chain.
pub proof fn law_notifications_go_first(chain: Seq<Descriptor>)
    ensures
        0 <= first_writable(chain) <= chain.len(),
        first_writable(chain) < chain.len() ==> chain[first_writable(chain)].write_only,
        forall|j: int| 0 <= j < first_writable(chain) ==> !(#[trigger] chain[j]).write_only,
    decreases chain.len(),
{
    if chain.len() > 0 && !chain[0].write_only {
        let rest = chain.drop_first();
        law_notifications_go_first(rest);
        assert forall|j: int| 0 <= j < first_writable(chain) implies !(#[trigger] chain[j]).write_only by {
            if j > 0 {
                assert(rest[j - 1] == chain[j]);
            }
        }
        if first_writable(chain) < chain.len() {
            assert(rest[first_writable(rest)] == chain[first_writable(chain)]);
        }
    }
}

/// The guest is told of exactly the handles whose descriptors were found readable.
pub proof fn law_ready_handles_are_told(list: Seq<(u64, i32)>, on: Seq<bool>, h: u32)
    requires
        list.len() == on.len(),
    ensures
        ready(list, on).len() <= list.len(),
        ready(list, on).contains(h) <==> exists|i: int|
            0 <= i < list.len() && on[i] && (#[trigger] list[i]).0 as u32 == h,
    decreases list.len(),
{
    if list.len() > 0 {
        let less = list.drop_last();
        let few = on.drop_last();
        let n = less.len() as int;
        law_ready_handles_are_told(less, few, h);
        let before = ready(less, few);
        let all = ready(list, on);
        if before.contains(h) {
            let i = choose|i: int| 0 <= i < less.len() && few[i] && (#[trigger] less[i]).0 as u32 == h;
            assert(list[i] == less[i] && on[i] == few[i]);
            let a = choose|a: int| 0 <= a < before.len() && before[a] == h;
            assert(all[a] == h);
        }
        if on.last() && list.last().0 as u32 == h {
            assert(list[n] == list.last() && on[n]);
            assert(all[before.len() as int] == h);
        }
        if all.contains(h) && !before.contains(h) {
            let a = choose|a: int| 0 <= a < all.len() && all[a] == h;
            if a < before.len() {
                assert(before[a] == h);
            }
            assert(list[n] == list.last() && on[n]);
        }
        if exists|i: int| 0 <= i < list.len() && on[i] && (#[trigger] list[i]).0 as u32 == h {
            let i = choose|i: int| 0 <= i < list.len() && on[i] && (#[trigger] list[i]).0 as u32 == h;
            if i < n {
                assert(less[i] == list[i] && few[i] == on[i]);
            }
        }
    }
}

/// No descriptor is lost: one that a watcher is handed is either watched under its handle, or handed
/// back to be closed, and so is one that it replaces or that is no longer to be watched.
pub proof fn law_watched_descriptors_are_kept_or_closed(
    p: Pump,
    e: PumpEvent,
    post: Pump,
    action: PumpAction,
)
    requires
        p.expects(e),
        p.moves(e, &post, action),
    ensures
        e matches PumpEvent::Add { handle, fd } ==> {
            &&& action == PumpAction::Arm { handle, fd }
            &&& post.state == PumpState::Arming { handle, fd }
            &&& post@ == p@
        },
        e matches PumpEvent::Armed(done) ==> (p.state matches PumpState::Arming { handle, fd } && {
            &&& !done ==> action == PumpAction::Close { fd } && post@ == p@
            &&& done ==> post@ == p@.insert(handle as u64, fd)
            &&& done && p@.contains_key(handle as u64) ==> action == PumpAction::Close {
                fd: p@[handle as u64],
            }
            &&& done && !p@.contains_key(handle as u64) ==> action is Poll
        }),
        e matches PumpEvent::Remove { handle } ==> {
            &&& post@ == p@.remove(handle as u64)
            &&& p@.contains_key(handle as u64) ==> action == PumpAction::Drop {
                handle,
                fd: p@[handle as u64],
            }
            &&& !p@.contains_key(handle as u64) ==> action is Poll
        },
        !(e is Armed) && !(e is Remove) ==> post@ == p@,
{
}

/// A watcher asks every watched descriptor once a millisecond has passed since it last did, and waits
/// else. What woke it is told to the guest. A wait that a signal broke off, errno 4, is taken up
/// again; any other failure, or the loss of the control channel, ends it.
pub proof fn law_watcher_turns(p: Pump, e: PumpEvent, post: Pump, action: PumpAction)
    requires
        p.expects(e),
        p.moves(e, &post, action),
    ensures
        e matches PumpEvent::Quiet { since_sweep_ms } ==> {
            &&& since_sweep_ms >= 1 ==> (action matches PumpAction::Sweep(list) && {
                &&& forall|h: u64| #[trigger]
                    p@.contains_key(h) ==> list@.contains((h, p@[h]))
                &&& forall|i: int|
                    0 <= i < list@.len() ==> p@.contains_key((#[trigger] list@[i]).0)
                        && p@[list@[i].0] == list@[i].1
                &&& list@.no_duplicates()
                &&& post.state matches PumpState::Sweeping(waiting) && waiting@ == list@
            })
            &&& since_sweep_ms == 0 ==> (action matches PumpAction::NotifyAndWait(told)
                && told@.len() == 0) && post.state is Waiting
        },
        e matches PumpEvent::Swept(on) ==> (p.state matches PumpState::Sweeping(list) && (action matches PumpAction::NotifyAndWait(
            told,
        ) && forall|h: u32| #[trigger]
            told@.contains(h) <==> exists|i: int|
                0 <= i < list@.len() && on@[i] && (#[trigger] list@[i]).0 as u32 == h))
            && post.state is Waiting,
        e matches PumpEvent::Woken(Ok(handles)) ==> (action matches PumpAction::Notify(told)
            && told@ == handles@) && post.state is Draining,
        e matches PumpEvent::Woken(Err(errno)) ==> {
            &&& errno == 4 ==> action is Poll && post.state is Draining
            &&& errno != 4 ==> action is Stop && post.state is Stopped
        },
        e is Gone ==> action is Stop && post.state is Stopped,
{
    if e is Quiet && action is Sweep {
        let list = action->Sweep_0@;
        assert forall|h: u64| #[trigger] p@.contains_key(h) implies list.contains((h, p@[h])) by {
            let i = choose|i: int| 0 <= i < list.len() && (#[trigger] list[i]).0 == h;
            assert(list[i] == (h, p@[h]));
        }
    }
    if e is Swept {
        let on = e->Swept_0@;
        let list = p.state->Sweeping_0@;
        let told = action->NotifyAndWait_0@;
        assert forall|h: u32| #[trigger]
            told.contains(h) <==> exists|i: int|
                0 <= i < list.len() && on[i] && (#[trigger] list[i]).0 as u32 == h by {
            law_ready_handles_are_told(list, on, h);
        }
    }
}

/// Behind a buffer that the driver writes into lie at least 4096 readable bytes, and then, on a page
/// of its own at the end of the mapping, the guard; no page is wasted between them.
pub proof fn law_guard_stands_behind_the_buffer(b: GuardedBuf)
    requires
        b.wf(),
    ensures
        b.offset == 0,
        b.mapped as int % 4096 == 0,
        b.mapped - 4096 >= b.len + 4096,
        b.mapped - 4096 < b.len + 2 * 4096,
{
}

} // verus!
