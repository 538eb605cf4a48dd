//! Watching the host's descriptors and telling the guest when one has something to say.
//!
//! The guest cannot find out any other way: the interrupt is the host's, and so is the descriptor
//! that becomes readable. Whoever runs the pump polls, arms and waits; the pump decides what comes
//! next.
use crate::messages::MsgHeader;
use std::collections::HashMap;
use vstd::prelude::*;
use vstd::std_specs::iter::IteratorSpec;

verus! {

broadcast use vstd::std_specs::hash::group_hash_axioms;

/// How often a descriptor that is still readable is asked again, in milliseconds. An edge can be
/// missed if a descriptor was already readable when it was added, or if a notification found no
/// buffer posted.
pub const SWEEP_MS: u64 = 1;

/// The errno of a wait that a signal broke off.
pub const EINTR: i32 = 4;

/// What the pump is told.
pub enum PumpEvent {
    /// The control channel has a descriptor to watch.
    Add { handle: u32, fd: i32 },
    /// Arming went well, or not.
    Armed(bool),
    /// The control channel has a handle to stop watching.
    Remove { handle: u32 },
    /// The control channel is empty; so much time has passed since the last sweep.
    Quiet { since_sweep_ms: u64 },
    /// The other end of the control channel is gone.
    Gone,
    /// For each descriptor of a sweep, whether it is readable.
    Swept(Vec<bool>),
    /// A wait is over: these handles are ready, or it failed with this errno.
    Woken(core::result::Result<Vec<u32>, i32>),
}

/// What the pump asks for.
pub enum PumpAction {
    /// Look at the control channel.
    Poll,
    /// Start watching `fd` for `handle`, edge-triggered.
    Arm { handle: u32, fd: i32 },
    /// Stop watching `fd` and close it, then look at the control channel.
    Drop { handle: u32, fd: i32 },
    /// Close `fd`, which could not be armed or has been replaced, then look at the control channel.
    Close { fd: i32 },
    /// Ask each of these descriptors directly whether it is readable.
    Sweep(Vec<(u64, i32)>),
    /// Tell the guest about each of these handles, then wait up to the sweep period.
    NotifyAndWait(Vec<u32>),
    /// Tell the guest about each of these handles, then look at the control channel.
    Notify(Vec<u32>),
    Stop,
}

/// Where the pump stands.
pub enum PumpState {
    /// The control channel goes first: a descriptor closed on the other thread must leave the set
    /// before it can be reported again.
    Draining,
    Arming { handle: u32, fd: i32 },
    Sweeping(Vec<(u64, i32)>),
    Waiting,
    Stopped,
}

pub struct Pump {
    pub watched: HashMap<u64, i32>,
    pub state: PumpState,
}

/// `list` holds each watched handle once, with its descriptor.
pub open spec fn lists(list: Seq<(u64, i32)>, watched: Map<u64, i32>) -> bool {
    &&& forall|i: int|
        0 <= i < list.len() ==> watched.contains_key((#[trigger] list[i]).0) && watched[list[i].0]
            == list[i].1
    &&& forall|i: int, j: int|
        #![trigger list[i], list[j]]
        0 <= i < j < list.len() ==> list[i].0 != list[j].0
    &&& forall|h: u64| #[trigger]
        watched.contains_key(h) ==> exists|i: int| 0 <= i < list.len() && (#[trigger] list[i]).0 == h
}

/// The handles of `list` whose descriptors are ready, in order.
pub open spec fn ready(list: Seq<(u64, i32)>, on: Seq<bool>) -> Seq<u32>
    decreases list.len(),
{
    if list.len() == 0 {
        Seq::empty()
    } else {
        let rest = ready(list.drop_last(), on.drop_last());
        if on.last() {
            rest.push(list.last().0 as u32)
        } else {
            rest
        }
    }
}

impl Pump {
    pub open spec fn view(&self) -> Map<u64, i32> {
        self.watched@
    }

    pub fn new() -> (r: Self)
        ensures
            r@ == Map::<u64, i32>::empty(),
            r.state is Draining,
    {
        Pump { watched: HashMap::new(), state: PumpState::Draining }
    }

    /// Whether `e` can happen now.
    pub open spec fn expects(&self, e: PumpEvent) -> bool {
        match (self.state, e) {
            (PumpState::Draining, PumpEvent::Add { .. }) => true,
            (PumpState::Draining, PumpEvent::Remove { .. }) => true,
            (PumpState::Draining, PumpEvent::Quiet { .. }) => true,
            (PumpState::Draining, PumpEvent::Gone) => true,
            (PumpState::Arming { .. }, PumpEvent::Armed(_)) => true,
            (PumpState::Sweeping(list), PumpEvent::Swept(on)) => on@.len() == list@.len(),
            (PumpState::Waiting, PumpEvent::Woken(_)) => true,
            _ => false,
        }
    }

    /// What an event does, and what comes next.
    pub open spec fn moves(&self, e: PumpEvent, post: &Self, action: PumpAction) -> bool {
        match (self.state, e) {
            (PumpState::Draining, PumpEvent::Add { handle, fd }) => {
                &&& post@ == self@
                &&& post.state == PumpState::Arming { handle, fd }
                &&& action == PumpAction::Arm { handle, fd }
            },
            (PumpState::Arming { handle, fd }, PumpEvent::Armed(done)) => {
                &&& post.state is Draining
                &&& if !done {
                    post@ == self@ && action == PumpAction::Close { fd }
                } else {
                    &&& post@ == self@.insert(handle as u64, fd)
                    &&& action == (if self@.contains_key(handle as u64) {
                        PumpAction::Close { fd: self@[handle as u64] }
                    } else {
                        PumpAction::Poll
                    })
                }
            },
            (PumpState::Draining, PumpEvent::Remove { handle }) => {
                &&& post.state is Draining
                &&& post@ == self@.remove(handle as u64)
                &&& action == (if self@.contains_key(handle as u64) {
                    PumpAction::Drop { handle, fd: self@[handle as u64] }
                } else {
                    PumpAction::Poll
                })
            },
            (PumpState::Draining, PumpEvent::Quiet { since_sweep_ms }) => {
                &&& post@ == self@
                &&& if since_sweep_ms >= SWEEP_MS {
                    &&& action matches PumpAction::Sweep(list) && lists(list@, self@)
                    &&& post.state matches PumpState::Sweeping(waiting) && waiting@
                        == action->Sweep_0@
                } else {
                    &&& post.state is Waiting
                    &&& action matches PumpAction::NotifyAndWait(handles) && handles@.len() == 0
                }
            },
            (PumpState::Draining, PumpEvent::Gone) => {
                post@ == self@ && post.state is Stopped && action is Stop
            },
            (PumpState::Sweeping(list), PumpEvent::Swept(on)) => {
                &&& post@ == self@
                &&& post.state is Waiting
                &&& action matches PumpAction::NotifyAndWait(handles) && handles@ == ready(
                    list@,
                    on@,
                )
            },
            (PumpState::Waiting, PumpEvent::Woken(Ok(handles))) => {
                &&& post@ == self@
                &&& post.state is Draining
                &&& action matches PumpAction::Notify(told) && told@ == handles@
            },
            (PumpState::Waiting, PumpEvent::Woken(Err(errno))) => {
                &&& post@ == self@
                &&& if errno == EINTR {
                    post.state is Draining && action is Poll
                } else {
                    post.state is Stopped && action is Stop
                }
            },
            _ => false,
        }
    }

    /// Take in an event and say what to do next.
    pub fn next(&mut self, event: PumpEvent) -> (action: PumpAction)
        requires
            old(self).expects(event),
        ensures
            old(self).moves(event, final(self), action),
    {
        match event {
            PumpEvent::Add { handle, fd } => {
                self.state = PumpState::Arming { handle, fd };
                PumpAction::Arm { handle, fd }
            },
            PumpEvent::Armed(done) => {
                if let PumpState::Arming { handle, fd } = self.state {
                    self.state = PumpState::Draining;
                    if !done {
                        return PumpAction::Close { fd };
                    }
                    match self.watched.insert(handle as u64, fd) {
                        Some(before) => PumpAction::Close { fd: before },
                        None => PumpAction::Poll,
                    }
                } else {
                    PumpAction::Poll
                }
            },
            PumpEvent::Remove { handle } => {
                match self.watched.remove(&(handle as u64)) {
                    Some(fd) => PumpAction::Drop { handle, fd },
                    None => {
                        assert(self@ =~= old(self)@.remove(handle as u64));
                        PumpAction::Poll
                    },
                }
            },
            PumpEvent::Quiet { since_sweep_ms } => {
                if since_sweep_ms >= SWEEP_MS {
                    let list: Vec<(u64, i32)> = self.list();
                    let waiting: Vec<(u64, i32)> = vstd::slice::slice_to_vec(list.as_slice());
                    self.state = PumpState::Sweeping(waiting);
                    PumpAction::Sweep(list)
                } else {
                    self.state = PumpState::Waiting;
                    PumpAction::NotifyAndWait(Vec::new())
                }
            },
            PumpEvent::Gone => {
                self.state = PumpState::Stopped;
                PumpAction::Stop
            },
            PumpEvent::Swept(on) => {
                let handles: Vec<u32> = match &self.state {
                    PumpState::Sweeping(list) => ready_handles(list, &on),
                    _ => Vec::new(),
                };
                self.state = PumpState::Waiting;
                PumpAction::NotifyAndWait(handles)
            },
            PumpEvent::Woken(result) => match result {
                Ok(handles) => {
                    self.state = PumpState::Draining;
                    PumpAction::Notify(handles)
                },
                Err(errno) => if errno == EINTR {
                    self.state = PumpState::Draining;
                    PumpAction::Poll
                } else {
                    self.state = PumpState::Stopped;
                    PumpAction::Stop
                },
            },
        }
    }

    /// The watched handles and their descriptors.
    fn list(&self) -> (r: Vec<(u64, i32)>)
        ensures
            lists(r@, self@),
    {
        let mut r: Vec<(u64, i32)> = Vec::new();
        let keys = self.watched.keys();
        let ghost all = IteratorSpec::remaining(&keys).unref();
        for k in it: keys
            invariant
                it.seq().unref() == all,
                all.no_duplicates(),
                all.to_set() == self.watched@.dom(),
                r@.len() == it.index(),
                forall|i: int|
                    0 <= i < r@.len() ==> (#[trigger] r@[i]).0 == all[i] && self.watched@.contains_key(
                        r@[i].0,
                    ) && self.watched@[r@[i].0] == r@[i].1,
        {
            assert(all[it.index()] == *k);
            assert(all.to_set().contains(*k));
            if let Some(fd) = self.watched.get(k) {
                r.push((*k, *fd));
            }
        }
        assert forall|h: u64| #[trigger] self@.contains_key(h) implies exists|i: int|
            0 <= i < r@.len() && (#[trigger] r@[i]).0 == h by {
            assert(all.to_set().contains(h));
            let i = choose|i: int| 0 <= i < all.len() && all[i] == h;
            assert(r@[i].0 == h);
        }
        r
    }
}

fn ready_handles(list: &Vec<(u64, i32)>, on: &Vec<bool>) -> (r: Vec<u32>)
    requires
        list@.len() == on@.len(),
    ensures
        r@ == ready(list@, on@),
{
    let mut r: Vec<u32> = Vec::new();
    let mut i: usize = 0;
    while i < list.len()
        invariant
            i <= list@.len() == on@.len(),
            r@ == ready(list@.take(i as int), on@.take(i as int)),
        decreases list.len() - i,
    {
        assert(list@.take(i + 1).drop_last() =~= list@.take(i as int));
        assert(on@.take(i + 1).drop_last() =~= on@.take(i as int));
        if on[i] {
            r.push(list[i].0 as u32);
        }
        i = i + 1;
    }
    assert(list@.take(i as int) =~= list@);
    assert(on@.take(i as int) =~= on@);
    r
}

/// One notification: a bare header that names the handle.
pub fn event_ready_bytes(msg_type: u32, handle: u32) -> (r: Vec<u8>)
    ensures
        r@ == (MsgHeader { msg_type, handle, status: 0, padding: 0 }).wire(),
        r@.len() == 16,
{
    MsgHeader { msg_type, handle, status: 0, padding: 0 }.to_bytes()
}

/// A handle that has been removed is not asked about again until it is added anew: a sweep asks
/// about watched handles only, and nothing but arming makes a handle watched.
pub proof fn law_removed_handle_is_not_swept(p: Pump, e: PumpEvent, post: Pump, action: PumpAction)
    requires
        p.expects(e),
        p.moves(e, &post, action),
    ensures
        e matches PumpEvent::Remove { handle } ==> !post@.contains_key(handle as u64),
        action matches PumpAction::Sweep(list) ==> forall|i: int|
            0 <= i < list@.len() ==> p@.contains_key((#[trigger] list@[i]).0),
        forall|h: u64| #[trigger]
            post@.contains_key(h) && !p@.contains_key(h) ==> e == PumpEvent::Armed(true) && (
            p.state matches PumpState::Arming { handle, .. } && handle as u64 == h),
{
}

} // verus!
