//! Which descriptors of a chain carry what.
use crate::virtio::{CONTROL_QUEUE, EVENT_QUEUE, NUM_QUEUES};
use vstd::prelude::*;

verus! {

/// Largest response built for one request.
pub const RESP_MAX: usize = 64 * 1024;

/// One descriptor of a chain.
#[derive(Clone, Copy, Debug, PartialEq, Eq, Structural)]
pub struct Descriptor {
    /// The device may write it; else it may read it.
    pub write_only: bool,
    pub len: u32,
}

/// What a chain is used for: the request is the readable descriptors, one behind another, and the
/// response goes into the last writable one.
pub struct ChainPlan {
    pub request: Vec<usize>,
    /// The response's descriptor and how much of it is used. Without one the chain is dropped.
    pub response: Option<(usize, usize)>,
}

/// The positions of the readable descriptors.
pub open spec fn readable(chain: Seq<Descriptor>) -> Seq<usize>
    decreases chain.len(),
{
    if chain.len() == 0 {
        Seq::empty()
    } else if chain.last().write_only {
        readable(chain.drop_last())
    } else {
        readable(chain.drop_last()).push((chain.len() - 1) as usize)
    }
}

/// The last writable descriptor, and how much of it a response may fill.
pub open spec fn response_in(chain: Seq<Descriptor>) -> Option<(usize, usize)>
    decreases chain.len(),
{
    if chain.len() == 0 {
        None
    } else if chain.last().write_only {
        Some(
            (
                (chain.len() - 1) as usize,
                if chain.last().len < RESP_MAX {
                    chain.last().len as usize
                } else {
                    RESP_MAX
                },
            ),
        )
    } else {
        response_in(chain.drop_last())
    }
}

/// Plan a request chain.
pub fn plan_request(chain: &Vec<Descriptor>) -> (r: ChainPlan)
    ensures
        r.request@ == readable(chain@),
        r.response == response_in(chain@),
{
    let mut request: Vec<usize> = Vec::new();
    let mut response: Option<(usize, usize)> = None;
    let mut i: usize = 0;
    while i < chain.len()
        invariant
            i <= chain@.len(),
            request@ == readable(chain@.take(i as int)),
            response == response_in(chain@.take(i as int)),
        decreases chain.len() - i,
    {
        assert(chain@.take(i + 1).drop_last() =~= chain@.take(i as int));
        if chain[i].write_only {
            let cap: usize = if (chain[i].len as u64) < RESP_MAX as u64 {
                chain[i].len as usize
            } else {
                RESP_MAX
            };
            response = Some((i, cap));
        } else {
            request.push(i);
        }
        i = i + 1;
    }
    assert(chain@.take(i as int) =~= chain@);
    ChainPlan { request, response }
}

/// Where the first writable descriptor stands, or the length.
pub open spec fn first_writable(chain: Seq<Descriptor>) -> int
    decreases chain.len(),
{
    if chain.len() == 0 || chain[0].write_only {
        0
    } else {
        1 + first_writable(chain.drop_first())
    }
}

/// Where a notification of `size` bytes goes in a chain that the guest posted for one: its first
/// writable descriptor, as much of it as fits.
pub fn plan_event(chain: &Vec<Descriptor>, size: usize) -> (r: Option<(usize, usize)>)
    ensures
        match r {
            Some((i, n)) => {
                &&& i == first_writable(chain@)
                &&& i < chain@.len()
                &&& n == (if chain@[i as int].len < size {
                    chain@[i as int].len as int
                } else {
                    size as int
                })
            },
            None => first_writable(chain@) == chain@.len(),
        },
{
    let mut i: usize = 0;
    assert(chain@.skip(0) =~= chain@);
    while i < chain.len()
        invariant
            i <= chain@.len(),
            first_writable(chain@) == i + first_writable(chain@.skip(i as int)),
        decreases chain.len() - i,
    {
        if chain[i].write_only {
            let n: usize = if (chain[i].len as u64) < size as u64 {
                chain[i].len as usize
            } else {
                size
            };
            return Some((i, n));
        }
        assert(chain@.skip(i as int).drop_first() =~= chain@.skip(i + 1));
        i = i + 1;
    }
    None
}

/// What a kick on a queue asks for.
#[derive(Clone, Copy, Debug, PartialEq, Eq, Structural)]
pub enum Kick {
    /// No such queue.
    Unknown,
    /// Nothing: the event queue carries buffers for the device to fill, not requests.
    Ignore,
    /// Guest memory is not known yet, so nothing can be read.
    NoMemory,
    /// Serve the requests on the queue.
    Serve,
}

pub fn kick(queue: u16, has_memory: bool) -> (r: Kick)
    ensures
        r == (if queue >= NUM_QUEUES {
            Kick::Unknown
        } else if queue == EVENT_QUEUE {
            Kick::Ignore
        } else if !has_memory {
            Kick::NoMemory
        } else {
            Kick::Serve
        }),
{
    if queue as usize >= NUM_QUEUES {
        Kick::Unknown
    } else if queue as usize == EVENT_QUEUE {
        Kick::Ignore
    } else if !has_memory {
        Kick::NoMemory
    } else {
        Kick::Serve
    }
}

/// Only the control queue is ever served.
pub proof fn law_only_the_control_queue_is_served(queue: u16)
    ensures
        queue < NUM_QUEUES && queue != EVENT_QUEUE <==> queue == CONTROL_QUEUE,
{
}

} // verus!
