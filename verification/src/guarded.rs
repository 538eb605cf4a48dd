//! A buffer the host driver writes into, with a guard page behind it.
//!
//! When a size is wrong the driver writes past the end of the buffer it was handed. Placing an
//! unmapped page behind the buffer turns that into a fault on the offending write. A page of
//! readable slack comes first, standing in for the caller's own memory: a driver that touches a few
//! bytes past the declared size would have found memory there.
use vstd::prelude::*;

verus! {

pub const PAGE: usize = 4096;

/// Readable bytes after the buffer, standing in for the caller's own memory.
pub const SLACK: usize = 4096;

/// How a guarded buffer lies in its mapping: the bytes from `offset` on, slack behind them, and
/// the guard in the last page.
#[derive(Clone, Copy, Debug, PartialEq, Eq, Structural)]
pub struct GuardedBuf {
    pub mapped: usize,
    pub offset: usize,
    pub len: usize,
}

/// The pages that the buffer and its slack take.
pub open spec fn pages_for(len: int) -> int {
    (len + SLACK + PAGE - 1) / PAGE as int
}

impl GuardedBuf {
    pub open spec fn wf(&self) -> bool {
        &&& self.len > 0
        &&& self.offset == 0
        &&& self.mapped == (pages_for(self.len as int) + 1) * PAGE
    }

    /// The layout of a buffer of `len` bytes. There is none for no bytes, nor for more than can be
    /// mapped.
    pub fn new(len: usize) -> (r: Option<Self>)
        ensures
            match r {
                Some(b) => b.wf() && b.len == len,
                None => len == 0 || (pages_for(len as int) + 1) * PAGE > usize::MAX,
            },
    {
        if len == 0 || len > usize::MAX - (SLACK + PAGE - 1) {
            return None;
        }
        let pages: usize = (len + SLACK + (PAGE - 1)) / PAGE;
        if pages > usize::MAX / PAGE - 1 {
            return None;
        }
        let mapped: usize = (pages + 1) * PAGE;
        Some(GuardedBuf { mapped, offset: 0, len })
    }

    /// Where the guard page begins.
    pub fn guard(&self) -> (r: usize)
        requires
            self.wf(),
        ensures
            r == self.mapped - PAGE,
            r >= self.offset + self.len + SLACK,
            r as int % PAGE as int == 0,
    {
        self.mapped - PAGE
    }

    pub fn len(&self) -> (r: usize)
        ensures
            r == self.len,
    {
        self.len
    }

    pub fn is_empty(&self) -> (r: bool)
        ensures
            r == (self.len == 0),
    {
        self.len == 0
    }
}

} // verus!
