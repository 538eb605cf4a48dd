//! What the backend asks of the host, and what it is told in return.
//!
//! The backend decides; whoever runs it opens, calls, maps and closes. Serving a message is a
//! conversation: each `Step` is either the finished answer or one `Action` to perform, and the
//! outcome of the action goes back as an `Event`.
use crate::abi::AbiCheck;
use crate::bytes::{put_u64, with_u64};
use crate::files::{FileTree, HostFile};
use crate::shm::ShmRegion;
use vstd::prelude::*;

verus! {

/// One host ioctl, with the blocks its parameters point at.
pub struct HostCall {
    pub fd: i32,
    pub request: u64,
    /// How the call stands to the host's ABI profile.
    pub check: AbiCheck,
    /// The parameter struct.
    pub data: Vec<u8>,
    /// What the pointer inside `data` points at.
    pub nested: Vec<u8>,
    /// Where in `data` the address of `nested` belongs.
    pub nested_ptr: Option<usize>,
    /// What the pointer inside `nested` points at.
    pub deep: Vec<u8>,
    /// Where in `nested` the address of `deep` belongs.
    pub deep_ptr: Option<usize>,
}

/// What a `HostCall` holds.
#[verifier::ext_equal]
pub struct CallView {
    pub fd: i32,
    pub request: u64,
    pub check: AbiCheck,
    pub data: Seq<u8>,
    pub nested: Seq<u8>,
    pub nested_ptr: Option<usize>,
    pub deep: Seq<u8>,
    pub deep_ptr: Option<usize>,
}

impl View for HostCall {
    type V = CallView;

    open spec fn view(&self) -> CallView {
        CallView {
            fd: self.fd,
            request: self.request,
            check: self.check,
            data: self.data@,
            nested: self.nested@,
            nested_ptr: self.nested_ptr,
            deep: self.deep@,
            deep_ptr: self.deep_ptr,
        }
    }
}

impl CallView {
    /// The pointers lie inside the blocks that hold them.
    pub open spec fn wf(self) -> bool {
        &&& self.nested_ptr matches Some(p) ==> p + 8 <= self.data.len()
        &&& self.deep_ptr matches Some(p) ==> p + 8 <= self.nested.len()
    }

    /// A call whose parameters hold no pointer.
    pub open spec fn flat(fd: i32, request: u64, check: AbiCheck, data: Seq<u8>) -> CallView {
        CallView {
            fd,
            request,
            check,
            data,
            nested: Seq::empty(),
            nested_ptr: None,
            deep: Seq::empty(),
            deep_ptr: None,
        }
    }

    /// The call once its blocks stand at the given addresses.
    pub open spec fn linked(self, nested_addr: u64, deep_addr: u64) -> CallView {
        CallView {
            data: match self.nested_ptr {
                Some(p) => with_u64(self.data, p as int, nested_addr),
                None => self.data,
            },
            nested: match self.deep_ptr {
                Some(p) => with_u64(self.nested, p as int, deep_addr),
                None => self.nested,
            },
            ..self
        }
    }
}

impl HostCall {
    /// A call whose parameters hold no pointer.
    pub fn flat(fd: i32, request: u64, check: AbiCheck, data: Vec<u8>) -> (r: Self)
        ensures
            r@ == CallView::flat(fd, request, check, data@),
            r@.wf(),
    {
        HostCall {
            fd,
            request,
            check,
            data,
            nested: Vec::new(),
            nested_ptr: None,
            deep: Vec::new(),
            deep_ptr: None,
        }
    }

    /// Write the addresses of the blocks where the host will look for them.
    pub fn link(&mut self, nested_addr: u64, deep_addr: u64)
        requires
            old(self)@.wf(),
        ensures
            final(self)@ == old(self)@.linked(nested_addr, deep_addr),
    {
        if let Some(p) = self.nested_ptr {
            put_u64(&mut self.data, p, nested_addr);
        }
        if let Some(p) = self.deep_ptr {
            put_u64(&mut self.nested, p, deep_addr);
        }
    }
}

/// Something for the host to do.
pub enum Action {
    /// Open the device at this path for reading and writing.
    Open(String),
    /// Call into the driver.
    Ioctl(HostCall),
    /// Map `length` bytes of `fd` over the window at `offset`.
    Place { offset: u64, length: u64, fd: i32 },
    /// Put the window's own memory back under each of these regions.
    Restore(Vec<ShmRegion>),
    /// Read the files of a tree.
    Collect(FileTree),
}

/// How an action went. A failure carries its errno.
pub enum Event {
    Opened(core::result::Result<i32, i32>),
    /// The blocks of the call, as the host left them.
    Returned {
        result: core::result::Result<(), i32>,
        data: Vec<u8>,
        nested: Vec<u8>,
        deep: Vec<u8>,
    },
    Placed(core::result::Result<(), i32>),
    /// For each region, whether its memory is back.
    Restored(Vec<bool>),
    Collected(Vec<HostFile>),
}

/// The next move in serving a message.
pub enum Step {
    /// The message is served: close these descriptors and send the response.
    Done { resp: Vec<u8>, close: Vec<i32> },
    /// Perform the action and hand its event back.
    Do(Action),
}

} // verus!
