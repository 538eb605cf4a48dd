//! Guest handles and the host descriptors they stand for.
//!
//! The table numbers descriptors and forgets them; opening and closing them is left to whoever
//! holds them, so `remove` and `drain_all` hand back what is to be closed.
use crate::error::{DeviceError, Result};
use std::collections::HashMap;
use vstd::prelude::*;
use vstd::std_specs::iter::IteratorSpec;

verus! {

broadcast use vstd::std_specs::hash::group_hash_axioms;

pub struct HandleTable {
    /// Next handle value to issue. Monotonically increasing so a stale handle from a crashed guest
    /// cannot alias a new handle.
    next: u64,
    /// Guest handle to host descriptor.
    table: HashMap<u64, i32>,
}

impl HandleTable {
    /// The handle that the next insertion gives out.
    pub closed spec fn spec_next(&self) -> u64 {
        self.next
    }

    /// The open handles and the descriptor behind each.
    pub closed spec fn view(&self) -> Map<u64, i32> {
        self.table@
    }

    /// Zero is no handle, and no handle is open that has not been given out.
    pub open spec fn wf(&self) -> bool {
        &&& 0 < self.spec_next()
        &&& self@.dom().finite()
        &&& forall|h: u64| #[trigger] self@.contains_key(h) ==> 0 < h < self.spec_next()
    }

    pub fn new() -> (r: Self)
        ensures
            r.wf(),
            r@ == Map::<u64, i32>::empty(),
            r.spec_next() == 1,
    {
        HandleTable { next: 1, table: HashMap::new() }
    }

    /// Whether every handle has been given out.
    pub fn exhausted(&self) -> (r: bool)
        ensures
            r == (self.spec_next() == u64::MAX),
    {
        self.next == u64::MAX
    }

    /// Insert a descriptor and return the new guest handle.
    pub fn insert(&mut self, fd: i32) -> (handle: u64)
        requires
            old(self).wf(),
            old(self).spec_next() < u64::MAX,
        ensures
            final(self).wf(),
            handle == old(self).spec_next(),
            !old(self)@.contains_key(handle),
            final(self)@ == old(self)@.insert(handle, fd),
            final(self).spec_next() == old(self).spec_next() + 1,
    {
        let handle: u64 = self.next;
        self.next = self.next + 1;
        self.table.insert(handle, fd);
        handle
    }

    /// The descriptor behind `handle`.
    pub fn get_raw(&self, handle: u64) -> (r: Result<i32>)
        ensures
            r == (if self@.contains_key(handle) {
                Ok::<i32, DeviceError>(self@[handle])
            } else {
                Err(DeviceError::BadHandle(handle))
            }),
    {
        match self.table.get(&handle) {
            Some(fd) => Ok(*fd),
            None => Err(DeviceError::BadHandle(handle)),
        }
    }

    /// Forget `handle` and give back its descriptor, to be closed.
    pub fn remove(&mut self, handle: u64) -> (r: Result<i32>)
        requires
            old(self).wf(),
        ensures
            final(self).wf(),
            final(self)@ == old(self)@.remove(handle),
            final(self).spec_next() == old(self).spec_next(),
            r == (if old(self)@.contains_key(handle) {
                Ok::<i32, DeviceError>(old(self)@[handle])
            } else {
                Err(DeviceError::BadHandle(handle))
            }),
    {
        match self.table.remove(&handle) {
            Some(fd) => Ok(fd),
            None => {
                assert(self@ =~= old(self)@);
                Err(DeviceError::BadHandle(handle))
            },
        }
    }

    /// Empty the table (teardown or crash recovery) and give back every descriptor, to be closed.
    ///
    /// The numbering starts over, so the table can serve a new guest.
    pub fn drain_all(&mut self) -> (fds: Vec<i32>)
        requires
            old(self).wf(),
        ensures
            final(self).wf(),
            final(self)@ == Map::<u64, i32>::empty(),
            final(self).spec_next() == 1,
            lists_values(fds@, old(self)@),
    {
        let mut fds: Vec<i32> = Vec::new();
        let ghost mut keys: Seq<u64> = Seq::empty();
        let listed = self.table.keys();
        let ghost all = IteratorSpec::remaining(&listed).unref();
        for k in it: listed
            invariant
                it.seq().unref() == all,
                self.table@ == old(self).table@,
                it.seq().unref().to_set() == self.table@.dom(),
                it.seq().no_duplicates(),
                keys == it.seq().unref().take(it.index()),
                fds@ == keys.map_values(|k: u64| self.table@[k]),
        {
            proof {
                assert(it.seq().unref()[it.index()] == *k);
                assert(it.seq().unref().to_set().contains(*k));
                keys = keys.push(*k);
                assert(keys =~= it.seq().unref().take(it.index() + 1));
            }
            if let Some(fd) = self.table.get(k) {
                fds.push(*fd);
            }
            assert(fds@ =~= keys.map_values(|k: u64| self.table@[k]));
        }
        proof {
            assert(keys =~= all);
            assert(keys.to_set() =~= old(self)@.dom());
            assert(keys.no_duplicates());
        }
        self.table.clear();
        self.next = 1;
        fds
    }

    /// Number of open handles.
    pub fn len(&self) -> (r: usize)
        ensures
            r == self@.len(),
    {
        self.table.len()
    }

    pub fn is_empty(&self) -> (r: bool)
        ensures
            r == self@.is_empty(),
    {
        self.table.is_empty()
    }
}

/// `values` holds the value of each key of `m` once, in some order.
pub open spec fn lists_values<V>(values: Seq<V>, m: Map<u64, V>) -> bool {
    exists|keys: Seq<u64>|
        #![trigger keys.to_set()]
        keys.no_duplicates() && keys.to_set() == m.dom() && values == keys.map_values(|k: u64| m[k])
}

impl Default for HandleTable {
    fn default() -> (r: Self)
        ensures
            r.wf(),
            r@ == Map::<u64, i32>::empty(),
            r.spec_next() == 1,
    {
        Self::new()
    }
}

} // verus!
