//! Which descriptors a watcher should start and stop watching.
use vstd::prelude::*;

verus! {

/// Descriptors opened and handles closed since a watcher last asked.
///
/// A descriptor that was opened and closed again in between appears in neither list, so a watcher
/// is never handed one that is already closed.
pub struct WatchLog {
    pub added: Vec<(u32, i32)>,
    pub removed: Vec<u32>,
}

/// Where `handle` stands in `added`, or the length.
pub open spec fn added_at(added: Seq<(u32, i32)>, handle: u32) -> int
    decreases added.len(),
{
    if added.len() == 0 || added[0].0 == handle {
        0
    } else {
        1 + added_at(added.drop_first(), handle)
    }
}

impl WatchLog {
    pub fn new() -> (r: Self)
        ensures
            r.added@.len() == 0,
            r.removed@.len() == 0,
    {
        WatchLog { added: Vec::new(), removed: Vec::new() }
    }

    pub fn opened(&mut self, handle: u32, fd: i32)
        ensures
            final(self).added@ == old(self).added@.push((handle, fd)),
            final(self).removed@ == old(self).removed@,
    {
        self.added.push((handle, fd));
    }

    /// The lists after `handle` has been closed.
    pub open spec fn after_close(&self, handle: u32) -> (Seq<(u32, i32)>, Seq<u32>) {
        let i = added_at(self.added@, handle);
        if i < self.added@.len() {
            (self.added@.remove(i), self.removed@)
        } else {
            (self.added@, self.removed@.push(handle))
        }
    }

    pub fn closed(&mut self, handle: u32)
        ensures
            (final(self).added@, final(self).removed@) == old(self).after_close(handle),
    {
        let mut i: usize = 0;
        assert(self.added@.skip(0) =~= self.added@);
        while i < self.added.len() && self.added[i].0 != handle
            invariant
                self.added@ == old(self).added@,
                self.removed@ == old(self).removed@,
                i <= self.added@.len(),
                added_at(self.added@, handle) == i + added_at(self.added@.skip(i as int), handle),
            decreases self.added.len() - i,
        {
            assert(self.added@.skip(i as int).drop_first() =~= self.added@.skip(i + 1));
            i = i + 1;
        }
        if i < self.added.len() {
            assert(added_at(self.added@, handle) == i);
            self.added.remove(i);
        } else {
            self.removed.push(handle);
        }
    }

    /// Hand both lists over and start new ones.
    pub fn take(&mut self) -> (r: (Vec<(u32, i32)>, Vec<u32>))
        ensures
            r.0@ == old(self).added@,
            r.1@ == old(self).removed@,
            final(self).added@.len() == 0,
            final(self).removed@.len() == 0,
    {
        let mut added: Vec<(u32, i32)> = Vec::new();
        let mut removed: Vec<u32> = Vec::new();
        added.append(&mut self.added);
        removed.append(&mut self.removed);
        assert(added@ =~= old(self).added@);
        assert(removed@ =~= old(self).removed@);
        (added, removed)
    }
}

} // verus!
