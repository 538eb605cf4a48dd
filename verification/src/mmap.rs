//! Active guest mappings.
//!
//! One entry per live `NV_ESC_RM_MAP_MEMORY`, keyed by the window offset that was written back
//! into `pLinearAddress`. The guest library stores that value and echoes it in
//! `NV_ESC_RM_UNMAP_MEMORY`, which gives an unambiguous lookup key without handing the guest a
//! host address.
use crate::handle_table::lists_values;
use crate::shm::ShmRegion;
use std::collections::HashMap;
use vstd::prelude::*;
use vstd::std_specs::iter::IteratorSpec;

verus! {

broadcast use vstd::std_specs::hash::group_hash_axioms;

/// One live mapping.
#[derive(Clone, Copy, Debug, PartialEq, Eq, Structural)]
pub struct MmapEntry {
    /// The host's `pLinearAddress`, substituted back in on unmap.
    pub host_p_linear_address: u64,
    /// Length the guest asked for, before page rounding.
    pub shm_length: u64,
    pub h_client: u32,
    pub h_memory: u32,
    /// The guest handle whose host descriptor carries this mapping.
    ///
    /// The mapping belongs to the descriptor for the descriptor's whole life, and closing it is a
    /// perfectly normal way to release the mapping.
    pub map_fd_handle: u64,
    /// What to hand back to the window's allocator when this mapping goes away.
    pub region: ShmRegion,
}

/// Live mappings, indexed by window offset.
pub struct MmapContext {
    entries: HashMap<u64, MmapEntry>,
}

/// The part of `m` whose mappings are carried by `fd_handle`.
pub open spec fn carried_by(m: Map<u64, MmapEntry>, fd_handle: u64) -> Map<u64, MmapEntry> {
    Map::new(|k: u64| m.contains_key(k) && m[k].map_fd_handle == fd_handle, |k: u64| m[k])
}

impl MmapContext {
    pub closed spec fn view(&self) -> Map<u64, MmapEntry> {
        self.entries@
    }

    pub fn new() -> (r: Self)
        ensures
            r@ == Map::<u64, MmapEntry>::empty(),
    {
        MmapContext { entries: HashMap::new() }
    }

    pub fn insert(&mut self, shm_offset: u64, entry: MmapEntry)
        ensures
            final(self)@ == old(self)@.insert(shm_offset, entry),
    {
        self.entries.insert(shm_offset, entry);
    }

    pub fn remove(&mut self, shm_offset: u64) -> (r: Option<MmapEntry>)
        ensures
            final(self)@ == old(self)@.remove(shm_offset),
            r == (if old(self)@.contains_key(shm_offset) {
                Some(old(self)@[shm_offset])
            } else {
                None
            }),
    {
        self.entries.remove(&shm_offset)
    }

    /// The mapping at a window offset.
    pub fn find_by_offset(&self, shm_offset: u64) -> (r: Option<&MmapEntry>)
        ensures
            match r {
                Some(e) => self@.contains_key(shm_offset) && self@[shm_offset] == *e,
                None => !self@.contains_key(shm_offset),
            },
    {
        self.entries.get(&shm_offset)
    }

    /// A mapping made on a given descriptor.
    ///
    /// The guest does not quote the window offset when it maps; what identifies the mapping is the
    /// descriptor the request arrives on.
    pub fn find_by_fd_handle(&self, fd_handle: u64) -> (r: Option<&MmapEntry>)
        ensures
            match r {
                Some(e) => self@.contains_value(*e) && e.map_fd_handle == fd_handle,
                None => forall|k: u64| #[trigger]
                    self@.contains_key(k) ==> self@[k].map_fd_handle != fd_handle,
            },
    {
        let listed = self.entries.values();
        let ghost all = IteratorSpec::remaining(&listed).unref();
        for e in it: listed
            invariant
                it.seq().unref() == all,
                all.to_set() == self.entries@.values(),
                it.seq().unref().to_set() == self.entries@.values(),
                forall|i: int|
                    0 <= i < it.index() ==> (#[trigger] it.seq().unref()[i]).map_fd_handle != fd_handle,
        {
            if e.map_fd_handle == fd_handle {
                assert(it.seq().unref()[it.index()] == *e);
                assert(it.seq().unref().to_set().contains(*e));
                return Some(e);
            }
        }
        assert forall|k: u64| #[trigger] self@.contains_key(k) implies self@[k].map_fd_handle != fd_handle by {
            assert(self.entries@.values().contains(self@[k]));
            let i = choose|i: int| 0 <= i < all.len() && all[i] == self@[k];
            assert(all[i].map_fd_handle != fd_handle);
        }
        None
    }

    /// Take every mapping, leaving the table empty. Used at teardown, where a guest process that
    /// exited without unmapping is the normal case.
    pub fn drain(&mut self) -> (r: Vec<MmapEntry>)
        ensures
            final(self)@ == Map::<u64, MmapEntry>::empty(),
            lists_values(r@, old(self)@),
    {
        let mut out: Vec<MmapEntry> = Vec::new();
        let ghost mut keys: Seq<u64> = Seq::empty();
        let listed = self.entries.keys();
        let ghost all = IteratorSpec::remaining(&listed).unref();
        for k in it: listed
            invariant
                it.seq().unref() == all,
                self.entries@ == old(self).entries@,
                it.seq().unref().to_set() == self.entries@.dom(),
                it.seq().no_duplicates(),
                keys == it.seq().unref().take(it.index()),
                out@ == keys.map_values(|k: u64| self.entries@[k]),
        {
            proof {
                assert(it.seq().unref()[it.index()] == *k);
                assert(it.seq().unref().to_set().contains(*k));
                keys = keys.push(*k);
                assert(keys =~= it.seq().unref().take(it.index() + 1));
            }
            if let Some(e) = self.entries.get(k) {
                out.push(*e);
            }
            assert(out@ =~= keys.map_values(|k: u64| self.entries@[k]));
        }
        proof {
            assert(keys =~= all);
            assert(keys.to_set() =~= old(self)@.dom());
            assert(keys.no_duplicates());
        }
        self.entries.clear();
        out
    }

    pub fn len(&self) -> (r: usize)
        ensures
            r == self@.len(),
            self@.dom().finite(),
    {
        self.entries.len()
    }

    pub fn is_empty(&self) -> (r: bool)
        ensures
            r == self@.is_empty(),
    {
        self.entries.is_empty()
    }

    /// Take every mapping carried by one guest handle.
    ///
    /// Closing a device descriptor releases its mappings, and for some clients that is the only
    /// way they are ever released.
    pub fn take_for_fd(&mut self, fd_handle: u64) -> (r: Vec<MmapEntry>)
        ensures
            final(self)@ == old(self)@.remove_keys(carried_by(old(self)@, fd_handle).dom()),
            lists_values(r@, carried_by(old(self)@, fd_handle)),
    {
        let ghost mine = carried_by(old(self)@, fd_handle);
        let mut keys: Vec<u64> = Vec::new();
        let mut out: Vec<MmapEntry> = Vec::new();
        let listed = self.entries.keys();
        let ghost all = IteratorSpec::remaining(&listed).unref();
        for k in it: listed
            invariant
                it.seq().unref() == all,
                all.no_duplicates(),
                all.to_set() == self.entries@.dom(),
                self.entries@ == old(self).entries@,
                mine == carried_by(old(self)@, fd_handle),
                keys@.no_duplicates(),
                forall|i: int| 0 <= i < keys@.len() ==> mine.contains_key(#[trigger] keys@[i]),
                forall|i: int| 0 <= i < keys@.len() ==> all.take(it.index()).contains(#[trigger] keys@[i]),
                forall|j: int|
                    0 <= j < it.index() && mine.contains_key(#[trigger] all[j]) ==> keys@.contains(all[j]),
                out@ == keys@.map_values(|k: u64| mine[k]),
        {
            let ghost before = keys@;
            assert(all[it.index()] == *k);
            assert(all.to_set().contains(*k));
            assert(!keys@.contains(*k)) by {
                if keys@.contains(*k) {
                    let i = choose|i: int| 0 <= i < keys@.len() && keys@[i] == *k;
                    assert(all.take(it.index()).contains(keys@[i]));
                }
            }
            if let Some(e) = self.entries.get(k) {
                if e.map_fd_handle == fd_handle {
                    keys.push(*k);
                    out.push(*e);
                }
            }
            assert(out@ =~= keys@.map_values(|k: u64| mine[k]));
            assert(all.take(it.index() + 1) =~= all.take(it.index()).push(*k));
            assert forall|i: int| 0 <= i < keys@.len() implies all.take(it.index() + 1).contains(#[trigger] keys@[i]) by {
                if i < before.len() {
                    assert(before[i] == keys@[i]);
                    let p = choose|p: int| 0 <= p < it.index() && all.take(it.index())[p] == before[i];
                    assert(all.take(it.index() + 1)[p] == keys@[i]);
                } else {
                    assert(all.take(it.index() + 1)[it.index()] == *k);
                }
            }
            assert forall|j: int| 0 <= j < it.index() + 1 && mine.contains_key(#[trigger] all[j]) implies keys@.contains(all[j]) by {
                if j < it.index() {
                    assert(before.contains(all[j]));
                    let p = choose|p: int| 0 <= p < before.len() && before[p] == all[j];
                    assert(keys@[p] == all[j]);
                } else {
                    assert(keys@[keys@.len() - 1] == *k);
                }
            }
        }
        assert(keys@.to_set() =~= mine.dom()) by {
            assert forall|k: u64| mine.contains_key(k) implies keys@.contains(k) by {
                assert(all.to_set().contains(k));
                let j = choose|j: int| 0 <= j < all.len() && all[j] == k;
                assert(keys@.contains(all[j]));
            }
        }
        let mut i: usize = 0;
        while i < keys.len()
            invariant
                i <= keys@.len(),
                self.entries@ == old(self).entries@.remove_keys(keys@.take(i as int).to_set()),
            decreases keys.len() - i,
        {
            self.entries.remove(&keys[i]);
            assert(keys@.take(i + 1).to_set() =~= keys@.take(i as int).to_set().insert(keys@[i as int])) by {
                assert(keys@.take(i + 1) =~= keys@.take(i as int).push(keys@[i as int]));
                let t = keys@.take(i as int);
                let k = keys@[i as int];
                assert forall|x: u64| #[trigger] t.push(k).to_set().contains(x) <==> t.to_set().contains(x) || x == k by {
                    if t.contains(x) {
                        let p = choose|p: int| 0 <= p < t.len() && t[p] == x;
                        assert(t.push(k)[p] == x);
                    }
                    assert(t.push(k)[t.len() as int] == k);
                }
            }
            i = i + 1;
            assert(self.entries@ =~= old(self).entries@.remove_keys(keys@.take(i as int).to_set()));
        }
        assert(keys@.take(i as int) =~= keys@);
        assert(self@ =~= old(self)@.remove_keys(mine.dom()));
        out
    }

    /// Whether this handle already carries a mapping.
    pub fn fd_has_mapping(&self, fd_handle: u64) -> (r: bool)
        ensures
            r == exists|k: u64| #[trigger] self@.contains_key(k) && self@[k].map_fd_handle == fd_handle,
    {
        match self.find_by_fd_handle(fd_handle) {
            Some(e) => {
                assert(exists|k: u64| #[trigger] self@.contains_key(k) && self@[k] == *e);
                true
            },
            None => false,
        }
    }

    /// Find a mapping for a given client/memory pair.
    ///
    /// `NV_ESC_RM_UPDATE_DEVICE_MAPPING_INFO` sends an address the guest knows, which never
    /// matches a host address, so the host `pLinearAddress` has to be recovered by identity
    /// instead.
    pub fn find_by_object(&self, h_client: u32, h_memory: u32) -> (r: Option<&MmapEntry>)
        ensures
            match r {
                Some(e) => self@.contains_value(*e) && e.h_client == h_client && e.h_memory
                    == h_memory,
                None => forall|k: u64| #[trigger]
                    self@.contains_key(k) ==> !(self@[k].h_client == h_client && self@[k].h_memory
                        == h_memory),
            },
    {
        let listed = self.entries.values();
        let ghost all = IteratorSpec::remaining(&listed).unref();
        for e in it: listed
            invariant
                it.seq().unref() == all,
                all.to_set() == self.entries@.values(),
                forall|i: int|
                    0 <= i < it.index() ==> !((#[trigger] all[i]).h_client == h_client
                        && all[i].h_memory == h_memory),
        {
            if e.h_client == h_client && e.h_memory == h_memory {
                assert(all[it.index()] == *e);
                assert(all.to_set().contains(*e));
                return Some(e);
            }
        }
        assert forall|k: u64| #[trigger] self@.contains_key(k) implies !(self@[k].h_client == h_client
            && self@[k].h_memory == h_memory) by {
            assert(self.entries@.values().contains(self@[k]));
            let i = choose|i: int| 0 <= i < all.len() && all[i] == self@[k];
            assert(!(all[i].h_client == h_client && all[i].h_memory == h_memory));
        }
        None
    }
}

/// However it came about, a table holds finitely many mappings.
pub proof fn law_mappings_are_finite(c: MmapContext)
    ensures
        c@.dom().finite(),
{
}

impl Default for MmapContext {
    fn default() -> (r: Self)
        ensures
            r@ == Map::<u64, MmapEntry>::empty(),
    {
        Self::new()
    }
}

} // verus!
