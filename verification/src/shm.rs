//! The shared window and its page-protection zones.
use crate::error::{DeviceError, IoError, Result};
use crate::zone::{align_up, first_fit_taken, largest_len, round_up, span, total_len, Zone, PAGE_SIZE};
use vstd::prelude::*;

verus! {

#[derive(Clone, Copy, Debug, PartialEq, Eq, Structural)]
pub enum PgprotKind {
    WriteBack,
    WriteCombine,
    Uncached,
}

impl PgprotKind {
    /// The value that names the kind outside the library.
    pub open spec fn code(self) -> u8 {
        match self {
            PgprotKind::WriteBack => 0,
            PgprotKind::WriteCombine => 1,
            PgprotKind::Uncached => 2,
        }
    }

    pub open spec fn text(self) -> Seq<char> {
        match self {
            PgprotKind::WriteBack => "WriteBack"@,
            PgprotKind::WriteCombine => "WriteCombine"@,
            PgprotKind::Uncached => "Uncached"@,
        }
    }

    pub fn from_u8(v: u8) -> (r: Option<Self>)
        ensures
            match r {
                Some(k) => k.code() == v,
                None => v > 2,
            },
    {
        match v {
            0 => Some(PgprotKind::WriteBack),
            1 => Some(PgprotKind::WriteCombine),
            2 => Some(PgprotKind::Uncached),
            _ => None,
        }
    }

    pub fn to_u8(self) -> (r: u8)
        ensures
            r == self.code(),
    {
        match self {
            PgprotKind::WriteBack => 0,
            PgprotKind::WriteCombine => 1,
            PgprotKind::Uncached => 2,
        }
    }

    pub fn name(self) -> (r: &'static str)
        ensures
            r@ == self.text(),
    {
        match self {
            PgprotKind::WriteBack => "WriteBack",
            PgprotKind::WriteCombine => "WriteCombine",
            PgprotKind::Uncached => "Uncached",
        }
    }
}

#[derive(Clone, Copy, Debug, PartialEq, Eq, Structural)]
pub struct ShmRegion {
    pub offset: u64,
    pub length: u64,
    pub pgprot: PgprotKind,
}

/// How the window is split: uncached first, write-combine next, write-back last.
pub struct ZoneConfig {
    pub uc_size: u64,
    pub wc_size: u64,
    pub wb_size: u64,
}

impl ZoneConfig {
    pub open spec fn spec_total(&self) -> int {
        self.uc_size + self.wc_size + self.wb_size
    }

    /// Whether an allocator can be made of it: whole pages, and at least one of them.
    pub open spec fn usable(&self) -> bool {
        &&& self.uc_size as int % PAGE_SIZE as int == 0
        &&& self.wc_size as int % PAGE_SIZE as int == 0
        &&& self.wb_size as int % PAGE_SIZE as int == 0
        &&& 0 < self.spec_total() <= u64::MAX
    }

    /// Zone sizes chosen from measured driver behaviour: the workloads measured map into the
    /// write-combine zone alone, so it gets most of the window.
    pub fn default_1gib() -> (r: Self)
        ensures
            r.usable(),
            r.uc_size == 32 * 1024 * 1024,
            r.wc_size == 768 * 1024 * 1024,
            r.wb_size == 224 * 1024 * 1024,
    {
        ZoneConfig {
            uc_size: 32 * 1024 * 1024,
            wc_size: 768 * 1024 * 1024,
            wb_size: 224 * 1024 * 1024,
        }
    }

    /// A 256 MiB split. Too small for a single encode with any margin.
    pub fn default_256mib() -> (r: Self)
        ensures
            r.usable(),
            r.uc_size == 4 * 1024 * 1024,
            r.wc_size == 128 * 1024 * 1024,
            r.wb_size == 124 * 1024 * 1024,
    {
        ZoneConfig {
            uc_size: 4 * 1024 * 1024,
            wc_size: 128 * 1024 * 1024,
            wb_size: 124 * 1024 * 1024,
        }
    }

    pub fn total(&self) -> (r: u64)
        requires
            self.spec_total() <= u64::MAX,
        ensures
            r == self.spec_total(),
    {
        self.uc_size + self.wc_size + self.wb_size
    }
}

/// Hands out the window's offsets, zone by zone.
///
/// What is mapped at an offset is the caller's affair: it puts a host mapping over a region after
/// `allocate`, and the window's own memory back under it before `free`.
pub struct ShmAllocator {
    uc: Zone,
    wc: Zone,
    wb: Zone,
    total_size: u64,
}

impl ShmAllocator {
    /// The zone that serves `pgprot`.
    pub closed spec fn zone(&self, pgprot: PgprotKind) -> Zone {
        match pgprot {
            PgprotKind::Uncached => self.uc,
            PgprotKind::WriteCombine => self.wc,
            PgprotKind::WriteBack => self.wb,
        }
    }

    pub closed spec fn spec_total_size(&self) -> int {
        self.total_size as int
    }

    /// The zones stand side by side, in order, from the window's start to its end.
    pub open spec fn wf(&self) -> bool {
        let uc = self.zone(PgprotKind::Uncached);
        let wc = self.zone(PgprotKind::WriteCombine);
        let wb = self.zone(PgprotKind::WriteBack);
        &&& uc.wf() && wc.wf() && wb.wf()
        &&& uc.spec_base() == 0
        &&& wc.spec_base() == uc.spec_size()
        &&& wb.spec_base() == wc.spec_base() + wc.spec_size()
        &&& self.spec_total_size() == wb.spec_base() + wb.spec_size()
    }

    /// Every free extent is made of whole pages.
    pub open spec fn page_aligned(&self) -> bool {
        &&& self.zone(PgprotKind::Uncached).page_aligned()
        &&& self.zone(PgprotKind::WriteCombine).page_aligned()
        &&& self.zone(PgprotKind::WriteBack).page_aligned()
    }

    /// The free offsets of the whole window.
    pub open spec fn free_set(&self) -> Set<int> {
        self.zone(PgprotKind::Uncached).free_set().union(
            self.zone(PgprotKind::WriteCombine).free_set(),
        ).union(self.zone(PgprotKind::WriteBack).free_set())
    }

    /// Every zone but that of `pgprot` is as it was in `other`.
    pub open spec fn differs_only_in(&self, other: &Self, pgprot: PgprotKind) -> bool {
        &&& self.spec_total_size() == other.spec_total_size()
        &&& forall|k: PgprotKind| k != pgprot ==> #[trigger] self.zone(k) == other.zone(k)
    }

    pub fn new(cfg: ZoneConfig) -> (r: Self)
        requires
            cfg.usable(),
        ensures
            r.wf(),
            r.page_aligned(),
            r.spec_total_size() == cfg.spec_total(),
            r.zone(PgprotKind::Uncached).fresh(0, cfg.uc_size as int),
            r.zone(PgprotKind::WriteCombine).fresh(cfg.uc_size as int, cfg.wc_size as int),
            r.zone(PgprotKind::WriteBack).fresh(cfg.uc_size + cfg.wc_size, cfg.wb_size as int),
    {
        let total: u64 = cfg.total();
        let wc_base: u64 = cfg.uc_size;
        let wb_base: u64 = cfg.uc_size + cfg.wc_size;
        ShmAllocator {
            uc: Zone::new(0, cfg.uc_size),
            wc: Zone::new(wc_base, cfg.wc_size),
            wb: Zone::new(wb_base, cfg.wb_size),
            total_size: total,
        }
    }

    pub fn with_default_zones() -> (r: Self)
        ensures
            r.wf(),
            r.page_aligned(),
            r.spec_total_size() == 1024 * 1024 * 1024,
            r.zone(PgprotKind::Uncached).fresh(0, (32 * 1024 * 1024) as int),
            r.zone(PgprotKind::WriteCombine).fresh((32 * 1024 * 1024) as int, (768 * 1024 * 1024) as int),
            r.zone(PgprotKind::WriteBack).fresh((800 * 1024 * 1024) as int, (224 * 1024 * 1024) as int),
    {
        Self::new(ZoneConfig::default_1gib())
    }

    /// Take `length` bytes, rounded up to whole pages, from the zone of `pgprot`.
    pub fn allocate(&mut self, length: u64, pgprot: PgprotKind) -> (r: Result<ShmRegion>)
        requires
            old(self).wf(),
        ensures
            final(self).wf(),
            allocated(*old(self), length, pgprot, *final(self), r),
    {
        let found: Option<u64> = match pgprot {
            PgprotKind::Uncached => self.uc.allocate(length),
            PgprotKind::WriteCombine => self.wc.allocate(length),
            PgprotKind::WriteBack => self.wb.allocate(length),
        };
        match found {
            Some(offset) => {
                let region: ShmRegion = ShmRegion { offset, length, pgprot };
                assert(self.free_set() =~= old(self).free_set().difference(region.bytes()));
                Ok(region)
            },
            None => {
                let (free_bytes, largest_free, extents): (u64, u64, usize) = match pgprot {
                    PgprotKind::Uncached => (
                        self.uc.free_bytes(),
                        self.uc.largest_free(),
                        self.uc.extents(),
                    ),
                    PgprotKind::WriteCombine => (
                        self.wc.free_bytes(),
                        self.wc.largest_free(),
                        self.wc.extents(),
                    ),
                    PgprotKind::WriteBack => (
                        self.wb.free_bytes(),
                        self.wb.largest_free(),
                        self.wb.extents(),
                    ),
                };
                Err(
                    DeviceError::Io(
                        IoError::OutOfMemory { pgprot, length, free_bytes, largest_free, extents },
                    ),
                )
            },
        }
    }

    /// Return a region to its zone.
    ///
    /// The window's own memory must be back under the range first; doing only that would leak the
    /// address range.
    pub fn free(&mut self, region: &ShmRegion) -> (r: Result<()>)
        requires
            old(self).wf(),
        ensures
            final(self).wf(),
            freed(*old(self), *region, *final(self), r),
    {
        let len: u64 = align_up(region.length, PAGE_SIZE);
        proof {
            crate::zone::lemma_round_up(region.length as int, PAGE_SIZE as int);
            crate::zone::lemma_round_up(region.pages(), PAGE_SIZE as int);
        }
        let done: bool = if len == 0 {
            false
        } else {
            match region.pgprot {
                PgprotKind::Uncached => self.uc.free_extent(region.offset, len),
                PgprotKind::WriteCombine => self.wc.free_extent(region.offset, len),
                PgprotKind::WriteBack => self.wb.free_extent(region.offset, len),
            }
        };
        if done {
            assert(self.free_set() =~= old(self).free_set().union(region.bytes()));
            Ok(())
        } else {
            Err(
                DeviceError::Io(
                    IoError::InvalidInput {
                        pgprot: region.pgprot,
                        offset: region.offset,
                        length: len,
                    },
                ),
            )
        }
    }

    /// Free bytes remaining in each zone, as `(uc, wc, wb)`.
    pub fn free_bytes(&self) -> (r: (u64, u64, u64))
        requires
            self.wf(),
        ensures
            r.0 == total_len(self.zone(PgprotKind::Uncached).free_list()),
            r.1 == total_len(self.zone(PgprotKind::WriteCombine).free_list()),
            r.2 == total_len(self.zone(PgprotKind::WriteBack).free_list()),
    {
        (self.uc.free_bytes(), self.wc.free_bytes(), self.wb.free_bytes())
    }

    /// Largest single allocation each zone could still satisfy.
    pub fn largest_free(&self) -> (r: (u64, u64, u64))
        ensures
            r.0 == largest_len(self.zone(PgprotKind::Uncached).free_list()),
            r.1 == largest_len(self.zone(PgprotKind::WriteCombine).free_list()),
            r.2 == largest_len(self.zone(PgprotKind::WriteBack).free_list()),
    {
        (self.uc.largest_free(), self.wc.largest_free(), self.wb.largest_free())
    }

    pub fn uc_zone_offset(&self) -> (r: u64)
        ensures
            r == self.zone(PgprotKind::Uncached).spec_base(),
    {
        self.uc.base()
    }

    pub fn wc_zone_offset(&self) -> (r: u64)
        ensures
            r == self.zone(PgprotKind::WriteCombine).spec_base(),
    {
        self.wc.base()
    }

    pub fn wb_zone_offset(&self) -> (r: u64)
        ensures
            r == self.zone(PgprotKind::WriteBack).spec_base(),
    {
        self.wb.base()
    }

    pub fn total_size(&self) -> (r: u64)
        ensures
            r == self.spec_total_size(),
    {
        self.total_size
    }
}

impl ShmRegion {
    /// The bytes of the window that the region takes: its length in whole pages.
    pub open spec fn pages(&self) -> int {
        round_up(self.length as int, PAGE_SIZE as int)
    }

    /// The offsets that the region takes.
    pub open spec fn bytes(&self) -> Set<int> {
        span(self.offset as int, self.pages())
    }
}

/// What asking for `length` bytes of the zone of `pgprot` does: the first extent with room gives them
/// up, in whole pages, or nothing changes and the error says how full the zone is.
pub open spec fn allocated(
    pre: ShmAllocator,
    length: u64,
    pgprot: PgprotKind,
    post: ShmAllocator,
    r: Result<ShmRegion>,
) -> bool {
    let before = pre.zone(pgprot).free_list();
    let after = post.zone(pgprot).free_list();
    let want = round_up(length as int, PAGE_SIZE as int);
    let base = pre.zone(pgprot).spec_base();
    &&& post.differs_only_in(&pre, pgprot)
    &&& pre.page_aligned() ==> post.page_aligned()
    &&& post.zone(pgprot).same_place(pre.zone(pgprot))
    &&& match r {
        Ok(region) => {
            &&& region.length == length
            &&& region.pgprot == pgprot
            &&& first_fit_taken(before, after, want, base, Some(region.offset))
            &&& region.bytes().subset_of(pre.free_set())
            &&& post.free_set() == pre.free_set().difference(region.bytes())
            &&& pre.page_aligned() ==> region.offset as int % PAGE_SIZE as int == 0
        },
        Err(e) => {
            &&& first_fit_taken(before, after, want, base, None)
            &&& e == DeviceError::Io(
                IoError::OutOfMemory {
                    pgprot,
                    length,
                    free_bytes: total_len(before) as u64,
                    largest_free: largest_len(before) as u64,
                    extents: before.len() as usize,
                },
            )
        },
    }
}

/// What giving `region` back does: its bytes are free again, unless it is not wholly in use.
pub open spec fn freed(
    pre: ShmAllocator,
    region: ShmRegion,
    post: ShmAllocator,
    r: Result<()>,
) -> bool {
    let before = pre.zone(region.pgprot);
    let after = post.zone(region.pgprot);
    &&& post.differs_only_in(&pre, region.pgprot)
    &&& after.same_place(before)
    &&& pre.page_aligned() && region.offset as int % PAGE_SIZE as int == 0 ==> post.page_aligned()
    &&& r is Ok <==> before.returnable(region.offset as int, region.pages())
    &&& match r {
        Ok(_) => {
            &&& after.free_set() == before.free_set().union(region.bytes())
            &&& total_len(after.free_list()) == total_len(before.free_list()) + region.pages()
            &&& post.free_set() == pre.free_set().union(region.bytes())
        },
        Err(e) => {
            &&& after.free_list() == before.free_list()
            &&& e == DeviceError::Io(
                IoError::InvalidInput {
                    pgprot: region.pgprot,
                    offset: region.offset,
                    length: if region.pages() <= u64::MAX {
                        region.pages() as u64
                    } else {
                        0
                    },
                },
            )
        },
    }
}

/// No offset belongs to two zones, and every free offset lies inside the window.
pub proof fn law_zones_do_not_overlap(a: ShmAllocator, j: PgprotKind, k: PgprotKind, x: int)
    requires
        a.wf(),
        a.zone(j).free_set().contains(x),
        a.zone(k).free_set().contains(x),
    ensures
        j == k,
        0 <= x < a.spec_total_size(),
{
    let free = a.zone(j).free_list();
    let i = choose|i: int|
        0 <= i < free.len() && #[trigger] free[i].has(x - a.zone(j).spec_base());
    let other = a.zone(k).free_list();
    let m = choose|m: int|
        0 <= m < other.len() && #[trigger] other[m].has(x - a.zone(k).spec_base());
}

} // verus!
