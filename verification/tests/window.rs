//! The window's zones, the handle table and the mapping table.
use virtio_nvgpu::error::{DeviceError, IoError};
use virtio_nvgpu::guarded::{GuardedBuf, PAGE, SLACK};
use virtio_nvgpu::handle_table::HandleTable;
use virtio_nvgpu::mapping::zone_for;
use virtio_nvgpu::mmap::{MmapContext, MmapEntry};
use virtio_nvgpu::shm::{PgprotKind, ShmAllocator, ShmRegion, ZoneConfig};
use virtio_nvgpu::zone::{align_up, Zone};

fn small_alloc() -> ShmAllocator {
    ShmAllocator::new(ZoneConfig {
        uc_size: 4096 * 2,
        wc_size: 4096 * 4,
        wb_size: 4096 * 2,
    })
}

#[test]
fn zones_dont_overlap() {
    let a = small_alloc();
    assert_eq!(a.uc_zone_offset() + 4096 * 2, a.wc_zone_offset());
    assert_eq!(a.wc_zone_offset() + 4096 * 4, a.wb_zone_offset());
}

#[test]
fn alloc_correct_zone() {
    let mut a = small_alloc();
    let uc = a.allocate(100, PgprotKind::Uncached).unwrap();
    let wc = a.allocate(100, PgprotKind::WriteCombine).unwrap();
    let wb = a.allocate(100, PgprotKind::WriteBack).unwrap();

    assert_eq!(uc.offset, a.uc_zone_offset());
    assert_eq!(wc.offset, a.wc_zone_offset());
    assert_eq!(wb.offset, a.wb_zone_offset());
}

#[test]
fn alloc_respects_page_alignment() {
    let mut a = small_alloc();
    let r1 = a.allocate(1, PgprotKind::WriteBack).unwrap();
    let r2 = a.allocate(1, PgprotKind::WriteBack).unwrap();
    assert_eq!(r2.offset - r1.offset, 4096);
}

#[test]
fn zone_full_returns_error() {
    let mut a = small_alloc();
    a.allocate(4096 * 2, PgprotKind::Uncached).unwrap();
    assert!(a.allocate(1, PgprotKind::Uncached).is_err());
    assert!(a.allocate(4096, PgprotKind::WriteCombine).is_ok());
}

#[test]
fn freeing_twice_is_rejected() {
    let mut shm = ShmAllocator::with_default_zones();
    let region = shm.allocate(65536, PgprotKind::WriteCombine).expect("alloc");
    shm.free(&region).expect("first free");
    assert!(shm.free(&region).is_err(), "second free must be rejected");
}

#[test]
fn the_window_is_as_large_as_its_zones() {
    assert_eq!(small_alloc().total_size(), 4096 * 8);
    assert_eq!(ShmAllocator::with_default_zones().total_size(), 1 << 30);
    assert_eq!(ZoneConfig::default_1gib().total(), 1 << 30);
    assert_eq!(ZoneConfig::default_256mib().total(), 256 << 20);
    assert_eq!(ZoneConfig::default_256mib().wc_size, 128 << 20);
}

#[test]
fn page_protections_have_their_numbers() {
    for (v, k) in [
        (0, PgprotKind::WriteBack),
        (1, PgprotKind::WriteCombine),
        (2, PgprotKind::Uncached),
    ] {
        assert_eq!(PgprotKind::from_u8(v), Some(k));
        assert_eq!(k.to_u8(), v);
    }
    assert_eq!(PgprotKind::from_u8(3), None);
}

#[test]
fn rounding_goes_up_and_never_wraps() {
    assert_eq!(align_up(0, 4096), 0);
    assert_eq!(align_up(1, 4096), 4096);
    assert_eq!(align_up(4096, 4096), 4096);
    assert_eq!(align_up(4097, 4096), 8192);
    assert_eq!(align_up(u64::MAX - 4095, 4096), u64::MAX - 4095);
    assert_eq!(align_up(u64::MAX - 4094, 4096), 0);
    assert_eq!(align_up(u64::MAX, 4096), 0);
}

#[test]
fn allocation_is_first_fit_and_freeing_coalesces() {
    let mut z = Zone::new(0x1000_0000, 4096 * 8);
    let a = z.allocate(4096).unwrap();
    let b = z.allocate(8192).unwrap();
    let c = z.allocate(4096).unwrap();
    assert_eq!([a, b, c], [0x1000_0000, 0x1000_1000, 0x1000_3000]);
    assert!(z.free_extent(a, 4096));
    assert!(z.free_extent(c, 4096));
    assert_eq!(z.extents(), 2, "c joins the tail, a stands alone");
    assert_eq!(z.free_bytes(), 4096 * 6);
    assert_eq!(z.largest_free(), 4096 * 5);
    // The first extent that fits, not the best one.
    assert_eq!(z.allocate(1), Some(a));
    assert!(z.free_extent(a, 1));
    assert_eq!(z.allocate(8192), Some(c));
    assert!(z.free_extent(c, 8192));
    assert!(z.free_extent(b, 8192));
    assert_eq!(z.extents(), 1);
    assert_eq!(z.largest_free(), 4096 * 8);
    assert_eq!((z.base(), z.size()), (0x1000_0000, 4096 * 8));
}

#[test]
fn what_was_not_taken_cannot_be_freed() {
    let mut z = Zone::new(4096, 4096 * 4);
    assert!(!z.free_extent(4096, 4096), "free already");
    let a = z.allocate(8192).unwrap();
    assert!(!z.free_extent(0, 4096), "below the zone");
    assert!(!z.free_extent(a, 4096 * 8), "past the zone");
    assert!(!z.free_extent(a, 4096 * 3), "runs into what is free");
    assert!(!z.free_extent(a, 0), "nothing");
    assert!(!z.free_extent(a, u64::MAX), "more than a number holds");
    assert!(!z.free_extent(u64::MAX, 4096));
    assert!(z.free_extent(a + 4096, 4096), "half of it");
    assert!(z.free_extent(a, 4096));
    assert!(z.allocate(0).is_none());
    assert!(z.allocate(u64::MAX).is_none());
    assert!(z.allocate(4096 * 5).is_none());
    assert!(z.allocate(4096 * 4).is_some());
}

#[test]
fn cycles_in_any_order_return_every_byte_and_do_not_fragment() {
    let mut shm = ShmAllocator::with_default_zones();
    let free = shm.free_bytes();
    let largest = shm.largest_free();
    for round in 0..20u64 {
        let mut live: Vec<ShmRegion> = Vec::new();
        for i in 0..60u64 {
            let kind = match i % 3 {
                0 => PgprotKind::WriteCombine,
                1 => PgprotKind::Uncached,
                _ => PgprotKind::WriteBack,
            };
            live.push(shm.allocate(1 + i * 7919 % 300_000, kind).expect("room"));
            if i % 4 == 3 {
                let k = (i * 31 + round) as usize % live.len();
                let r = live.swap_remove(k);
                shm.free(&r).expect("held");
            }
        }
        while !live.is_empty() {
            let k = (round as usize * 17 + 5) % live.len();
            let r = live.swap_remove(k);
            shm.free(&r).expect("held");
        }
        assert_eq!(shm.free_bytes(), free);
        assert_eq!(shm.largest_free(), largest);
    }
}

#[test]
fn allocations_that_are_held_share_no_byte() {
    let mut shm = ShmAllocator::with_default_zones();
    let mut live: Vec<ShmRegion> = Vec::new();
    for i in 0..40u64 {
        live.push(shm.allocate(4096 + i * 5000, PgprotKind::WriteCombine).expect("room"));
    }
    for (i, a) in live.iter().enumerate() {
        for b in &live[i + 1..] {
            let (a_end, b_end) = (
                a.offset + align_up(a.length, 4096),
                b.offset + align_up(b.length, 4096),
            );
            assert!(a_end <= b.offset || b_end <= a.offset);
        }
    }
}

#[test]
fn a_completed_run_leaves_no_trace_from_any_state() {
    let mut a = ShmAllocator::with_default_zones();
    assert_eq!(a.free_bytes(), (32 << 20, 768 << 20, 224 << 20));
    // A state with holes in it.
    let kept: Vec<ShmRegion> =
        (1..9).map(|n| a.allocate(n * 5000, PgprotKind::WriteCombine).unwrap()).collect();
    for r in kept.iter().step_by(2) {
        a.free(r).unwrap();
    }
    a.allocate(1 << 20, PgprotKind::WriteBack).unwrap();
    let (free, largest) = (a.free_bytes(), a.largest_free());
    let mut live: Vec<ShmRegion> = Vec::new();
    for n in 0..40u64 {
        let zone = [PgprotKind::WriteCombine, PgprotKind::WriteBack, PgprotKind::Uncached][n as usize % 3];
        let before = (a.free_bytes(), a.largest_free());
        live.push(a.allocate(1 + n * 3001 % 50_000, zone).unwrap());
        if zone == PgprotKind::WriteBack {
            assert_eq!(a.free_bytes().0, before.0 .0);
            assert_eq!(a.free_bytes().1, before.0 .1);
            assert_eq!(a.largest_free().1, before.1 .1);
        }
        if n % 4 == 3 {
            let r = live.remove((n as usize * 7) % live.len());
            a.free(&r).unwrap();
        }
        let held: u64 = live.iter().map(|r| align_up(r.length, 4096)).sum();
        let now = a.free_bytes();
        assert_eq!(now.0 + now.1 + now.2 + held, free.0 + free.1 + free.2);
        for (i, r) in live.iter().enumerate() {
            assert_eq!(r.offset % 4096, 0);
            for s in &live[i + 1..] {
                assert!(
                    r.offset + align_up(r.length, 4096) <= s.offset
                        || s.offset + align_up(s.length, 4096) <= r.offset
                );
            }
        }
    }
    while !live.is_empty() {
        let r = live.remove(live.len() / 2);
        a.free(&r).unwrap();
    }
    assert_eq!((a.free_bytes(), a.largest_free()), (free, largest));
}

#[test]
fn errors_say_what_happened() {
    let mut a = small_alloc();
    let full = a.allocate(4096 * 3, PgprotKind::Uncached).unwrap_err();
    assert_eq!(
        full.to_string(),
        "I/O error: SHM Uncached zone cannot satisfy 12288 bytes: 8192 free in total but largest \
         contiguous extent is 8192 (1 free extents)"
    );
    let r = ShmRegion { offset: 0x2000, length: 5000, pgprot: PgprotKind::WriteCombine };
    let bad = a.free(&r).unwrap_err();
    assert_eq!(
        bad,
        DeviceError::Io(IoError::InvalidInput {
            pgprot: PgprotKind::WriteCombine,
            offset: 0x2000,
            length: 8192
        })
    );
    assert_eq!(
        bad.to_string(),
        "I/O error: SHM free of WriteCombine region at 0x2000+0x2000 is out of range or already free"
    );
    let wb = ShmRegion { offset: 0x6000, length: u64::MAX, pgprot: PgprotKind::WriteBack };
    assert_eq!(
        a.free(&wb).unwrap_err().to_string(),
        "I/O error: SHM free of WriteBack region at 0x6000+0x0 is out of range or already free"
    );
    assert_eq!(DeviceError::BadHandle(12).to_string(), "unknown guest handle 12");
    assert_eq!(DeviceError::UnknownMsgType(8).to_string(), "unknown message type 8");
    assert_eq!(DeviceError::InvalidDeviceKind(300).to_string(), "invalid device kind 300");
    assert_eq!(DeviceError::GpuIndexOutOfRange(9).to_string(), "GPU index 9 out of range");
    assert_eq!(
        DeviceError::BufferTooSmall { need: 28, have: 16 }.to_string(),
        "descriptor buffer too small: need 28, have 16"
    );
    assert_eq!(DeviceError::Io(IoError::Os(-5)).to_string(), "I/O error: os error -5");
    assert_eq!(DeviceError::Io(IoError::Os(19)).to_string(), "I/O error: os error 19");
}

#[test]
fn insert_get_remove() {
    let mut t = HandleTable::new();
    let h = t.insert(100);
    assert!(h > 0);
    assert!(t.get_raw(h).is_ok());
    assert!(t.remove(h).is_ok());
    assert!(matches!(t.get_raw(h), Err(DeviceError::BadHandle(_))));
}

#[test]
fn handles_are_unique() {
    let mut t = HandleTable::new();
    let h1 = t.insert(100);
    let h2 = t.insert(101);
    assert_ne!(h1, h2);
}

#[test]
fn drain_all_empties_table() {
    let mut t = HandleTable::new();
    t.insert(100);
    t.insert(101);
    t.insert(102);
    assert_eq!(t.len(), 3);
    let mut fds = t.drain_all();
    assert_eq!(t.len(), 0);
    fds.sort();
    assert_eq!(fds, [100, 101, 102]);
}

#[test]
fn drain_all_resets_counter() {
    let mut t = HandleTable::new();
    t.insert(100);
    t.insert(101);
    t.drain_all();
    let h = t.insert(102);
    assert_eq!(h, 1, "counter should reset after drain_all");
}

#[test]
fn stale_handle_after_drain_is_rejected() {
    let mut t = HandleTable::new();
    let h = t.insert(100);
    t.drain_all();
    assert!(matches!(t.get_raw(h), Err(DeviceError::BadHandle(_))));
}

#[test]
fn a_closed_handle_is_not_given_out_again() {
    let mut t = HandleTable::default();
    assert!(t.is_empty());
    let h = t.insert(5);
    assert_eq!(t.remove(h).unwrap(), 5);
    assert_eq!(t.remove(h), Err(DeviceError::BadHandle(h)));
    assert_ne!(t.insert(5), h);
    assert!(!t.exhausted());
}

fn entry(offset: u64, fd: u64, client: u32, memory: u32) -> MmapEntry {
    MmapEntry {
        host_p_linear_address: 0x7000_0000 + offset,
        shm_length: 4096,
        h_client: client,
        h_memory: memory,
        map_fd_handle: fd,
        region: ShmRegion { offset, length: 4096, pgprot: PgprotKind::WriteCombine },
    }
}

#[test]
fn mappings_are_found_by_offset_descriptor_and_object() {
    let mut m = MmapContext::new();
    assert!(m.is_empty());
    m.insert(0, entry(0, 7, 1, 2));
    m.insert(4096, entry(4096, 8, 1, 3));
    m.insert(8192, entry(8192, 7, 1, 4));
    assert_eq!(m.len(), 3);
    assert_eq!(m.find_by_offset(4096), Some(&entry(4096, 8, 1, 3)));
    assert_eq!(m.find_by_offset(1), None);
    assert_eq!(m.find_by_fd_handle(8), Some(&entry(4096, 8, 1, 3)));
    assert_eq!(m.find_by_fd_handle(9), None);
    assert!(m.fd_has_mapping(7));
    assert!(!m.fd_has_mapping(9));
    assert_eq!(m.find_by_object(1, 4), Some(&entry(8192, 7, 1, 4)));
    assert_eq!(m.find_by_object(2, 4), None);
    let mut taken = m.take_for_fd(7);
    taken.sort_by_key(|e| e.region.offset);
    assert_eq!(taken, [entry(0, 7, 1, 2), entry(8192, 7, 1, 4)]);
    assert_eq!(m.len(), 1);
    assert_eq!(m.remove(4096), Some(entry(4096, 8, 1, 3)));
    assert_eq!(m.remove(4096), None);
    m.insert(0, entry(0, 7, 1, 2));
    assert_eq!(m.drain(), [entry(0, 7, 1, 2)]);
    assert!(MmapContext::default().is_empty());
}

#[test]
fn the_caching_type_chooses_the_zone() {
    for (caching, kind) in [
        (0u32, PgprotKind::WriteBack),
        (1, PgprotKind::Uncached),
        (2, PgprotKind::WriteCombine),
        (3, PgprotKind::Uncached),
        (4, PgprotKind::Uncached),
        (5, PgprotKind::WriteBack),
        (6, PgprotKind::WriteCombine),
        (7, PgprotKind::Uncached),
    ] {
        assert_eq!(zone_for(caching << 23), kind);
        assert_eq!(zone_for(caching << 23 | 0xfc7f_ffff), kind);
    }
}

#[test]
fn a_gross_overrun_still_has_a_guard_behind_it() {
    let b = GuardedBuf::new(100).expect("mapped");
    let guard = b.mapped - PAGE;
    assert!(guard > 100 + SLACK - PAGE);
}

#[test]
fn zero_length_has_no_buffer() {
    assert!(GuardedBuf::new(0).is_none());
}

#[test]
fn a_guarded_buffer_has_its_slack_before_the_guard() {
    let b = GuardedBuf::new(4096).expect("mapped");
    assert_eq!(b.mapped, 3 * 4096);
    assert_eq!(b.guard(), 2 * 4096);
    assert_eq!(b.len(), 4096);
    assert!(!b.is_empty());
    let b = GuardedBuf::new(4097).expect("mapped");
    assert_eq!(b.mapped, 4 * 4096);
    assert!(GuardedBuf::new(usize::MAX).is_none());
}
