//! Driver versions and ABI tables.
use virtio_nvgpu::abi::{AbiCheck, AbiPolicy};
use virtio_nvgpu::ioctl::{
    _IO, _IOC, _IOR, _IOW, _IOWR, NV_ESC_ALLOC_OS_EVENT, NV_ESC_ATTACH_GPUS_TO_FD,
    NV_ESC_CARD_INFO, NV_ESC_CHECK_VERSION_STR, NV_ESC_FREE_OS_EVENT, NV_ESC_REGISTER_FD,
    NV_ESC_RM_ALLOC, NV_ESC_RM_ALLOC_CONTEXT_DMA2, NV_ESC_RM_ALLOC_MEMORY, NV_ESC_RM_CONTROL,
    NV_ESC_RM_DUP_OBJECT, NV_ESC_RM_FREE, NV_ESC_RM_IDLE_CHANNELS, NV_ESC_RM_MAP_MEMORY,
    NV_ESC_RM_MAP_MEMORY_DMA, NV_ESC_RM_UNMAP_MEMORY, NV_ESC_RM_UNMAP_MEMORY_DMA,
    NV_ESC_RM_UPDATE_DEVICE_MAPPING_INFO, NV_ESC_RM_VID_HEAP_CONTROL, NV_ESC_SYS_PARAMS,
    NV_ESC_WAIT_OPEN_COMPLETE,
};
use virtio_nvgpu::nvidia::NvidiaBackend;
use virtio_nvgpu::text::is_space;
use virtio_nvgpu::types::{NvHandle, NvStatus};
use virtio_nvgpu::version::DriverVersion;
use virtio_nvgpu::versions::{is_supported, lookup, supported, table_for, IoctlKind};
use virtio_nvgpu::versions::{v535_129_03, v580_178_04, v595_58_03};

#[test]
fn round_trip() {
    let v = DriverVersion::new(535, 129, 3);
    assert_eq!(v.to_string(), "535.129.03");
}

#[test]
fn parse_ok() {
    assert_eq!(
        DriverVersion::parse("535.129.03"),
        Some(DriverVersion::new(535, 129, 3))
    );
}

#[test]
fn versions_parse_as_numbers_do() {
    assert_eq!(DriverVersion::parse("  580.178.04\n"), Some(DriverVersion::new(580, 178, 4)));
    assert_eq!(DriverVersion::parse("\u{a0}1.2.3\u{3000}"), Some(DriverVersion::new(1, 2, 3)));
    assert_eq!(DriverVersion::parse("+1.+2.+3"), Some(DriverVersion::new(1, 2, 3)));
    assert_eq!(
        DriverVersion::parse("4294967295.0.0"),
        Some(DriverVersion::new(u32::MAX, 0, 0))
    );
    assert_eq!(DriverVersion::parse("4294967296.0.0"), None);
    assert_eq!(DriverVersion::parse("1.2"), None);
    assert_eq!(DriverVersion::parse("1.2.3.4"), None);
    assert_eq!(DriverVersion::parse("1..3"), None);
    assert_eq!(DriverVersion::parse("1.-2.3"), None);
    assert_eq!(DriverVersion::parse("1. 2.3"), None);
    assert_eq!(DriverVersion::parse("+.2.3"), None);
    assert_eq!(DriverVersion::parse(""), None);
    assert_eq!(DriverVersion::parse("a.b.c"), None);
}

#[test]
fn the_text_of_a_version_parses_back() {
    for v in [
        DriverVersion::new(0, 0, 0),
        DriverVersion::new(580, 178, 4),
        DriverVersion::new(1, 2, 99),
        DriverVersion::new(u32::MAX, u32::MAX, u32::MAX),
    ] {
        assert_eq!(DriverVersion::parse(&v.to_string()), Some(v));
    }
}

#[test]
fn white_space_is_that_of_unicode() {
    for n in 0..=0x10ffffu32 {
        if let Some(c) = char::from_u32(n) {
            assert_eq!(is_space(c), c.is_whitespace(), "U+{n:04X}");
        }
    }
}

#[test]
fn two_releases_are_supported_by_name() {
    assert!(is_supported(DriverVersion::new(535, 129, 3)));
    assert!(is_supported(DriverVersion::new(595, 58, 3)));
    assert!(!is_supported(DriverVersion::new(580, 178, 4)));
    assert_eq!(supported().len(), 2);
}

#[test]
fn profiles_cover_ranges() {
    let n = |v: DriverVersion| table_for(v).map(|t| t.len());
    assert_eq!(n(DriverVersion::new(535, 129, 2)), None);
    assert_eq!(n(DriverVersion::new(470, 999, 99)), None);
    assert_eq!(n(DriverVersion::new(535, 129, 3)), Some(v535_129_03::table().len()));
    assert_eq!(n(DriverVersion::new(580, 178, 3)), Some(v535_129_03::table().len()));
    assert_eq!(n(DriverVersion::new(580, 178, 4)), Some(v580_178_04::table().len()));
    assert_eq!(n(DriverVersion::new(595, 58, 2)), Some(v580_178_04::table().len()));
    assert_eq!(n(DriverVersion::new(595, 58, 3)), Some(v595_58_03::table().len()));
    assert_eq!(n(DriverVersion::new(615, 71, 9)), Some(v595_58_03::table().len()));
}

#[test]
fn tables_list_their_escapes() {
    let t = v535_129_03::table();
    assert_eq!(t.len(), 10);
    assert_eq!(t[0].number, _IOWR(NV_ESC_CHECK_VERSION_STR, 4096));
    assert_eq!(t[2].number, _IOWR(NV_ESC_REGISTER_FD, 8));
    assert_eq!(t[2].kind, IoctlKind::FdCarrying);
    assert_eq!(t[3].kind, IoctlKind::RmAlloc);
    assert_eq!(t[4].number, _IOWR(NV_ESC_RM_CONTROL, 56));
    assert_eq!(t[4].kind, IoctlKind::RmControl);
    assert_eq!(t[6].kind, IoctlKind::Mapping);
    let t = v595_58_03::table();
    assert_eq!(t.len(), 11);
    assert_eq!(t[10].escape, NV_ESC_RM_MAP_MEMORY_DMA);
    assert_eq!(t[10].param_size, Some(64));
    assert_eq!(t[10].number, 0xC040_4657);
    let t = v580_178_04::table();
    assert_eq!(lookup(&t, NV_ESC_SYS_PARAMS).expect("listed").param_size, Some(8));
    let alloc_memory = lookup(&t, NV_ESC_RM_ALLOC_MEMORY).expect("listed");
    assert_eq!(alloc_memory.param_size, Some(56));
    assert_eq!(alloc_memory.kind, IoctlKind::FdCarrying);
    let info = lookup(&t, NV_ESC_RM_UPDATE_DEVICE_MAPPING_INFO).expect("listed");
    assert_eq!(info.param_size, Some(40));
    assert!(lookup(&t, 0).is_none());
}

#[test]
fn escapes_that_a_t4_used_are_in_the_profile() {
    let t = table_for(DriverVersion::new(580, 178, 4)).expect("580.178.04 has a profile");
    let mut sized = 0;
    for escape in [
        NV_ESC_CARD_INFO,
        NV_ESC_REGISTER_FD,
        NV_ESC_ALLOC_OS_EVENT,
        NV_ESC_FREE_OS_EVENT,
        NV_ESC_CHECK_VERSION_STR,
        NV_ESC_ATTACH_GPUS_TO_FD,
        NV_ESC_SYS_PARAMS,
        NV_ESC_WAIT_OPEN_COMPLETE,
        NV_ESC_RM_ALLOC_MEMORY,
        NV_ESC_RM_FREE,
        NV_ESC_RM_CONTROL,
        NV_ESC_RM_ALLOC,
        NV_ESC_RM_DUP_OBJECT,
        NV_ESC_RM_IDLE_CHANNELS,
        NV_ESC_RM_VID_HEAP_CONTROL,
        NV_ESC_RM_MAP_MEMORY,
        NV_ESC_RM_UNMAP_MEMORY,
        NV_ESC_RM_ALLOC_CONTEXT_DMA2,
        NV_ESC_RM_MAP_MEMORY_DMA,
        NV_ESC_RM_UNMAP_MEMORY_DMA,
        NV_ESC_RM_UPDATE_DEVICE_MAPPING_INFO,
    ] {
        let entry = lookup(&t, escape).expect("listed");
        assert_eq!(entry.kind == IoctlKind::Bytes, entry.param_size.is_none(), "{escape:#x}");
        sized += entry.param_size.is_some() as usize;
    }
    assert_eq!(sized, 15);
    assert_eq!(lookup(&t, NV_ESC_RM_DUP_OBJECT).unwrap().number, 0xc000_4634);
}

#[test]
fn ioctl_numbers_are_laid_out_as_linux_does() {
    assert_eq!(_IOC(3, 0x46, 0x2a, 32), 0xc020_462a);
    assert_eq!(_IOWR(NV_ESC_RM_MAP_MEMORY, 56), 0xc038_464e);
    assert_eq!(_IO(1), 0x4601);
    assert_eq!(_IOW(1, 4), 0x4004_4601);
    assert_eq!(_IOR(1, 4), 0x8004_4601);
}

#[test]
fn nothing_is_the_null_handle_and_zero_is_success() {
    assert_eq!(NvHandle::NULL(), NvHandle(0));
    assert!(NvStatus::OK().is_ok());
    assert!(!NvStatus(0x63).is_ok());
}

/// The exact reply a Tesla T4 gave to `NV_ESC_CHECK_VERSION_STR` on driver 580.178.04.
fn t4_version_reply() -> Vec<u8> {
    let mut b = vec![0u8; 72];
    b[4] = 1;
    b[8..18].copy_from_slice(b"580.178.04");
    b
}

fn backend() -> NvidiaBackend {
    NvidiaBackend::with_default_zones()
}

#[test]
fn no_profile_before_the_version_is_known() {
    let b = backend();
    assert_eq!(b.check_abi(NV_ESC_RM_CONTROL, 32), AbiCheck::NoProfile);
}

#[test]
fn learns_the_driver_version_from_a_real_reply() {
    let mut b = backend();
    b.learn_driver_version(&t4_version_reply());
    assert_eq!(b.driver, Some(DriverVersion::new(580, 178, 4)));
    assert!(b.abi.is_some(), "580.178.04 must select a profile");
}

#[test]
fn accepts_the_sizes_the_t4_actually_sent() {
    let mut b = backend();
    b.learn_driver_version(&t4_version_reply());
    for (escape, size) in [
        (NV_ESC_RM_CONTROL, 32),
        (NV_ESC_RM_ALLOC, 48),
        (NV_ESC_RM_FREE, 16),
        (NV_ESC_RM_MAP_MEMORY, 56),
        (NV_ESC_RM_MAP_MEMORY_DMA, 64),
        (NV_ESC_RM_UNMAP_MEMORY_DMA, 48),
        (NV_ESC_RM_VID_HEAP_CONTROL, 184),
    ] {
        assert_eq!(
            b.check_abi(escape, size),
            AbiCheck::Accepted,
            "escape {escape:#04x} at {size} bytes was captured from hardware"
        );
    }
}

#[test]
fn catches_the_stale_map_memory_dma_size() {
    let mut b = backend();
    b.learn_driver_version(&t4_version_reply());
    assert_eq!(
        b.check_abi(NV_ESC_RM_MAP_MEMORY_DMA, 48),
        AbiCheck::SizeMismatch { expected: 64, actual: 48 }
    );
}

#[test]
fn variable_length_escapes_are_not_size_checked() {
    let mut b = backend();
    b.learn_driver_version(&t4_version_reply());
    assert_eq!(b.check_abi(NV_ESC_CARD_INFO, 2304), AbiCheck::VariableLength);
}

#[test]
fn a_garbled_version_string_leaves_the_backend_unconfigured() {
    let mut b = backend();
    let mut junk = vec![0u8; 72];
    junk[8..12].copy_from_slice(b"oops");
    b.learn_driver_version(&junk);
    assert!(b.driver.is_none());
    assert_eq!(b.check_abi(NV_ESC_RM_CONTROL, 32), AbiCheck::NoProfile);
}

#[test]
fn a_short_reply_is_ignored_rather_than_panicking() {
    let mut b = backend();
    b.learn_driver_version(&[0u8; 4]);
    assert!(b.driver.is_none());
}

#[test]
fn a_version_that_is_not_text_is_ignored() {
    let mut b = backend();
    let mut reply = t4_version_reply();
    reply[8] = 0xff;
    b.learn_driver_version(&reply);
    assert!(b.driver.is_none());
}

#[test]
fn the_first_version_stays() {
    let mut b = backend();
    b.learn_driver_version(&t4_version_reply());
    let mut other = vec![0u8; 72];
    other[8..18].copy_from_slice(b"535.129.03");
    b.learn_driver_version(&other);
    assert_eq!(b.driver, Some(DriverVersion::new(580, 178, 4)));
}

#[test]
fn an_old_driver_has_no_profile() {
    let mut b = backend();
    let mut reply = vec![0u8; 72];
    reply[8..17].copy_from_slice(b"470.42.01");
    b.learn_driver_version(&reply);
    assert_eq!(b.driver, Some(DriverVersion::new(470, 42, 1)));
    assert!(b.abi.is_none());
    assert_eq!(b.check_abi(NV_ESC_RM_CONTROL, 99), AbiCheck::NoProfile);
}

#[test]
fn only_enforcement_refuses_unknown_escapes() {
    let wrong = AbiCheck::SizeMismatch { expected: 64, actual: 48 };
    assert_eq!(AbiPolicy::Enforce.refusal(wrong), Some(22));
    assert_eq!(AbiPolicy::Enforce.refusal(AbiCheck::UnknownEscape), Some(25));
    assert_eq!(AbiPolicy::Enforce.refusal(AbiCheck::Accepted), None);
    assert_eq!(AbiPolicy::Enforce.refusal(AbiCheck::NoProfile), None);
    assert_eq!(AbiPolicy::Enforce.refusal(AbiCheck::VariableLength), None);
    assert_eq!(AbiPolicy::Permissive.refusal(wrong), Some(22));
    assert_eq!(AbiPolicy::Permissive.refusal(AbiCheck::UnknownEscape), None);
}
