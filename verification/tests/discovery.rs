//! Config space and what the host publishes.
use virtio_nvgpu::files::{keep, visit, EntryKind, HostFile, Visit};
use virtio_nvgpu::host::{config_path, driver_version, gpu_slots, PROC_NVIDIA};
use virtio_nvgpu::virtio::{
    fd_carrying_ioctls, FdTranslation, GpuSlot, VirtioGpuNvConfig, CONFIG_CAPS,
    CONFIG_DRIVER_VERSION, CONFIG_GPUS, CONFIG_GPU_DEVICE_IDS, CONFIG_NUM_FD_TRANSLATIONS,
    CONFIG_NUM_GPUS, CONFIG_SIZE, GPU_SLOT_SIZE, INFO_TEXT_LEN, MAX_GPUS, PCI_ADDR_LEN,
    SLOT_INFO_LEN, SLOT_INFO_TEXT, SLOT_MINOR,
};

/// A config whose every field can be told apart.
fn marked() -> VirtioGpuNvConfig {
    let mut slot = GpuSlot::new("0000:01:00.0", 0x2222_2222, "info");
    slot.padding = [0x3333_3333];
    let mut cfg = VirtioGpuNvConfig::new("615.71.09", &[slot]);
    cfg.caps = 0x4444_4444;
    cfg.gpu_device_ids[0] = 0x5555_5555;
    cfg
}

fn u32_of(b: &[u8], at: usize) -> u32 {
    u32::from_le_bytes(b[at..at + 4].try_into().unwrap())
}

#[test]
fn layout_matches_the_guest_driver() {
    assert_eq!(GpuSlot::default().to_bytes().len(), 476, "gpu_slot size mismatch");
    assert_eq!(
        VirtioGpuNvConfig::default().as_bytes().len(),
        4016,
        "config size mismatch"
    );
    assert_eq!(CONFIG_NUM_FD_TRANSLATIONS, 3880, "fd_translations offset mismatch");
    assert_eq!(GPU_SLOT_SIZE, 476);
    assert_eq!(u32_of(&marked().as_bytes(), 3880), 5);
}

#[test]
fn config_fits_in_one_page() {
    assert!(
        VirtioGpuNvConfig::default().as_bytes().len() <= 4096,
        "config is {} bytes; a guest cannot read past 4096",
        CONFIG_SIZE
    );
}

#[test]
fn field_offsets_are_where_the_driver_reads_them() {
    assert_eq!(CONFIG_DRIVER_VERSION, 0);
    assert_eq!(CONFIG_NUM_GPUS, 32);
    assert_eq!(CONFIG_CAPS, 36);
    assert_eq!(CONFIG_GPU_DEVICE_IDS, 40);
    assert_eq!(CONFIG_GPUS, 72);
    assert_eq!(SLOT_MINOR, 16);
    assert_eq!(SLOT_INFO_LEN, 20);
    assert_eq!(SLOT_INFO_TEXT, 28);
    let b = marked().as_bytes();
    assert_eq!(&b[0..9], b"615.71.09");
    assert_eq!(u32_of(&b, 32), 1);
    assert_eq!(u32_of(&b, 36), 0x4444_4444);
    assert_eq!(u32_of(&b, 40), 0x5555_5555);
    assert_eq!(&b[72..84], b"0000:01:00.0");
    assert_eq!(u32_of(&b, 72 + 16), 0x2222_2222);
    assert_eq!(u32_of(&b, 72 + 20), 4);
    assert_eq!(u32_of(&b, 72 + 24), 0x3333_3333);
    assert_eq!(&b[72 + 28..72 + 32], b"info");
}

#[test]
fn a_default_config_would_be_rejected_by_the_driver() {
    let cfg = VirtioGpuNvConfig::default();
    let n = cfg.num_gpus;
    assert_eq!(n, 0, "a config with no GPUs must not claim any");
}

#[test]
fn one_gpu_is_described_where_the_driver_looks() {
    let slot = GpuSlot::new("0000:01:00.0", 0, "Model: NVIDIA RTX A2000");
    let cfg = VirtioGpuNvConfig::new("615.71.09", &[slot]);
    let bytes = cfg.as_bytes();

    assert_eq!(&bytes[0..9], b"615.71.09");
    assert_eq!(u32::from_le_bytes(bytes[32..36].try_into().unwrap()), 1);
    assert_eq!(&bytes[72..84], b"0000:01:00.0");
    assert_eq!(
        u32::from_le_bytes(bytes[92..96].try_into().unwrap()),
        "Model: NVIDIA RTX A2000".len() as u32
    );
}

#[test]
fn an_over_long_pci_address_keeps_room_for_its_terminator() {
    let slot = GpuSlot::new("0000:01:00.0:extra", 0, "");
    assert_eq!(slot.pci_addr[PCI_ADDR_LEN - 1], 0);
    assert_eq!(&slot.pci_addr[..15], b"0000:01:00.0:ex");
}

#[test]
fn more_gpus_than_slots_are_truncated_not_over_claimed() {
    let many: Vec<_> = (0..12)
        .map(|i| GpuSlot::new(&format!("0000:0{i}:00.0"), i, ""))
        .collect();
    let cfg = VirtioGpuNvConfig::new("615.71.09", &many);
    let n = cfg.num_gpus;
    assert_eq!(n as usize, MAX_GPUS, "claimed more GPUs than it can describe");
    assert_eq!(cfg.gpus[7].minor, 7);
}

#[test]
fn a_read_past_the_end_is_clamped_rather_than_panicking() {
    let cfg = VirtioGpuNvConfig::default();
    assert_eq!(cfg.read(4004, 64).len(), 12);
    assert!(cfg.read(99_999, 16).is_empty());
    assert_eq!(cfg.read(0, 4016).len(), 4016);
}

#[test]
fn a_read_gives_the_bytes_it_asks_for() {
    let cfg = marked();
    assert_eq!(cfg.read(0, 9), b"615.71.09");
    assert_eq!(cfg.read(32, 4), [1, 0, 0, 0]);
    assert_eq!(cfg.read(u32::MAX, u32::MAX), Vec::<u8>::new());
    assert_eq!(cfg.read(4015, u32::MAX).len(), 1);
}

#[test]
fn a_long_version_keeps_room_for_its_terminator() {
    let cfg = VirtioGpuNvConfig::new(&"9".repeat(40), &[]);
    assert_eq!(cfg.driver_version[30], b'9');
    assert_eq!(cfg.driver_version[31], 0);
    assert_eq!(cfg.num_gpus, 0);
}

#[test]
fn every_descriptor_that_needs_it_is_announced() {
    let cfg = VirtioGpuNvConfig::new("1.2.3", &[]);
    assert_eq!(cfg.num_fd_translations, 5);
    let listed: Vec<(u32, u32)> = cfg.fd_translations[..5]
        .iter()
        .map(|t| (t.nr, t.payload_offset))
        .collect();
    assert_eq!(listed, fd_carrying_ioctls());
    assert_eq!(listed, [(201, 0), (206, 8), (207, 8), (0x27, 48), (0x4e, 48)]);
    assert_eq!(cfg.fd_translations[5], FdTranslation::default());
    assert_eq!(cfg.as_bytes()[3888..3896], [201, 0, 0, 0, 0, 0, 0, 0]);
}

/// The exact text an open 615.71.09 module publishes.
const OPEN_615: &str = "NVRM version: NVIDIA UNIX Open Kernel Module for x86_64  615.71.09  Release Build  (root@)  \nGCC version:  gcc version 16.2.1 20260810 (GCC)\n";

fn gpu(addr: &str, info: &str) -> HostFile {
    HostFile { path: addr.as_bytes().to_vec(), content: info.as_bytes().to_vec() }
}

#[test]
fn reads_the_version_from_a_real_proc_line() {
    assert_eq!(driver_version(OPEN_615).as_deref(), Some("615.71.09"));
}

#[test]
fn reads_the_version_from_the_proprietary_wording_too() {
    assert_eq!(
        driver_version(
            "NVRM version: NVIDIA UNIX x86_64 Kernel Module  580.178.04  Tue Jul  7 12:18:12 UTC 2026\n"
        )
        .as_deref(),
        Some("580.178.04")
    );
}

#[test]
fn no_driver_loaded_is_none_not_an_error() {
    assert_eq!(driver_version(""), None);
    assert!(gpu_slots(Vec::new()).is_empty());
    assert_eq!(PROC_NVIDIA, "/proc/driver/nvidia");
}

#[test]
fn only_three_numbers_are_a_version() {
    for text in ["1.2", "1.2.3.4", "1..3", "a.b.c", "1.2.3a", ".1.2", "1.2.", "\u{661}.2.3", "1 2 3"] {
        assert_eq!(driver_version(text), None, "{text:?}");
    }
    assert_eq!(driver_version("x 0.0.0").as_deref(), Some("0.0.0"));
    assert_eq!(driver_version("1.2.3\u{2003}4.5.6").as_deref(), Some("1.2.3"));
}

#[test]
fn a_single_gpu_becomes_a_slot_the_driver_can_read() {
    let slots = gpu_slots(vec![gpu(
        "0000:01:00.0",
        "Model: \t\t NVIDIA RTX A2000\nIRQ:   \t\t 152\n",
    )]);
    assert_eq!(slots.len(), 1);
    assert_eq!(&slots[0].pci_addr[..12], b"0000:01:00.0");
    let minor = slots[0].minor;
    assert_eq!(minor, 0);
    let len = slots[0].info_len;
    assert!(len > 0, "the information text was not carried");
}

#[test]
fn gpus_are_ordered_by_pci_address() {
    let slots = gpu_slots(vec![
        gpu("0000:41:00.0", "Model: C\n"),
        gpu("0000:01:00.0", "Model: A\n"),
        gpu("0000:21:00.0", "Model: B\n"),
    ]);
    let addrs: Vec<_> = slots
        .iter()
        .map(|s| String::from_utf8_lossy(&s.pci_addr[..12]).into_owned())
        .collect();
    assert_eq!(addrs, ["0000:01:00.0", "0000:21:00.0", "0000:41:00.0"]);
    let minors: Vec<u32> = slots.iter().map(|s| s.minor).collect();
    assert_eq!(minors, [0, 1, 2]);
}

#[test]
fn an_over_long_information_file_is_truncated_honestly() {
    let big = "Model: X\n".repeat(500);
    let slots = gpu_slots(vec![gpu("0000:01:00.0", big.as_str())]);
    let len = slots[0].info_len as usize;
    assert_eq!(len, INFO_TEXT_LEN);
    assert_eq!(&slots[0].info_text[..8], b"Model: X");
}

#[test]
fn discovery_produces_a_config_the_driver_would_accept() {
    let version = driver_version(OPEN_615).expect("a version");
    let slots = gpu_slots(vec![gpu("0000:01:00.0", "Model: NVIDIA RTX A2000\n")]);
    let cfg = VirtioGpuNvConfig::new(&version, &slots);
    let n = cfg.num_gpus;
    assert!(n >= 1 && n as usize <= MAX_GPUS, "driver rejects num_gpus={n}");
    assert_eq!(&cfg.as_bytes()[0..9], b"615.71.09");
}

#[test]
fn a_gpus_config_space_has_its_path() {
    assert_eq!(
        config_path(&GpuSlot::new("0000:01:00.0", 0, "")),
        "bus/pci/devices/0000:01:00.0/config"
    );
    assert_eq!(
        config_path(&GpuSlot::new("0123456789abcdefgh", 0, "")),
        "bus/pci/devices/0123456789abcde/config"
    );
    assert_eq!(
        config_path(&GpuSlot::new("0123456789abcd\u{e9}", 0, "")),
        "bus/pci/devices/0123456789abcd\u{fffd}/config"
    );
}

#[test]
fn a_walk_stays_in_its_tree_and_takes_small_files() {
    assert_eq!(visit(EntryKind::Symlink, 0, 0), Visit::Pass);
    assert_eq!(visit(EntryKind::Other, 0, 0), Visit::Pass);
    assert_eq!(visit(EntryKind::Directory, 0, 3), Visit::Descend);
    assert_eq!(visit(EntryKind::Directory, 0, 4), Visit::Pass);
    assert_eq!(visit(EntryKind::Regular, 0, 4), Visit::Take);
    assert_eq!(visit(EntryKind::Regular, 65536, 0), Visit::Take);
    assert_eq!(visit(EntryKind::Regular, 65537, 0), Visit::Pass);
    assert!(keep(&vec![0; 65536]));
    assert!(!keep(&vec![0; 65537]));
}
