//! What the guest driver expects to find on the bus.
//!
//! Every constant and layout here is a contract with the guest driver. A mismatch is not a build
//! error in either half: the guest simply fails to probe.
use crate::bytes::{append, append_u32, lemma_u32_round_trip, lemma_u32_same, u32_at, u32_bytes};
use crate::forward::spec_fd_offset;
use crate::ioctl::{
    NV_ESC_ALLOC_OS_EVENT, NV_ESC_FREE_OS_EVENT, NV_ESC_REGISTER_FD, NV_ESC_RM_ALLOC_MEMORY,
    NV_ESC_RM_MAP_MEMORY,
};
use crate::mapping::MAP_FD;
use vstd::prelude::*;
use vstd::slice::{slice_subrange, slice_to_vec};
use vstd::utf8::encode_utf8;

verus! {

/// The virtio device ID the guest driver probes for.
pub const VIRTIO_ID_GPU_NV: u32 = 45;

/// Virtqueue count: the driver asks for a control queue and an event queue.
pub const NUM_QUEUES: usize = 2;

/// Guest requests, device replies.
pub const CONTROL_QUEUE: usize = 0;

/// Device-initiated notifications to the guest.
pub const EVENT_QUEUE: usize = 1;

/// Recommended virtqueue size.
pub const QUEUE_SIZE: u16 = 256;

/// Longest PCI address the driver will store, with its NUL.
pub const PCI_ADDR_LEN: usize = 16;

/// Bytes of `/proc/driver/nvidia/gpus/<addr>/information` carried per GPU.
///
/// A guest maps the device config with one page as its maximum and silently truncates anything
/// longer, so the whole config has to fit in one.
pub const INFO_TEXT_LEN: usize = 448;

/// Driver version string length in config space, with its NUL.
pub const DRIVER_VERSION_LEN: usize = 32;

/// GPU slots in config space. The driver reads at most this many.
pub const MAX_GPUS: usize = 8;

/// FD translation entries in config space.
pub const MAX_FD_TRANSLATIONS: usize = 16;

/// Where the parts of a slot stand, and its size.
pub const SLOT_MINOR: usize = 16;

pub const SLOT_INFO_LEN: usize = 20;

pub const SLOT_INFO_TEXT: usize = 28;

pub const GPU_SLOT_SIZE: usize = 476;

/// Where the parts of the config stand, and its size.
pub const CONFIG_DRIVER_VERSION: usize = 0;

pub const CONFIG_NUM_GPUS: usize = 32;

pub const CONFIG_CAPS: usize = 36;

pub const CONFIG_GPU_DEVICE_IDS: usize = 40;

pub const CONFIG_GPUS: usize = 72;

pub const CONFIG_NUM_FD_TRANSLATIONS: usize = 3880;

pub const CONFIG_FD_TRANSLATIONS: usize = 3888;

pub const CONFIG_SIZE: usize = 4016;

/// One GPU, as the guest driver reads it.
#[derive(Clone, Copy, Debug)]
pub struct GpuSlot {
    /// Directory name under `/proc/driver/nvidia/gpus`, NUL-terminated.
    pub pci_addr: [u8; PCI_ADDR_LEN],
    /// The `N` in `/dev/nvidiaN`.
    pub minor: u32,
    /// Valid bytes in `info_text`.
    pub info_len: u32,
    pub padding: [u32; 1],
    /// Raw contents of that GPU's `information` file.
    pub info_text: [u8; INFO_TEXT_LEN],
}

/// The first `most` bytes of `b`, and zeros up to `len`.
pub open spec fn fitted(b: Seq<u8>, most: int, len: int) -> Seq<u8> {
    Seq::new(
        len as nat,
        |i: int|
            if i < b.len() && i < most {
                b[i]
            } else {
                0u8
            },
    )
}

impl Default for GpuSlot {
    fn default() -> (r: Self)
        ensures
            r.pci_addr@ == Seq::new(PCI_ADDR_LEN as nat, |i: int| 0u8),
            r.minor == 0,
            r.info_len == 0,
            r.padding@ == seq![0u32],
            r.info_text@ == Seq::new(INFO_TEXT_LEN as nat, |i: int| 0u8),
    {
        let r = GpuSlot {
            pci_addr: [0;PCI_ADDR_LEN],
            minor: 0,
            info_len: 0,
            padding: [0;1],
            info_text: [0;INFO_TEXT_LEN],
        };
        assert(r.padding@ =~= seq![0u32]);
        assert(r.pci_addr@ =~= Seq::new(PCI_ADDR_LEN as nat, |i: int| 0u8));
        assert(r.info_text@ =~= Seq::new(INFO_TEXT_LEN as nat, |i: int| 0u8));
        r
    }
}

impl GpuSlot {
    /// The bytes that a guest reads.
    pub open spec fn wire(&self) -> Seq<u8> {
        self.pci_addr@ + u32_bytes(self.minor) + u32_bytes(self.info_len) + u32_bytes(self.padding@[0])
            + self.info_text@
    }

    /// Build a slot, truncating both strings to what the driver can hold.
    ///
    /// Truncating rather than failing is deliberate: a GPU whose information text is longer than
    /// the window is still a usable GPU.
    pub fn new(pci_addr: &str, minor: u32, info_text: &str) -> (r: Self)
        ensures
            slot_of(r, encode_utf8(pci_addr@), minor, encode_utf8(info_text@)),
    {
        Self::from_bytes(pci_addr.as_bytes(), minor, info_text.as_bytes())
    }

    /// Build a slot from the bytes of its strings.
    pub fn from_bytes(addr: &[u8], minor: u32, info: &[u8]) -> (r: Self)
        ensures
            slot_of(r, addr@, minor, info@),
    {
        let mut pci_addr: [u8; PCI_ADDR_LEN] = [0;PCI_ADDR_LEN];
        let mut i: usize = 0;
        // Leave room for the NUL the driver writes at the last byte.
        while i < addr.len() && i < PCI_ADDR_LEN - 1
            invariant
                i <= addr@.len(),
                i <= PCI_ADDR_LEN - 1,
                pci_addr@ =~= fitted(addr@, i as int, PCI_ADDR_LEN as int),
            decreases PCI_ADDR_LEN - i,
        {
            pci_addr[i] = addr[i];
            i = i + 1;
        }
        assert(pci_addr@ =~= fitted(addr@, PCI_ADDR_LEN - 1, PCI_ADDR_LEN as int));
        let mut info_text: [u8; INFO_TEXT_LEN] = [0;INFO_TEXT_LEN];
        let mut k: usize = 0;
        while k < info.len() && k < INFO_TEXT_LEN
            invariant
                k <= info@.len(),
                k <= INFO_TEXT_LEN,
                info_text@ =~= fitted(info@, k as int, INFO_TEXT_LEN as int),
            decreases INFO_TEXT_LEN - k,
        {
            info_text[k] = info[k];
            k = k + 1;
        }
        assert(info_text@ =~= fitted(info@, INFO_TEXT_LEN as int, INFO_TEXT_LEN as int));
        let r = GpuSlot { pci_addr, minor, info_len: k as u32, padding: [0;1], info_text };
        assert(r.padding@ =~= seq![0u32]);
        r
    }

    pub fn to_bytes(&self) -> (r: Vec<u8>)
        ensures
            r@ == self.wire(),
            r@.len() == GPU_SLOT_SIZE,
    {
        let mut r: Vec<u8> = slice_to_vec(self.pci_addr.as_slice());
        append_u32(&mut r, self.minor);
        append_u32(&mut r, self.info_len);
        append_u32(&mut r, self.padding[0]);
        append(&mut r, self.info_text.as_slice());
        assert(r@ =~= self.wire());
        r
    }
}

/// `s` describes the GPU of this address, minor number and information text.
pub open spec fn slot_of(s: GpuSlot, addr: Seq<u8>, minor: u32, info: Seq<u8>) -> bool {
    &&& s.pci_addr@ == fitted(addr, PCI_ADDR_LEN - 1, PCI_ADDR_LEN as int)
    &&& s.minor == minor
    &&& s.info_len == (if info.len() < INFO_TEXT_LEN {
        info.len() as int
    } else {
        INFO_TEXT_LEN as int
    })
    &&& s.padding@ == seq![0u32]
    &&& s.info_text@ == fitted(info, INFO_TEXT_LEN as int, INFO_TEXT_LEN as int)
}

/// The ioctls that carry a file descriptor, and the byte offset it sits at in the top-level
/// parameter struct.
pub open spec fn spec_fd_carrying_ioctls() -> Seq<(u32, u32)> {
    seq![
        (NV_ESC_REGISTER_FD, 0u32),
        (NV_ESC_ALLOC_OS_EVENT, 8u32),
        (NV_ESC_FREE_OS_EVENT, 8u32),
        (NV_ESC_RM_ALLOC_MEMORY, 48u32),
        (NV_ESC_RM_MAP_MEMORY, 48u32),
    ]
}

pub fn fd_carrying_ioctls() -> (r: Vec<(u32, u32)>)
    ensures
        r@ == spec_fd_carrying_ioctls(),
{
    let r: Vec<(u32, u32)> = vec![
        (NV_ESC_REGISTER_FD, 0u32),
        (NV_ESC_ALLOC_OS_EVENT, 8u32),
        (NV_ESC_FREE_OS_EVENT, 8u32),
        (NV_ESC_RM_ALLOC_MEMORY, 48u32),
        (NV_ESC_RM_MAP_MEMORY, 48u32),
    ];
    assert(r@ =~= spec_fd_carrying_ioctls());
    r
}

/// One ioctl the device wants the driver to rewrite file descriptors in.
#[derive(Clone, Copy, Debug, Default, PartialEq, Eq, Structural)]
pub struct FdTranslation {
    /// The ioctl number this applies to.
    pub nr: u32,
    /// Where in the payload the descriptor sits.
    pub payload_offset: u32,
}

impl FdTranslation {
    pub open spec fn wire(self) -> Seq<u8> {
        u32_bytes(self.nr) + u32_bytes(self.payload_offset)
    }
}

/// Device configuration space.
#[derive(Clone, Copy, Debug)]
pub struct VirtioGpuNvConfig {
    /// Host driver version, NUL-terminated, e.g. `615.71.09`.
    pub driver_version: [u8; DRIVER_VERSION_LEN],
    /// How many entries of `gpus` are valid. The driver rejects zero.
    pub num_gpus: u32,
    /// Capability bits.
    pub caps: u32,
    /// PCI device id per GPU.
    pub gpu_device_ids: [u32; MAX_GPUS],
    pub gpus: [GpuSlot; MAX_GPUS],
    pub num_fd_translations: u32,
    pub _pad: u32,
    pub fd_translations: [FdTranslation; MAX_FD_TRANSLATIONS],
}

/// `GpuSlot::default()`.
pub open spec fn empty_slot(s: GpuSlot) -> bool {
    slot_of(s, Seq::empty(), 0, Seq::empty())
}

/// The numbers, one behind another.
pub open spec fn words(s: Seq<u32>) -> Seq<u8>
    decreases s.len(),
{
    if s.len() == 0 {
        Seq::empty()
    } else {
        words(s.drop_last()) + u32_bytes(s.last())
    }
}

/// The slots, one behind another.
pub open spec fn slots_wire(s: Seq<GpuSlot>) -> Seq<u8>
    decreases s.len(),
{
    if s.len() == 0 {
        Seq::empty()
    } else {
        slots_wire(s.drop_last()) + s.last().wire()
    }
}

/// The translations, one behind another.
pub open spec fn translations_wire(s: Seq<FdTranslation>) -> Seq<u8>
    decreases s.len(),
{
    if s.len() == 0 {
        Seq::empty()
    } else {
        translations_wire(s.drop_last()) + s.last().wire()
    }
}

impl Default for VirtioGpuNvConfig {
    fn default() -> (r: Self)
        ensures
            r.driver_version@ == Seq::new(DRIVER_VERSION_LEN as nat, |i: int| 0u8),
            r.num_gpus == 0,
            r.caps == 0,
            r.gpu_device_ids@ == Seq::new(MAX_GPUS as nat, |i: int| 0u32),
            forall|i: int| 0 <= i < MAX_GPUS ==> empty_slot(#[trigger] r.gpus@[i]),
            r.num_fd_translations == 0,
            r._pad == 0,
            forall|i: int|
                0 <= i < MAX_FD_TRANSLATIONS ==> #[trigger] r.fd_translations@[i] == (FdTranslation {
                    nr: 0,
                    payload_offset: 0,
                }),
    {
        let slot: GpuSlot = GpuSlot::default();
        assert(slot.pci_addr@ =~= fitted(Seq::empty(), PCI_ADDR_LEN - 1, PCI_ADDR_LEN as int));
        assert(slot.info_text@ =~= fitted(
            Seq::empty(),
            INFO_TEXT_LEN as int,
            INFO_TEXT_LEN as int,
        ));
        let r = VirtioGpuNvConfig {
            driver_version: [0;DRIVER_VERSION_LEN],
            num_gpus: 0,
            caps: 0,
            gpu_device_ids: [0;MAX_GPUS],
            gpus: [slot;MAX_GPUS],
            num_fd_translations: 0,
            _pad: 0,
            fd_translations: [FdTranslation { nr: 0, payload_offset: 0 };MAX_FD_TRANSLATIONS],
        };
        assert(r.driver_version@ =~= Seq::new(DRIVER_VERSION_LEN as nat, |i: int| 0u8));
        assert(r.gpu_device_ids@ =~= Seq::new(MAX_GPUS as nat, |i: int| 0u32));
        r
    }
}

impl VirtioGpuNvConfig {
    /// Build config space for a set of host GPUs.
    ///
    /// More than `MAX_GPUS` are truncated: the driver reads no further, so advertising a count it
    /// cannot index would point it at slots that were never written. The driver rewrites a
    /// descriptor only when the device names its ioctl here, so the list names every one.
    pub fn new(driver_version: &str, gpus: &[GpuSlot]) -> (r: Self)
        ensures
            r.driver_version@ == fitted(
                encode_utf8(driver_version@),
                DRIVER_VERSION_LEN - 1,
                DRIVER_VERSION_LEN as int,
            ),
            r.num_gpus == (if gpus@.len() < MAX_GPUS {
                gpus@.len() as int
            } else {
                MAX_GPUS as int
            }),
            r.caps == 0,
            r.gpu_device_ids@ == Seq::new(MAX_GPUS as nat, |i: int| 0u32),
            forall|i: int| 0 <= i < r.num_gpus ==> #[trigger] r.gpus@[i] == gpus@[i],
            forall|i: int| r.num_gpus <= i < MAX_GPUS ==> empty_slot(#[trigger] r.gpus@[i]),
            r.num_fd_translations == spec_fd_carrying_ioctls().len(),
            r._pad == 0,
            forall|i: int|
                0 <= i < MAX_FD_TRANSLATIONS ==> #[trigger] r.fd_translations@[i] == (if i
                    < spec_fd_carrying_ioctls().len() {
                    FdTranslation {
                        nr: spec_fd_carrying_ioctls()[i].0,
                        payload_offset: spec_fd_carrying_ioctls()[i].1,
                    }
                } else {
                    FdTranslation { nr: 0, payload_offset: 0 }
                }),
    {
        let mut cfg: VirtioGpuNvConfig = VirtioGpuNvConfig::default();
        let v: &[u8] = driver_version.as_bytes();
        let mut version: [u8; DRIVER_VERSION_LEN] = [0;DRIVER_VERSION_LEN];
        let mut i: usize = 0;
        while i < v.len() && i < DRIVER_VERSION_LEN - 1
            invariant
                i <= v@.len(),
                i <= DRIVER_VERSION_LEN - 1,
                version@ =~= fitted(v@, i as int, DRIVER_VERSION_LEN as int),
            decreases DRIVER_VERSION_LEN - i,
        {
            version[i] = v[i];
            i = i + 1;
        }
        assert(version@ =~= fitted(v@, DRIVER_VERSION_LEN - 1, DRIVER_VERSION_LEN as int));
        cfg.driver_version = version;
        let mut slots: [GpuSlot; MAX_GPUS] = cfg.gpus;
        let mut n: usize = 0;
        while n < gpus.len() && n < MAX_GPUS
            invariant
                n <= gpus@.len(),
                n <= MAX_GPUS,
                forall|k: int| 0 <= k < n ==> #[trigger] slots@[k] == gpus@[k],
                forall|k: int| n <= k < MAX_GPUS ==> empty_slot(#[trigger] slots@[k]),
            decreases MAX_GPUS - n,
        {
            slots[n] = gpus[n];
            n = n + 1;
        }
        cfg.gpus = slots;
        cfg.num_gpus = n as u32;
        let known: Vec<(u32, u32)> = fd_carrying_ioctls();
        let mut list: [FdTranslation; MAX_FD_TRANSLATIONS] = cfg.fd_translations;
        let mut k: usize = 0;
        while k < known.len()
            invariant
                known@ == spec_fd_carrying_ioctls(),
                k <= known@.len(),
                forall|j: int|
                    0 <= j < MAX_FD_TRANSLATIONS ==> #[trigger] list@[j] == (if j < k {
                        FdTranslation {
                            nr: spec_fd_carrying_ioctls()[j].0,
                            payload_offset: spec_fd_carrying_ioctls()[j].1,
                        }
                    } else {
                        FdTranslation { nr: 0, payload_offset: 0 }
                    }),
            decreases known.len() - k,
        {
            list[k] = FdTranslation { nr: known[k].0, payload_offset: known[k].1 };
            k = k + 1;
        }
        cfg.fd_translations = list;
        cfg.num_fd_translations = known.len() as u32;
        cfg
    }

    /// Config space as the bytes a guest reads.
    pub open spec fn wire(&self) -> Seq<u8> {
        self.driver_version@ + u32_bytes(self.num_gpus) + u32_bytes(self.caps) + words(
            self.gpu_device_ids@,
        ) + slots_wire(self.gpus@) + u32_bytes(self.num_fd_translations) + u32_bytes(self._pad)
            + translations_wire(self.fd_translations@)
    }

    /// Config space as the bytes a guest reads.
    pub fn as_bytes(&self) -> (r: Vec<u8>)
        ensures
            r@ == self.wire(),
            r@.len() == CONFIG_SIZE,
    {
        let mut r: Vec<u8> = slice_to_vec(self.driver_version.as_slice());
        append_u32(&mut r, self.num_gpus);
        append_u32(&mut r, self.caps);
        let ghost head = r@;
        let mut i: usize = 0;
        assert(words(self.gpu_device_ids@.take(0)) =~= Seq::<u8>::empty());
        while i < MAX_GPUS
            invariant
                i <= MAX_GPUS,
                r@ == head + words(self.gpu_device_ids@.take(i as int)),
                r@.len() == head.len() + 4 * i,
            decreases MAX_GPUS - i,
        {
            assert(self.gpu_device_ids@.take(i + 1).drop_last() =~= self.gpu_device_ids@.take(
                i as int,
            ));
            append_u32(&mut r, self.gpu_device_ids[i]);
            i = i + 1;
            assert(r@ =~= head + words(self.gpu_device_ids@.take(i as int)));
        }
        assert(self.gpu_device_ids@.take(i as int) =~= self.gpu_device_ids@);
        let ghost before_slots = r@;
        let mut g: usize = 0;
        assert(slots_wire(self.gpus@.take(0)) =~= Seq::<u8>::empty());
        while g < MAX_GPUS
            invariant
                g <= MAX_GPUS,
                r@ == before_slots + slots_wire(self.gpus@.take(g as int)),
                r@.len() == before_slots.len() + GPU_SLOT_SIZE * g,
            decreases MAX_GPUS - g,
        {
            assert(self.gpus@.take(g + 1).drop_last() =~= self.gpus@.take(g as int));
            let slot: GpuSlot = self.gpus[g];
            let b: Vec<u8> = slot.to_bytes();
            append(&mut r, b.as_slice());
            g = g + 1;
            assert(r@ =~= before_slots + slots_wire(self.gpus@.take(g as int)));
        }
        assert(self.gpus@.take(g as int) =~= self.gpus@);
        append_u32(&mut r, self.num_fd_translations);
        append_u32(&mut r, self._pad);
        let ghost before_list = r@;
        let mut k: usize = 0;
        assert(translations_wire(self.fd_translations@.take(0)) =~= Seq::<u8>::empty());
        while k < MAX_FD_TRANSLATIONS
            invariant
                k <= MAX_FD_TRANSLATIONS,
                r@ == before_list + translations_wire(self.fd_translations@.take(k as int)),
                r@.len() == before_list.len() + 8 * k,
            decreases MAX_FD_TRANSLATIONS - k,
        {
            assert(self.fd_translations@.take(k + 1).drop_last() =~= self.fd_translations@.take(
                k as int,
            ));
            append_u32(&mut r, self.fd_translations[k].nr);
            append_u32(&mut r, self.fd_translations[k].payload_offset);
            k = k + 1;
            assert(r@ =~= before_list + translations_wire(self.fd_translations@.take(k as int)));
        }
        assert(self.fd_translations@.take(k as int) =~= self.fd_translations@);
        assert(r@ =~= self.wire());
        r
    }

    /// Serve a config read, clamped to the struct.
    ///
    /// A read past the end yields fewer bytes rather than panicking: the guest chooses the offset
    /// and length, so neither may be trusted to be in range.
    pub fn read(&self, offset: u32, size: u32) -> (r: Vec<u8>)
        ensures
            r@ == clamped(self.wire(), offset as int, size as int),
            r@.len() == (if offset >= CONFIG_SIZE {
                0
            } else if offset + size <= CONFIG_SIZE {
                size as int
            } else {
                CONFIG_SIZE - offset
            }),
    {
        let bytes: Vec<u8> = self.as_bytes();
        let start: usize = if (offset as u64) < CONFIG_SIZE as u64 {
            offset as usize
        } else {
            CONFIG_SIZE
        };
        let end: usize = if (size as u64) < (CONFIG_SIZE - start) as u64 {
            start + size as usize
        } else {
            CONFIG_SIZE
        };
        slice_to_vec(slice_subrange(bytes.as_slice(), start, end))
    }
}

/// The part of `s` from `offset` on, `size` bytes or as many as there are.
pub open spec fn clamped(s: Seq<u8>, offset: int, size: int) -> Seq<u8> {
    let start = if offset < s.len() {
        offset
    } else {
        s.len() as int
    };
    let end = if start + size < s.len() {
        start + size
    } else {
        s.len() as int
    };
    s.subrange(start, end)
}

proof fn lemma_words(s: Seq<u32>, i: int)
    ensures
        words(s).len() == 4 * s.len(),
        0 <= i < s.len() ==> words(s).subrange(4 * i, 4 * i + 4) == u32_bytes(s[i]),
    decreases s.len(),
{
    if s.len() > 0 {
        let less = s.drop_last();
        lemma_words(less, i);
        let a = words(less);
        let w = u32_bytes(s.last());
        if 0 <= i < less.len() {
            assert(words(s).subrange(4 * i, 4 * i + 4) =~= a.subrange(4 * i, 4 * i + 4));
            assert(s[i] == less[i]);
        } else if i == less.len() {
            assert(words(s).subrange(4 * i, 4 * i + 4) =~= w);
        }
    }
}

/// A number reads back where its bytes stand.
proof fn lemma_word_reads(w: Seq<u8>, at: int, v: u32)
    requires
        0 <= at,
        at + 4 <= w.len(),
        w.subrange(at, at + 4) == u32_bytes(v),
    ensures
        u32_at(w, at) == v,
{
    lemma_u32_round_trip(v);
    assert forall|i: int| 0 <= i < 4 implies #[trigger] w[at + i] == u32_bytes(v)[0 + i] by {
        assert(w.subrange(at, at + 4)[i] == w[at + i]);
    }
    lemma_u32_same(w, at, u32_bytes(v), 0);
}

proof fn lemma_slots(s: Seq<GpuSlot>, i: int)
    ensures
        slots_wire(s).len() == GPU_SLOT_SIZE * s.len(),
        0 <= i < s.len() ==> slots_wire(s).subrange(
            GPU_SLOT_SIZE * i,
            GPU_SLOT_SIZE * i + GPU_SLOT_SIZE,
        ) == s[i].wire(),
    decreases s.len(),
{
    if s.len() > 0 {
        let less = s.drop_last();
        lemma_slots(less, i);
        let a = slots_wire(less);
        let w = s.last().wire();
        assert(w.len() == GPU_SLOT_SIZE);
        if 0 <= i < less.len() {
            assert(slots_wire(s).subrange(GPU_SLOT_SIZE * i, GPU_SLOT_SIZE * i + GPU_SLOT_SIZE)
                =~= a.subrange(GPU_SLOT_SIZE * i, GPU_SLOT_SIZE * i + GPU_SLOT_SIZE));
            assert(s[i] == less[i]);
        } else if i == less.len() {
            assert(slots_wire(s).subrange(GPU_SLOT_SIZE * i, GPU_SLOT_SIZE * i + GPU_SLOT_SIZE)
                =~= w);
        }
    }
}

proof fn lemma_translations(s: Seq<FdTranslation>, i: int)
    ensures
        translations_wire(s).len() == 8 * s.len(),
        0 <= i < s.len() ==> translations_wire(s).subrange(8 * i, 8 * i + 8) == s[i].wire(),
    decreases s.len(),
{
    if s.len() > 0 {
        let less = s.drop_last();
        lemma_translations(less, i);
        let a = translations_wire(less);
        let w = s.last().wire();
        assert(w.len() == 8);
        if 0 <= i < less.len() {
            assert(translations_wire(s).subrange(8 * i, 8 * i + 8) =~= a.subrange(
                8 * i,
                8 * i + 8,
            ));
            assert(s[i] == less[i]);
        } else if i == less.len() {
            assert(translations_wire(s).subrange(8 * i, 8 * i + 8) =~= w);
        }
    }
}

/// A slot has its fields where the driver reads them.
pub proof fn law_slot_layout(s: GpuSlot)
    ensures
        s.wire().len() == GPU_SLOT_SIZE,
        s.wire().subrange(0, PCI_ADDR_LEN as int) == s.pci_addr@,
        u32_at(s.wire(), SLOT_MINOR as int) == s.minor,
        u32_at(s.wire(), SLOT_INFO_LEN as int) == s.info_len,
        s.wire().subrange(SLOT_INFO_TEXT as int, GPU_SLOT_SIZE as int) == s.info_text@,
{
    let w = s.wire();
    assert(w.subrange(0, PCI_ADDR_LEN as int) =~= s.pci_addr@);
    assert(w.subrange(SLOT_INFO_TEXT as int, GPU_SLOT_SIZE as int) =~= s.info_text@);
    lemma_u32_round_trip(s.minor);
    lemma_u32_round_trip(s.info_len);
    assert forall|i: int| 0 <= i < 4 implies #[trigger] w[SLOT_MINOR + i] == u32_bytes(s.minor)[0 + i] by {}
    lemma_u32_same(w, SLOT_MINOR as int, u32_bytes(s.minor), 0);
    assert forall|i: int| 0 <= i < 4 implies #[trigger] w[SLOT_INFO_LEN + i] == u32_bytes(s.info_len)[0 + i] by {}
    lemma_u32_same(w, SLOT_INFO_LEN as int, u32_bytes(s.info_len), 0);
}

/// The config has its fields where the driver reads them, and fits in the one page that a guest
/// maps of it.
pub proof fn law_config_layout(c: VirtioGpuNvConfig, g: int, t: int)
    requires
        0 <= g < MAX_GPUS,
        0 <= t < MAX_FD_TRANSLATIONS,
    ensures
        c.wire().len() == CONFIG_SIZE,
        CONFIG_SIZE <= 4096,
        c.wire().subrange(0, DRIVER_VERSION_LEN as int) == c.driver_version@,
        u32_at(c.wire(), CONFIG_NUM_GPUS as int) == c.num_gpus,
        u32_at(c.wire(), CONFIG_CAPS as int) == c.caps,
        u32_at(c.wire(), CONFIG_GPU_DEVICE_IDS + 4 * g) == c.gpu_device_ids@[g],
        c.wire().subrange(
            CONFIG_GPUS + GPU_SLOT_SIZE * g,
            CONFIG_GPUS + GPU_SLOT_SIZE * g + GPU_SLOT_SIZE,
        ) == c.gpus@[g].wire(),
        u32_at(c.wire(), CONFIG_NUM_FD_TRANSLATIONS as int) == c.num_fd_translations,
        c.wire().subrange(CONFIG_FD_TRANSLATIONS + 8 * t, CONFIG_FD_TRANSLATIONS + 8 * t + 8)
            == c.fd_translations@[t].wire(),
        u32_at(c.wire(), CONFIG_FD_TRANSLATIONS + 8 * t) == c.fd_translations@[t].nr,
        u32_at(c.wire(), CONFIG_FD_TRANSLATIONS + 8 * t + 4)
            == c.fd_translations@[t].payload_offset,
{
    let w = c.wire();
    lemma_words(c.gpu_device_ids@, g);
    lemma_slots(c.gpus@, g);
    lemma_translations(c.fd_translations@, t);
    assert(w.len() == CONFIG_SIZE);
    assert(w.subrange(0, DRIVER_VERSION_LEN as int) =~= c.driver_version@);
    lemma_u32_round_trip(c.num_gpus);
    lemma_u32_round_trip(c.caps);
    lemma_u32_round_trip(c.num_fd_translations);
    assert forall|i: int| 0 <= i < 4 implies #[trigger] w[CONFIG_NUM_GPUS + i] == u32_bytes(c.num_gpus)[0
        + i] by {}
    lemma_u32_same(w, CONFIG_NUM_GPUS as int, u32_bytes(c.num_gpus), 0);
    assert forall|i: int| 0 <= i < 4 implies #[trigger] w[CONFIG_CAPS + i] == u32_bytes(c.caps)[0 + i] by {}
    lemma_u32_same(w, CONFIG_CAPS as int, u32_bytes(c.caps), 0);
    assert forall|i: int| 0 <= i < 4 implies #[trigger] w[CONFIG_NUM_FD_TRANSLATIONS + i] == u32_bytes(
        c.num_fd_translations,
    )[0 + i] by {}
    lemma_u32_same(
        w,
        CONFIG_NUM_FD_TRANSLATIONS as int,
        u32_bytes(c.num_fd_translations),
        0,
    );
    let slots = slots_wire(c.gpus@);
    assert(w.subrange(CONFIG_GPUS as int, CONFIG_NUM_FD_TRANSLATIONS as int) =~= slots);
    assert(w.subrange(
        CONFIG_GPUS + GPU_SLOT_SIZE * g,
        CONFIG_GPUS + GPU_SLOT_SIZE * g + GPU_SLOT_SIZE,
    ) =~= slots.subrange(GPU_SLOT_SIZE * g, GPU_SLOT_SIZE * g + GPU_SLOT_SIZE));
    let list = translations_wire(c.fd_translations@);
    assert(w.subrange(CONFIG_FD_TRANSLATIONS as int, CONFIG_SIZE as int) =~= list);
    assert(w.subrange(CONFIG_FD_TRANSLATIONS + 8 * t, CONFIG_FD_TRANSLATIONS + 8 * t + 8)
        =~= list.subrange(8 * t, 8 * t + 8));
    let ids = words(c.gpu_device_ids@);
    assert(w.subrange(CONFIG_GPU_DEVICE_IDS as int, CONFIG_GPUS as int) =~= ids);
    let id = CONFIG_GPU_DEVICE_IDS + 4 * g;
    assert(w.subrange(id, id + 4) =~= ids.subrange(4 * g, 4 * g + 4));
    lemma_word_reads(w, id, c.gpu_device_ids@[g]);
    let at = CONFIG_FD_TRANSLATIONS + 8 * t;
    let one = w.subrange(at, at + 8);
    let f = c.fd_translations@[t];
    assert(w.subrange(at, at + 4) =~= one.subrange(0, 4));
    assert(one.subrange(0, 4) =~= u32_bytes(f.nr));
    lemma_word_reads(w, at, f.nr);
    assert(w.subrange(at + 4, at + 8) =~= one.subrange(4, 8));
    assert(one.subrange(4, 8) =~= u32_bytes(f.payload_offset));
    lemma_word_reads(w, at + 4, f.payload_offset);
}

/// The descriptors that the driver is told to rewrite are those that the backend translates, at
/// the same offsets.
pub proof fn law_fd_list_agrees_with_the_backend(escape: u32, offset: u32)
    ensures
        spec_fd_carrying_ioctls().contains((escape, offset)) <==> spec_fd_offset(escape) == Some(
            offset as usize,
        ) || (escape == NV_ESC_RM_MAP_MEMORY && offset == MAP_FD),
{
    let l = spec_fd_carrying_ioctls();
    assert(l[0] == (NV_ESC_REGISTER_FD, 0u32));
    assert(l[1] == (NV_ESC_ALLOC_OS_EVENT, 8u32));
    assert(l[2] == (NV_ESC_FREE_OS_EVENT, 8u32));
    assert(l[3] == (NV_ESC_RM_ALLOC_MEMORY, 48u32));
    assert(l[4] == (NV_ESC_RM_MAP_MEMORY, 48u32));
    if l.contains((escape, offset)) {
        let i = choose|i: int| 0 <= i < l.len() && l[i] == (escape, offset);
        assert(i == 0 || i == 1 || i == 2 || i == 3 || i == 4);
    }
}

} // verus!
