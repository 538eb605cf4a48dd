//! The backend, served by a host that is played by the test.
use virtio_nvgpu::abi::{AbiCheck, AbiPolicy};
use virtio_nvgpu::client::{
    build_check_version_str, build_close, build_open_ctl, frame, read_header, read_version_reply,
};
use virtio_nvgpu::files::{FileTree, HostFile};
use virtio_nvgpu::forward::{fd_offset, route, Route};
use virtio_nvgpu::ioctl::{
    _IOWR, NV_ESC_ALLOC_OS_EVENT, NV_ESC_CARD_INFO, NV_ESC_CHECK_VERSION_STR,
    NV_ESC_FREE_OS_EVENT, NV_ESC_REGISTER_FD, NV_ESC_RM_ALLOC, NV_ESC_RM_ALLOC_MEMORY,
    NV_ESC_RM_CONTROL, NV_ESC_RM_DUP_OBJECT, NV_ESC_RM_FREE, NV_ESC_RM_I2C_ACCESS,
    NV_ESC_RM_MAP_MEMORY, NV_ESC_RM_MAP_MEMORY_DMA, NV_ESC_RM_UNMAP_MEMORY,
    NV_ESC_RM_UPDATE_DEVICE_MAPPING_INFO, NV_ESC_SYS_PARAMS,
};
use virtio_nvgpu::messages::{
    DeviceKind, IoctlReq, IoctlResp, MmapReq, MsgHeader, MsgType, MunmapReq, OpenReq,
};
use virtio_nvgpu::nvidia::{device_path, NvidiaBackend};
use virtio_nvgpu::response::Status;
use virtio_nvgpu::shm::ZoneConfig;
use virtio_nvgpu::step::{Action, Event, HostCall, Step};
use virtio_nvgpu::version::DriverVersion;

const EIO: i32 = 5;
const EBUSY: i32 = 16;

/// Answers of the driver, and what it was asked.
struct Host {
    next_fd: i32,
    open_errno: Option<i32>,
    /// What the driver does with a call; the default leaves the blocks as they are.
    driver: Box<dyn FnMut(&mut HostCall) -> Result<(), i32>>,
    place_errno: Option<i32>,
    restore_ok: bool,
    files: Vec<(&'static str, &'static str)>,
    opened: Vec<String>,
    closed: Vec<i32>,
    placed: Vec<(u64, u64, i32)>,
    restored: Vec<(u64, u64)>,
}

impl Host {
    fn new() -> Self {
        Host {
            next_fd: 100,
            open_errno: None,
            driver: Box::new(|_| Ok(())),
            place_errno: None,
            restore_ok: true,
            files: Vec::new(),
            opened: Vec::new(),
            closed: Vec::new(),
            placed: Vec::new(),
            restored: Vec::new(),
        }
    }

    fn with_driver(f: impl FnMut(&mut HostCall) -> Result<(), i32> + 'static) -> Self {
        let mut h = Host::new();
        h.driver = Box::new(f);
        h
    }

    fn perform(&mut self, action: Action) -> Event {
        match action {
            Action::Open(path) => {
                self.opened.push(path);
                match self.open_errno {
                    Some(e) => Event::Opened(Err(e)),
                    None => {
                        self.next_fd += 1;
                        Event::Opened(Ok(self.next_fd - 1))
                    }
                }
            }
            Action::Ioctl(mut call) => {
                call.link(0x7f00_0000_1000, 0x7f00_0000_2000);
                let result = (self.driver)(&mut call);
                Event::Returned {
                    result,
                    data: call.data,
                    nested: call.nested,
                    deep: call.deep,
                }
            }
            Action::Place { offset, length, fd } => {
                self.placed.push((offset, length, fd));
                Event::Placed(match self.place_errno {
                    Some(e) => Err(e),
                    None => Ok(()),
                })
            }
            Action::Restore(regions) => {
                for r in &regions {
                    self.restored.push((r.offset, r.length));
                }
                Event::Restored(vec![self.restore_ok; regions.len()])
            }
            Action::Collect(_) => Event::Collected(
                self.files
                    .iter()
                    .map(|(p, c)| HostFile {
                        path: p.as_bytes().to_vec(),
                        content: c.as_bytes().to_vec(),
                    })
                    .collect(),
            ),
        }
    }

    fn finish(&mut self, be: &mut NvidiaBackend, first: Step) -> Vec<u8> {
        let mut step = first;
        loop {
            match step {
                Step::Done { resp, close } => {
                    self.closed.extend(close);
                    return resp;
                }
                Step::Do(action) => {
                    let event = self.perform(action);
                    assert!(be.accepts(&event));
                    step = be.resume(event);
                }
            }
        }
    }

    fn dispatch(&mut self, be: &mut NvidiaBackend, req: &[u8], cap: usize) -> Vec<u8> {
        let first = be.dispatch(req, cap);
        self.finish(be, first)
    }

    fn teardown(&mut self, be: &mut NvidiaBackend) {
        let first = be.teardown();
        assert!(self.finish(be, first).is_empty());
    }

    fn open(&mut self, be: &mut NvidiaBackend, kind: DeviceKind) -> u32 {
        let resp = self.dispatch(be, &open_msg(kind), 64);
        assert_eq!(parse_resp(&resp).status, 0, "open {kind:?}");
        parse_resp(&resp).handle
    }
}

fn for_test() -> NvidiaBackend {
    NvidiaBackend::new(ZoneConfig {
        uc_size: 4096 * 2,
        wc_size: 4096 * 4,
        wb_size: 4096 * 2,
    })
}

fn hdr(msg_type: MsgType, handle: u32) -> Vec<u8> {
    MsgHeader { msg_type: msg_type.to_u32(), handle, status: 0, padding: 0 }.to_bytes()
}

fn open_msg(kind: DeviceKind) -> Vec<u8> {
    let mut v = hdr(MsgType::Open, 0);
    v.extend(OpenReq { device_type: kind.to_device_type(), flags: 0 }.to_bytes());
    v
}

fn close_msg(handle: u32) -> Vec<u8> {
    hdr(MsgType::Close, handle)
}

fn ioctl_blocks(handle: u32, cmd: u32, data: &[u8], nested: &[u8], deep: (u32, &[u8])) -> Vec<u8> {
    let mut v = hdr(MsgType::Ioctl, handle);
    v.extend(
        IoctlReq {
            cmd,
            data_len: data.len() as u32,
            nested_offset: if nested.is_empty() { 0 } else { data.len() as u32 },
            nested_len: nested.len() as u32,
            deep_ptr_offset: deep.0,
            deep_len: deep.1.len() as u32,
        }
        .to_bytes(),
    );
    v.extend_from_slice(data);
    v.extend_from_slice(nested);
    v.extend_from_slice(deep.1);
    v
}

fn ioctl_msg(handle: u32, escape: u32, params: &[u8]) -> Vec<u8> {
    ioctl_blocks(handle, _IOWR(escape, params.len() as u32) as u32, params, &[], (0, &[]))
}

fn parse_resp(buf: &[u8]) -> MsgHeader {
    MsgHeader::read(buf, 0)
}

fn is_err(buf: &[u8], want: Status) -> bool {
    parse_resp(buf).status == -want.errno()
}

const IOCTL_BODY: usize = 28;

fn u32_of(b: &[u8], at: usize) -> u32 {
    u32::from_le_bytes(b[at..at + 4].try_into().unwrap())
}

fn u64_of(b: &[u8], at: usize) -> u64 {
    u64::from_le_bytes(b[at..at + 8].try_into().unwrap())
}

#[test]
fn open_invalid_gpu_index() {
    let mut be = for_test();
    let req = open_msg(DeviceKind::Gpu(200));
    let resp = Host::new().dispatch(&mut be, &req, 64);
    assert!(is_err(&resp, Status::InvalidDevice));
}

#[test]
fn close_unknown_handle() {
    let mut be = for_test();
    let req = close_msg(0xCAFE);
    let resp = Host::new().dispatch(&mut be, &req, 32);
    assert!(is_err(&resp, Status::BadHandle));
}

#[test]
fn short_request_rejected() {
    let mut be = for_test();
    let resp = Host::new().dispatch(&mut be, &[0u8; 4], 32);
    assert!(is_err(&resp, Status::InvalidMsgType));
}

#[test]
fn teardown_empties_handles() {
    let mut be = for_test();
    let mut host = Host::new();
    for _ in 0..2 {
        host.open(&mut be, DeviceKind::Ctl);
    }
    assert_eq!(be.handle_count(), 2);
    host.teardown(&mut be);
    assert_eq!(be.handle_count(), 0);
    host.closed.sort();
    assert_eq!(host.closed, [100, 101]);
}

#[test]
fn open_close_nvidiactl() {
    let mut be = for_test();
    let mut host = Host::new();
    let resp = host.dispatch(&mut be, &open_msg(DeviceKind::Ctl), 64);
    let r = parse_resp(&resp);
    assert_eq!(r.status, 0);
    let h = r.handle;
    assert!(h > 0);
    let resp2 = host.dispatch(&mut be, &close_msg(h), 32);
    assert_eq!(parse_resp(&resp2).status, 0);
    assert_eq!(be.handle_count(), 0);
    assert_eq!(host.opened, ["/dev/nvidiactl"]);
    assert_eq!(host.closed, [100]);
}

#[test]
fn check_version_str() {
    let mut be = for_test();
    let mut host = Host::with_driver(|call| {
        assert_eq!(call.request, _IOWR(NV_ESC_CHECK_VERSION_STR, 72));
        assert_eq!(call.data[0], 0x32);
        call.data[4] = 1;
        call.data[8..18].copy_from_slice(b"580.178.04");
        Ok(())
    });
    let gh = host.open(&mut be, DeviceKind::Ctl);
    assert!(gh > 0);
    let mut params = vec![0u8; 72];
    params[0] = 0x32;
    let resp = host.dispatch(&mut be, &ioctl_msg(gh, NV_ESC_CHECK_VERSION_STR, &params), 512);
    let r = parse_resp(&resp);
    assert!(
        r.status == 0 || r.status == -Status::IoctlFailed.errno(),
        "unexpected status {}",
        r.status
    );
    assert_eq!(be.driver, Some(DriverVersion::new(580, 178, 4)));
    assert_eq!(read_version_reply(&resp), Some(DriverVersion::new(580, 178, 4)));
}

#[test]
fn map_memory_rejects_bad_fd_handle() {
    let mut be = for_test();
    let mut host = Host::new();
    let gh = host.open(&mut be, DeviceKind::Ctl);
    assert!(gh > 0);
    let mut params = vec![0u8; 56];
    params[48..52].copy_from_slice(&0xDEADu32.to_le_bytes());
    let resp = host.dispatch(&mut be, &ioctl_msg(gh, NV_ESC_RM_MAP_MEMORY, &params), 512);
    assert!(is_err(&resp, Status::BadHandle));
}

#[test]
fn map_memory_translates_fd_and_forwards() {
    let mut be = for_test();
    let mut host = Host::with_driver(|call| {
        assert_eq!(u32_of(&call.data, 48), 101, "the host's own descriptor");
        Err(22)
    });
    let ctl_handle = host.open(&mut be, DeviceKind::Ctl);
    let map_handle = host.open(&mut be, DeviceKind::Ctl);
    let mut params = vec![0u8; 56];
    params[48..52].copy_from_slice(&map_handle.to_le_bytes());
    let resp = host.dispatch(&mut be, &ioctl_msg(ctl_handle, NV_ESC_RM_MAP_MEMORY, &params), 512);
    let r = parse_resp(&resp);
    assert_ne!(
        r.status,
        -Status::BadHandle.errno(),
        "FD translation should have succeeded"
    );
    assert_eq!(r.status, -22);
}

/// A driver that maps: it answers `RM_MAP_MEMORY` with an address of its own.
fn mapping_driver() -> Host {
    Host::with_driver(|call| {
        match (call.request & 0xff) as u32 {
            NV_ESC_RM_MAP_MEMORY => {
                call.data[32..40].copy_from_slice(&0xffff_8888_0000_1000u64.to_le_bytes())
            }
            NV_ESC_RM_UNMAP_MEMORY => {
                if u64_of(&call.data, 16) != 0xffff_8888_0000_1000 {
                    call.data[24..28].copy_from_slice(&0x57u32.to_le_bytes());
                }
            }
            _ => {}
        }
        Ok(())
    })
}

struct Chain {
    be: NvidiaBackend,
    host: Host,
    ctl: u32,
}

impl Chain {
    fn new() -> Self {
        let mut be = NvidiaBackend::with_default_zones();
        let mut host = mapping_driver();
        let ctl = host.open(&mut be, DeviceKind::Ctl);
        Chain { be, host, ctl }
    }

    fn map_fd(&mut self) -> u32 {
        let h = self.host.open(&mut self.be, DeviceKind::Gpu(0));
        let req = ioctl_msg(h, NV_ESC_REGISTER_FD, &self.ctl.to_le_bytes());
        let resp = self.host.dispatch(&mut self.be, &req, 256);
        assert_eq!(parse_resp(&resp).status, 0);
        h
    }

    fn map(&mut self, client: u32, dev: u32, mem: u32, len: u64, fd: u32) -> (u64, u64, u64) {
        let mut p = vec![0u8; 56];
        p[0..4].copy_from_slice(&client.to_le_bytes());
        p[4..8].copy_from_slice(&dev.to_le_bytes());
        p[8..12].copy_from_slice(&mem.to_le_bytes());
        p[24..32].copy_from_slice(&len.to_le_bytes());
        p[44..48].copy_from_slice(&0x0308_0002u32.to_le_bytes());
        p[48..52].copy_from_slice(&fd.to_le_bytes());
        let req = ioctl_msg(self.ctl, NV_ESC_RM_MAP_MEMORY, &p);
        let resp = self.host.dispatch(&mut self.be, &req, 4096);
        assert_eq!(parse_resp(&resp).status, 0);
        let out = &resp[IOCTL_BODY..IOCTL_BODY + 56];
        let rm = u32_of(out, 40);
        assert_eq!(rm, 0, "map: RM status {rm:#x}");
        assert_eq!(u32_of(out, 48), fd, "the guest reads back its own handle");
        let linear = u64_of(out, 32);
        (linear, len, linear)
    }

    fn unmap(&mut self, client: u32, dev: u32, mem: u32, linear: u64) {
        let mut p = vec![0u8; 32];
        p[0..4].copy_from_slice(&client.to_le_bytes());
        p[4..8].copy_from_slice(&dev.to_le_bytes());
        p[8..12].copy_from_slice(&mem.to_le_bytes());
        p[16..24].copy_from_slice(&linear.to_le_bytes());
        let req = ioctl_msg(self.ctl, NV_ESC_RM_UNMAP_MEMORY, &p);
        let resp = self.host.dispatch(&mut self.be, &req, 4096);
        assert_eq!(parse_resp(&resp).status, 0);
        let out = &resp[IOCTL_BODY..];
        let rm = u32_of(out, 24);
        assert_eq!(rm, 0, "unmap: RM status {rm:#x}");
        assert_eq!(u64_of(out, 16), 0, "no address goes back");
    }

    fn close_dev(&mut self, handle: u32) {
        let resp = self.host.dispatch(&mut self.be, &close_msg(handle), 128);
        assert_eq!(parse_resp(&resp).status, 0, "close handle {handle}");
    }
}

#[test]
fn maps_turing_usermode_aperture_for_real() {
    let mut c = Chain::new();
    let fd = c.map_fd();
    let (off, len, linear) = c.map(1, 2, 3, 65536, fd);
    assert_eq!(len, 65536, "mapped length");
    assert_ne!(linear, 0, "pLinearAddress should be the SHM offset");
    assert_eq!(linear, off, "pLinearAddress must be the SHM offset the guest sees");
    assert_eq!(c.host.placed, [(32 << 20, 65536, 101)]);
    c.unmap(1, 2, 3, linear);
    assert_eq!(c.host.restored, [(32 << 20, 65536)]);
    c.host.teardown(&mut c.be);
}

#[test]
fn closing_the_fd_releases_its_mapping_without_any_unmap() {
    let mut c = Chain::new();
    let before = c.be.shm_free_bytes();
    for i in 0..50 {
        let fd = c.map_fd();
        let (off, _len, _linear) = c.map(1, 2, 3, 65536, fd);
        assert_ne!(off, 0, "run {i}: no SHM offset");
        c.close_dev(fd);
        assert_eq!(
            before,
            c.be.shm_free_bytes(),
            "run {i}: closing the fd did not release its mapping"
        );
    }
    c.host.teardown(&mut c.be);
}

#[test]
fn repeated_map_unmap_does_not_exhaust_the_zone() {
    let mut c = Chain::new();
    let before = c.be.shm_free_bytes();
    let handles_before = c.be.handle_count();
    let cycles = 100;
    for i in 0..cycles {
        let fd = c.map_fd();
        let (off, _len, linear) = c.map(1, 2, 3, 65536, fd);
        assert_ne!(off, 0, "iteration {i}: no SHM offset");
        c.unmap(1, 2, 3, linear);
        c.close_dev(fd);
    }
    let after = c.be.shm_free_bytes();
    assert_eq!(
        before, after,
        "{cycles} map/unmap cycles did not return every byte to the zones"
    );
    assert_eq!(
        handles_before,
        c.be.handle_count(),
        "{cycles} cycles leaked host file descriptors"
    );
    c.host.teardown(&mut c.be);
}

#[test]
fn teardown_gives_back_what_was_left_mapped() {
    let mut c = Chain::new();
    let before = c.be.shm_free_bytes();
    for _ in 0..3 {
        let fd = c.map_fd();
        c.map(1, 2, 3, 100_000, fd);
    }
    assert_eq!(c.be.shm_free_bytes().1, before.1 - 3 * 102_400);
    c.host.teardown(&mut c.be);
    assert_eq!(c.be.shm_free_bytes(), before);
    assert_eq!(c.be.handle_count(), 0);
    assert_eq!(c.host.closed.len(), 4);
    assert_eq!(c.host.open(&mut c.be, DeviceKind::Ctl), 1, "handles start over");
}

#[test]
fn every_byte_is_somewhere_all_along() {
    let mut c = Chain::new();
    let all = c.be.shm_free_bytes();
    let mut live: Vec<(u32, u64, u64)> = Vec::new();
    for round in 0..12u64 {
        let fd = c.map_fd();
        let len = 4096 * (1 + round % 5);
        let (off, _, _) = c.map(1, 2, 3, len, fd);
        live.push((fd, off, len));
        if round % 3 == 2 {
            let (fd, off, _) = live.remove(0);
            if round % 2 == 0 {
                c.unmap(1, 2, 3, off);
            }
            c.close_dev(fd);
        }
        let held: u64 = live.iter().map(|m| m.2).sum();
        assert_eq!(c.be.shm_free_bytes(), (all.0, all.1 - held, all.2), "round {round}");
    }
    c.host.teardown(&mut c.be);
    assert_eq!(c.be.shm_free_bytes(), all);
}

#[test]
fn a_closed_handle_reaches_nothing_again() {
    let mut be = for_test();
    let mut host = Host::new();
    let first = host.open(&mut be, DeviceKind::Ctl);
    let resp = host.dispatch(&mut be, &close_msg(first), 64);
    assert_eq!(parse_resp(&resp).status, 0);
    let second = host.open(&mut be, DeviceKind::Ctl);
    assert_ne!(first, second);
    let stale = ioctl_msg(first, NV_ESC_CARD_INFO, &[0u8; 8]);
    let resp = host.dispatch(&mut be, &stale, 256);
    assert!(is_err(&resp, Status::BadHandle));
    let resp = host.dispatch(&mut be, &close_msg(first), 64);
    assert!(is_err(&resp, Status::BadHandle));
    assert_eq!(be.handle_count(), 1);
}

#[test]
fn memory_that_is_not_restored_stays_taken() {
    let mut c = Chain::new();
    let before = c.be.shm_free_bytes();
    let fd = c.map_fd();
    c.map(1, 2, 3, 4096, fd);
    c.host.restore_ok = false;
    c.close_dev(fd);
    assert_eq!(c.be.shm_free_bytes().1, before.1 - 4096);
}

#[test]
fn a_mapping_that_cannot_be_placed_is_out_of_memory() {
    let mut c = Chain::new();
    let fd = c.map_fd();
    c.host.place_errno = Some(22);
    let mut p = vec![0u8; 56];
    p[24..32].copy_from_slice(&4096u64.to_le_bytes());
    p[48..52].copy_from_slice(&fd.to_le_bytes());
    let req = ioctl_msg(c.ctl, NV_ESC_RM_MAP_MEMORY, &p);
    let before = c.be.shm_free_bytes();
    let resp = c.host.dispatch(&mut c.be, &req, 4096);
    assert_eq!(parse_resp(&resp).status, -12);
    assert_eq!(c.be.shm_free_bytes(), before, "the region was given back");
    assert_eq!(c.host.placed.len(), 1);
    assert_eq!(c.host.restored, [(800 << 20, 4096)]);
    let mmap = mmap_msg(fd);
    let resp = c.host.dispatch(&mut c.be, &mmap, 64);
    assert_eq!(parse_resp(&resp).status, -2, "no mapping was recorded");
}

#[test]
fn a_mapping_without_room_is_out_of_memory() {
    let mut be = for_test();
    let mut host = mapping_driver();
    let ctl = host.open(&mut be, DeviceKind::Ctl);
    let mut p = vec![0u8; 56];
    p[24..32].copy_from_slice(&(4096u64 * 5).to_le_bytes());
    p[44..48].copy_from_slice(&(2u32 << 23).to_le_bytes());
    p[48..52].copy_from_slice(&ctl.to_le_bytes());
    let resp = host.dispatch(&mut be, &ioctl_msg(ctl, NV_ESC_RM_MAP_MEMORY, &p), 4096);
    assert_eq!(parse_resp(&resp).status, -12);
    assert!(host.placed.is_empty());
    p[24..32].copy_from_slice(&0u64.to_le_bytes());
    let resp = host.dispatch(&mut be, &ioctl_msg(ctl, NV_ESC_RM_MAP_MEMORY, &p), 4096);
    assert_eq!(parse_resp(&resp).status, -12, "nothing is too much as well");
}

#[test]
fn a_refused_mapping_goes_back_as_it_is() {
    let mut be = for_test();
    let mut host = Host::with_driver(|call| {
        call.data[40..44].copy_from_slice(&0x63u32.to_le_bytes());
        Ok(())
    });
    let ctl = host.open(&mut be, DeviceKind::Ctl);
    let mut p = vec![7u8; 56];
    p[48..52].copy_from_slice(&ctl.to_le_bytes());
    let resp = host.dispatch(&mut be, &ioctl_msg(ctl, NV_ESC_RM_MAP_MEMORY, &p), 4096);
    assert_eq!(parse_resp(&resp).status, 0);
    p[40..44].copy_from_slice(&0x63u32.to_le_bytes());
    assert_eq!(resp[IOCTL_BODY..], p);
    assert!(host.placed.is_empty());
}

#[test]
fn an_unmap_that_the_host_refuses_keeps_the_mapping() {
    let mut c = Chain::new();
    let fd = c.map_fd();
    let (off, _, linear) = c.map(1, 2, 3, 4096, fd);
    let free = c.be.shm_free_bytes();
    c.host.driver = Box::new(|call| {
        call.data[24..28].copy_from_slice(&0x1fu32.to_le_bytes());
        Ok(())
    });
    let mut p = vec![0u8; 32];
    p[16..24].copy_from_slice(&linear.to_le_bytes());
    let req = ioctl_msg(c.ctl, NV_ESC_RM_UNMAP_MEMORY, &p);
    let resp = c.host.dispatch(&mut c.be, &req, 4096);
    assert_eq!(parse_resp(&resp).status, 0);
    assert_eq!(u32_of(&resp, IOCTL_BODY + 24), 0x1f);
    c.host.driver = Box::new(|_| Err(5));
    let resp = c.host.dispatch(&mut c.be, &req, 4096);
    assert_eq!(parse_resp(&resp).status, -5);
    assert_eq!(c.be.shm_free_bytes(), free);
    c.host.driver = Box::new(|_| Ok(()));
    c.unmap(1, 2, 3, off);
    assert_ne!(c.be.shm_free_bytes(), free);
}

#[test]
fn an_unknown_unmap_is_forwarded_as_it_is() {
    let mut c = Chain::new();
    c.host.driver = Box::new(|call| {
        assert_eq!(u64_of(&call.data, 16), 0x1234);
        call.data[24] = 0x57;
        Ok(())
    });
    let mut p = vec![0u8; 32];
    p[16..24].copy_from_slice(&0x1234u64.to_le_bytes());
    let req = ioctl_msg(c.ctl, NV_ESC_RM_UNMAP_MEMORY, &p);
    let resp = c.host.dispatch(&mut c.be, &req, 4096);
    p[24] = 0x57;
    assert_eq!(resp[IOCTL_BODY..], p);
    c.host.driver = Box::new(|_| Err(22));
    let resp = c.host.dispatch(&mut c.be, &req, 4096);
    assert_eq!(parse_resp(&resp).status, -22);
    let short = ioctl_msg(c.ctl, NV_ESC_RM_UNMAP_MEMORY, &p[..31]);
    let resp = c.host.dispatch(&mut c.be, &short, 4096);
    assert_eq!(parse_resp(&resp).status, -22);
}

#[test]
fn mapping_info_gets_the_hosts_address_and_gives_none_back() {
    let mut c = Chain::new();
    let fd = c.map_fd();
    c.map(0x11, 2, 0x33, 4096, fd);
    let mut p = vec![0u8; 40];
    p[0..4].copy_from_slice(&0x11u32.to_le_bytes());
    p[8..12].copy_from_slice(&0x33u32.to_le_bytes());
    p[16..24].copy_from_slice(&77u64.to_le_bytes());
    p[24..32].copy_from_slice(&78u64.to_le_bytes());
    c.host.driver = Box::new(|call| {
        assert_eq!(u64_of(&call.data, 16), 0xffff_8888_0000_1000);
        assert_eq!(u64_of(&call.data, 24), 0xffff_8888_0000_1000);
        Ok(())
    });
    let req = ioctl_msg(c.ctl, NV_ESC_RM_UPDATE_DEVICE_MAPPING_INFO, &p);
    let resp = c.host.dispatch(&mut c.be, &req, 4096);
    assert_eq!(resp[IOCTL_BODY + 16..IOCTL_BODY + 32], [0u8; 16]);
    p[8..12].copy_from_slice(&0x34u32.to_le_bytes());
    c.host.driver = Box::new(|call| {
        assert_eq!(u64_of(&call.data, 16), 77, "the guest's own where nothing is mapped");
        assert_eq!(u64_of(&call.data, 24), 77);
        Ok(())
    });
    let req = ioctl_msg(c.ctl, NV_ESC_RM_UPDATE_DEVICE_MAPPING_INFO, &p);
    let resp = c.host.dispatch(&mut c.be, &req, 4096);
    assert_eq!(parse_resp(&resp).status, 0);
    let req = ioctl_msg(c.ctl, NV_ESC_RM_UPDATE_DEVICE_MAPPING_INFO, &p[..39]);
    let resp = c.host.dispatch(&mut c.be, &req, 4096);
    assert_eq!(parse_resp(&resp).status, -22);
}

fn mmap_msg(handle: u32) -> Vec<u8> {
    let mut v = hdr(MsgType::Mmap, handle);
    v.extend(MmapReq { size: 4096, offset: 0, prot: 3, padding: 0 }.to_bytes());
    v
}

#[test]
fn mmap_says_what_is_missing() {
    let mut c = Chain::new();
    let fd = c.map_fd();
    let resp = c.host.dispatch(&mut c.be, &mmap_msg(fd), 64);
    assert_eq!(parse_resp(&resp).status, -2, "nothing is mapped on the handle");
    c.map(1, 2, 3, 4096, fd);
    let resp = c.host.dispatch(&mut c.be, &mmap_msg(fd), 64);
    assert_eq!(parse_resp(&resp).status, -95, "the window has no address in the guest");
    let resp = c.host.dispatch(&mut c.be, &hdr(MsgType::Mmap, fd), 64);
    assert_eq!(parse_resp(&resp).status, -22);
    let mut un = hdr(MsgType::Munmap, fd);
    let resp = c.host.dispatch(&mut c.be, &un, 64);
    assert_eq!(parse_resp(&resp).status, -22);
    un.extend(MunmapReq { mapping_id: 1, padding: 0 }.to_bytes());
    let resp = c.host.dispatch(&mut c.be, &un, 64);
    assert_eq!(parse_resp(&resp).status, 0);
    assert_eq!(parse_resp(&resp).msg_type, 5);
}

#[test]
fn unknown_messages_are_answered_as_ioctls() {
    let mut be = for_test();
    let mut req = hdr(MsgType::Open, 3);
    req[0] = 8;
    let resp = Host::new().dispatch(&mut be, &req, 64);
    assert_eq!(parse_resp(&resp).status, -71);
    assert_eq!(parse_resp(&resp).msg_type, 3);
    assert_eq!(parse_resp(&resp).handle, 0);
}

#[test]
fn devices_have_their_paths() {
    let path = |v: u32| device_path(v).map_err(|e| e.to_string());
    assert_eq!(path(0).unwrap(), "/dev/nvidia0");
    assert_eq!(path(7).unwrap(), "/dev/nvidia7");
    assert_eq!(path(8).unwrap_err(), "GPU index 8 out of range");
    assert_eq!(path(255).unwrap(), "/dev/nvidiactl");
    assert_eq!(path(256).unwrap(), "/dev/nvidia-uvm");
    assert_eq!(path(257).unwrap(), "/dev/nvidia-uvm-tools");
    assert_eq!(path(258).unwrap(), "/dev/nvidia-modeset");
    assert_eq!(path(300).unwrap_err(), "invalid device kind 300");
    assert_eq!(path(512).unwrap_err(), "invalid device kind 512");
}

#[test]
fn an_open_that_fails_reports_why() {
    let mut be = for_test();
    let mut host = Host::new();
    host.open_errno = Some(2);
    let resp = host.dispatch(&mut be, &open_msg(DeviceKind::Uvm), 64);
    assert_eq!(parse_resp(&resp).status, -2);
    host.open_errno = Some(0);
    let resp = host.dispatch(&mut be, &open_msg(DeviceKind::Uvm), 64);
    assert_eq!(parse_resp(&resp).status, -EIO);
    assert_eq!(be.handle_count(), 0);
    let resp = host.dispatch(&mut be, &hdr(MsgType::Open, 0), 64);
    assert_eq!(parse_resp(&resp).status, -19);
}

#[test]
fn descriptors_inside_parameters_are_translated_and_restored() {
    for (escape, offset, len) in [
        (NV_ESC_REGISTER_FD, 0usize, 4usize),
        (NV_ESC_ALLOC_OS_EVENT, 8, 16),
        (NV_ESC_FREE_OS_EVENT, 8, 16),
        (NV_ESC_RM_ALLOC_MEMORY, 48, 56),
    ] {
        assert_eq!(fd_offset(escape), Some(offset));
        assert_eq!(route(_IOWR(escape, 4) as u32), Route::FdCarrying(offset));
        let mut be = for_test();
        let mut host = Host::with_driver(move |call| {
            assert_eq!(u32_of(&call.data, offset), 101);
            Ok(())
        });
        let on = host.open(&mut be, DeviceKind::Gpu(0));
        let carried = host.open(&mut be, DeviceKind::Ctl);
        let mut p = vec![0x55u8; len];
        p[offset..offset + 4].copy_from_slice(&carried.to_le_bytes());
        let resp = host.dispatch(&mut be, &ioctl_msg(on, escape, &p), 512);
        assert_eq!(resp[IOCTL_BODY..], p);
        let bad = vec![0xffu8; len];
        let resp = host.dispatch(&mut be, &ioctl_msg(on, escape, &bad), 512);
        assert!(is_err(&resp, Status::BadHandle));
        let short = vec![0u8; offset + 3];
        let resp = host.dispatch(&mut be, &ioctl_msg(on, escape, &short), 512);
        assert_eq!(parse_resp(&resp).status, -22);
        host.driver = Box::new(|_| Err(13));
        let resp = host.dispatch(&mut be, &ioctl_msg(on, escape, &p), 512);
        assert_eq!(parse_resp(&resp).status, -13);
    }
}

#[test]
fn nested_blocks_get_host_addresses_that_do_not_come_back() {
    let mut be = for_test();
    let mut host = Host::with_driver(|call| {
        assert_eq!(call.data.len(), 32);
        assert_eq!(u64_of(&call.data, 16), 0x7f00_0000_1000);
        assert_eq!(u64_of(&call.nested, 8), 0x7f00_0000_2000);
        assert_eq!(call.deep, [1, 2, 3]);
        call.nested[0] = 0xaa;
        call.deep[0] = 0xbb;
        call.data[28] = 0xcc;
        Ok(())
    });
    let h = host.open(&mut be, DeviceKind::Ctl);
    let data = vec![5u8; 32];
    let nested = vec![6u8; 16];
    let cmd = _IOWR(NV_ESC_RM_CONTROL, 32) as u32;
    let resp = host.dispatch(&mut be, &ioctl_blocks(h, cmd, &data, &nested, (8, &[1, 2, 3])), 512);
    let l = IoctlResp::read(&resp, 16);
    assert_eq!((l.data_len, l.nested_len, l.deep_len), (32, 16, 3));
    let out = &resp[IOCTL_BODY..];
    assert_eq!(u64_of(out, 16), 0);
    assert_eq!(out[28], 0xcc);
    assert_eq!(out[32], 0xaa);
    assert_eq!(u64_of(out, 32 + 8), 0);
    assert_eq!(out[48..], [0xbb, 2, 3]);

    let resp = host.dispatch(&mut be, &ioctl_blocks(h, cmd, &data, &nested, (9, &[1])), 512);
    assert_eq!(parse_resp(&resp).status, -22, "no room for the pointer");
    let resp = host.dispatch(&mut be, &ioctl_blocks(h, cmd, &data[..31], &[], (0, &[])), 512);
    assert_eq!(parse_resp(&resp).status, -22, "the struct is short");
    host.driver = Box::new(|call| {
        assert!(call.nested_ptr.is_none() && call.nested.is_empty());
        assert_eq!(u64_of(&call.data, 16), u64::from_le_bytes([5; 8]));
        Ok(())
    });
    let resp = host.dispatch(&mut be, &ioctl_blocks(h, cmd, &data, &[], (0, &[])), 512);
    assert_eq!(u64_of(&resp, IOCTL_BODY + 16), 0);
    host.driver = Box::new(|_| Err(1));
    let resp = host.dispatch(&mut be, &ioctl_blocks(h, cmd, &data, &nested, (0, &[])), 512);
    assert_eq!(parse_resp(&resp).status, -1);
}

#[test]
fn controls_that_name_a_descriptor_are_translated() {
    for (ctrl, offset, len) in [(0x3d05u32, 16usize, 20usize), (0x3d06, 0, 4)] {
        let mut be = for_test();
        let mut host = Host::with_driver(move |call| {
            assert_eq!(u32_of(&call.nested, offset), 100);
            Ok(())
        });
        let h = host.open(&mut be, DeviceKind::Ctl);
        let cmd = _IOWR(NV_ESC_RM_CONTROL, 32) as u32;
        let mut data = vec![0u8; 32];
        data[8..12].copy_from_slice(&ctrl.to_le_bytes());
        let mut nested = vec![0u8; len];
        nested[offset..offset + 4].copy_from_slice(&h.to_le_bytes());
        let resp = host.dispatch(&mut be, &ioctl_blocks(h, cmd, &data, &nested, (0, &[])), 512);
        assert_eq!(u32_of(&resp, IOCTL_BODY + 32 + offset), h);
        nested[offset..offset + 4].copy_from_slice(&u32::MAX.to_le_bytes());
        let resp = host.dispatch(&mut be, &ioctl_blocks(h, cmd, &data, &nested, (0, &[])), 512);
        assert!(is_err(&resp, Status::BadHandle));
        // Too short a block names nothing and goes as it is.
        host.driver = Box::new(|_| Ok(()));
        let short = vec![0xffu8; len - 1];
        let resp = host.dispatch(&mut be, &ioctl_blocks(h, cmd, &data, &short, (0, &[])), 512);
        assert_eq!(parse_resp(&resp).status, 0);
    }
}

#[test]
fn modeset_and_alloc_have_their_own_layouts() {
    assert_eq!(route(0xc010_6d00), Route::Nested { outer: 16, ptr: 8 });
    assert_eq!(
        route(_IOWR(NV_ESC_RM_ALLOC, 48) as u32),
        Route::Nested { outer: 48, ptr: 16 }
    );
    assert_eq!(
        route(_IOWR(NV_ESC_RM_CONTROL, 32) as u32),
        Route::Nested { outer: 32, ptr: 16 }
    );
    assert_eq!(route(_IOWR(NV_ESC_RM_MAP_MEMORY, 56) as u32), Route::MapMemory);
    assert_eq!(route(_IOWR(NV_ESC_RM_UNMAP_MEMORY, 32) as u32), Route::UnmapMemory);
    assert_eq!(
        route(_IOWR(NV_ESC_RM_UPDATE_DEVICE_MAPPING_INFO, 40) as u32),
        Route::MappingInfo
    );
    assert_eq!(route(_IOWR(NV_ESC_RM_FREE, 16) as u32), Route::Simple);
    let mut be = for_test();
    let mut host = Host::with_driver(|call| {
        assert_eq!(u64_of(&call.data, 8), 0x7f00_0000_1000);
        Ok(())
    });
    let h = host.open(&mut be, DeviceKind::Modeset);
    let resp = host.dispatch(
        &mut be,
        &ioctl_blocks(h, 0xc010_6d00, &[1u8; 16], &[2u8; 4], (0, &[])),
        512,
    );
    assert_eq!(u64_of(&resp, IOCTL_BODY + 8), 0);
    assert_eq!(resp[IOCTL_BODY + 16..], [2u8; 4]);
}

#[test]
fn a_busy_device_is_asked_once_more_and_then_believed() {
    let mut be = for_test();
    let mut host = Host::new();
    let h = host.open(&mut be, DeviceKind::Ctl);
    let msg = ioctl_msg(h, NV_ESC_SYS_PARAMS, &[0, 1, 2, 3, 4, 5, 6, 7]);
    host.driver = Box::new(|call| if call.data[0] == 2 { Ok(()) } else { Err(EBUSY) });
    let resp = host.dispatch(&mut be, &msg, 512);
    assert_eq!(resp[IOCTL_BODY..], [2, 1, 2, 3, 4, 5, 6, 7]);
    host.driver = Box::new(|_| Err(EBUSY));
    let resp = host.dispatch(&mut be, &msg, 512);
    assert_eq!(parse_resp(&resp).status, 0);
    assert_eq!(resp[IOCTL_BODY..], [0u8; 8]);
    let msg = ioctl_msg(h, NV_ESC_SYS_PARAMS, &[9, 1, 2, 3, 4, 5, 6, 7]);
    let resp = host.dispatch(&mut be, &msg, 512);
    assert_eq!(resp[IOCTL_BODY..], [0u8; 8], "no second try, no failure");
    host.driver = Box::new(|_| Err(EIO));
    let resp = host.dispatch(&mut be, &msg, 512);
    assert_eq!(parse_resp(&resp).status, -EIO);
    host.driver = Box::new(|_| Err(EBUSY));
    let other = ioctl_msg(h, NV_ESC_CARD_INFO, &[0u8; 8]);
    let resp = host.dispatch(&mut be, &other, 512);
    assert_eq!(parse_resp(&resp).status, -EBUSY);
}

#[test]
fn an_ioctl_must_be_whole_and_name_an_open_handle() {
    let mut be = for_test();
    let mut host = Host::new();
    let h = host.open(&mut be, DeviceKind::Ctl);
    let whole = ioctl_msg(h, NV_ESC_CARD_INFO, &[0u8; 8]);
    let resp = host.dispatch(&mut be, &whole[..39], 512);
    assert_eq!(parse_resp(&resp).status, -71);
    let resp = host.dispatch(&mut be, &whole[..47], 512);
    assert_eq!(parse_resp(&resp).status, -22);
    let resp = host.dispatch(&mut be, &ioctl_msg(h + 1, NV_ESC_CARD_INFO, &[0u8; 8]), 512);
    assert!(is_err(&resp, Status::BadHandle));
    let resp = host.dispatch(&mut be, &whole, 35);
    assert_eq!(parse_resp(&resp).status, -28, "the response does not fit");
    assert_eq!(resp.len(), 16);
    assert_eq!(host.dispatch(&mut be, &whole, 36).len(), 36);
}

fn learned() -> (NvidiaBackend, Host, u32) {
    let mut be = NvidiaBackend::with_default_zones();
    let mut host = Host::with_driver(|call| {
        if (call.request & 0xff) as u32 == NV_ESC_CHECK_VERSION_STR {
            call.data[8..18].copy_from_slice(b"580.178.04");
        }
        Ok(())
    });
    let h = host.open(&mut be, DeviceKind::Ctl);
    host.dispatch(&mut be, &ioctl_msg(h, NV_ESC_CHECK_VERSION_STR, &[0u8; 72]), 512);
    (be, host, h)
}

#[test]
fn a_request_of_the_wrong_size_is_refused() {
    let (mut be, mut host, h) = learned();
    host.driver = Box::new(|_| panic!("must not reach the host"));
    let wrong = ioctl_msg(h, NV_ESC_RM_MAP_MEMORY_DMA, &[0u8; 48]);
    let resp = host.dispatch(&mut be, &wrong, 512);
    assert_eq!(parse_resp(&resp).status, -22);
    let unknown = ioctl_msg(h, NV_ESC_RM_I2C_ACCESS, &[0u8; 28]);
    let resp = host.dispatch(&mut be, &unknown, 512);
    assert_eq!(parse_resp(&resp).status, -25);
    host.driver = Box::new(|call| {
        assert_eq!(call.check, AbiCheck::Accepted);
        Ok(())
    });
    let right = ioctl_msg(h, NV_ESC_RM_MAP_MEMORY_DMA, &[0u8; 64]);
    let resp = host.dispatch(&mut be, &right, 512);
    assert_eq!(parse_resp(&resp).status, 0);
    host.driver = Box::new(|call| {
        assert_eq!(call.check, AbiCheck::VariableLength);
        Ok(())
    });
    let resp = host.dispatch(&mut be, &ioctl_msg(h, NV_ESC_CARD_INFO, &[0u8; 2304]), 4096);
    assert_eq!(parse_resp(&resp).status, 0);
    let resp = host.dispatch(&mut be, &ioctl_msg(h, NV_ESC_RM_DUP_OBJECT, &[0u8; 28]), 512);
    assert_eq!(parse_resp(&resp).status, 0);
}

#[test]
fn a_permissive_backend_forwards_unknown_escapes_and_says_so() {
    let (mut be, mut host, h) = learned();
    be.set_abi_policy(AbiPolicy::Permissive);
    host.driver = Box::new(|_| panic!("must not reach the host"));
    let wrong = ioctl_msg(h, NV_ESC_RM_MAP_MEMORY_DMA, &[0u8; 48]);
    assert_eq!(parse_resp(&host.dispatch(&mut be, &wrong, 512)).status, -22);
    host.driver = Box::new(|call| {
        assert_eq!(call.check, AbiCheck::UnknownEscape);
        Ok(())
    });
    let unknown = ioctl_msg(h, NV_ESC_RM_I2C_ACCESS, &[0u8; 28]);
    assert_eq!(parse_resp(&host.dispatch(&mut be, &unknown, 512)).status, 0);
}

#[test]
fn other_drivers_are_not_held_to_the_profile() {
    let (mut be, mut host, h) = learned();
    host.driver = Box::new(|call| {
        assert_eq!(call.check, AbiCheck::NoProfile);
        Ok(())
    });
    let uvm = ioctl_blocks(h, 0x0000_0001, &[0u8; 12], &[], (0, &[]));
    assert_eq!(parse_resp(&host.dispatch(&mut be, &uvm, 512)).status, 0);
}

#[test]
fn files_are_streamed_in_order_and_ended() {
    let mut be = for_test();
    let mut host = Host::new();
    host.files = vec![("version", "v"), ("gpus/0/information", "info")];
    let req = hdr(MsgType::GetProcFiles, 0);
    let resp = host.dispatch(&mut be, &req, 4096);
    let mut want = vec![18u8, 0, 0, 0, 4, 0, 0, 0];
    want.extend_from_slice(b"gpus/0/informationinfo");
    want.extend_from_slice(&[7, 0, 0, 0, 1, 0, 0, 0]);
    want.extend_from_slice(b"versionv");
    want.extend_from_slice(&[0; 8]);
    assert_eq!(resp, want);
    // Room for the first file and the end of the stream only.
    let resp = host.dispatch(&mut be, &req, 40);
    assert_eq!(resp[..30], want[..30]);
    assert_eq!(resp[30..], [0u8; 8]);
    assert!(host.dispatch(&mut be, &req, 7).is_empty());
    assert_eq!(FileTree::Proc.root(), "/proc/driver/nvidia");
    assert_eq!(FileTree::Sys.root(), "/sys");
    assert_eq!(FileTree::Proc.name(), "GET_PROC_FILES");
    assert_eq!(FileTree::Sys.name(), "GET_SYS_FILES");
}

#[test]
fn sys_files_keep_their_order_and_count_no_render_nodes() {
    let mut be = for_test();
    let mut host = Host::new();
    host.files = vec![("b", "2"), ("a", "1")];
    let resp = host.dispatch(&mut be, &hdr(MsgType::GetSysFiles, 0), 4096);
    let mut want = vec![1u8, 0, 0, 0, 1, 0, 0, 0];
    want.extend_from_slice(b"b2");
    want.extend_from_slice(&[1, 0, 0, 0, 1, 0, 0, 0]);
    want.extend_from_slice(b"a1");
    want.extend_from_slice(&[0; 12]);
    assert_eq!(resp, want);
    host.files.clear();
    assert_eq!(host.dispatch(&mut be, &hdr(MsgType::GetSysFiles, 0), 8), [0u8; 8]);
    assert_eq!(host.dispatch(&mut be, &hdr(MsgType::GetSysFiles, 0), 12), [0u8; 12]);
}

#[test]
fn watchers_hear_of_what_stays_open() {
    let mut be = for_test();
    let mut host = Host::new();
    let a = host.open(&mut be, DeviceKind::Ctl);
    let b = host.open(&mut be, DeviceKind::Ctl);
    host.dispatch(&mut be, &close_msg(a), 64);
    let (added, removed) = be.take_watch_updates();
    assert_eq!(added, [(b, 101)]);
    assert!(removed.is_empty(), "a was never handed out");
    host.dispatch(&mut be, &close_msg(b), 64);
    let (added, removed) = be.take_watch_updates();
    assert!(added.is_empty());
    assert_eq!(removed, [b]);
}

#[test]
fn events_that_do_not_fit_are_not_accepted() {
    let mut be = for_test();
    assert!(!be.accepts(&Event::Placed(Ok(()))));
    let first = be.dispatch(&open_msg(DeviceKind::Ctl), 64);
    assert!(matches!(first, Step::Do(Action::Open(_))));
    assert!(!be.accepts(&Event::Restored(vec![])));
    assert!(!be.accepts(&Event::Opened(Err(i32::MIN))));
    assert!(be.accepts(&Event::Opened(Ok(3))));
    be.resume(Event::Opened(Ok(3)));
    be.dispatch(&ioctl_msg(1, NV_ESC_CARD_INFO, &[0u8; 8]), 64);
    let event = |n: usize| Event::Returned {
        result: Ok(()),
        data: vec![0; n],
        nested: vec![],
        deep: vec![],
    };
    assert!(!be.accepts(&event(7)));
    assert!(be.accepts(&event(8)));
}

#[test]
fn a_client_can_open_ask_and_close() {
    let mut be = NvidiaBackend::with_default_zones();
    let mut host = Host::with_driver(|call| {
        call.data[8..17].copy_from_slice(b"615.71.09");
        Ok(())
    });
    let opened = host.dispatch(&mut be, &build_open_ctl(), 64);
    let h = read_header(&opened).expect("a header");
    assert_eq!((h.status, h.handle), (0, 1));
    let resp = host.dispatch(&mut be, &build_check_version_str(h.handle), 512);
    assert_eq!(read_version_reply(&resp), Some(DriverVersion::new(615, 71, 9)));
    assert_eq!(read_version_reply(&resp[..99]), None);
    let closed = host.dispatch(&mut be, &build_close(h.handle), 64);
    assert_eq!(read_header(&closed).expect("a header").status, 0);
    assert_eq!(host.closed, [100]);
    assert!(read_header(&closed[..15]).is_none());
    assert_eq!(frame(&[7, 8]), [2, 0, 0, 0, 7, 8]);
}

#[test]
fn the_window_size_is_reported() {
    assert_eq!(for_test().shm_total_size(), 4096 * 8);
    assert_eq!(NvidiaBackend::with_default_zones().shm_total_size(), 1 << 30);
    assert_eq!(for_test().shm_free_bytes(), (8192, 16384, 8192));
}
