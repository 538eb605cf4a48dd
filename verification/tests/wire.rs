//! Messages, headers and responses on the wire.
use virtio_nvgpu::bytes::{get_u32, get_u64, put_u32, put_u64, u32_to_bytes, u64_to_bytes};
use virtio_nvgpu::errno;
use virtio_nvgpu::messages::{
    DeviceKind, FileEntry, IoctlReq, IoctlResp, MmapReq, MmapResp, MsgHeader, MsgType, MunmapReq,
    OpenReq, DEV_DRI_BASE,
};
use virtio_nvgpu::response::{write_error_resp, write_hdr, write_ioctl_resp, Status};

#[test]
fn device_types_decode_the_way_the_driver_encodes_them() {
    assert_eq!(DeviceKind::from_device_type(0), Some(DeviceKind::Gpu(0)));
    assert_eq!(DeviceKind::from_device_type(3), Some(DeviceKind::Gpu(3)));
    assert_eq!(DeviceKind::from_device_type(255), Some(DeviceKind::Ctl));
    assert_eq!(DeviceKind::from_device_type(256), Some(DeviceKind::Uvm));
    assert_eq!(DeviceKind::from_device_type(257), Some(DeviceKind::UvmTools));
    assert_eq!(DeviceKind::from_device_type(258), Some(DeviceKind::Modeset));
}

#[test]
fn render_nodes_are_addressable_and_nonsense_is_not() {
    assert_eq!(
        DeviceKind::from_device_type(DEV_DRI_BASE),
        Some(DeviceKind::Dri(0))
    );
    assert_eq!(
        DeviceKind::from_device_type(DEV_DRI_BASE + 3),
        Some(DeviceKind::Dri(3))
    );
    assert_eq!(DeviceKind::from_device_type(300), None);
}

#[test]
fn an_error_status_is_negative() {
    let h = MsgHeader::err(MsgType::Open, 2);
    assert_eq!(h.status, -2);
    assert!(h.status < 0);
    assert_eq!(MsgHeader::err(MsgType::Open, -2).status, -2);
    assert_eq!(MsgHeader::ok(MsgType::Open, 7).status, 0);
    assert_eq!(MsgHeader::ok(MsgType::Open, 7).handle, 7);
}

#[test]
fn message_types_round_trip() {
    for t in [
        MsgType::Open,
        MsgType::Close,
        MsgType::Ioctl,
        MsgType::Mmap,
        MsgType::Munmap,
        MsgType::GetProcFiles,
        MsgType::GetSysFiles,
    ] {
        assert_eq!(MsgType::from_u32(t.to_u32()), Some(t));
    }
    assert_eq!(MsgType::from_u32(0), None);
    assert_eq!(MsgType::from_u32(8), None);
}

#[test]
fn device_kinds_encode_back() {
    for v in [0u32, 1, 254, 255, 256, 257, 258, 512, 1000, u32::MAX] {
        let k = DeviceKind::from_device_type(v).expect("a device");
        assert_eq!(k.to_device_type(), v);
    }
    assert_eq!(DeviceKind::from_device_type(259), None);
    assert_eq!(DeviceKind::from_device_type(511), None);
}

#[test]
fn structs_have_their_wire_sizes() {
    assert_eq!(MsgHeader::default().to_bytes().len(), 16);
    assert_eq!(OpenReq::default().to_bytes().len(), 8);
    assert_eq!(IoctlReq::default().to_bytes().len(), 24);
    assert_eq!(IoctlResp::default().to_bytes().len(), 12);
    assert_eq!(MmapReq::default().to_bytes().len(), 24);
    assert_eq!(MmapResp::default().to_bytes().len(), 24);
    assert_eq!(MunmapReq::default().to_bytes().len(), 8);
    assert_eq!(FileEntry::default().to_bytes().len(), 8);
}

#[test]
fn structs_read_back_from_their_bytes() {
    let h = MsgHeader { msg_type: 3, handle: 0x0102_0304, status: -71, padding: 9 };
    let b = h.to_bytes();
    assert_eq!(b[0..4], [3, 0, 0, 0]);
    assert_eq!(b[4..8], [4, 3, 2, 1]);
    assert_eq!(b[8..12], [185, 255, 255, 255]);
    assert_eq!(MsgHeader::read(&b, 0), h);

    let m = MmapReq { size: 0x1122_3344_5566_7788, offset: 4096, prot: 3, padding: 0 };
    let mut shifted = vec![0xffu8; 3];
    shifted.extend_from_slice(&m.to_bytes());
    assert_eq!(MmapReq::read(&shifted, 3), m);

    let r = MmapResp { guest_phys_addr: u64::MAX, size: 1, mapping_id: 2, padding: 3 };
    assert_eq!(MmapResp::read(&r.to_bytes(), 0), r);

    let q = IoctlReq {
        cmd: 0xc038_464e,
        data_len: 56,
        nested_offset: 56,
        nested_len: 8,
        deep_ptr_offset: 4,
        deep_len: 16,
    };
    assert_eq!(IoctlReq::read(&q.to_bytes(), 0), q);
    let o = OpenReq { device_type: 255, flags: 2 };
    assert_eq!(OpenReq::read(&o.to_bytes(), 0), o);
    let u = MunmapReq { mapping_id: 77, padding: 0 };
    assert_eq!(MunmapReq::read(&u.to_bytes(), 0), u);
    let f = FileEntry { path_len: 5, content_len: 6 };
    assert_eq!(FileEntry::read(&f.to_bytes(), 0), f);
    let i = IoctlResp { data_len: 1, nested_len: 2, deep_len: 3 };
    assert_eq!(IoctlResp::read(&i.to_bytes(), 0), i);
}

#[test]
fn numbers_are_little_endian() {
    assert_eq!(u32_to_bytes(0x0a0b_0c0d), 0x0a0b_0c0du32.to_le_bytes().to_vec());
    assert_eq!(
        u64_to_bytes(0x0102_0304_0506_0708),
        0x0102_0304_0506_0708u64.to_le_bytes().to_vec()
    );
    let mut v = vec![0xeeu8; 20];
    put_u32(&mut v, 1, 0xdead_beef);
    put_u64(&mut v, 8, 0xfeed_face_cafe_f00d);
    assert_eq!(get_u32(&v, 1), 0xdead_beef);
    assert_eq!(get_u64(&v, 8), 0xfeed_face_cafe_f00d);
    assert_eq!(v[0], 0xee);
    assert_eq!(v[5..8], [0xee, 0xee, 0xee]);
    assert_eq!(v[16..20], [0xee; 4]);
}

#[test]
fn errnos_are_those_of_linux() {
    assert_eq!(errno::ENOENT, libc::ENOENT);
    assert_eq!(errno::EIO, libc::EIO);
    assert_eq!(errno::EBADF, libc::EBADF);
    assert_eq!(errno::ENOMEM, libc::ENOMEM);
    assert_eq!(errno::EBUSY, libc::EBUSY);
    assert_eq!(errno::ENODEV, libc::ENODEV);
    assert_eq!(errno::EINVAL, libc::EINVAL);
    assert_eq!(errno::ENOTTY, libc::ENOTTY);
    assert_eq!(errno::ENOSPC, libc::ENOSPC);
    assert_eq!(errno::EPROTO, libc::EPROTO);
    assert_eq!(errno::ENOTSUP, libc::ENOTSUP);
    assert_eq!(virtio_nvgpu::pump::EINTR, libc::EINTR);
}

#[test]
fn every_status_has_its_errno() {
    assert_eq!(Status::Success.errno(), 0);
    assert_eq!(Status::InvalidMsgType.errno(), 71);
    assert_eq!(Status::InvalidDevice.errno(), 19);
    assert_eq!(Status::OpenFailed.errno(), 5);
    assert_eq!(Status::BadHandle.errno(), 9);
    assert_eq!(Status::IoctlFailed.errno(), 5);
    assert_eq!(Status::BufferTooSmall.errno(), 28);
    for (v, s) in [
        (0, Status::Success),
        (1, Status::InvalidMsgType),
        (2, Status::InvalidDevice),
        (3, Status::OpenFailed),
        (4, Status::BadHandle),
        (5, Status::IoctlFailed),
        (6, Status::BufferTooSmall),
    ] {
        assert_eq!(Status::from_u32(v), s);
    }
}

#[test]
fn a_header_needs_room() {
    assert!(write_hdr(MsgType::Open, 1, 0, 15).is_empty());
    assert_eq!(write_hdr(MsgType::Open, 1, 0, 16).len(), 16);
    assert!(write_error_resp(MsgType::Ioctl, Status::BadHandle, 0, 3).is_empty());
}

#[test]
fn a_failure_reports_the_hosts_errno_or_its_own() {
    let own = write_error_resp(MsgType::Close, Status::BadHandle, 0, 64);
    assert_eq!(MsgHeader::read(&own, 0).status, -9);
    let host = write_error_resp(MsgType::Close, Status::BadHandle, 2, 64);
    assert_eq!(MsgHeader::read(&host, 0).status, -2);
    let negative = write_error_resp(MsgType::Close, Status::BadHandle, -2, 64);
    assert_eq!(MsgHeader::read(&negative, 0).status, -2);
    assert_eq!(MsgHeader::read(&host, 0).handle, 0);
    assert_eq!(MsgHeader::read(&host, 0).msg_type, 2);
}

#[test]
fn an_ioctl_response_splits_as_the_request_did() {
    let out = [1u8, 2, 3, 4, 5];
    let deep = [9u8, 8];
    let r = write_ioctl_resp(MsgType::Ioctl, 7, 3, &out, &deep, 64);
    assert_eq!(r.len(), 28 + 7);
    let h = MsgHeader::read(&r, 0);
    assert_eq!((h.msg_type, h.handle, h.status), (3, 7, 0));
    let l = IoctlResp::read(&r, 16);
    assert_eq!((l.data_len, l.nested_len, l.deep_len), (3, 2, 2));
    assert_eq!(r[28..], [1, 2, 3, 4, 5, 9, 8]);

    let small = write_ioctl_resp(MsgType::Ioctl, 7, 3, &out, &deep, 34);
    assert_eq!(small.len(), 16);
    assert_eq!(MsgHeader::read(&small, 0).status, -28);
}
