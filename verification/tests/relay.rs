//! Descriptor chains, kicks and the event pump.
use virtio_nvgpu::messages::MsgHeader;
use virtio_nvgpu::pump::{event_ready_bytes, Pump, PumpAction, PumpEvent, PumpState};
use virtio_nvgpu::transport::{kick, plan_event, plan_request, Descriptor, Kick, RESP_MAX};
use virtio_nvgpu::virtio::{NUM_QUEUES, QUEUE_SIZE, VIRTIO_ID_GPU_NV};

fn readable(len: u32) -> Descriptor {
    Descriptor { write_only: false, len }
}

fn writable(len: u32) -> Descriptor {
    Descriptor { write_only: true, len }
}

#[test]
fn a_request_is_what_is_readable_and_the_response_goes_last() {
    let p = plan_request(&vec![readable(16), writable(8), readable(4), writable(100)]);
    assert_eq!(p.request, [0, 2]);
    assert_eq!(p.response, Some((3, 100)));
    let p = plan_request(&vec![writable(u32::MAX)]);
    assert!(p.request.is_empty());
    assert_eq!(p.response, Some((0, RESP_MAX)));
    assert_eq!(plan_request(&vec![readable(1)]).response, None);
}

#[test]
fn a_notification_goes_into_the_first_buffer() {
    assert_eq!(plan_event(&vec![readable(4), writable(100), writable(200)], 16), Some((1, 16)));
    assert_eq!(plan_event(&vec![writable(9)], 16), Some((0, 9)));
    assert_eq!(plan_event(&vec![readable(100)], 16), None);
}

#[test]
fn only_control_kicks_are_served() {
    assert_eq!(kick(0, true), Kick::Serve);
    assert_eq!(kick(0, false), Kick::NoMemory);
    assert_eq!(kick(1, true), Kick::Ignore);
    assert_eq!(kick(1, false), Kick::Ignore);
    assert_eq!(kick(2, true), Kick::Unknown);
    assert_eq!((NUM_QUEUES, QUEUE_SIZE, VIRTIO_ID_GPU_NV), (2, 256, 45));
}

#[test]
fn the_pump_drains_sweeps_and_waits() {
    let mut p = Pump::new();
    assert!(matches!(
        p.next(PumpEvent::Add { handle: 7, fd: 50 }),
        PumpAction::Arm { handle: 7, fd: 50 }
    ));
    assert!(matches!(p.next(PumpEvent::Armed(true)), PumpAction::Poll));
    p.next(PumpEvent::Add { handle: 8, fd: 51 });
    assert!(matches!(p.next(PumpEvent::Armed(false)), PumpAction::Close { fd: 51 }));
    match p.next(PumpEvent::Quiet { since_sweep_ms: 1 }) {
        PumpAction::Sweep(list) => assert_eq!(list, [(7, 50)]),
        _ => panic!("a sweep is due"),
    }
    match p.next(PumpEvent::Swept(vec![true])) {
        PumpAction::NotifyAndWait(handles) => assert_eq!(handles, [7]),
        _ => panic!("a readable descriptor is reported"),
    }
    match p.next(PumpEvent::Woken(Ok(vec![7, 7]))) {
        PumpAction::Notify(handles) => assert_eq!(handles, [7, 7]),
        _ => panic!("what woke the pump is reported"),
    }
    match p.next(PumpEvent::Quiet { since_sweep_ms: 0 }) {
        PumpAction::NotifyAndWait(handles) => assert!(handles.is_empty()),
        _ => panic!("no sweep yet"),
    }
    assert!(matches!(p.next(PumpEvent::Woken(Err(4))), PumpAction::Poll));
}

#[test]
fn a_removed_handle_is_dropped_and_not_swept() {
    let mut p = Pump::new();
    p.next(PumpEvent::Add { handle: 7, fd: 50 });
    p.next(PumpEvent::Armed(true));
    assert!(matches!(p.next(PumpEvent::Remove { handle: 9 }), PumpAction::Poll));
    p.next(PumpEvent::Add { handle: 7, fd: 60 });
    assert!(matches!(p.next(PumpEvent::Armed(true)), PumpAction::Close { fd: 50 }));
    assert!(matches!(
        p.next(PumpEvent::Remove { handle: 7 }),
        PumpAction::Drop { handle: 7, fd: 60 }
    ));
    match p.next(PumpEvent::Quiet { since_sweep_ms: 1000 }) {
        PumpAction::Sweep(list) => assert!(list.is_empty()),
        _ => panic!("a sweep is due"),
    }
    p.next(PumpEvent::Swept(vec![]));
    assert!(matches!(p.next(PumpEvent::Woken(Err(9))), PumpAction::Stop));
    assert!(matches!(p.state, PumpState::Stopped));
    let mut q = Pump::new();
    assert!(matches!(q.next(PumpEvent::Gone), PumpAction::Stop));
}

#[test]
fn a_notification_is_a_bare_header() {
    let b = event_ready_bytes(8, 0x0102);
    assert_eq!(b.len(), 16);
    assert_eq!(
        MsgHeader::read(&b, 0),
        MsgHeader { msg_type: 8, handle: 0x0102, status: 0, padding: 0 }
    );
}
