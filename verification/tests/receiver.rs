use pnet_datalink::receiver::{DataLinkReceiverImpl, NextAction, NextEvent};

fn record(packet: &[u8]) -> Vec<u8> {
    let mut bytes = vec![0u8; 20];
    bytes[8..12].copy_from_slice(&(packet.len() as u32).to_le_bytes());
    bytes[16] = 20;
    bytes.extend_from_slice(packet);
    while bytes.len() % 4 != 0 {
        bytes.push(0);
    }
    bytes
}

fn fill(receiver: &mut DataLinkReceiverImpl, bytes: &[u8]) {
    receiver.buffer_mut()[..bytes.len()].copy_from_slice(bytes);
}

#[test]
fn fresh_receiver_asks_the_driver() {
    let mut receiver = DataLinkReceiverImpl::new(vec![0; 128], 128);
    assert_eq!(receiver.next(NextEvent::Called), NextAction::Receive);
    assert_eq!(receiver.next(NextEvent::Called), NextAction::Receive);
}

#[test]
fn failure_is_reported_and_can_be_retried() {
    let mut receiver = DataLinkReceiverImpl::new(vec![0; 128], 128);
    assert_eq!(receiver.next(NextEvent::Called), NextAction::Receive);
    assert_eq!(receiver.next(NextEvent::Received { ret: 0, bytes: 64 }), NextAction::Fail);
    assert_eq!(receiver.next(NextEvent::Called), NextAction::Receive);
}

#[test]
fn empty_answer_asks_again() {
    let mut receiver = DataLinkReceiverImpl::new(vec![0; 128], 128);
    assert_eq!(receiver.next(NextEvent::Received { ret: 1, bytes: 0 }), NextAction::Receive);
}

#[test]
fn packets_come_in_order_once_each() {
    let mut receiver = DataLinkReceiverImpl::new(vec![0xaa; 128], 128);
    let mut bytes = record(b"first");
    bytes.extend(record(b"2nd"));
    fill(&mut receiver, &bytes);
    let event = NextEvent::Received { ret: 1, bytes: bytes.len() as u32 };
    assert_eq!(receiver.next(event), NextAction::Deliver { start: 20, len: 5 });
    assert_eq!(receiver.packet(20, 5), b"first");
    assert_eq!(receiver.next(NextEvent::Called), NextAction::Deliver { start: 48, len: 3 });
    assert_eq!(receiver.packet(48, 3), b"2nd");
    assert_eq!(receiver.next(NextEvent::Called), NextAction::Receive);
}

#[test]
fn malformed_answer() {
    let mut receiver = DataLinkReceiverImpl::new(vec![0; 32], 32);
    assert_eq!(receiver.next(NextEvent::Received { ret: 1, bytes: 32 }), NextAction::Malformed);
    assert_eq!(receiver.next(NextEvent::Called), NextAction::Receive);
}
