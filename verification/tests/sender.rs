use pnet_datalink::sender::{DataLinkSenderImpl, SendAction, SendEvent};

#[test]
fn batch_is_built_and_sent_packet_by_packet() {
    let mut sender = DataLinkSenderImpl::new(vec![0; 16], 16);
    let start = SendEvent::Start { num_packets: 3, packet_size: 5 };
    assert_eq!(sender.build_and_send(start), SendAction::Build { start: 0, end: 5 });
    sender.chunk_mut().copy_from_slice(b"aaaaa");
    assert_eq!(sender.build_and_send(SendEvent::Built), SendAction::Transmit { length: 5 });
    assert_eq!(
        sender.build_and_send(SendEvent::Sent { ret: 1 }),
        SendAction::Build { start: 5, end: 10 }
    );
    assert_eq!(sender.chunk_mut(), &[0u8; 5]);
    assert_eq!(sender.build_and_send(SendEvent::Built), SendAction::Transmit { length: 5 });
    assert_eq!(
        sender.build_and_send(SendEvent::Sent { ret: 1 }),
        SendAction::Build { start: 10, end: 15 }
    );
    assert_eq!(sender.build_and_send(SendEvent::Built), SendAction::Transmit { length: 5 });
    assert_eq!(sender.build_and_send(SendEvent::Sent { ret: 1 }), SendAction::Done);
}

#[test]
fn batch_stops_at_failure() {
    let mut sender = DataLinkSenderImpl::new(vec![0; 16], 16);
    let start = SendEvent::Start { num_packets: 3, packet_size: 5 };
    assert_eq!(sender.build_and_send(start), SendAction::Build { start: 0, end: 5 });
    assert_eq!(sender.build_and_send(SendEvent::Built), SendAction::Transmit { length: 5 });
    assert_eq!(sender.build_and_send(SendEvent::Sent { ret: 0 }), SendAction::Fail);
    // The next batch starts over.
    let start = SendEvent::Start { num_packets: 1, packet_size: 2 };
    assert_eq!(sender.build_and_send(start), SendAction::Build { start: 0, end: 2 });
}

#[test]
fn batch_has_to_be_smaller_than_the_buffer() {
    let mut sender = DataLinkSenderImpl::new(vec![0; 16], 16);
    let exact = SendEvent::Start { num_packets: 4, packet_size: 4 };
    assert_eq!(sender.build_and_send(exact), SendAction::Reject);
    let above = SendEvent::Start { num_packets: 1, packet_size: 17 };
    assert_eq!(sender.build_and_send(above), SendAction::Reject);
    let below = SendEvent::Start { num_packets: 1, packet_size: 15 };
    assert_eq!(sender.build_and_send(below), SendAction::Build { start: 0, end: 15 });
}

#[test]
fn batch_of_no_packets() {
    let mut sender = DataLinkSenderImpl::new(vec![0; 16], 16);
    let none = SendEvent::Start { num_packets: 0, packet_size: 4 };
    assert_eq!(sender.build_and_send(none), SendAction::Done);
    let mut sender = DataLinkSenderImpl::new(vec![], 0);
    let none = SendEvent::Start { num_packets: 0, packet_size: 0 };
    assert_eq!(sender.build_and_send(none), SendAction::Reject);
}

#[test]
fn send_to_places_the_packet_at_the_start() {
    let mut sender = DataLinkSenderImpl::new(vec![9; 8], 8);
    assert_eq!(sender.send_to(b"abc"), SendAction::Transmit { length: 3 });
    assert_eq!(sender.build_and_send(SendEvent::Sent { ret: 1 }), SendAction::Done);
    let whole = SendEvent::Start { num_packets: 1, packet_size: 7 };
    assert_eq!(sender.build_and_send(whole), SendAction::Build { start: 0, end: 7 });
    assert_eq!(sender.chunk_mut(), b"abc\x09\x09\x09\x09");
}

#[test]
fn send_to_rejects_and_fails() {
    let mut sender = DataLinkSenderImpl::new(vec![0; 3], 3);
    assert_eq!(sender.send_to(b"abc"), SendAction::Reject);
    assert_eq!(sender.send_to(b"ab"), SendAction::Transmit { length: 2 });
    assert_eq!(sender.build_and_send(SendEvent::Sent { ret: 0 }), SendAction::Fail);
}
