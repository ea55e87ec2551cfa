use pnet_datalink::bpf;

/// A record with a header of `hdrlen` bytes, filled up to a word boundary.
fn record(hdrlen: u16, packet: &[u8]) -> Vec<u8> {
    let mut bytes = vec![0u8; hdrlen as usize];
    bytes[8..12].copy_from_slice(&(packet.len() as u32).to_le_bytes());
    bytes[12..16].copy_from_slice(&(packet.len() as u32).to_le_bytes());
    bytes[16..18].copy_from_slice(&hdrlen.to_le_bytes());
    bytes.extend_from_slice(packet);
    while bytes.len() % 4 != 0 {
        bytes.push(0xee);
    }
    bytes
}

fn spans(buffer: &[u8], received: usize) -> Option<Vec<(usize, usize)>> {
    bpf::scan(buffer, received).map(|spans| spans.into_iter().collect())
}

#[test]
fn scan_of_nothing_received() {
    assert_eq!(spans(&[1, 2, 3], 0), Some(vec![]));
    assert_eq!(spans(&[], 0), Some(vec![]));
}

#[test]
fn scan_of_one_record() {
    let buffer = record(20, b"hello");
    assert_eq!(buffer.len(), 28);
    assert_eq!(spans(&buffer, 28), Some(vec![(20, 5)]));
    assert_eq!(&buffer[20..25], b"hello");
}

#[test]
fn scan_finds_records_in_order() {
    let mut buffer = record(20, b"abc");
    buffer.extend(record(18, b""));
    buffer.extend(record(24, b"12345678"));
    let received = buffer.len();
    assert_eq!(received, 24 + 20 + 32);
    buffer.extend_from_slice(&[0xff; 40]);
    assert_eq!(spans(&buffer, received), Some(vec![(20, 3), (42, 0), (68, 8)]));
}

#[test]
fn padding_of_last_record_need_not_count() {
    let buffer = record(20, b"hello");
    for received in 25..=28 {
        assert_eq!(spans(&buffer, received), Some(vec![(20, 5)]));
    }
}

#[test]
fn record_may_end_behind_what_was_received() {
    let buffer = record(20, b"hello");
    assert_eq!(spans(&buffer, 1), Some(vec![(20, 5)]));
}

#[test]
fn header_length_has_two_bytes() {
    let buffer = record(0x0102, b"xyz");
    assert_eq!(spans(&buffer, buffer.len()), Some(vec![(0x0102, 3)]));
}

#[test]
fn captured_length_has_four_bytes() {
    let packet = vec![7u8; 0x0001_0203];
    let buffer = record(20, &packet);
    assert_eq!(spans(&buffer, buffer.len()), Some(vec![(20, 0x0001_0203)]));
}

#[test]
fn records_that_do_not_fit() {
    // The header is cut off.
    assert_eq!(spans(&record(20, b"hello")[..17], 17), None);
    // The packet ends behind the buffer.
    assert_eq!(spans(&record(20, b"hello")[..24], 24), None);
    // More was received than the buffer holds.
    assert_eq!(spans(&record(20, b"hello"), 29), None);
    // The record is empty.
    assert_eq!(spans(&[0u8; 18], 18), None);
}
