use connection::framing::{checksum, frame, remove_checksum, ReceiveBuffer};

#[test]
fn checksum_is_the_exclusive_or() {
    assert_eq!(checksum(&[]), 0);
    assert_eq!(checksum(&[0x0f, 0xf0, 0x01]), 0xfe);
}

#[test]
fn frame_has_exact_bytes() {
    // 11 00 22 with the checksum 33, stuffed
    assert_eq!(frame(&[0x11, 0x00, 0x22]), vec![2, 0x11, 3, 0x22, 0x33, 0]);
    assert_eq!(frame(&[]), vec![1, 1, 0]);
}

#[test]
fn frame_sizes_and_delimiters() {
    for len in 0..253usize {
        let packet: Vec<u8> = (0..len).map(|i| (i * 7) as u8).collect();
        let bytes = frame(&packet);
        assert_eq!(bytes.len(), len + 3);
        assert_eq!(bytes.iter().position(|&b| b == 0), Some(bytes.len() - 1));
    }
}

#[test]
fn long_packets_are_framed() {
    let packet = vec![1u8; 600];
    let bytes = frame(&packet);
    assert_eq!(bytes.iter().position(|&b| b == 0), Some(bytes.len() - 1));
    let decoded = cobs::decode_vec(&bytes).unwrap();
    assert_eq!(remove_checksum(decoded), Some(packet));
}

#[test]
fn checksum_round_trip() {
    let packet = vec![5u8, 6, 7];
    let mut sent = packet.clone();
    sent.push(checksum(&packet));
    assert_eq!(remove_checksum(sent.clone()), Some(packet));
    for i in 0..sent.len() {
        let mut changed = sent.clone();
        changed[i] ^= 0x10;
        assert_eq!(remove_checksum(changed), None);
    }
}

#[test]
fn frame_is_received_in_any_chunks() {
    let packet: Vec<u8> = (0..29).map(|i| i * 9).collect();
    let bytes = frame(&packet);
    let body = &bytes[..bytes.len() - 1];
    for size in 1..=body.len() {
        let mut buffer = ReceiveBuffer::new(29);
        assert_eq!(buffer.room(), 31);
        let mut received = Vec::new();
        for chunk in body.chunks(size) {
            assert!(chunk.len() <= buffer.room());
            received.extend(buffer.feed(chunk));
        }
        assert_eq!(received, vec![packet.clone()]);
        assert_eq!(buffer.room(), 31);
    }
}

#[test]
fn receiver_starts_over_at_a_delimiter() {
    let mut buffer = ReceiveBuffer::new(3);
    assert_eq!(buffer.feed(&[1, 2]), None);
    assert_eq!(buffer.room(), 3);
    // The delimiter stays at the front of the buffer
    assert_eq!(buffer.feed(&[9, 0, 8]), None);
    assert_eq!(buffer.room(), 3);
}

#[test]
fn receiver_drops_malformed_frames() {
    let mut buffer = ReceiveBuffer::new(3);
    // The stuffing says that there are more bytes
    assert_eq!(buffer.feed(&[9, 1, 1, 1, 1]), None);
    assert_eq!(buffer.room(), 5);
    // Wrong checksum
    assert_eq!(buffer.feed(&[5, 1, 2, 3, 4]), None);
    assert_eq!(buffer.room(), 5);
    // Right checksum
    assert_eq!(buffer.feed(&[5, 1, 2, 4, 7]), Some(vec![1, 2, 4]));
}

#[test]
fn receiver_fills_up_a_short_frame() {
    // A delimiter in front leaves room for one byte less. What is missing counts as zero.
    let mut buffer = ReceiveBuffer::new(3);
    assert_eq!(buffer.feed(&[0]), None);
    assert_eq!(buffer.feed(&[4, 1, 2, 3]), Some(vec![1, 2, 3]));
}
