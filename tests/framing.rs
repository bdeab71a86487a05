use speculos_hid::framing::{
    decode_packets, encode_apdu, ApduDecoder, Feed, FrameError, LEDGER_PACKET_SIZE,
};

fn packet(seq: u16, payload: &[u8]) -> Vec<u8> {
    let mut p = vec![0x01, 0x01, 0x05, (seq >> 8) as u8, seq as u8];
    p.extend_from_slice(payload);
    p
}

#[test]
fn empty_message_is_one_padded_packet() {
    let packets = encode_apdu(&[]);
    assert_eq!(packets.len(), 1);
    let mut expected = vec![0x01, 0x01, 0x05, 0x00, 0x00, 0x00, 0x00];
    expected.extend_from_slice(&[0u8; 57]);
    assert_eq!(packets[0], expected);
    assert_eq!(packets[0].len(), 64);
    assert_eq!(decode_packets(&packets), Feed::Complete(vec![]));
}

#[test]
fn fifty_nine_bytes_take_two_packets() {
    let m = vec![0xAAu8; 59];
    let packets = encode_apdu(&m);
    assert_eq!(packets.len(), 2);
    let mut first = vec![0x01, 0x01, 0x05, 0x00, 0x00, 0x00, 0x3B];
    first.extend_from_slice(&[0xAA; 57]);
    assert_eq!(packets[0], first);
    let mut second = vec![0x01, 0x01, 0x05, 0x00, 0x01, 0xAA, 0xAA];
    second.extend_from_slice(&[0u8; 57]);
    assert_eq!(packets[1], second);
    assert_eq!(decode_packets(&packets), Feed::Complete(m));
}

#[test]
fn round_trip_for_every_length_up_to_260() {
    for len in 0..=260usize {
        let m: Vec<u8> = (0..len).map(|i| (i * 7 + 3) as u8).collect();
        let packets = encode_apdu(&m);
        assert_eq!(decode_packets(&packets), Feed::Complete(m));
    }
}

#[test]
fn round_trip_of_largest_message() {
    let m: Vec<u8> = (0..0xffffusize).map(|i| (i % 251) as u8).collect();
    let packets = encode_apdu(&m);
    assert_eq!(packets.len(), 1111);
    assert_eq!(decode_packets(&packets), Feed::Complete(m));
}

#[test]
fn packet_count_is_ceiling_of_framed_length() {
    for (len, count) in [(0usize, 1usize), (57, 1), (58, 2), (116, 2), (117, 3), (260, 5)] {
        let packets = encode_apdu(&vec![1u8; len]);
        assert_eq!(packets.len(), count);
        assert_eq!(packets.len(), (len + 2 + 58) / 59);
        for p in &packets {
            assert_eq!(p.len(), LEDGER_PACKET_SIZE);
        }
    }
}

#[test]
fn sequence_indices_count_up() {
    let packets = encode_apdu(&vec![9u8; 200]);
    for (i, p) in packets.iter().enumerate() {
        assert_eq!(&p[..5], &[0x01, 0x01, 0x05, 0x00, i as u8]);
    }
}

#[test]
fn skipped_index_is_rejected() {
    let packets = encode_apdu(&vec![0x11u8; 100]);
    let mut skipped = packets[1].clone();
    skipped[4] = 2;
    let fed = vec![packets[0].clone(), skipped];
    assert_eq!(decode_packets(&fed), Feed::Rejected(FrameError::OutOfSequence));
}

#[test]
fn repeated_index_is_rejected() {
    let packets = encode_apdu(&vec![0x11u8; 100]);
    let fed = vec![packets[0].clone(), packets[0].clone()];
    assert_eq!(decode_packets(&fed), Feed::Rejected(FrameError::OutOfSequence));
}

#[test]
fn first_packet_must_have_index_zero() {
    let packets = encode_apdu(&vec![0x11u8; 100]);
    assert_eq!(decode_packets(&vec![packets[1].clone()]), Feed::Rejected(FrameError::OutOfSequence));
}

#[test]
fn wrong_channel_is_rejected() {
    let mut p = encode_apdu(&[1, 2, 3]).remove(0);
    p[1] = 0x02;
    let mut d = ApduDecoder::new();
    assert_eq!(d.feed(&p), Feed::Rejected(FrameError::WrongChannel));
}

#[test]
fn wrong_tag_is_rejected() {
    let mut p = encode_apdu(&[1, 2, 3]).remove(0);
    p[2] = 0x02;
    let mut d = ApduDecoder::new();
    assert_eq!(d.feed(&p), Feed::Rejected(FrameError::WrongTag));
}

#[test]
fn short_packets_are_rejected() {
    let mut d = ApduDecoder::new();
    assert_eq!(d.feed(&[0x01, 0x01, 0x05, 0x00]), Feed::Rejected(FrameError::Truncated));
    assert_eq!(d.feed(&[0x01, 0x01, 0x05, 0x00, 0x00, 0x00]), Feed::Rejected(FrameError::Truncated));
}

#[test]
fn assembly_starts_over_after_a_rejection() {
    let packets = encode_apdu(&vec![0x22u8; 80]);
    let mut d = ApduDecoder::new();
    assert_eq!(d.feed(&packets[0]), Feed::Incomplete);
    let mut bad = packets[1].clone();
    bad[2] = 0x07;
    assert_eq!(d.feed(&bad), Feed::Rejected(FrameError::WrongTag));
    assert_eq!(d.feed(&packets[0]), Feed::Incomplete);
    assert_eq!(d.feed(&packets[1]), Feed::Complete(vec![0x22u8; 80]));
}

#[test]
fn payload_past_the_announced_length_is_ignored() {
    let mut d = ApduDecoder::new();
    let p = packet(0, &[0x00, 0x02, 0xAB, 0xCD, 0xEF, 0x01]);
    assert_eq!(d.feed(&p), Feed::Complete(vec![0xAB, 0xCD]));
}

#[test]
fn short_packets_without_padding_are_gathered() {
    let mut d = ApduDecoder::new();
    assert_eq!(d.feed(&packet(0, &[0x00, 0x03, 0x01])), Feed::Incomplete);
    assert_eq!(d.feed(&packet(1, &[0x02])), Feed::Incomplete);
    assert_eq!(d.feed(&packet(2, &[0x03, 0x04])), Feed::Complete(vec![1, 2, 3]));
}

#[test]
fn too_many_packets_is_rejected() {
    let mut d = ApduDecoder::new();
    assert_eq!(d.feed(&packet(0, &[0x00, 0x01])), Feed::Incomplete);
    for seq in 1..0xffffu16 {
        assert_eq!(d.feed(&packet(seq, &[])), Feed::Incomplete);
    }
    assert_eq!(d.feed(&packet(0xffff, &[])), Feed::Rejected(FrameError::TooManyPackets));
}

#[test]
fn missing_packets_leave_decoding_incomplete() {
    let packets = encode_apdu(&vec![5u8; 150]);
    assert_eq!(decode_packets(&packets[..2].to_vec()), Feed::Incomplete);
    assert_eq!(decode_packets(&vec![]), Feed::Incomplete);
}
