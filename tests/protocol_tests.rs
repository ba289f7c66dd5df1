use voxel_broker::protocol::{decode_message, encode_message, DecodeError, Message, Peer};

fn ada() -> Peer {
    Peer {
        name: b"Ada".to_vec(),
        px: 1.0f32.to_bits(),
        py: 2.0f32.to_bits(),
        pz: 3.0f32.to_bits(),
        qx: 0,
        qy: 0,
        qz: 0,
        qw: 1.0f32.to_bits(),
    }
}

#[test]
fn round_trip_every_tag() {
    let cases = vec![
        Message::Init,
        Message::Config(b"{\"radius\":4}".to_vec()),
        Message::Request(b"{\"x\": 4, \"z\": -2}".to_vec()),
        Message::Update(vec![]),
        Message::Peer(vec![]),
        Message::Peer(vec![ada(), Peer { name: vec![], px: 7, py: 8, pz: 9, qx: 1, qy: 2, qz: 3, qw: 4 }]),
        Message::TextMessage(b"hello".to_vec()),
    ];
    for m in cases {
        let bytes = encode_message(&m);
        assert_eq!(decode_message(&bytes), Ok(m));
    }
}

#[test]
fn init_is_one_tag_byte() {
    assert_eq!(encode_message(&Message::Init), vec![0u8]);
}

#[test]
fn text_frame_layout() {
    assert_eq!(encode_message(&Message::TextMessage(b"hi".to_vec())), vec![5u8, b'h', b'i']);
}

#[test]
fn peer_frame_layout() {
    let p = Peer { name: b"A".to_vec(), px: 1, py: 2, pz: 3, qx: 4, qy: 5, qz: 6, qw: 0x0102_0304 };
    let bytes = encode_message(&Message::Peer(vec![p]));
    let mut expected = vec![4u8, 1, 0, 0, 0, 1, 0, 0, 0, b'A'];
    for w in [1u32, 2, 3, 4, 5, 6] {
        expected.extend_from_slice(&[w as u8, 0, 0, 0]);
    }
    expected.extend_from_slice(&[4, 3, 2, 1]);
    assert_eq!(bytes, expected);
}

#[test]
fn empty_frame_is_malformed() {
    assert_eq!(decode_message(&vec![]), Err(DecodeError::Malformed));
}

#[test]
fn unknown_tag_is_malformed() {
    assert_eq!(decode_message(&vec![9u8, 1, 2]), Err(DecodeError::Malformed));
}

#[test]
fn init_with_payload_is_malformed() {
    assert_eq!(decode_message(&vec![0u8, 0]), Err(DecodeError::Malformed));
}

#[test]
fn truncated_peer_frame_is_malformed() {
    let bytes = encode_message(&Message::Peer(vec![ada()]));
    for cut in 1..bytes.len() {
        assert_eq!(decode_message(&bytes[..cut].to_vec()), Err(DecodeError::Malformed));
    }
}

#[test]
fn peer_frame_with_trailing_bytes_is_malformed() {
    let mut bytes = encode_message(&Message::Peer(vec![ada()]));
    bytes.push(0);
    assert_eq!(decode_message(&bytes), Err(DecodeError::Malformed));
}

#[test]
fn peer_count_larger_than_frame_is_malformed() {
    assert_eq!(decode_message(&vec![4u8, 0xff, 0xff, 0xff, 0xff]), Err(DecodeError::Malformed));
}
