use websocket::codec::{mask_data, read_frame, rotr16, write_frame};
use websocket::message::{WSMessage, WSStatusCode};
use websocket::WSError;

fn key_byte(key: u32, i: usize) -> u8 {
    ((key >> ((i % 4) * 8)) & 0xff) as u8
}

#[test]
fn masking_twice_returns_payload() {
    let payload: Vec<u8> = (0u16..300).map(|i| (i * 7 % 256) as u8).collect();
    for key in [0u32, 1, 0xdeadbeef, 0xffffffff, 0x12345678] {
        let once = mask_data(&payload, key);
        let twice = mask_data(&once, key);
        assert_eq!(twice, payload);
        for (i, b) in once.iter().enumerate() {
            assert_eq!(*b, payload[i] ^ key_byte(key, i));
        }
    }
}

#[test]
fn rotr16_swaps_halves() {
    assert_eq!(rotr16(0x12345678), 0x56781234);
    assert_eq!(rotr16(0x0000ffff), 0xffff0000);
    assert_eq!(rotr16(rotr16(0xdeadbeef)), 0xdeadbeef);
}

#[test]
fn text_frame_wire_layout() {
    // FIN+text, mask flag, length 13; a zero key leaves the payload bare.
    let m = WSMessage::text("Hello, World!");
    let frame = write_frame(&m, 0);
    assert_eq!(frame[0], 0x81);
    assert_eq!(frame[1], 0x8D);
    assert_eq!(&frame[2..6], &[0, 0, 0, 0]);
    assert_eq!(&frame[6..], b"Hello, World!");
    assert_eq!(frame.len(), 2 + 4 + 13);
}

#[test]
fn text_frame_masked_octets() {
    let m = WSMessage::text("Hello, World!");
    let key = 0xcafebabeu32;
    let frame = write_frame(&m, key);
    assert_eq!(frame[0], 0x81);
    assert_eq!(frame[1], 0x8D);
    assert_eq!(&frame[2..6], &key.to_be_bytes());
    let ascii = b"Hello, World!";
    for i in 0..13 {
        assert_eq!(frame[6 + i], ascii[i] ^ key_byte(key, i));
    }
}

#[test]
fn empty_payload_is_six_octets() {
    let frame = write_frame(&WSMessage::text(""), 0x01020304);
    assert_eq!(frame.len(), 6);
    assert_eq!(frame[0], 0x81);
    assert_eq!(frame[1], 0x80);
}

#[test]
fn frame_round_trip_text() {
    let m = WSMessage::text("Hello, World!");
    let frame = write_frame(&m, 0x89abcdef);
    let (back, used) = read_frame(&frame).unwrap().unwrap();
    assert_eq!(used, frame.len());
    assert_eq!(back.data, m.data);
    assert!(back.is_text());
    assert!(back.is_final());
    assert!(back.is_masked());
    assert_eq!(back.status, None);
}

#[test]
fn frame_round_trip_binary_sizes() {
    for len in [0usize, 1, 4, 125, 126, 127, 1000, 65535, 65536] {
        let payload: Vec<u8> = (0..len).map(|i| (i % 256) as u8).collect();
        let m = WSMessage::binary(&payload);
        let frame = write_frame(&m, 0x55aa55aa);
        let (back, used) = read_frame(&frame).unwrap().unwrap();
        assert_eq!(used, frame.len());
        assert_eq!(back.data, payload);
        assert!(back.is_binary());
        assert_eq!(back.status, None);
    }
}

#[test]
fn length_encodings_on_the_wire() {
    // 125 stays literal; 126 and 65535 take the 16-bit form; 65536 the
    // 64-bit form.
    let f125 = write_frame(&WSMessage::binary(&vec![0u8; 125]), 0);
    assert_eq!(f125[1], 0x80 | 125);
    assert_eq!(f125.len(), 2 + 4 + 125);

    let f126 = write_frame(&WSMessage::binary(&vec![0u8; 126]), 0);
    assert_eq!(f126[1], 0x80 | 126);
    assert_eq!(&f126[2..4], &[0x00, 0x7E]);
    assert_eq!(f126.len(), 2 + 2 + 4 + 126);

    let f65535 = write_frame(&WSMessage::binary(&vec![0u8; 65535]), 0);
    assert_eq!(f65535[1], 0x80 | 126);
    assert_eq!(&f65535[2..4], &[0xFF, 0xFF]);
    assert_eq!(f65535.len(), 2 + 2 + 4 + 65535);

    let f65536 = write_frame(&WSMessage::binary(&vec![0u8; 65536]), 0);
    assert_eq!(f65536[1], 0x80 | 127);
    assert_eq!(&f65536[2..10], &[0, 0, 0, 0, 0, 1, 0, 0]);
    assert_eq!(f65536.len(), 2 + 8 + 4 + 65536);
}

#[test]
fn close_frame_wire_layout_and_round_trip() {
    // Status 1001 is 0x03E9 big-endian at the head of the payload.
    let m = WSMessage::close(WSStatusCode::GoneAway, b"bye");
    let frame = write_frame(&m, 0);
    assert_eq!(frame[0], 0x88);
    assert_eq!(frame[1], 0x80 | 5);
    assert_eq!(&frame[6..8], &[0x03, 0xE9]);
    assert_eq!(&frame[8..], b"bye");

    let (back, _) = read_frame(&frame).unwrap().unwrap();
    assert!(back.is_close());
    assert_eq!(back.status, Some(WSStatusCode::GoneAway));
    assert_eq!(back.data, b"bye".to_vec());
}

#[test]
fn close_frame_round_trip_masked() {
    for key in [1u32, 0xdeadbeef, 0x00010000] {
        let m = WSMessage::close(WSStatusCode::ApplicationCode(3333), b"reason");
        let frame = write_frame(&m, key);
        let (back, _) = read_frame(&frame).unwrap().unwrap();
        assert_eq!(back.status, Some(WSStatusCode::ApplicationCode(3333)));
        assert_eq!(back.data, b"reason".to_vec());
    }
}

#[test]
fn unmasked_server_close_frame() {
    let frame = vec![0x88u8, 0x05, 0x03, 0xE9, b'b', b'y', b'e'];
    let (back, used) = read_frame(&frame).unwrap().unwrap();
    assert_eq!(used, 7);
    assert!(back.is_close());
    assert!(!back.is_masked());
    assert_eq!(back.status, Some(WSStatusCode::GoneAway));
    assert_eq!(back.data, b"bye".to_vec());
}

#[test]
fn close_frame_with_short_payload_has_no_status() {
    let frame = vec![0x88u8, 0x01, 0x42];
    let (back, _) = read_frame(&frame).unwrap().unwrap();
    assert!(back.is_close());
    assert_eq!(back.status, None);
    assert_eq!(back.data, vec![0x42]);
}

#[test]
fn large_length_accepted_and_high_bit_rejected() {
    // Length code 127 with the 8-octet length 65536.
    let mut frame = vec![0x82u8, 0x7F, 0, 0, 0, 0, 0, 1, 0, 0];
    frame.extend(std::iter::repeat(7u8).take(65536));
    let (back, used) = read_frame(&frame).unwrap().unwrap();
    assert_eq!(back.data.len(), 65536);
    assert_eq!(used, 10 + 65536);

    let bad = vec![0x82u8, 0x7F, 0x80, 0, 0, 0, 0, 1, 0, 0];
    assert!(matches!(read_frame(&bad), Err(WSError::Protocol)));
}

#[test]
fn incomplete_frames_ask_for_more() {
    assert!(read_frame(&[]).unwrap().is_none());
    assert!(read_frame(&[0x81]).unwrap().is_none());
    // Announces five masked payload octets, delivers none.
    assert!(read_frame(&[0x81, 0x85]).unwrap().is_none());
    assert!(read_frame(&[0x81, 0x85, 1, 2, 3, 4, 9, 9]).unwrap().is_none());
    // 16-bit and 64-bit length fields cut short.
    assert!(read_frame(&[0x81, 0xFE, 0x01]).unwrap().is_none());
    assert!(read_frame(&[0x81, 0xFF, 0, 0, 0]).unwrap().is_none());
}

#[test]
fn rsv_bits_survive_round_trip() {
    let m = WSMessage::text("x").rsv(5);
    let frame = write_frame(&m, 0x13572468);
    let (back, _) = read_frame(&frame).unwrap().unwrap();
    assert!(back.is_rsv(5));
    assert_eq!(back.data, b"x".to_vec());
}

#[test]
fn read_consumes_one_frame_of_many() {
    let mut buf = write_frame(&WSMessage::text("one"), 3);
    let second = write_frame(&WSMessage::text("two"), 4);
    buf.extend_from_slice(&second);
    let (first, used) = read_frame(&buf).unwrap().unwrap();
    assert_eq!(first.data, b"one".to_vec());
    let (next, used2) = read_frame(&buf[used..]).unwrap().unwrap();
    assert_eq!(next.data, b"two".to_vec());
    assert_eq!(used + used2, buf.len());
}
