use websocket::message::{
    WSHeader, WSMessage, WSStatusCode, WS_FIN, WS_MASK, WS_OPBIN, WS_OPPING, WS_OPPONG, WS_OPTERM,
    WS_OPTEXT,
};

#[test]
fn text_constructor_sets_fin_and_opcode() {
    let m = WSMessage::text("Hello");
    assert_eq!(m.header.bits, WS_FIN | WS_OPTEXT);
    assert_eq!(m.header.bits, 0x8100);
    assert_eq!(m.data, b"Hello".to_vec());
    assert!(m.status.is_none());
    assert!(m.is_whole());
    assert!(m.is_text());
    assert!(m.is_final());
    assert!(!m.is_control());
    assert!(!m.is_masked());
}

#[test]
fn binary_ping_pong_close_opcodes() {
    let b = WSMessage::binary(&[1, 2, 3]);
    assert_eq!(b.header.bits, WS_FIN | WS_OPBIN);
    assert!(b.is_binary());
    assert!(!b.is_control());

    let p = WSMessage::ping(b"p");
    assert_eq!(p.header.bits, WS_FIN | WS_OPPING);
    assert!(p.is_ping());
    assert!(p.is_control());

    let q = WSMessage::pong(b"q");
    assert_eq!(q.header.bits, WS_FIN | WS_OPPONG);
    assert!(q.is_pong());
    assert!(q.is_control());

    let c = WSMessage::close(WSStatusCode::NoError, b"bye");
    assert_eq!(c.header.bits, WS_FIN | WS_OPTERM);
    assert!(c.is_close());
    assert!(c.is_control());
    assert_eq!(c.status, Some(WSStatusCode::NoError));
    assert_eq!(c.data, b"bye".to_vec());
}

#[test]
fn ext_uses_low_three_opcode_bits() {
    let m = WSMessage::ext(3, &[7]);
    assert_eq!(m.header.bits, 0x8300);
    assert!(m.is_isext(3));
    assert!(!m.is_isext(4));
    let wrapped = WSMessage::ext(0x0B, &[]);
    assert_eq!(wrapped.header.bits, 0x8300);
}

#[test]
fn fragment_markers() {
    let first = WSMessage::text("a").first();
    assert!(first.is_first());
    assert!(!first.is_final());
    assert!(first.is_text());

    let more = WSMessage::text("a").more();
    assert!(more.is_more());
    assert!(more.is_cont());
    assert!(!more.is_final());

    let last = WSMessage::text("a").last();
    assert!(last.is_last());
    assert!(last.is_cont());
    assert!(last.is_final());
    assert!(!last.is_whole());
}

#[test]
fn mask_flag_round_trip() {
    let m = WSMessage::text("x").mask();
    assert!(m.is_masked());
    assert_eq!(m.header.bits & WS_MASK, WS_MASK);
    let m = m.unmask();
    assert!(!m.is_masked());
    let mut m2 = WSMessage::text("x");
    m2.masked(true);
    assert!(m2.is_masked());
    m2.masked(false);
    assert!(!m2.is_masked());
}

#[test]
fn header_bit_operations() {
    let mut h = WSHeader::empty();
    assert_eq!(h.bits(), 0);
    h.insert(WS_FIN | WS_OPTEXT);
    assert!(h.contains(WS_FIN));
    assert!(h.contains(WS_OPTEXT));
    assert!(!h.contains(WS_MASK));
    h.remove(WS_FIN);
    assert!(!h.contains(WS_FIN));
    assert_eq!(h.bits(), WS_OPTEXT);
}

#[test]
fn rsv_bits() {
    let m = WSMessage::text("x").rsv(5);
    assert!(m.is_rsv(5));
    assert!(!m.is_rsv(2));
    assert_eq!(m.header.bits & 0x7000, 0x5000);
}

#[test]
fn push_appends_payload() {
    let mut a = WSMessage::text("ab");
    let b = WSMessage::text("cd");
    a.push(b);
    assert_eq!(a.data, b"abcd".to_vec());
    assert!(a.is_text());
}

#[test]
fn to_string_decodes_utf8() {
    let m = WSMessage::text("Hello, World!");
    assert_eq!(m.to_string(), "Hello, World!".to_string());
    let bad = WSMessage::binary(&[0xff, 0xfe]);
    assert_eq!(bad.to_string(), "\u{FFFD}\u{FFFD}".to_string());
}

#[test]
fn status_code_named_values() {
    let named = [
        (WSStatusCode::NoError, 1000u16),
        (WSStatusCode::GoneAway, 1001),
        (WSStatusCode::ProtocolError, 1002),
        (WSStatusCode::UnsupportedData, 1003),
        (WSStatusCode::NoCode, 1005),
        (WSStatusCode::Aborted, 1006),
        (WSStatusCode::InvalidData, 1007),
        (WSStatusCode::ClientError, 1008),
        (WSStatusCode::TooLargeData, 1009),
        (WSStatusCode::ExtensionMissing, 1010),
        (WSStatusCode::ServerError, 1011),
        (WSStatusCode::TlsError, 1015),
    ];
    for (code, n) in named {
        assert_eq!(code.to_u16(), Some(n));
        assert_eq!(WSStatusCode::from_u16(n), Some(code));
    }
}

#[test]
fn status_code_ranges_and_invalids() {
    assert_eq!(WSStatusCode::from_u16(999), None);
    assert_eq!(WSStatusCode::from_u16(0), None);
    assert_eq!(WSStatusCode::from_u16(5000), None);
    assert_eq!(
        WSStatusCode::from_u16(1004),
        Some(WSStatusCode::ProtocolCode(1004))
    );
    assert_eq!(
        WSStatusCode::from_u16(3500),
        Some(WSStatusCode::ApplicationCode(3500))
    );
    assert_eq!(
        WSStatusCode::from_u16(4999),
        Some(WSStatusCode::OtherCode(4999))
    );
    assert_eq!(WSStatusCode::ProtocolCode(2999).to_u16(), Some(2999));
    assert_eq!(WSStatusCode::ProtocolCode(999).to_u16(), None);
    assert_eq!(WSStatusCode::ApplicationCode(1000).to_u16(), None);
    assert_eq!(WSStatusCode::OtherCode(5000).to_u16(), None);
}

#[test]
fn split_of_thirteen_chars_by_five() {
    // Three fragments: "Hello", ", Wor", "ld!".
    let mut it = WSMessage::text("Hello, World!").split(5).unwrap();
    let a = it.next().unwrap();
    assert_eq!(a.data, b"Hello".to_vec());
    assert!(a.is_first());
    assert!(a.is_text());
    let b = it.next().unwrap();
    assert_eq!(b.data, b", Wor".to_vec());
    assert!(b.is_more());
    let c = it.next().unwrap();
    assert_eq!(c.data, b"ld!".to_vec());
    assert!(c.is_last());
    assert!(it.next().is_none());
    assert!(it.next().is_none());
}

#[test]
fn split_exact_fit_returns_message_unchanged() {
    let mut it = WSMessage::text("Hello, World!").split(13).unwrap();
    let only = it.next().unwrap();
    assert_eq!(only.header, WSHeader { bits: WS_FIN | WS_OPTEXT });
    assert_eq!(only.data, b"Hello, World!".to_vec());
    assert!(only.status.is_none());
    assert!(it.next().is_none());
}

#[test]
fn split_concatenation_recovers_payload() {
    let payload: Vec<u8> = (0u16..300).map(|i| (i % 251) as u8).collect();
    for n in [1usize, 2, 7, 125, 299, 300, 1000] {
        let mut it = WSMessage::binary(&payload).split(n).unwrap();
        let mut joined: Vec<u8> = Vec::new();
        let mut count = 0;
        while let Some(m) = it.next() {
            assert!(m.data.len() <= n);
            joined.extend_from_slice(&m.data);
            count += 1;
        }
        assert_eq!(joined, payload);
        assert!(count >= 1);
    }
}

#[test]
fn split_zero_cap_is_rejected() {
    assert!(WSMessage::text("abc").split(0).is_err());
    assert!(WSMessage::close(WSStatusCode::NoError, b"x").split(1).is_err());
}

#[test]
fn split_close_keeps_status_on_first_fragment_only() {
    // Size is 4 + 2 for the status, cap 3: two fragments.
    let mut it = WSMessage::close(WSStatusCode::GoneAway, b"abcd").split(3).unwrap();
    let first = it.next().unwrap();
    assert_eq!(first.status, Some(WSStatusCode::GoneAway));
    assert_eq!(first.data, b"a".to_vec());
    assert!(first.is_first());
    let last = it.next().unwrap();
    assert_eq!(last.status, None);
    assert_eq!(last.data, b"bcd".to_vec());
    assert!(last.is_last());
    assert!(it.next().is_none());
}

#[test]
fn split_of_empty_message_yields_it_once() {
    let mut it = WSMessage::text("").split(5).unwrap();
    let only = it.next().unwrap();
    assert_eq!(only.header, WSHeader { bits: WS_FIN | WS_OPTEXT });
    assert!(only.data.is_empty());
    assert!(only.status.is_none());
    assert!(it.next().is_none());
}
