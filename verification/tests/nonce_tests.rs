use websocket::nonce::Nonce;

#[test]
fn fresh_nonce_is_sixteen_ascii_chars() {
    let n = Nonce::new();
    assert_eq!(n.as_bytes().len(), 16);
    for b in n.as_bytes() {
        assert!(b.is_ascii_alphanumeric() || *b == b'+' || *b == b'/' || *b == b'=');
    }
}

#[test]
fn rfc_example_accept_key() {
    // The RFC 6455 handshake example: the sample key must encode to the
    // published accept value.
    let n = Nonce::from_bytes(b"dGhlIHNhbXBsZSBub25jZQ==".to_vec());
    let encoded = n.encode();
    assert_eq!(encoded.as_bytes(), b"s3pPLMBiTxaQ9kYGzzhZRbK+xOo=");
}

#[test]
fn encode_depends_on_the_key() {
    let a = Nonce::from_bytes(b"AAAAAAAAAAAAAAAA".to_vec()).encode();
    let b = Nonce::from_bytes(b"BBBBBBBBBBBBBBBB".to_vec()).encode();
    assert_ne!(a.as_bytes(), b.as_bytes());
    assert_eq!(a.as_bytes().len(), 28);
}
