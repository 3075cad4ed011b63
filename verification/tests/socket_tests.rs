use websocket::message::{WSMessage, WSStatusCode};
use websocket::nonce::Nonce;
use websocket::socket::{
    parse_status_line, split_header_line, validate_response, WSDefragMessages, WebSocket, WsUrl,
};
use websocket::WSError;

#[test]
fn url_port_defaults() {
    let plain = WsUrl::new(false, b"example.com".to_vec(), None, b"/".to_vec());
    assert_eq!(plain.port, 80);
    assert!(!plain.port_explicit);
    let tls = WsUrl::new(true, b"example.com".to_vec(), None, b"/".to_vec());
    assert_eq!(tls.port, 443);
    let given = WsUrl::new(true, b"example.com".to_vec(), Some(9001), b"/".to_vec());
    assert_eq!(given.port, 9001);
    assert!(given.port_explicit);
}

#[test]
fn hostname_joins_host_and_port() {
    let ws = WebSocket::new(WsUrl::new(false, b"echo.example.org".to_vec(), None, b"/".to_vec()));
    assert_eq!(ws.hostname(), b"echo.example.org:80".to_vec());
    assert!(!ws.use_ssl());
    let wss = WebSocket::new(WsUrl::new(true, b"echo.example.org".to_vec(), Some(8443), b"/".to_vec()));
    assert_eq!(wss.hostname(), b"echo.example.org:8443".to_vec());
    assert!(wss.use_ssl());
}

#[test]
fn handshake_request_bytes() {
    let url = WsUrl::new(false, b"example.com".to_vec(), None, b"/chat".to_vec());
    let ws = WebSocket::with_options(url, 13, None, None);
    let nonce = Nonce::from_bytes(b"dGhlIHNhbXBsZSBub25jZQ==".to_vec());
    let req = ws.handshake_request(&nonce);
    let expected = b"GET /chat HTTP/1.1\r\n\
Host: example.com\r\n\
Origin: ws://example.com\r\n\
Sec-WebSocket-Key: dGhlIHNhbXBsZSBub25jZQ==\r\n\
Upgrade: websocket\r\n\
Connection: Upgrade\r\n\
Sec-WebSocket-Version: 13\r\n\
\r\n";
    assert_eq!(req, expected.to_vec());
}

#[test]
fn handshake_request_with_tokens_and_port() {
    let url = WsUrl::new(true, b"example.com".to_vec(), Some(9001), b"".to_vec());
    let ws = WebSocket::with_options(
        url,
        13,
        Some(vec![b"chat".to_vec(), b"superchat".to_vec()]),
        Some(vec![b"permessage-deflate".to_vec()]),
    );
    let nonce = Nonce::from_bytes(b"AAAAAAAAAAAAAAAA".to_vec());
    let req = ws.handshake_request(&nonce);
    let expected = b"GET / HTTP/1.1\r\n\
Host: example.com\r\n\
Origin: wss://example.com:9001\r\n\
Sec-WebSocket-Key: AAAAAAAAAAAAAAAA\r\n\
Upgrade: websocket\r\n\
Connection: Upgrade\r\n\
Sec-WebSocket-Version: 13\r\n\
Sec-WebSocket-Protocol: chat, superchat\r\n\
Sec-WebSocket-Extensions: permessage-deflate\r\n\
\r\n";
    assert_eq!(req, expected.to_vec());
}

#[test]
fn status_line_parsing() {
    assert_eq!(parse_status_line(&b"HTTP/1.1 101 Switching Protocols\r\n".to_vec()), Some(101));
    assert_eq!(parse_status_line(&b"HTTP/1.1 404 Not Found\r\n".to_vec()), Some(404));
    assert_eq!(parse_status_line(&b"HTTP/1.1 abc\r\n".to_vec()), None);
    assert_eq!(parse_status_line(&b"nospace".to_vec()), None);
    assert_eq!(parse_status_line(&b"HTTP/1.1 99999\r\n".to_vec()), None);
}

#[test]
fn header_line_split_and_trim() {
    let (name, value) = split_header_line(&b"Sec-WebSocket-Accept:  abc \r\n".to_vec()).unwrap();
    assert_eq!(name, b"Sec-WebSocket-Accept".to_vec());
    assert_eq!(value, b"abc".to_vec());
    let (name, value) = split_header_line(&b"A: b:c\r\n".to_vec()).unwrap();
    assert_eq!(name, b"A".to_vec());
    assert_eq!(value, b"b:c".to_vec());
    assert!(split_header_line(&b"no colon here".to_vec()).is_none());
}

#[test]
fn response_validation_accepts_the_rfc_example() {
    let nonce = Nonce::from_bytes(b"dGhlIHNhbXBsZSBub25jZQ==".to_vec()).encode();
    let status = b"HTTP/1.1 101 Switching Protocols\r\n".to_vec();
    let headers = vec![
        b"Upgrade: websocket\r\n".to_vec(),
        b"Connection: Upgrade\r\n".to_vec(),
        b"Sec-WebSocket-Accept: s3pPLMBiTxaQ9kYGzzhZRbK+xOo=\r\n".to_vec(),
    ];
    assert_eq!(validate_response(&status, &headers, &nonce), Ok(()));
}

#[test]
fn response_validation_rejects_bad_accept_or_status() {
    let nonce = Nonce::from_bytes(b"dGhlIHNhbXBsZSBub25jZQ==".to_vec()).encode();
    let status = b"HTTP/1.1 101 Switching Protocols\r\n".to_vec();
    let wrong = vec![b"Sec-WebSocket-Accept: AAAAAAAAAAAAAAAAAAAAAAAAAAA=\r\n".to_vec()];
    assert_eq!(validate_response(&status, &wrong, &nonce), Err(WSError::InvalidInput));

    let missing: Vec<Vec<u8>> = vec![b"Upgrade: websocket\r\n".to_vec()];
    assert_eq!(validate_response(&status, &missing, &nonce), Err(WSError::InvalidInput));

    let bad_status = b"HTTP/1.1 404 Not Found\r\n".to_vec();
    let headers = vec![b"Sec-WebSocket-Accept: s3pPLMBiTxaQ9kYGzzhZRbK+xOo=\r\n".to_vec()];
    assert_eq!(validate_response(&bad_status, &headers, &nonce), Err(WSError::InvalidInput));
}

#[test]
fn response_validation_takes_last_accept_header() {
    let nonce = Nonce::from_bytes(b"dGhlIHNhbXBsZSBub25jZQ==".to_vec()).encode();
    let status = b"HTTP/1.1 101 X\r\n".to_vec();
    let headers = vec![
        b"Sec-WebSocket-Accept: bogus\r\n".to_vec(),
        b"Sec-WebSocket-Accept: s3pPLMBiTxaQ9kYGzzhZRbK+xOo=\r\n".to_vec(),
    ];
    assert_eq!(validate_response(&status, &headers, &nonce), Ok(()));
}

#[test]
fn defragment_split_output_recovers_message() {
    for n in [1usize, 2, 5, 13] {
        let mut it = WSMessage::text("Hello, World!").split(n).unwrap();
        let mut defrag = WSDefragMessages::new();
        let mut emitted: Vec<WSMessage> = Vec::new();
        while let Some(frag) = it.next() {
            if let Some(m) = defrag.feed(frag) {
                emitted.push(m);
            }
        }
        assert_eq!(emitted.len(), 1);
        let m = &emitted[0];
        assert!(m.is_whole());
        assert!(m.is_text());
        assert_eq!(m.data, b"Hello, World!".to_vec());
        assert_eq!(m.status, None);
        assert!(defrag.flush().is_none());
    }
}

#[test]
fn defragment_recovers_empty_message() {
    let mut it = WSMessage::text("").split(1).unwrap();
    let mut defrag = WSDefragMessages::new();
    let frag = it.next().unwrap();
    let whole = defrag.feed(frag).unwrap();
    assert!(whole.is_whole());
    assert!(whole.is_text());
    assert!(whole.data.is_empty());
    assert!(it.next().is_none());
    assert!(defrag.flush().is_none());
}

#[test]
fn defragment_passes_interleaved_ping_through() {
    // first(text "AB"), ping "p", more "CD", last "EF" yields the ping,
    // then the whole text message "ABCDEF".
    let mut defrag = WSDefragMessages::new();
    let mut out: Vec<WSMessage> = Vec::new();
    let frames = vec![
        WSMessage::text("AB").first(),
        WSMessage::ping(b"p"),
        WSMessage::text("CD").more(),
        WSMessage::text("EF").last(),
    ];
    for f in frames {
        if let Some(m) = defrag.feed(f) {
            out.push(m);
        }
    }
    assert_eq!(out.len(), 2);
    assert!(out[0].is_ping());
    assert_eq!(out[0].data, b"p".to_vec());
    assert!(out[1].is_whole());
    assert!(out[1].is_text());
    assert_eq!(out[1].data, b"ABCDEF".to_vec());
}

#[test]
fn defragment_flushes_partial_buffer_at_end_of_stream() {
    let mut defrag = WSDefragMessages::new();
    assert!(defrag.feed(WSMessage::text("AB").first()).is_none());
    assert!(defrag.feed(WSMessage::text("CD").more()).is_none());
    let flushed = defrag.flush().unwrap();
    assert_eq!(flushed.data, b"ABCD".to_vec());
    assert!(flushed.is_first());
    assert!(defrag.flush().is_none());
}
