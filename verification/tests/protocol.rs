use telemetry_core::handshake::compute_accept;
use telemetry_core::http::{
    classify_request, file_response, get_mime, mime_for_file, resolve_file, response_101,
    response_200, response_404, Channel, Request,
};
use telemetry_core::wire::encode_frame;

#[test]
fn handshake_accept_vector() {
    // The canonical key/accept pair from the protocol specification.
    let key = b"dGhlIHNhbXBsZSBub25jZQ==".to_vec();
    let accept = compute_accept(&key);
    assert_eq!(accept, b"s3pPLMBiTxaQ9kYGzzhZRbK+xOo=".to_vec());
}

#[test]
fn upgrade_response_carries_accept() {
    let key = b"dGhlIHNhbXBsZSBub25jZQ==".to_vec();
    let resp = response_101(&key);
    let expected = b"HTTP/1.1 101 Switching Protocols\r\nUpgrade: websocket\r\nConnection: Upgrade\r\nSec-WebSocket-Accept: s3pPLMBiTxaQ9kYGzzhZRbK+xOo=\r\n\r\n".to_vec();
    assert_eq!(resp, expected);
}

#[test]
fn frame_short_payload_single_length_byte() {
    let payload: Vec<u8> = (0..10).collect();
    let frame = encode_frame(&payload);
    assert_eq!(frame[0], 0b1000_0010);
    assert_eq!(frame[1], 10);
    assert_eq!(&frame[2..], &payload[..]);
}

#[test]
fn frame_medium_payload_16_bit_length() {
    let payload = vec![7u8; 300];
    let frame = encode_frame(&payload);
    assert_eq!(frame[0], 0x82);
    assert_eq!(frame[1], 126);
    assert_eq!(frame[2], 0x01); // 300 = 0x012C, big-endian
    assert_eq!(frame[3], 0x2C);
    assert_eq!(&frame[4..], &payload[..]);
}

#[test]
fn frame_long_payload_64_bit_length() {
    let payload = vec![1u8; 70000];
    let frame = encode_frame(&payload);
    assert_eq!(frame[0], 0x82);
    assert_eq!(frame[1], 127);
    // 70000 = 0x0001_1170, as eight big-endian bytes.
    assert_eq!(&frame[2..10], &[0, 0, 0, 0, 0, 1, 0x11, 0x70]);
    assert_eq!(&frame[10..], &payload[..]);
}

#[test]
fn frame_length_tier_boundaries() {
    let f125 = encode_frame(&vec![0u8; 125]);
    assert_eq!(f125[1], 125);
    assert_eq!(f125.len(), 2 + 125);

    let f126 = encode_frame(&vec![0u8; 126]);
    assert_eq!(f126[1], 126);
    assert_eq!(&f126[2..4], &[0, 126]);

    let f65535 = encode_frame(&vec![0u8; 65535]);
    assert_eq!(f65535[1], 126);
    assert_eq!(&f65535[2..4], &[0xFF, 0xFF]);

    let f65536 = encode_frame(&vec![0u8; 65536]);
    assert_eq!(f65536[1], 127);
    assert_eq!(&f65536[2..10], &[0, 0, 0, 0, 0, 1, 0, 0]);
}

#[test]
fn frame_empty_payload() {
    let frame = encode_frame(&Vec::new());
    assert_eq!(frame, vec![0x82, 0]);
}

#[test]
fn mime_mapping() {
    assert_eq!(get_mime(b"html"), b"text/html".to_vec());
    assert_eq!(get_mime(b"js"), b"application/javascript".to_vec());
    assert_eq!(get_mime(b"png"), b"image/png".to_vec());
    assert_eq!(get_mime(b"svg"), b"image/svg+xml".to_vec());
    assert_eq!(get_mime(b"css"), Vec::<u8>::new());
    assert_eq!(get_mime(b""), Vec::<u8>::new());
}

#[test]
fn mime_from_file_name() {
    assert_eq!(mime_for_file(b"index.html"), b"text/html".to_vec());
    assert_eq!(mime_for_file(b"app.min.js"), b"application/javascript".to_vec());
    assert_eq!(mime_for_file(b"logo"), Vec::<u8>::new());
}

#[test]
fn root_path_serves_index() {
    assert_eq!(resolve_file(b"/"), b"index.html".to_vec());
    assert_eq!(resolve_file(b""), b"index.html".to_vec());
    assert_eq!(resolve_file(b"/page.html"), b"page.html".to_vec());
    assert_eq!(resolve_file(b"/js/app.js"), b"js/app.js".to_vec());
}

#[test]
fn not_found_response_status_line() {
    assert_eq!(response_404(), b"HTTP/1.1 404 Not Found\r\n".to_vec());
}

#[test]
fn ok_response_layout() {
    let resp = response_200(b"text/html", b"<p>hi</p>");
    assert_eq!(
        resp,
        b"HTTP/1.1 200 OK\r\nContent-Type: text/html\r\n\r\n<p>hi</p>\r\n\r\n".to_vec()
    );
}

#[test]
fn classify_plain_page_fetch() {
    let req = b"GET /index.html HTTP/1.1\r\nHost: example\r\n\r\n";
    match classify_request(req) {
        Request::Http { path } => assert_eq!(path, b"/index.html".to_vec()),
        _ => panic!("expected a page fetch"),
    }
}

#[test]
fn classify_upgrade_with_channel() {
    let req = b"GET /attitude HTTP/1.1\r\nUpgrade: websocket\r\nSec-WebSocket-Key: dGhlIHNhbXBsZSBub25jZQ==\r\n\r\n";
    match classify_request(req) {
        Request::Ws { channel, key } => {
            assert_eq!(channel, Some(Channel::Attitude));
            assert_eq!(key, b"dGhlIHNhbXBsZSBub25jZQ==".to_vec());
        },
        _ => panic!("expected an upgrade"),
    }
}

#[test]
fn classify_upgrade_unknown_channel() {
    let req = b"GET /weather HTTP/1.1\r\nUpgrade: websocket\r\nSec-WebSocket-Key: abc\r\n\r\n";
    match classify_request(req) {
        Request::Ws { channel, key } => {
            assert_eq!(channel, None);
            assert_eq!(key, b"abc".to_vec());
        },
        _ => panic!("expected an upgrade"),
    }
}

#[test]
fn classify_upgrade_without_key_is_bad() {
    let req = b"GET /video HTTP/1.1\r\nUpgrade: websocket\r\n\r\n";
    assert!(matches!(classify_request(req), Request::Bad));
}

#[test]
fn classify_garbage_is_bad() {
    assert!(matches!(classify_request(b"\x01\x02garbage\x7f"), Request::Bad));
    assert!(matches!(classify_request(b"GET /partial"), Request::Bad));
}

#[test]
fn file_response_serves_or_rejects() {
    let body = b"<p>hi</p>".to_vec();
    assert_eq!(
        file_response(b"index.html", Some(&body)),
        b"HTTP/1.1 200 OK\r\nContent-Type: text/html\r\n\r\n<p>hi</p>\r\n\r\n".to_vec()
    );
    // A path that names no readable file gets the bare 404 status line.
    assert_eq!(file_response(b"missing.html", None), b"HTTP/1.1 404 Not Found\r\n".to_vec());
}
