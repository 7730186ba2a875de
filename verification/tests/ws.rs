use hpr_skygate::ws::{b64, extract_key, sha1, ws_accept, ws_frame_header};

fn hex(b: &[u8]) -> String {
    b.iter().map(|x| format!("{:02x}", x)).collect()
}

#[test]
fn sha1_known_digests() {
    assert_eq!(hex(&sha1(b"")), "da39a3ee5e6b4b0d3255bfef95601890afd80709");
    assert_eq!(hex(&sha1(b"abc")), "a9993e364706816aba3e25717850c26c9cd0d89d");
    assert_eq!(
        hex(&sha1(b"abcdbcdecdefdefgefghfghighijhijkijkljklmklmnlmnomnopnopq")),
        "84983e441c3bd26ebaae4aa1f95129e5e54670f1"
    );
}

#[test]
fn base64_padding() {
    assert_eq!(b64(b""), "");
    assert_eq!(b64(b"f"), "Zg==");
    assert_eq!(b64(b"fo"), "Zm8=");
    assert_eq!(b64(b"foo"), "Zm9v");
    assert_eq!(b64(b"foob"), "Zm9vYg==");
    assert_eq!(b64(b"foobar"), "Zm9vYmFy");
    assert_eq!(b64(&[0xfb, 0xff]), "+/8=");
}

#[test]
fn accept_for_rfc_example_key() {
    assert_eq!(ws_accept("dGhlIHNhbXBsZSBub25jZQ=="), "s3pPLMBiTxaQ9kYGzzhZRbK+xOo=");
}

#[test]
fn key_header_any_case_trimmed() {
    let req = "GET /chat HTTP/1.1\r\nHost: x\r\nSEC-WebSocket-Key:   dGhlIHNhbXBsZSBub25jZQ==  \r\n\r\n";
    assert_eq!(extract_key(req).as_deref(), Some("dGhlIHNhbXBsZSBub25jZQ=="));
    assert_eq!(extract_key("GET / HTTP/1.1\r\nHost: x\r\n\r\n"), None);
    assert_eq!(extract_key("sec-websocket-key:a\nsec-websocket-key:b").as_deref(), Some("a"));
}

#[test]
fn frame_header_lengths() {
    assert_eq!(ws_frame_header(5), vec![0x82, 5]);
    assert_eq!(ws_frame_header(125), vec![0x82, 125]);
    assert_eq!(ws_frame_header(300), vec![0x82, 126, 1, 44]);
    assert_eq!(ws_frame_header(70000), vec![0x82, 127, 0, 0, 0, 0, 0, 1, 17, 112]);
}
