use webd::{
    accept_key, handshake_response, wants_upgrade, ws_upgrade, Error, FrameHeader, OpCode,
    Payload, Req, WebSocket, WsUpgrade,
};

const OPCODES: [OpCode; 6] = [
    OpCode::Continuation,
    OpCode::Text,
    OpCode::Binary,
    OpCode::Close,
    OpCode::Ping,
    OpCode::Pong,
];

fn header(fin: bool, opcode: OpCode, payload_len: usize, key: Option<[u8; 4]>) -> FrameHeader {
    let extra = if payload_len > 65535 {
        8
    } else if payload_len > 125 {
        2
    } else {
        0
    };
    let mask = if key.is_some() { 4 } else { 0 };
    FrameHeader { fin, opcode, header_len: 2 + extra + mask, payload_len, masking_key: key }
}

fn session() -> WebSocket {
    WebSocket::new(Req::parse("GET /ws HTTP/1.1\n\n").unwrap())
}

#[test]
fn frame_header_round_trip() {
    for &len in &[0usize, 1, 125, 126, 65535, 65536] {
        for &fin in &[false, true] {
            for &op in &OPCODES {
                for key in [None, Some([1u8, 2, 3, 4]), Some([0xff, 0, 0x80, 0x7f])] {
                    let h = header(fin, op, len, key);
                    let mut out = Vec::new();
                    let n = h.write(&mut out);
                    assert_eq!(n, out.len());
                    assert_eq!(n, h.header_len);
                    let p = FrameHeader::parse(&out).unwrap().unwrap();
                    assert_eq!(p.fin, fin);
                    assert_eq!(p.opcode, op);
                    assert_eq!(p.payload_len, len);
                    assert_eq!(p.masking_key, key);
                    assert_eq!(p.header_len, h.header_len);
                    assert_eq!(p.frame_len(), h.header_len + len);
                }
            }
        }
    }
}

#[test]
fn frame_header_exact_bytes() {
    let mut out = Vec::new();
    FrameHeader::final_text(5, None).write(&mut out);
    assert_eq!(out, vec![0x81, 0x05]);
    let mut out = Vec::new();
    FrameHeader::final_text(256, None).write(&mut out);
    assert_eq!(out, vec![0x81, 126, 0x01, 0x00]);
    let mut out = Vec::new();
    FrameHeader::final_text(65536, Some([9, 8, 7, 6])).write(&mut out);
    assert_eq!(out, vec![0x81, 0x80 | 127, 0, 0, 0, 0, 0, 1, 0, 0, 9, 8, 7, 6]);
}

#[test]
fn final_text_header_len() {
    let h = FrameHeader::final_text(10, None);
    assert!(h.fin);
    assert_eq!(h.opcode, OpCode::Text);
    assert_eq!(h.header_len, 2);
    assert_eq!(FrameHeader::final_text(200, None).header_len, 4);
    assert_eq!(FrameHeader::final_text(70000, Some([1, 2, 3, 4])).header_len, 14);
}

#[test]
fn frame_parse_incomplete_and_malformed() {
    assert!(FrameHeader::parse(&[]).unwrap().is_none());
    assert!(FrameHeader::parse(&[0x81]).unwrap().is_none());
    assert!(FrameHeader::parse(&[0x81, 126, 0]).unwrap().is_none());
    assert!(FrameHeader::parse(&[0x81, 127, 0, 0, 0]).unwrap().is_none());
    assert!(FrameHeader::parse(&[0x81, 0x85, 1, 2]).unwrap().is_none());
    match FrameHeader::parse(&[0x83, 0x00]) {
        Err(Error::Input(_)) => {}
        _ => panic!("unknown opcode must be an input error"),
    }
    match FrameHeader::parse(&[0x82, 127, 0xff, 0xff, 0xff, 0xff, 0xff, 0xff, 0xff, 0xff]) {
        Err(Error::Input(_)) => {}
        _ => panic!("an unaddressable length must be an input error"),
    }
}

#[test]
fn opcode_codes() {
    for &op in &OPCODES {
        assert_eq!(OpCode::parse(op.as_byte()), Some(op));
        assert_eq!(OpCode::parse(0x80 | op.as_byte()), Some(op));
    }
    assert_eq!(OpCode::Pong.as_byte(), 0xA);
    assert_eq!(OpCode::parse(0x3), None);
    assert_eq!(OpCode::parse(0xB), None);
}

#[test]
fn unmask_is_self_inverse() {
    let data: Vec<u8> = (0u16..300).map(|i| (i * 7 % 256) as u8).collect();
    for key in [[0u8, 0, 0, 0], [1, 2, 3, 4], [0xff, 0x0f, 0xf0, 0xaa]] {
        let h = header(true, OpCode::Binary, data.len(), Some(key));
        let once = h.unmask(&data);
        let twice = h.unmask(&once);
        assert_eq!(twice, data);
    }
    let plain = header(true, OpCode::Binary, 3, None);
    assert_eq!(plain.unmask(&[1, 2, 3]), vec![1, 2, 3]);
}

#[test]
fn unmask_rfc_example() {
    let frame = [0x81u8, 0x85, 0x37, 0xfa, 0x21, 0x3d, 0x7f, 0x9f, 0x4d, 0x51, 0x58];
    let h = FrameHeader::parse(&frame).unwrap().unwrap();
    assert_eq!(h.header_len, 6);
    assert_eq!(h.payload_len, 5);
    assert_eq!(h.unmask(&frame[6..]), b"Hello".to_vec());
}

#[test]
fn accept_token_rfc_example() {
    assert_eq!(accept_key("dGhlIHNhbXBsZSBub25jZQ=="), "s3pPLMBiTxaQ9kYGzzhZRbK+xOo=");
}

#[test]
fn handshake_response_text() {
    assert_eq!(
        handshake_response("abc"),
        "HTTP/1.0 101 Switching Protocols\nServer: webd 0.1\nConnection: upgrade\nUpgrade: websocket\nSec-WebSocket-Accept: abc\n\n"
    );
}

#[test]
fn upgrade_succeeds_with_rfc_key() {
    let raw = "GET /chat HTTP/1.1\nConnection: Upgrade\nUpgrade: websocket\nSec-WebSocket-Key: dGhlIHNhbXBsZSBub25jZQ==\n\n";
    let req = Req::parse(raw).unwrap();
    assert!(wants_upgrade(&req.headers));
    match ws_upgrade(req) {
        WsUpgrade::Success(mut ws) => {
            assert!(ws.is_open());
            assert_eq!(ws.request().path, "/chat");
            let out = String::from_utf8(ws.take_output()).unwrap();
            assert!(out.starts_with("HTTP/1.0 101 Switching Protocols\n"));
            assert!(out.contains("Sec-WebSocket-Accept: s3pPLMBiTxaQ9kYGzzhZRbK+xOo=\n"));
            assert!(out.ends_with("\n\n"));
            assert!(ws.take_output().is_empty());
        }
        _ => panic!("expected an upgrade"),
    }
}

#[test]
fn upgrade_not_applicable_without_connection_header() {
    let req = Req::parse("GET / HTTP/1.1\nUpgrade: websocket\nSec-WebSocket-Key: x\n\n").unwrap();
    match ws_upgrade(req) {
        WsUpgrade::Failure(r) => assert_eq!(r.path, "/"),
        _ => panic!("expected the fallback"),
    }
    let req = Req::parse("GET / HTTP/1.1\nConnection: upgrade\nUpgrade: websocket\n\n").unwrap();
    assert!(matches!(ws_upgrade(req), WsUpgrade::Failure(_)));
    let req = Req::parse("GET / HTTP/1.1\nConnection: Upgrade\nUpgrade: h2c\n\n").unwrap();
    assert!(matches!(ws_upgrade(req), WsUpgrade::Failure(_)));
}

#[test]
fn upgrade_without_key_is_an_error() {
    let req = Req::parse("GET / HTTP/1.1\nConnection: Upgrade\nUpgrade: websocket\n\n").unwrap();
    assert!(matches!(ws_upgrade(req), WsUpgrade::Error(Error::Input(_))));
}

#[test]
fn session_receives_masked_text() {
    let mut ws = session();
    ws.feed(&[0x81, 0x85, 0x37, 0xfa, 0x21]);
    assert!(ws.recv().unwrap().is_none());
    ws.feed(&[0x3d, 0x7f, 0x9f, 0x4d, 0x51, 0x58, 0x82, 0x02, 7, 8]);
    match ws.recv().unwrap() {
        Some(Payload::Str(s)) => assert_eq!(s, "Hello"),
        _ => panic!("expected text"),
    }
    match ws.recv().unwrap() {
        Some(Payload::Bin(b)) => assert_eq!(b, vec![7, 8]),
        _ => panic!("expected binary"),
    }
    assert!(ws.recv().unwrap().is_none());
}

#[test]
fn session_after_close() {
    let mut ws = session();
    ws.feed(&[0x88, 0x00, 0x81, 0x01, b'a']);
    assert!(ws.recv().unwrap().is_none());
    assert!(!ws.is_open());
    for _ in 0..3 {
        assert!(ws.recv().unwrap().is_none());
    }
    assert!(matches!(ws.send_str("hi"), Err(Error::Io(_))));
    assert!(ws.take_output().is_empty());
}

#[test]
fn session_rejects_invalid_utf8() {
    let mut ws = session();
    ws.feed(&[0x81, 0x02, 0xff, 0xfe]);
    assert!(matches!(ws.recv(), Err(Error::Input(_))));
    assert!(!ws.is_open());
}

#[test]
fn session_answers_ping() {
    let mut ws = session();
    ws.feed(&[0x89, 0x82, 1, 2, 3, 4, b'o' ^ 1, b'k' ^ 2, 0x8A, 0x00]);
    assert!(ws.recv().unwrap().is_none());
    assert_eq!(ws.take_output(), vec![0x8A, 0x02, b'o', b'k']);
    assert!(ws.recv().unwrap().is_none());
    assert!(ws.take_output().is_empty());
    assert!(ws.is_open());
}

#[test]
fn session_reassembles_fragments() {
    let mut ws = session();
    ws.feed(&[0x01, 0x02, b'H', b'e', 0x89, 0x00, 0x00, 0x01, b'l', 0x80, 0x02, b'l', b'o']);
    assert!(ws.recv().unwrap().is_none());
    assert!(ws.recv().unwrap().is_none());
    assert!(ws.recv().unwrap().is_none());
    match ws.recv().unwrap() {
        Some(Payload::Str(s)) => assert_eq!(s, "Hello"),
        _ => panic!("expected text"),
    }
    assert_eq!(ws.take_output(), vec![0x8A, 0x00]);
}

#[test]
fn session_rejects_stray_continuation() {
    let mut ws = session();
    ws.feed(&[0x80, 0x01, b'x']);
    assert!(matches!(ws.recv(), Err(Error::Input(_))));
    assert!(!ws.is_open());
}

#[test]
fn session_rejects_unknown_opcode() {
    let mut ws = session();
    ws.feed(&[0x83, 0x00]);
    assert!(matches!(ws.recv(), Err(Error::Input(_))));
    assert!(!ws.is_open());
}

#[test]
fn session_sends_text() {
    let mut ws = session();
    assert_eq!(ws.send_str("hey").unwrap(), 5);
    assert_eq!(ws.take_output(), vec![0x81, 0x03, b'h', b'e', b'y']);
    let long = "x".repeat(300);
    assert_eq!(ws.send_str(&long).unwrap(), 304);
    let out = ws.take_output();
    assert_eq!(&out[..4], &[0x81, 126, 0x01, 0x2c]);
    ws.close();
    assert!(ws.send_str("x").is_err());
}

#[test]
fn session_closes_on_non_final_close() {
    let mut ws = session();
    ws.feed(&[0x08, 0x00, 0x81, 0x01, b'a']);
    assert!(ws.recv().unwrap().is_none());
    assert!(!ws.is_open());
    assert_eq!(ws.buffered(), 3);
    assert!(ws.take_output().is_empty());
    assert!(ws.recv().unwrap().is_none());
}

#[test]
fn session_answers_non_final_ping() {
    let mut ws = session();
    ws.feed(&[0x09, 0x01, b'z', 0x0A, 0x00]);
    assert!(ws.recv().unwrap().is_none());
    assert_eq!(ws.take_output(), vec![0x8A, 0x01, b'z']);
    assert!(ws.recv().unwrap().is_none());
    assert!(ws.is_open());
    assert_eq!(ws.buffered(), 0);
}
