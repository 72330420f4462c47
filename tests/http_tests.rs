use webd::err;
use webd::{ends_head, input, parse_header_line, Error, Req, Status, Verb};

#[test]
fn parse_req() -> err::Result<()> {
    let mut raw = String::new();
    raw.push_str("GET /api/map HTTP/1.1\n");
    raw.push_str("Host: example.com\n");
    raw.push_str("Accept: */*\n");
    raw.push_str("\n");

    let req = Req::parse(raw.as_str())?;
    assert_eq!(req.path.as_str(), "/api/map");

    Ok(())
}

#[test]
fn parse_req_fields_and_headers() {
    let raw = "  GET /index.html HTTP/1.0 \r\nHost:  example.com:8080 \r\nX-Empty:\r\nno colon here\r\nAccept: a\r\nAccept: b\r\n\r\nIgnored: yes\r\n";
    let req = Req::parse(raw).unwrap();
    assert_eq!(req.verb, Verb::Get);
    assert_eq!(req.path, "/index.html");
    assert_eq!(req.version, "HTTP/1.0");
    assert_eq!(req.headers.get("Host").unwrap(), "example.com:8080");
    assert_eq!(req.headers.get("X-Empty").unwrap(), "");
    assert_eq!(req.headers.get("Accept").unwrap(), "b");
    assert!(req.headers.get("Ignored").is_none());
    assert!(req.headers.get("host").is_none());
    assert!(req.headers.get("no colon here").is_none());
}

#[test]
fn parse_req_without_blank_line_reads_to_end() {
    let req = Req::parse("GET / HTTP/1.1\nA: 1").unwrap();
    assert_eq!(req.headers.get("A").unwrap(), "1");
}

#[test]
fn parse_req_extra_tokens_ignored() {
    let req = Req::parse("GET /x HTTP/1.1 extra more\n\n").unwrap();
    assert_eq!(req.path, "/x");
    assert_eq!(req.version, "HTTP/1.1");
}

#[test]
fn parse_req_unknown_verb() {
    match Req::parse("POST /x HTTP/1.1\n\n") {
        Err(Error::Input(m)) => {
            assert_eq!(m, "unknown verb: POST");
            assert!(m.contains("POST"));
        }
        _ => panic!("expected an input error"),
    }
}

#[test]
fn parse_req_empty_line_has_no_verb() {
    for head in ["", "\n", "   \r\nHost: x\n\n"] {
        match Req::parse(head) {
            Err(Error::Input(m)) => assert_eq!(m, "no verb"),
            _ => panic!("expected an input error"),
        }
    }
}

#[test]
fn parse_req_missing_path_and_version() {
    match Req::parse("GET\n\n") {
        Err(Error::Input(m)) => assert_eq!(m, "no path"),
        _ => panic!("expected an input error"),
    }
    match Req::parse("GET /x\n\n") {
        Err(Error::Input(m)) => assert_eq!(m, "no version"),
        _ => panic!("expected an input error"),
    }
}

#[test]
fn header_line_splits_at_first_colon() {
    let (n, v) = parse_header_line("  Origin : http://a.b:1 ").unwrap();
    assert_eq!(n, "Origin");
    assert_eq!(v, "http://a.b:1");
    assert!(parse_header_line("nothing").is_none());
}

#[test]
fn head_end_detection() {
    assert!(ends_head("\r\n"));
    assert!(ends_head(" \t "));
    assert!(ends_head(""));
    assert!(!ends_head("Host: x\n"));
}

#[test]
fn verb_and_status_names() {
    assert_eq!(Verb::parse("GET"), Some(Verb::Get));
    assert_eq!(Verb::parse("get"), None);
    assert_eq!(Verb::Get.to_string(), "GET");
    assert_eq!(Status::SwitchingProtocols.to_string(), "101 Switching Protocols");
    assert_eq!(Status::OK.to_string(), "200 OK");
    assert_eq!(Status::BadRequest.to_string(), "400 Bad Request");
    assert_eq!(Status::NotFound.to_string(), "404 Not Found");
    assert_eq!(Status::MethodNotAllowed.to_string(), "405 Method Not Allowed");
}

#[test]
fn error_rendering() {
    let e: err::Result<u8> = input("bad".to_string());
    match e {
        Err(ref x @ Error::Input(_)) => assert_eq!(x.to_string(), "Error::Input(bad)"),
        _ => panic!("expected an input error"),
    }
    assert_eq!(Error::Io("gone".to_string()).to_string(), "Error::Io(gone)");
}

#[test]
fn parse_req_trims_unicode_whitespace() {
    let req = Req::parse("\u{3000}GET /u HTTP/1.1\u{a0}\nX:\u{2003}v\u{85}\n\u{2028}\nY: no\n").unwrap();
    assert_eq!(req.path, "/u");
    assert_eq!(req.version, "HTTP/1.1");
    assert_eq!(req.headers.get("X").unwrap(), "v");
    assert!(req.headers.get("Y").is_none());
    assert!(ends_head("\u{2003}\u{3000}\r\n"));
    assert!(!ends_head("\u{200B}"));
}
