use ccloader_installer::dispatch::{
    configure_engine_default, configure_engine_for_request, find_header, request_content_length,
    EngineConfig, Method, MethodSetup, Request, SizeHint,
};
use ccloader_installer::parser::Version;

fn request(method: Method, headers: &[(&[u8], &[u8])], body: &[u8]) -> Request {
    Request {
        method,
        uri: "https://example.test/x".to_owned(),
        version: Version::Http11,
        headers: headers.iter().map(|(n, v)| (n.to_vec(), v.to_vec())).collect(),
        body: body.to_vec(),
    }
}

#[test]
fn defaults_follow_redirects_and_identify_the_client() {
    let d = configure_engine_default();
    assert!(d.follow_redirects);
    assert_eq!(d.user_agent, "ccloader-installer/0.1.0 (by @dmitmel)");
}

#[test]
fn plain_get() {
    let cfg = configure_engine_for_request(&request(Method::Get, &[], b""));
    assert!(matches!(cfg.method, MethodSetup::Get));
    assert!(cfg.size_hint.is_none());
    assert_eq!(cfg.url, "https://example.test/x");
    assert_eq!(cfg.version, Version::Http11);
}

#[test]
fn get_with_body_uploads_under_custom_verb() {
    let cfg = configure_engine_for_request(&request(Method::Get, &[], b"data"));
    match cfg.method {
        MethodSetup::Custom { upload, ref verb } => {
            assert!(upload);
            assert_eq!(verb, "GET");
        }
        _ => panic!("expected a custom-verb upload"),
    }
    match cfg.size_hint {
        Some(SizeHint::InFileSize(n)) => assert_eq!(n, 4),
        _ => panic!("expected an input-file size hint"),
    }
}

#[test]
fn head_suppresses_the_payload() {
    let cfg = configure_engine_for_request(&request(Method::Head, &[], b""));
    assert!(matches!(cfg.method, MethodSetup::Head { upload: false }));
    let cfg = configure_engine_for_request(&request(Method::Head, &[], b"x"));
    assert!(matches!(cfg.method, MethodSetup::Head { upload: true }));
}

#[test]
fn post_announces_the_field_size() {
    let cfg = configure_engine_for_request(&request(Method::Post, &[], b"abcde"));
    assert!(matches!(cfg.method, MethodSetup::Post));
    match cfg.size_hint {
        Some(SizeHint::PostFieldSize(n)) => assert_eq!(n, 5),
        _ => panic!("expected a post-field size hint"),
    }
}

#[test]
fn put_is_a_plain_upload() {
    let cfg = configure_engine_for_request(&request(Method::Put, &[], b"abc"));
    assert!(matches!(cfg.method, MethodSetup::Put));
    match cfg.size_hint {
        Some(SizeHint::InFileSize(n)) => assert_eq!(n, 3),
        _ => panic!("expected an input-file size hint"),
    }
}

#[test]
fn declared_content_length_beats_the_body_length() {
    let cfg = configure_engine_for_request(&request(
        Method::Post,
        &[(b"Content-Length", b"10")],
        b"abc",
    ));
    match cfg.size_hint {
        Some(SizeHint::PostFieldSize(n)) => assert_eq!(n, 10),
        _ => panic!("expected a post-field size hint"),
    }
    // a malformed declaration falls back to the body's length
    let cfg = configure_engine_for_request(&request(
        Method::Post,
        &[(b"Content-Length", b"ten")],
        b"abc",
    ));
    match cfg.size_hint {
        Some(SizeHint::PostFieldSize(n)) => assert_eq!(n, 3),
        _ => panic!("expected a post-field size hint"),
    }
}

#[test]
fn other_methods_pass_their_verb_through() {
    let cfg = configure_engine_for_request(&request(
        Method::Custom("DELETE".to_owned()),
        &[],
        b"",
    ));
    match cfg.method {
        MethodSetup::Custom { upload, ref verb } => {
            assert!(!upload);
            assert_eq!(verb, "DELETE");
        }
        _ => panic!("expected a custom verb"),
    }
}

#[test]
fn connect_uses_the_connect_status_query() {
    assert!(Method::Connect.uses_connect_query());
    assert!(!Method::Get.uses_connect_query());
    let cfg = configure_engine_for_request(&request(Method::Connect, &[], b""));
    match cfg.method {
        MethodSetup::Custom { upload, ref verb } => {
            assert!(!upload);
            assert_eq!(verb, "CONNECT");
        }
        _ => panic!("expected a custom verb"),
    }
}

#[test]
fn accept_encoding_forwarded_or_left_open() {
    let cfg = configure_engine_for_request(&request(
        Method::Get,
        &[(b"ACCEPT-ENCODING", b"gzip")],
        b"",
    ));
    assert_eq!(cfg.accept_encoding, b"gzip");
    // an empty value asks the engine for everything it supports
    let cfg = configure_engine_for_request(&request(Method::Get, &[], b""));
    assert!(cfg.accept_encoding.is_empty());
}

#[test]
fn header_lines_serialized_in_wire_order() {
    let cfg: EngineConfig = configure_engine_for_request(&request(
        Method::Get,
        &[(b"Accept-Encoding", b"gzip"), (b"X-One", b"1")],
        b"",
    ));
    assert_eq!(cfg.header_lines.len(), 2);
    assert_eq!(cfg.header_lines[0], b"Accept-Encoding: gzip");
    assert_eq!(cfg.header_lines[1], b"X-One: 1");
}

#[test]
fn find_header_takes_the_first_match() {
    let headers = vec![
        (b"X-A".to_vec(), b"1".to_vec()),
        (b"x-a".to_vec(), b"2".to_vec()),
    ];
    assert_eq!(find_header(&headers, b"X-A").map(|v| v.as_slice()), Some(&b"1"[..]));
    assert!(find_header(&headers, b"X-B").is_none());
}

#[test]
fn request_content_length_respects_transfer_encoding() {
    let headers = vec![(b"Content-Length".to_vec(), b"7".to_vec())];
    assert_eq!(request_content_length(&headers), Some(7));
    let headers = vec![
        (b"Transfer-Encoding".to_vec(), b"chunked".to_vec()),
        (b"Content-Length".to_vec(), b"7".to_vec()),
    ];
    assert_eq!(request_content_length(&headers), None);
}

#[test]
fn full_request_scenario() {
    // GET /x HTTP/1.1 with Accept-Encoding: gzip and no body
    let cfg = configure_engine_for_request(&request(
        Method::Get,
        &[(b"Accept-Encoding", b"gzip")],
        b"",
    ));
    assert!(matches!(cfg.method, MethodSetup::Get));
    assert_eq!(cfg.version, Version::Http11);
    assert_eq!(cfg.accept_encoding, b"gzip");
    assert_eq!(cfg.header_lines, vec![b"Accept-Encoding: gzip".to_vec()]);
    assert!(cfg.size_hint.is_none());
}
