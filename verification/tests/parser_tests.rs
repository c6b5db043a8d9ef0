use ccloader_installer::parser::{
    is_control_char, is_linebreak_char, is_special_char, is_token_char, is_whitespace_char,
    parse_header, parse_status_line, ParserHelper, Version,
};

#[test]
fn status_line_http10_200() {
    let r = parse_status_line(b"HTTP/1.0 200 OK");
    assert_eq!(r, Some((Version::Http10, 200)));
}

#[test]
fn status_line_http11_404() {
    let r = parse_status_line(b"HTTP/1.1 404 Not Found");
    assert_eq!(r, Some((Version::Http11, 404)));
}

#[test]
fn status_line_tolerates_trailing_terminator() {
    assert_eq!(
        parse_status_line(b"HTTP/1.1 301 Moved Permanently\r\n"),
        Some((Version::Http11, 301))
    );
    // the reason phrase may be empty as long as the space after the code is there
    assert_eq!(parse_status_line(b"HTTP/1.1 200 "), Some((Version::Http11, 200)));
}

#[test]
fn status_line_rejections_are_not_fatal() {
    // wrong literal prefix
    assert_eq!(parse_status_line(b"http/1.1 200 OK"), None);
    assert_eq!(parse_status_line(b"HTTP/2.0 200 OK"), None);
    // unsupported minor version digit
    assert_eq!(parse_status_line(b"HTTP/1.2 200 OK"), None);
    // missing space after the version
    assert_eq!(parse_status_line(b"HTTP/1.1200 OK"), None);
    // status code must be three digits with a nonzero first digit
    assert_eq!(parse_status_line(b"HTTP/1.1 099 OK"), None);
    assert_eq!(parse_status_line(b"HTTP/1.1 20x OK"), None);
    // missing space after the code
    assert_eq!(parse_status_line(b"HTTP/1.1 200"), None);
    // too short
    assert_eq!(parse_status_line(b""), None);
    assert_eq!(parse_status_line(b"HTTP/1."), None);
}

#[test]
fn header_content_length_crlf() {
    let r = parse_header(b"Content-Length: 42\r\n");
    let (name, value) = r.expect("header should parse");
    assert_eq!(name, b"Content-Length");
    assert_eq!(value, b"42");
}

#[test]
fn header_content_length_bare_lf_and_no_terminator() {
    let (name, value) = parse_header(b"Content-Length: 42\n").unwrap();
    assert_eq!(name, b"Content-Length");
    assert_eq!(value, b"42");
    let (name, value) = parse_header(b"Content-Length: 42").unwrap();
    assert_eq!(name, b"Content-Length");
    assert_eq!(value, b"42");
}

#[test]
fn header_leading_whitespace_stripped() {
    let (name, value) = parse_header(b"X-Pad: \t  spaced\r\n").unwrap();
    assert_eq!(name, b"X-Pad");
    assert_eq!(value, b"spaced");
    // whitespace inside the value stays
    let (_, value) = parse_header(b"X: a b\r\n").unwrap();
    assert_eq!(value, b"a b");
}

#[test]
fn header_empty_value_is_acceptable() {
    let (name, value) = parse_header(b"X-Empty:\r\n").unwrap();
    assert_eq!(name, b"X-Empty");
    assert_eq!(value, b"");
    let (_, value) = parse_header(b"X-Empty: \r\n").unwrap();
    assert_eq!(value, b"");
}

#[test]
fn header_missing_colon_tolerated() {
    let (name, value) = parse_header(b"Warning 110\r\n").unwrap();
    // the name is the maximal token run; the space ends it, the colon is
    // simply absent and the rest becomes the value
    assert_eq!(name, b"Warning");
    assert_eq!(value, b"110");
}

#[test]
fn header_empty_name_fails() {
    assert_eq!(parse_header(b": value\r\n"), None);
    assert_eq!(parse_header(b":\r\n"), None);
    assert_eq!(parse_header(b""), None);
}

#[test]
fn parsing_is_idempotent_and_does_not_mutate() {
    let bytes = b"Content-Type: text/html\r\n".to_vec();
    let before = bytes.clone();
    let r1 = parse_header(&bytes);
    let r2 = parse_header(&bytes);
    assert_eq!(r1, r2);
    assert_eq!(bytes, before);

    let line = b"HTTP/1.1 200 OK".to_vec();
    let before = line.clone();
    let s1 = parse_status_line(&line);
    let s2 = parse_status_line(&line);
    assert_eq!(s1, s2);
    assert_eq!(line, before);

    // two independent cursors over the same bytes step identically
    let mut p1 = ParserHelper::new(&bytes);
    let mut p2 = ParserHelper::new(&bytes);
    assert_eq!(p1.take_while(is_token_char), p2.take_while(is_token_char));
    assert_eq!(p1.index, p2.index);
}

#[test]
fn char_classes() {
    assert!(is_token_char(b'A'));
    assert!(is_token_char(b'!'));
    assert!(!is_token_char(b':'));
    assert!(!is_token_char(b' '));
    assert!(!is_token_char(0x1f));
    assert!(!is_token_char(0x7f));
    assert!(is_control_char(0));
    assert!(is_control_char(0x7f));
    assert!(!is_control_char(b'a'));
    assert!(is_special_char(b'{'));
    assert!(!is_special_char(b'a'));
    assert!(is_whitespace_char(b' '));
    assert!(is_whitespace_char(b'\t'));
    assert!(!is_whitespace_char(b'\n'));
    assert!(is_linebreak_char(b'\r'));
    assert!(is_linebreak_char(b'\n'));
    assert!(!is_linebreak_char(b' '));
}

#[test]
fn cursor_take_and_take_seq() {
    let bytes = b"abcdef";
    let mut p = ParserHelper::new(bytes);
    assert_eq!(p.take(2), Some(&b"ab"[..]));
    assert_eq!(p.index, 2);
    // failure consumes nothing
    assert_eq!(p.take(5), None);
    assert_eq!(p.index, 2);
    assert_eq!(p.take_seq(b"cd"), Some(&b"cd"[..]));
    assert_eq!(p.index, 4);
    assert_eq!(p.take_seq(b"xy"), None);
    assert_eq!(p.index, 4);
    assert_eq!(p.take(2), Some(&b"ef"[..]));
    assert_eq!(p.take(1), None);
    assert_eq!(p.take(0), Some(&b""[..]));
}

#[test]
fn cursor_take_digit() {
    let mut p = ParserHelper::new(b"9x");
    assert_eq!(p.take_digit(), Some(9));
    assert_eq!(p.take_digit(), None);
    assert_eq!(p.index, 1);
}

#[test]
fn cursor_take_while_variants() {
    let mut p = ParserHelper::new(b"abc123");
    assert_eq!(p.take_while(|b| b.is_ascii_alphabetic()), Some(&b"abc"[..]));
    // empty match fails without advancing
    assert_eq!(p.take_while(|b| b.is_ascii_alphabetic()), None);
    assert_eq!(p.index, 3);
    // the optional variant never fails
    assert_eq!(p.take_optional_while(|b| b.is_ascii_alphabetic()), &b""[..]);
    assert_eq!(p.take_optional_while(|b| b.is_ascii_digit()), &b"123"[..]);
    assert_eq!(p.index, 6);
}

#[test]
fn cursor_take_map() {
    let mut p = ParserHelper::new(b"abcd");
    // the closure declines: nothing is consumed
    let r: Option<()> = p.take_map(2, |_| None);
    assert_eq!(r, None);
    assert_eq!(p.index, 0);
    // the closure accepts: exactly `count` bytes are consumed
    let r = p.take_map(2, |s| Some(s.to_vec()));
    assert_eq!(r, Some(b"ab".to_vec()));
    assert_eq!(p.index, 2);
    // not enough bytes left: the closure is never asked
    let r: Option<()> = p.take_map(3, |_| Some(()));
    assert_eq!(r, None);
    assert_eq!(p.index, 2);
}

#[test]
fn cursor_take_usize() {
    let mut p = ParserHelper::new(b"123abc");
    assert_eq!(p.take_usize(), Some(123));
    assert_eq!(p.index, 3);
    assert_eq!(p.take_usize(), None);
    assert_eq!(p.index, 3);

    let mut p = ParserHelper::new(b"0");
    assert_eq!(p.take_usize(), Some(0));

    // overflow of the target width fails
    let mut p = ParserHelper::new(b"99999999999999999999999999");
    assert_eq!(p.take_usize(), None);
}
