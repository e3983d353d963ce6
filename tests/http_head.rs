use sozu_core::http_head::{add_forwarded_for, head_end, host_header, known_method, request_line_spaces};
use sozu_core::router::Method;

const REQUEST: &[u8] = b"GET / HTTP/1.1\r\nHost: example.com\r\n\r\n";

#[test]
fn forwarded_for_is_appended_to_the_head() {
    let n = head_end(REQUEST).unwrap();
    assert_eq!(n, REQUEST.len());
    let out = add_forwarded_for(&REQUEST[..n], b"127.0.0.1");
    assert_eq!(out, b"GET / HTTP/1.1\r\nHost: example.com\r\nX-Forwarded-For: 127.0.0.1\r\n\r\n".to_vec());
}

#[test]
fn incomplete_head_has_no_end() {
    assert_eq!(head_end(b"GET / HTTP/1.1\r\nHost: a\r\n"), None);
    assert_eq!(head_end(b""), None);
    assert_eq!(head_end(b"\r\n\r\nbody"), Some(4));
}

#[test]
fn request_line_and_host() {
    let (a, b) = request_line_spaces(REQUEST).unwrap();
    assert_eq!(&REQUEST[..a], b"GET");
    assert_eq!(&REQUEST[a + 1..b], b"/");
    let (s, e) = host_header(REQUEST).unwrap();
    assert_eq!(&REQUEST[s..e], b"example.com");
    let lower = b"POST /x HTTP/1.1\r\nhOsT:   api.example.com:8080\r\n\r\n";
    let (s, e) = host_header(lower).unwrap();
    assert_eq!(&lower[s..e], b"api.example.com:8080");
    assert_eq!(host_header(b"GET / HTTP/1.1\r\nX-Host: a\r\n\r\n"), None);
    assert_eq!(request_line_spaces(b"GET/"), None);
}

#[test]
fn standard_methods() {
    assert!(matches!(known_method(b"GET"), Some(Method::Get)));
    assert!(matches!(known_method(b"CONNECT"), Some(Method::Connect)));
    assert!(matches!(known_method(b"DELETE"), Some(Method::Delete)));
    assert!(known_method(b"PURGE").is_none());
    assert!(known_method(b"get").is_none());
}
