use wsta::headers::{origin_for, split_header};
use wsta::options::Options;

#[test]
fn default_options() {
    let o = Options::new();
    assert_eq!(o.verbosity, 0);
    assert_eq!(o.url, "");
    assert_eq!(o.login_url, "");
    assert!(!o.follow_redirect);
    assert!(!o.echo);
    assert!(!o.print_headers);
    assert!(o.headers.is_empty());
    assert!(o.messages.is_empty());
    assert_eq!(o.ping_interval, None);
    assert_eq!(o.ping_msg, "ping");
    assert!(!o.binary_mode);
    assert_eq!(o.binary_frame_size, "256");
    assert_eq!(o.cipher_list, "");
    assert!(!o.rsa_only);
}

#[test]
fn origin_maps_ws_schemes_to_http_schemes() {
    let r = origin_for(&b"wss".to_vec(), &b"example.com".to_vec());
    assert_eq!(r, b"https://example.com".to_vec());
    let r = origin_for(&b"ws".to_vec(), &b"example.com".to_vec());
    assert_eq!(r, b"http://example.com".to_vec());
}

#[test]
fn header_lines_split_at_the_first_colon() {
    let (key, val) = split_header(&b"Cookie: a=b; c:d".to_vec()).expect("has a colon");
    assert_eq!(key, b"Cookie".to_vec());
    assert_eq!(val, b" a=b; c:d".to_vec());
}

#[test]
fn header_lines_without_a_colon_are_invalid() {
    assert!(split_header(&b"not a header".to_vec()).is_none());
    assert!(split_header(&Vec::new()).is_none());
}
