use relay_server::{may_overwrite, parse_peer_addr, PeerAddr};

fn addr(a: u8, b: u8, c: u8, d: u8, port: u16) -> PeerAddr {
    PeerAddr::new(a, b, c, d, port)
}

#[test]
fn parses_plain_address() {
    assert_eq!(parse_peer_addr("1.2.3.4:1000"), Some(addr(1, 2, 3, 4, 1000)));
    assert_eq!(parse_peer_addr("255.255.255.255:65535"), Some(addr(255, 255, 255, 255, 65535)));
    assert_eq!(parse_peer_addr("0.0.0.0:0"), Some(addr(0, 0, 0, 0, 0)));
}

#[test]
fn port_may_have_leading_zeros() {
    assert_eq!(parse_peer_addr("10.0.0.1:0080"), Some(addr(10, 0, 0, 1, 80)));
}

#[test]
fn rejects_octet_with_leading_zero() {
    assert_eq!(parse_peer_addr("01.2.3.4:1000"), None);
    assert_eq!(parse_peer_addr("1.2.03.4:1000"), None);
}

#[test]
fn rejects_out_of_range_fields() {
    assert_eq!(parse_peer_addr("256.2.3.4:1000"), None);
    assert_eq!(parse_peer_addr("1.2.3.1000:1000"), None);
    assert_eq!(parse_peer_addr("1.2.3.4:65536"), None);
    assert_eq!(parse_peer_addr("1.2.3.4:99999999999999999999"), None);
}

#[test]
fn rejects_malformed_text() {
    assert_eq!(parse_peer_addr(""), None);
    assert_eq!(parse_peer_addr("1.2.3.4"), None);
    assert_eq!(parse_peer_addr("1.2.3:1000"), None);
    assert_eq!(parse_peer_addr("1.2.3.4:"), None);
    assert_eq!(parse_peer_addr("1.2.3.4:1000 "), None);
    assert_eq!(parse_peer_addr("1..3.4:1000"), None);
    assert_eq!(parse_peer_addr("a.b.c.d:1000"), None);
    assert_eq!(parse_peer_addr("1.2.3.4.5:1000"), None);
    assert_eq!(parse_peer_addr("[::1]:1000"), None);
}

#[test]
fn placeholder_is_recognised() {
    assert!(addr(127, 0, 0, 9, 9).is_placeholder());
    assert!(!addr(127, 0, 0, 9, 10).is_placeholder());
    assert!(!addr(127, 0, 0, 1, 9).is_placeholder());
}

#[test]
fn placeholder_may_not_replace_real_address() {
    let real = addr(1, 2, 3, 4, 1000);
    let placeholder = addr(127, 0, 0, 9, 9);
    assert!(!may_overwrite(&real, &placeholder));
    assert!(may_overwrite(&placeholder, &placeholder));
    assert!(may_overwrite(&placeholder, &real));
    assert!(may_overwrite(&real, &addr(5, 6, 7, 8, 2000)));
}
