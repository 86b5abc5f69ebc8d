use unison::addr::{parse_ipv6_address, DEFAULT_PORT};

#[test]
fn test_bracketed_loopback() {
    let a = parse_ipv6_address("[::1]:8080").unwrap();
    assert_eq!(a.segments, vec![0, 0, 0, 0, 0, 0, 0, 1]);
    assert_eq!(a.port, 8080);
}

#[test]
fn test_bracketed_full_address() {
    let a = parse_ipv6_address("[2001:db8:0:0:0:0:2:1]:443").unwrap();
    assert_eq!(a.segments, vec![0x2001, 0x0db8, 0, 0, 0, 0, 2, 1]);
    assert_eq!(a.port, 443);
}

#[test]
fn test_bracketed_compressed_address() {
    let a = parse_ipv6_address("[2001:db8::2:1]:443").unwrap();
    assert_eq!(a.segments, vec![0x2001, 0x0db8, 0, 0, 0, 0, 2, 1]);
    assert_eq!(a.port, 443);

    let b = parse_ipv6_address("[fe80::]:1").unwrap();
    assert_eq!(b.segments, vec![0xfe80, 0, 0, 0, 0, 0, 0, 0]);
    assert_eq!(b.port, 1);

    let c = parse_ipv6_address("[::]:0").unwrap();
    assert_eq!(c.segments, vec![0, 0, 0, 0, 0, 0, 0, 0]);
    assert_eq!(c.port, 0);
}

#[test]
fn test_bracketed_empty_port_takes_default() {
    let a = parse_ipv6_address("[::1]:").unwrap();
    assert_eq!(a.segments, vec![0, 0, 0, 0, 0, 0, 0, 1]);
    assert_eq!(a.port, DEFAULT_PORT);
}

#[test]
fn test_bare_address_takes_default_port() {
    let a = parse_ipv6_address("::1").unwrap();
    assert_eq!(a.segments, vec![0, 0, 0, 0, 0, 0, 0, 1]);
    assert_eq!(a.port, DEFAULT_PORT);

    let b = parse_ipv6_address("1:2:3:4:5:6:7:8").unwrap();
    assert_eq!(b.segments, vec![1, 2, 3, 4, 5, 6, 7, 8]);
    assert_eq!(b.port, DEFAULT_PORT);
}

#[test]
fn test_bare_port_resolves_to_loopback() {
    let a = parse_ipv6_address("8080").unwrap();
    assert_eq!(a.segments, vec![0, 0, 0, 0, 0, 0, 0, 1]);
    assert_eq!(a.port, 8080);

    let b = parse_ipv6_address("0").unwrap();
    assert_eq!(b.port, 0);

    let c = parse_ipv6_address("65535").unwrap();
    assert_eq!(c.port, 65535);
}

#[test]
fn test_localhost_resolves_to_loopback() {
    let a = parse_ipv6_address("localhost:9000").unwrap();
    assert_eq!(a.segments, vec![0, 0, 0, 0, 0, 0, 0, 1]);
    assert_eq!(a.port, 9000);
}

#[test]
fn test_rejected_addresses() {
    assert!(parse_ipv6_address("").is_err());
    // Bracketed form with no port separator.
    assert!(parse_ipv6_address("[::1]").is_err());
    // Port out of range, bare and bracketed.
    assert!(parse_ipv6_address("65536").is_err());
    assert!(parse_ipv6_address("[::1]:99999").is_err());
    // Dotted (IPv4) forms are not addresses here.
    assert!(parse_ipv6_address("1.2.3.4:80").is_err());
    // Too few groups without a gap marker.
    assert!(parse_ipv6_address("[1:2:3]:80").is_err());
    // Two gap markers.
    assert!(parse_ipv6_address("[1::2::3]:80").is_err());
    // A lone colon names nothing.
    assert!(parse_ipv6_address(":").is_err());
    // Group too long.
    assert!(parse_ipv6_address("[12345::]:80").is_err());
    // Too many groups around the gap.
    assert!(parse_ipv6_address("[1:2:3:4:5:6:7::8]:80").is_err());
    assert!(parse_ipv6_address("localhost:huh").is_err());
    assert!(parse_ipv6_address("hello").is_err());
}

#[test]
fn test_hex_case_insensitive_groups() {
    let a = parse_ipv6_address("[ABCD:ef01::]:2").unwrap();
    assert_eq!(a.segments[0], 0xabcd);
    assert_eq!(a.segments[1], 0xef01);
}
