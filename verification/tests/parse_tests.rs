use agreed_time_backend::parse::{Ipv4Address, parse_ipv4, parse_u16, split_on, split_trimmed,
    trim_bytes};

#[test]
fn test_parse_ipv4_valid() {
    assert_eq!(
        parse_ipv4(b"203.0.113.195"),
        Some(Ipv4Address { a: 203, b: 0, c: 113, d: 195 })
    );
    assert_eq!(parse_ipv4(b"0.0.0.0"), Some(Ipv4Address { a: 0, b: 0, c: 0, d: 0 }));
    assert_eq!(
        parse_ipv4(b"255.255.255.255"),
        Some(Ipv4Address { a: 255, b: 255, c: 255, d: 255 })
    );
}

#[test]
fn test_parse_ipv4_invalid() {
    assert_eq!(parse_ipv4(b""), None);
    assert_eq!(parse_ipv4(b"1.2.3"), None);
    assert_eq!(parse_ipv4(b"1.2.3.4.5"), None);
    assert_eq!(parse_ipv4(b"256.0.0.1"), None);
    assert_eq!(parse_ipv4(b"01.2.3.4"), None);
    assert_eq!(parse_ipv4(b"1.2..4"), None);
    assert_eq!(parse_ipv4(b"1.2.3.x"), None);
    assert_eq!(parse_ipv4(b" 1.2.3.4"), None);
    assert_eq!(parse_ipv4(b"1234.2.3.4"), None);
}

#[test]
fn test_parse_u16_values() {
    assert_eq!(parse_u16(b"0"), Some(0));
    assert_eq!(parse_u16(b"3000"), Some(3000));
    assert_eq!(parse_u16(b"65535"), Some(65535));
    assert_eq!(parse_u16(b"0042"), Some(42));
    assert_eq!(parse_u16(b"65536"), None);
    assert_eq!(parse_u16(b""), None);
    assert_eq!(parse_u16(b"12a"), None);
    assert_eq!(parse_u16(b"-1"), None);
}

#[test]
fn test_trim_bytes_strips_blanks() {
    assert_eq!(trim_bytes(b"  hello \t"), b"hello".to_vec());
    assert_eq!(trim_bytes(b"\t \t"), Vec::<u8>::new());
    assert_eq!(trim_bytes(b"x"), b"x".to_vec());
    assert_eq!(trim_bytes(b""), Vec::<u8>::new());
}

#[test]
fn test_split_on_commas() {
    let parts = split_on(b"a,b,,c", 44);
    assert_eq!(parts, vec![b"a".to_vec(), b"b".to_vec(), Vec::new(), b"c".to_vec()]);
    let parts = split_on(b"single", 44);
    assert_eq!(parts, vec![b"single".to_vec()]);
}

#[test]
fn test_split_trimmed_origins() {
    let parts = split_trimmed(b"http://localhost:4321, https://example.test ,x", 44);
    assert_eq!(
        parts,
        vec![
            b"http://localhost:4321".to_vec(),
            b"https://example.test".to_vec(),
            b"x".to_vec(),
        ]
    );
}
