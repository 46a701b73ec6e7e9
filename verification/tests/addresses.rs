use regparse::error::ParseError;
use regparse::net::{Inet6Cidr, Inet6Num, InetCidr, InetNum};
use regparse::text::{parse_dec_u32, parse_dec_u8};

#[test]
fn decimal_parsing_exact_values() {
    assert_eq!(parse_dec_u32("0"), Some(0));
    assert_eq!(parse_dec_u32("4242421191"), Some(4242421191));
    assert_eq!(parse_dec_u32("4294967295"), Some(4294967295));
    assert_eq!(parse_dec_u32("4294967296"), None);
    assert_eq!(parse_dec_u32(""), None);
    assert_eq!(parse_dec_u32("12a"), None);
    assert_eq!(parse_dec_u32("+12"), None);
    assert_eq!(parse_dec_u8("255"), Some(255));
    assert_eq!(parse_dec_u8("256"), None);
    assert_eq!(parse_dec_u8("007"), Some(7));
}

#[test]
fn dotted_quad_parsing() {
    let n = InetNum::from("172.20.24.0").unwrap();
    assert!(matches!(n, InetNum(172, 20, 24, 0)));
    assert!(InetNum::from("172.20.24").is_err());
    assert!(InetNum::from("172.20.24.0.1").is_err());
    assert!(InetNum::from("172.20.24.256").is_err());
    assert!(InetNum::from("172.20.24.0 ").is_err());
    assert!(InetNum::from("0172.20.24.0").is_err());
    assert!(InetNum::from("").is_err());
}

#[test]
fn v4_cidr_text_round_trip() {
    let c = InetCidr::from_filename("172.20.24.0_24").unwrap();
    assert_eq!(c.len(), 24);
    assert_eq!(c.to_string(), "172.20.24.0/24");
}

#[test]
fn v4_filename_rejects_out_of_range_length() {
    assert!(InetCidr::from_filename("10.0.0.0_32").is_ok());
    assert!(matches!(
        InetCidr::from_filename("10.0.0.0_33"),
        Err(ParseError::BadFilename { .. })
    ));
    assert!(InetCidr::from_filename("10.0.0.0").is_err());
    assert!(InetCidr::from_filename("10.0.0.0_").is_err());
    assert!(InetCidr::from_filename("_24").is_err());
}

#[test]
fn v6_literal_parsing() {
    // Plain eight-group form.
    let full = Inet6Num::from("1:2:3:4:5:6:7:8").unwrap();
    assert_eq!(full.groups, vec![1, 2, 3, 4, 5, 6, 7, 8]);
    // Compressed forms.
    let a = Inet6Num::from("fd00:1234::").unwrap();
    assert_eq!(a.groups, vec![0xfd00, 0x1234, 0, 0, 0, 0, 0, 0]);
    let b = Inet6Num::from("::1").unwrap();
    assert_eq!(b.groups, vec![0, 0, 0, 0, 0, 0, 0, 1]);
    let c = Inet6Num::from("::").unwrap();
    assert_eq!(c.groups, vec![0, 0, 0, 0, 0, 0, 0, 0]);
    let d = Inet6Num::from("fd42:c01d:beef::2:1").unwrap();
    assert_eq!(d.groups, vec![0xfd42, 0xc01d, 0xbeef, 0, 0, 0, 2, 1]);
    // The literal is kept as written.
    assert_eq!(a.text, "fd00:1234::");
}

#[test]
fn v6_literal_rejections() {
    assert!(Inet6Num::from("").is_err());
    assert!(Inet6Num::from(":::").is_err());
    assert!(Inet6Num::from("1:2:3:4:5:6:7").is_err());
    assert!(Inet6Num::from("1:2:3:4:5:6:7:8:9").is_err());
    assert!(Inet6Num::from("1:2:3:4:5:6:7:8::").is_err());
    assert!(Inet6Num::from("12345::").is_err());
    assert!(Inet6Num::from("fd0g::").is_err());
    assert!(Inet6Num::from("FD00::").is_err());
    assert!(Inet6Num::from(":1:2:3:4:5:6:7").is_err());
    assert!(Inet6Num::from("1:2:3:4:5:6:7:").is_err());
    assert!(Inet6Num::from("a::b::c").is_err());
}

#[test]
fn v6_cidr_text_round_trip() {
    let c = Inet6Cidr::from_filename("fd00:1234::_44").unwrap();
    assert_eq!(c.len(), 44);
    assert_eq!(c.to_string(), "fd00:1234::/44");
}

#[test]
fn v6_filename_rejects_out_of_range_length() {
    assert!(Inet6Cidr::from_filename("fd00::_128").is_ok());
    assert!(matches!(
        Inet6Cidr::from_filename("fd00::_129"),
        Err(ParseError::BadFilename { .. })
    ));
    assert!(Inet6Cidr::from_filename("fd00::").is_err());
}
