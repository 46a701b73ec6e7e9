use regparse::data::{
    combine, combine_option, RegistryAsSet, RegistryAutNum, RegistryDns, RegistryInetNum,
    RegistryRoute, RegistryRoute6,
};
use regparse::error::ParseError;
use regparse::net::{Inet6Cidr, InetCidr, InetNum};

fn lines(ls: &[&str]) -> Vec<String> {
    ls.iter().map(|s| s.to_string()).collect()
}

#[test]
fn combine_joins_with_line_breaks() {
    assert_eq!(combine(&String::new(), "a".into()), "a");
    assert_eq!(combine(&"a".to_string(), "b".into()), "a\nb");
    let first = combine_option(&None, "x".into());
    assert_eq!(first, Some("x".to_string()));
    assert_eq!(combine_option(&first, "y".into()), Some("x\ny".to_string()));
}

#[test]
fn aut_num_record_fields() {
    let ls = lines(&[
        "aut-num:            AS4242421191",
        "as-name:            EXAMPLE-AS",
        "descr:              first line",
        "descr:              second line",
        "% a comment, ignored",
        "",
        "mnt-by:             FOO-MNT",
        "mnt-by:             BAR-MNT",
        "remarks:            multi word remark",
        "                    continued remark",
        "x-extra:            dropped quietly",
        "source:             TEST",
    ]);
    let rec = RegistryAutNum::from(&ls, 4242421191).unwrap();
    assert_eq!(rec.aut_num, 4242421191);
    assert_eq!(rec.as_name, "EXAMPLE-AS");
    assert_eq!(rec.descr, Some("first line\nsecond line".to_string()));
    assert_eq!(rec.mnt_by, vec!["FOO-MNT", "BAR-MNT"]);
    assert_eq!(
        rec.remarks,
        vec!["multi word remark", "continued remark"]
    );
    assert_eq!(rec.source, "TEST");
    assert!(rec.import.is_empty());
}

#[test]
fn aut_num_identity_mismatch() {
    let ls = lines(&["aut-num:  AS64500"]);
    match RegistryAutNum::from(&ls, 64501) {
        Err(ParseError::IdentityMismatch { expected, found }) => {
            assert_eq!(expected, "AS64501");
            assert_eq!(found, "AS64500");
        }
        other => panic!("expected an identity mismatch, got {:?}", other.is_ok()),
    }
}

#[test]
fn unknown_key_is_fatal() {
    let ls = lines(&["as-name:  X", "bogus-key:  value"]);
    match RegistryAutNum::from(&ls, 1) {
        Err(ParseError::UnknownKey { ident, key, value }) => {
            assert_eq!(ident, "AS1");
            assert_eq!(key, "bogus-key");
            assert_eq!(value, "value");
        }
        other => panic!("expected an unknown key error, got {:?}", other.is_ok()),
    }
}

#[test]
fn grammar_error_names_the_line() {
    // No whitespace after the colon: matches neither line shape.
    let ls = lines(&["as-name:broken"]);
    match RegistryAutNum::from(&ls, 1) {
        Err(ParseError::Grammar { line }) => assert_eq!(line, "as-name:broken"),
        other => panic!("expected a grammar error, got {:?}", other.is_ok()),
    }
    // A continuation line before any keyed line.
    let ls = lines(&["    orphan continuation"]);
    assert!(matches!(
        RegistryAutNum::from(&ls, 1),
        Err(ParseError::Grammar { .. })
    ));
}

#[test]
fn as_set_record_fields() {
    let ls = lines(&[
        "as-set:   AS4242421191:AS-EXAMPLE",
        "members:  AS4242421191",
        "members:  AS4242421192",
    ]);
    let rec = RegistryAsSet::from(&ls, "AS4242421191:AS-EXAMPLE").unwrap();
    assert_eq!(rec.as_set, "AS4242421191:AS-EXAMPLE");
    assert_eq!(rec.members, vec!["AS4242421191", "AS4242421192"]);
}

#[test]
fn dns_record_fields() {
    let ls = lines(&[
        "domain:   example.dn42",
        "nserver:  ns1.example.dn42",
        "status:   CONNECT 20190114",
    ]);
    let rec = RegistryDns::from(&ls, "example.dn42").unwrap();
    assert_eq!(rec.domain, "example.dn42");
    assert_eq!(rec.nserver, vec!["ns1.example.dn42"]);
    assert_eq!(rec.status, "CONNECT 20190114");
}

#[test]
fn inetnum_record_uses_common_attributes() {
    let cidr = InetCidr::from_filename("172.20.0.0_14").unwrap();
    let ls = lines(&[
        "cidr:      172.20.0.0/14",
        "inetnum:   172.20.0.0 - 172.23.255.255",
        "netname:   EXAMPLE-NET",
        "descr:     a block",
        "mnt-by:    FOO-MNT",
    ]);
    let rec = RegistryInetNum::from(&ls, cidr).unwrap();
    assert_eq!(rec.inetnum, "172.20.0.0 - 172.23.255.255");
    assert_eq!(rec.common.netname, "EXAMPLE-NET");
    assert_eq!(rec.common.descr, Some("a block".to_string()));
    assert_eq!(rec.common.mnt_by, vec!["FOO-MNT"]);

    let bad = lines(&["cidr:   172.20.0.0/15"]);
    assert!(matches!(
        RegistryInetNum::from(&bad, cidr),
        Err(ParseError::IdentityMismatch { .. })
    ));
}

#[test]
fn route_record_strips_origin_prefix() {
    let cidr = InetCidr::from_filename("172.20.24.0_24").unwrap();
    let ls = lines(&[
        "route:       172.20.24.0/24",
        "origin:      AS4242421191",
        "max-length:  28",
        "pingable:    172.20.24.1",
    ]);
    let rec = RegistryRoute::from(&ls, cidr).unwrap();
    assert_eq!(rec.origin, vec!["4242421191"]);
    assert_eq!(rec.max_length, Some(28));
    assert!(matches!(rec.pingable[0], InetNum(172, 20, 24, 1)));
}

#[test]
fn route_record_numeric_failures() {
    let cidr = InetCidr::from_filename("172.20.24.0_24").unwrap();
    let bad_max = lines(&["max-length:  abc"]);
    assert!(matches!(
        RegistryRoute::from(&bad_max, cidr),
        Err(ParseError::BadNumber { .. })
    ));
    let bad_origin = lines(&["origin:  4242421191"]);
    assert!(matches!(
        RegistryRoute::from(&bad_origin, cidr),
        Err(ParseError::BadNumber { .. })
    ));
    let overflowing_origin = lines(&["origin:  AS4294967296"]);
    assert!(matches!(
        RegistryRoute::from(&overflowing_origin, cidr),
        Err(ParseError::BadNumber { .. })
    ));
}

#[test]
fn route6_record_fields() {
    let cidr = Inet6Cidr::from_filename("fd00:1234::_44").unwrap();
    let ls = lines(&[
        "route6:      fd00:1234::/44",
        "origin:      AS64500",
        "max-length:  48",
    ]);
    let rec = RegistryRoute6::from(&ls, cidr).unwrap();
    assert_eq!(rec.origin, vec!["64500"]);
    assert_eq!(rec.max_length, Some(48));
    assert_eq!(rec.route6.to_string(), "fd00:1234::/44");
}
