use regparse::data::{RegistryData, RegistryRoute, RegistryRoute6};
use regparse::net::{Inet6Cidr, InetCidr};
use regparse::roa::{
    format_roa, format_roa6, ipv4_min_max_default_prefix_len, ipv6_min_max_default_prefix_len,
};

#[test]
fn test_format_roa4_empty() {
    let data = RegistryData::new();
    let contents = format_roa(&data);
    assert_eq!(contents, "");
}

#[test]
fn test_format_roa4_24_29() {
    let mut data = RegistryData::new();
    let mut route = RegistryRoute::new(InetCidr::from("172.20.24.0", 24).unwrap());
    route.origin.push("AS123".into());
    data.routes.push(route);
    let contents = format_roa(&data);
    assert_eq!(contents, "route 172.20.24.0/24 max 29 as AS123;\n");
}

#[test]
fn test_format_roa4_23_no_min_prefix_len() {
    let mut data = RegistryData::new();
    let mut route = RegistryRoute::new(InetCidr::from("172.20.24.0", 23).unwrap());
    route.origin.push("AS123".into());
    data.routes.push(route);
    let contents = format_roa(&data);
    assert_eq!(contents, "route 172.20.24.0/23 max 29 as AS123;\n");
}

#[test]
fn test_format_roa4_23_24() {
    let mut data = RegistryData::new();
    let mut route = RegistryRoute::new(InetCidr::from("172.20.24.0", 23).unwrap());
    route.max_length = Some(24);
    route.origin.push("AS123".into());
    data.routes.push(route);
    let contents = format_roa(&data);
    assert_eq!(contents, "route 172.20.24.0/23 max 24 as AS123;\n");
}

#[test]
fn test_format_roa4_24_21() {
    let mut data = RegistryData::new();
    let mut route = RegistryRoute::new(InetCidr::from("127.0.0.1", 24).unwrap());
    route.max_length = Some(21);
    route.origin.push("AS123".into());
    data.routes.push(route);
    let contents = format_roa(&data);
    assert!(
        contents.is_empty(),
        "Expected no result but got: {:?}",
        contents
    );
}

#[test]
fn test_format_roa4_25_28() {
    let mut data = RegistryData::new();
    let mut route = RegistryRoute::new(InetCidr::from("172.23.245.128", 25).unwrap());
    route.max_length = Some(28);
    route.origin.push("AS123".into());
    data.routes.push(route);
    let contents = format_roa(&data);
    assert_eq!(contents, "route 172.23.245.128/25 max 28 as AS123;\n");
}

#[test]
fn test_format_roa6_64_64() {
    let mut data = RegistryData::new();
    let mut route = RegistryRoute6::new(Inet6Cidr::new("fd00:1234::", 64).unwrap());
    route.origin.push("AS123".into());
    data.routes6.push(route);
    let contents = format_roa6(&data);
    assert_eq!(contents, "route fd00:1234::/64 max 64 as AS123;\n");
}

#[test]
fn test_format_roa6_44_48() {
    let mut data = RegistryData::new();
    let mut route = RegistryRoute6::new(Inet6Cidr::new("fd00:1234::", 44).unwrap());
    route.max_length = Some(48);
    route.origin.push("AS123".into());
    data.routes6.push(route);
    let contents = format_roa6(&data);
    assert_eq!(contents, "route fd00:1234::/44 max 48 as AS123;\n");
}

#[test]
fn test_format_roa6_44_64() {
    let mut data = RegistryData::new();
    let mut route = RegistryRoute6::new(Inet6Cidr::new("fd00:1234::", 44).unwrap());
    route.origin.push("AS123".into());
    data.routes6.push(route);
    let contents = format_roa6(&data);
    assert_eq!(contents, "route fd00:1234::/44 max 64 as AS123;\n");
}

#[test]
fn test_format_roa6_44_63() {
    let mut data = RegistryData::new();
    let mut route = RegistryRoute6::new(Inet6Cidr::new("fd00:1234::", 44).unwrap());
    route.max_length = Some(63);
    route.origin.push("AS123".into());
    data.routes6.push(route);
    let contents = format_roa6(&data);
    assert_eq!(contents, "route fd00:1234::/44 max 63 as AS123;\n");
}

#[test]
fn test_format_roa6_44_43() {
    let mut data = RegistryData::new();
    let mut route = RegistryRoute6::new(Inet6Cidr::new("fd00:1234::", 44).unwrap());
    route.max_length = Some(43);
    route.origin.push("AS123".into());
    data.routes6.push(route);
    let contents = format_roa6(&data);
    assert!(contents.is_empty());
}

#[test]
fn test_format_roa6_multiple_origins() {
    let mut data = RegistryData::new();
    let mut route = RegistryRoute6::new(Inet6Cidr::new("fd00:1234::", 44).unwrap());
    route.max_length = Some(48);
    route.origin.push("AS123".into());
    route.origin.push("AS124".into());
    data.routes6.push(route);
    let contents = format_roa6(&data);
    assert_eq!(
        contents,
        "route fd00:1234::/44 max 48 as AS123;\nroute fd00:1234::/44 max 48 as AS124;\n"
    );
}

#[test]
fn test_ipv4_min_max_default_prefix_len() {
    assert_eq!(
        ipv4_min_max_default_prefix_len(&InetCidr::new((1, 2, 3, 4), 1)),
        (0, 32)
    );

    assert_eq!(
        ipv4_min_max_default_prefix_len(&InetCidr::new((172, 20, 0, 1), 1)),
        (24, 32)
    );
    assert_eq!(
        ipv4_min_max_default_prefix_len(&InetCidr::new((172, 21, 0, 1), 1)),
        (28, 32)
    );
    assert_eq!(
        ipv4_min_max_default_prefix_len(&InetCidr::new((172, 22, 0, 1), 1)),
        (28, 32)
    );
    assert_eq!(
        ipv4_min_max_default_prefix_len(&InetCidr::new((172, 23, 0, 1), 1)),
        (28, 32)
    );

    assert_eq!(
        ipv4_min_max_default_prefix_len(&InetCidr::new((172, 24, 0, 1), 1)),
        (0, 32)
    );

    assert_eq!(
        ipv4_min_max_default_prefix_len(&InetCidr::new((10, 100, 0, 1), 1)),
        (14, 32)
    );

    assert_eq!(
        ipv4_min_max_default_prefix_len(&InetCidr::new((10, 127, 0, 1), 1)),
        (16, 32)
    );

    assert_eq!(
        ipv4_min_max_default_prefix_len(&InetCidr::new((10, 0, 0, 1), 1)),
        (15, 24)
    );

    assert_eq!(
        ipv4_min_max_default_prefix_len(&InetCidr::new((172, 31, 0, 0), 1)),
        (16, 32)
    );
}

#[test]
fn test_ipv6_min_max_prefix_len() {
    assert_eq!(
        ipv6_min_max_default_prefix_len(&Inet6Cidr::new("ff::", 8).unwrap()),
        (0, 128)
    );
    assert_eq!(
        ipv6_min_max_default_prefix_len(&Inet6Cidr::new("fd00::", 8).unwrap()),
        (44, 64)
    );
    assert_eq!(
        ipv6_min_max_default_prefix_len(&Inet6Cidr::new("fd00:1234::", 8).unwrap()),
        (44, 64)
    );
}
