use regparse::data::RegistryData;
use regparse::error::ParseError;
use regparse::net::InetCidr;
use regparse::parse::{ParserConfig, ParserContext, RegistrySource, SourceFile};
use regparse::roa::{format_roa, format_roa6, resolve_max_length, RoaSrv};

fn file(name: &str, ls: &[&str]) -> SourceFile {
    SourceFile {
        name: name.to_string(),
        lines: ls.iter().map(|s| s.to_string()).collect(),
    }
}

fn route_source() -> RegistrySource {
    let mut source = RegistrySource::new();
    source.routes.push(file(
        "172.20.24.0_24",
        &["route:   172.20.24.0/24", "origin:  AS4242421191"],
    ));
    source.routes.push(file(
        "10.100.0.0_16",
        &[
            "route:       10.100.0.0/16",
            "origin:      AS64500",
            "max-length:  20",
        ],
    ));
    source.routes6.push(file(
        "fd00:1234::_44",
        &["route6:  fd00:1234::/44", "origin:  AS64500"],
    ));
    source
}

#[test]
fn parse_fills_enabled_categories() {
    let mut context = ParserContext::new(ParserConfig::routes());
    context.parse(&route_source()).unwrap();
    let data = &context.registry_data;
    assert_eq!(data.routes.len(), 2);
    assert_eq!(data.routes6.len(), 1);
    assert_eq!(data.aut_nums.len(), 0);
    assert_eq!(data.routes[0].origin, vec!["4242421191"]);
    assert_eq!(data.routes[1].max_length, Some(20));
}

#[test]
fn parse_output_lines() {
    let mut context = ParserContext::new(ParserConfig::routes());
    context.parse(&route_source()).unwrap();
    let out4 = format_roa(&context.registry_data);
    assert_eq!(
        out4,
        "route 172.20.24.0/24 max 29 as 4242421191;\nroute 10.100.0.0/16 max 20 as 64500;\n"
    );
    let out6 = format_roa6(&context.registry_data);
    assert_eq!(out6, "route fd00:1234::/44 max 64 as 64500;\n");
}

#[test]
fn parse_same_source_twice_is_byte_identical() {
    let source = route_source();
    let mut a = ParserContext::new(ParserConfig::routes());
    a.parse(&source).unwrap();
    let out4_a = format_roa(&a.registry_data);
    let out6_a = format_roa6(&a.registry_data);

    let mut b = ParserContext::new(ParserConfig::routes());
    b.parse(&source).unwrap();
    assert_eq!(a.registry_data.routes.len(), b.registry_data.routes.len());
    for (x, y) in a.registry_data.routes.iter().zip(b.registry_data.routes.iter()) {
        assert_eq!(x.origin, y.origin);
        assert_eq!(x.max_length, y.max_length);
        assert_eq!(x.route.to_string(), y.route.to_string());
        assert_eq!(x.source, y.source);
    }
    assert_eq!(format_roa(&b.registry_data), out4_a);
    assert_eq!(format_roa6(&b.registry_data), out6_a);

    // A second run on the same context rebuilds the same store.
    a.parse(&source).unwrap();
    assert_eq!(a.registry_data.routes.len(), 2);
    assert_eq!(format_roa(&a.registry_data), out4_a);
}

#[test]
fn one_bad_file_aborts_the_run() {
    let mut source = route_source();
    source.routes.push(file("172.20.25.0_24", &["route:   172.20.99.0/24"]));
    let mut context = ParserContext::new(ParserConfig::routes());
    match context.parse(&source) {
        Err(ParseError::IdentityMismatch { expected, found }) => {
            assert_eq!(expected, "172.20.25.0/24");
            assert_eq!(found, "172.20.99.0/24");
        }
        other => panic!("expected an identity mismatch, got {:?}", other.is_ok()),
    }
    // No partial store is left behind.
    assert_eq!(context.registry_data.routes.len(), 0);
    assert_eq!(context.registry_data.routes6.len(), 0);
}

#[test]
fn bad_filename_aborts_the_run() {
    let mut source = RegistrySource::new();
    source.routes.push(file("not-a-cidr", &["route:  1.2.3.0/24"]));
    let mut context = ParserContext::new(ParserConfig::routes());
    assert!(matches!(
        context.parse(&source),
        Err(ParseError::BadFilename { .. })
    ));
}

#[test]
fn disabled_categories_are_ignored() {
    let mut source = RegistrySource::new();
    // A file that would fail to parse, in a category that is not enabled.
    source.aut_nums.push(file("not-an-as", &["nonsense"]));
    source.routes.push(file(
        "172.23.0.0_27",
        &["route:   172.23.0.0/27", "origin:  AS64500"],
    ));
    let mut context = ParserContext::new(ParserConfig::routes());
    context.parse(&source).unwrap();
    assert_eq!(context.registry_data.routes.len(), 1);
    assert_eq!(context.registry_data.aut_nums.len(), 0);
}

#[test]
fn anycast_origin_forces_v4_bounds() {
    let mut data = RegistryData::new();
    // 1.2.3.0 is in no registered range, but the anycast origin `0` bypasses
    // the table with bounds (28, 32).
    let mut route = regparse::data::RegistryRoute::new(InetCidr::from("1.2.3.0", 30).unwrap());
    route.origin.push("0".into());
    data.routes.push(route);
    assert_eq!(format_roa(&data), "route 1.2.3.0/30 max 32 as 0;\n");

    // Too coarse even for the anycast bounds.
    let mut data = RegistryData::new();
    let mut route = regparse::data::RegistryRoute::new(InetCidr::from("1.2.3.0", 24).unwrap());
    route.origin.push("0".into());
    data.routes.push(route);
    assert_eq!(format_roa(&data), "");
}

#[test]
fn unregistered_range_yields_no_output() {
    let mut data = RegistryData::new();
    let mut route = regparse::data::RegistryRoute::new(InetCidr::from("127.0.0.1", 24).unwrap());
    route.origin.push("AS123".into());
    data.routes.push(route);
    assert_eq!(format_roa(&data), "");
}

#[test]
fn resolved_max_respects_route_length_and_ceiling() {
    // Policy (21, 29), route length 24, no explicit maximum.
    assert_eq!(resolve_max_length(21, 29, 32, 24, None), Some(29));
    // Explicit maximum narrower than the route itself is rejected.
    assert_eq!(resolve_max_length(44, 64, 128, 44, Some(43)), None);
    // Resolved maximum above the policy maximum is rejected.
    assert_eq!(resolve_max_length(21, 29, 32, 24, Some(30)), None);
    // The sentinel bounds reject outright.
    assert_eq!(resolve_max_length(0, 32, 32, 24, None), None);
    assert_eq!(resolve_max_length(0, 128, 128, 44, Some(48)), None);
    // A route coarser than the policy minimum is rejected.
    assert_eq!(resolve_max_length(21, 29, 32, 20, None), None);
}

#[test]
fn roa_summary_entries() {
    let mut srv = RoaSrv {
        roa_data: Vec::new(),
        parser_context: ParserContext::new(ParserConfig::routes()),
    };
    srv.update_roa_data(&route_source()).unwrap();
    assert_eq!(srv.roa_data.len(), 3);
    assert_eq!(srv.roa_data[0].prefix, "172.20.24.0/24");
    assert_eq!(srv.roa_data[0].max_length, 29);
    assert_eq!(srv.roa_data[0].asn, "AS4242421191");
    assert_eq!(srv.roa_data[1].prefix, "10.100.0.0/16");
    assert_eq!(srv.roa_data[1].max_length, 29);
    assert_eq!(srv.roa_data[2].prefix, "fd00:1234::/44");
    assert_eq!(srv.roa_data[2].max_length, 64);
    assert_eq!(srv.roa_data[2].asn, "AS64500");
}
