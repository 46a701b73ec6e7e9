use regparse::data::{RegistryAsBlock, RegistryInet6Num, RegistryRouteSet};
use regparse::net::Inet6Cidr;
use regparse::parse::{ParserConfig, ParserContext, RegistrySource, SourceFile};

fn file(name: &str, ls: &[&str]) -> SourceFile {
    SourceFile {
        name: name.to_string(),
        lines: ls.iter().map(|s| s.to_string()).collect(),
    }
}

fn lines(ls: &[&str]) -> Vec<String> {
    ls.iter().map(|s| s.to_string()).collect()
}

#[test]
fn as_block_record_fields() {
    let ls = lines(&[
        "as-block:  AS4242420000-AS4242423999",
        "policy:    open",
        "descr:     community block",
    ]);
    let rec = RegistryAsBlock::from(&ls, "AS4242420000-AS4242423999").unwrap();
    assert_eq!(rec.as_block, "AS4242420000-AS4242423999");
    assert_eq!(rec.policy, "open");
    assert_eq!(rec.descr, Some("community block".to_string()));
}

#[test]
fn route_set_record_fields() {
    let ls = lines(&[
        "route-set:   RS-EXAMPLE",
        "members:     172.20.0.0/14",
        "mp-members:  fd00::/8",
    ]);
    let rec = RegistryRouteSet::from(&ls, "RS-EXAMPLE".to_string()).unwrap();
    assert_eq!(rec.route_set, "RS-EXAMPLE");
    assert_eq!(rec.members, vec!["172.20.0.0/14"]);
    assert_eq!(rec.mp_members, vec!["fd00::/8"]);
}

#[test]
fn inet6num_record_fields() {
    let cidr = Inet6Cidr::from_filename("fd00::_8").unwrap();
    let ls = lines(&[
        "cidr:      fd00::/8",
        "inet6num:  fd00:: - fdff:ffff:ffff:ffff:ffff:ffff:ffff:ffff",
        "netname:   ULA-SPACE",
    ]);
    let rec = RegistryInet6Num::from(&ls, cidr).unwrap();
    assert_eq!(rec.inet6num, "fd00:: - fdff:ffff:ffff:ffff:ffff:ffff:ffff:ffff");
    assert_eq!(rec.common.netname, "ULA-SPACE");
}

#[test]
fn vendor_extension_continuations_are_dropped() {
    let ls = lines(&[
        "as-name:      KEEP",
        "x-note:       dropped",
        "              continuation of the dropped key",
        "remarks:      kept",
    ]);
    let rec = regparse::data::RegistryAutNum::from(&ls, 1).unwrap();
    assert_eq!(rec.as_name, "KEEP");
    assert_eq!(rec.remarks, vec!["kept"]);
}

#[test]
fn comment_only_file_yields_default_record() {
    let ls = lines(&["% nothing here", ""]);
    let rec = regparse::data::RegistryAutNum::from(&ls, 7).unwrap();
    assert_eq!(rec.aut_num, 7);
    assert_eq!(rec.as_name, "");
    assert!(rec.descr.is_none());
}

#[test]
fn all_categories_parse_together() {
    let mut source = RegistrySource::new();
    source.aut_nums.push(file("AS64500", &["aut-num:  AS64500", "as-name:  X"]));
    source.as_sets.push(file("AS64500:AS-ALL", &["as-set:  AS64500:AS-ALL"]));
    source.as_blocks.push(file("AS64496-AS64511", &["as-block:  AS64496-AS64511"]));
    source.dns.push(file("example.dn42", &["domain:  example.dn42"]));
    source.inet_nums.push(file("172.20.0.0_14", &["cidr:  172.20.0.0/14"]));
    source.inet6_nums.push(file("fd00::_8", &["cidr:  fd00::/8"]));
    source.routes.push(file(
        "172.20.24.0_24",
        &["route:  172.20.24.0/24", "origin:  AS64500"],
    ));
    source.routes6.push(file(
        "fd00:1234::_44",
        &["route6:  fd00:1234::/44", "origin:  AS64500"],
    ));
    source.route_sets.push(file("RS-ALL", &["route-set:  RS-ALL"]));

    let mut context = ParserContext::new(ParserConfig::all());
    context.parse(&source).unwrap();
    let d = &context.registry_data;
    assert_eq!(d.aut_nums.len(), 1);
    assert_eq!(d.as_sets.len(), 1);
    assert_eq!(d.as_blocks.len(), 1);
    assert_eq!(d.dns.len(), 1);
    assert_eq!(d.inet_nums.len(), 1);
    assert_eq!(d.inet6_nums.len(), 1);
    assert_eq!(d.routes.len(), 1);
    assert_eq!(d.routes6.len(), 1);
    assert_eq!(d.route_sets.len(), 1);
    assert_eq!(d.aut_nums[0].as_name, "X");

    // The same tree through a narrower selection leaves the rest empty.
    let mut narrow = ParserContext::new(ParserConfig::inet_nums());
    narrow.parse(&source).unwrap();
    assert_eq!(narrow.registry_data.inet_nums.len(), 1);
    assert_eq!(narrow.registry_data.inet6_nums.len(), 1);
    assert_eq!(narrow.registry_data.routes.len(), 0);
    assert_eq!(narrow.registry_data.aut_nums.len(), 0);

    let none = ParserConfig::new();
    let mut empty = ParserContext::new(none);
    empty.parse(&source).unwrap();
    assert_eq!(empty.registry_data.routes.len(), 0);

    let custom = ParserConfig::custom(true, false, false, false, false, false, false, false, false);
    let mut only_aut = ParserContext::new(custom);
    only_aut.parse(&source).unwrap();
    assert_eq!(only_aut.registry_data.aut_nums.len(), 1);
    assert_eq!(only_aut.registry_data.as_sets.len(), 0);
}

#[test]
fn boundary_prefix_lengths() {
    // The family ceilings are accepted exactly, one past them is not.
    let v4 = regparse::net::InetCidr::from_filename("172.20.0.1_32").unwrap();
    assert_eq!(v4.len(), 32);
    let v6 = regparse::net::Inet6Cidr::from_filename("fd00::_128").unwrap();
    assert_eq!(v6.len(), 128);

    // An explicit maximum above the ceiling is rejected at emission.
    let mut data = regparse::data::RegistryData::new();
    let mut route = regparse::data::RegistryRoute::new(
        regparse::net::InetCidr::from("172.20.24.0", 24).unwrap(),
    );
    route.max_length = Some(255);
    route.origin.push("AS123".into());
    data.routes.push(route);
    assert_eq!(regparse::roa::format_roa(&data), "");
}
