//! The prefix-length policy engine and the ROA validator/emitter.
//!
//! The policy is a literal ordered table: the first matching range decides
//! the permitted (minimum, maximum) prefix lengths, and `(0, ceiling)` is the
//! sentinel meaning the range is not registered at all. Each (route, origin)
//! pair is then gated independently; an accepted pair becomes one
//! `route <cidr> max <len> as <origin>;` line.
use vstd::prelude::*;

use crate::data::{RegistryData, RegistryRoute, RegistryRoute6};
use crate::error::ParseError;
use crate::net::{
    inet_cidr_text, inet6_cidr_text, v4_contains, v4_in_prefix, v6_first_byte_is,
    v6_in_byte_prefix, InetCidr, Inet6Cidr, InetNum,
};
use crate::parse::{source_ok, store_matches, ParserContext, RegistrySource};
use crate::text::{append_dec_u32, dec_digits, eq_str};

verus! {

// ---------------------------------------------------------------------------
// Policy tables
// ---------------------------------------------------------------------------
/// The IPv4 policy table, consulted in this exact order: the first matching
/// range decides; `(0, 32)` means the address is in no registered range.
pub open spec fn spec_v4_bounds(n: InetNum) -> (u8, u8) {
    if v4_in_prefix(n, InetNum(172, 20, 0, 0), 24) {
        (24u8, 32u8)
    } else if v4_in_prefix(n, InetNum(172, 21, 0, 0), 24) {
        (28u8, 32u8)
    } else if v4_in_prefix(n, InetNum(172, 22, 0, 0), 24) {
        (28u8, 32u8)
    } else if v4_in_prefix(n, InetNum(172, 23, 0, 0), 24) {
        (28u8, 32u8)
    } else if v4_in_prefix(n, InetNum(172, 20, 0, 0), 14) {
        (21u8, 29u8)
    } else if v4_in_prefix(n, InetNum(10, 100, 0, 0), 14) {
        (14u8, 32u8)
    } else if v4_in_prefix(n, InetNum(10, 127, 0, 0), 16) {
        (16u8, 32u8)
    } else if v4_in_prefix(n, InetNum(10, 0, 0, 0), 8) {
        (15u8, 24u8)
    } else if v4_in_prefix(n, InetNum(172, 31, 0, 0), 16) {
        (16u8, 32u8)
    } else {
        (0u8, 32u8)
    }
}

/// The IPv6 policy table: the unique-local range, else the sentinel.
pub open spec fn spec_v6_bounds(groups: Seq<u16>) -> (u8, u8) {
    if v6_first_byte_is(groups, 0xfd) {
        (44u8, 64u8)
    } else {
        (0u8, 128u8)
    }
}

/// The permitted (minimum, maximum) prefix lengths for an IPv4 address.
pub fn ipv4_min_max_default_prefix_len(num: &InetCidr) -> (r: (u8, u8))
    ensures
        r == spec_v4_bounds(num.0),
{
    let a = &num.0;
    if v4_contains(a, &InetNum(172, 20, 0, 0), 24) {
        (24, 32)
    } else if v4_contains(a, &InetNum(172, 21, 0, 0), 24) {
        (28, 32)
    } else if v4_contains(a, &InetNum(172, 22, 0, 0), 24) {
        (28, 32)
    } else if v4_contains(a, &InetNum(172, 23, 0, 0), 24) {
        (28, 32)
    } else if v4_contains(a, &InetNum(172, 20, 0, 0), 14) {
        (21, 29)
    } else if v4_contains(a, &InetNum(10, 100, 0, 0), 14) {
        (14, 32)
    } else if v4_contains(a, &InetNum(10, 127, 0, 0), 16) {
        (16, 32)
    } else if v4_contains(a, &InetNum(10, 0, 0, 0), 8) {
        (15, 24)
    } else if v4_contains(a, &InetNum(172, 31, 0, 0), 16) {
        (16, 32)
    } else {
        (0, 32)
    }
}

/// The permitted (minimum, maximum) prefix lengths for an IPv6 address.
pub fn ipv6_min_max_default_prefix_len(num: &Inet6Cidr) -> (r: (u8, u8))
    ensures
        r == spec_v6_bounds(num.0.groups@),
{
    if v6_in_byte_prefix(&num.0, 0xfd) {
        (44, 64)
    } else {
        (0, 128)
    }
}

// ---------------------------------------------------------------------------
// The per-pair gate
// ---------------------------------------------------------------------------
/// The resolved maximum length for one (route, origin) pair, if the pair is
/// authorized: the sequential gate over the policy bounds.
pub open spec fn spec_roa_decision(
    min: u8,
    max: u8,
    ceiling: u8,
    route_len: u8,
    explicit: Option<u8>,
) -> Option<u8> {
    if min == 0 && max == ceiling {
        // The sentinel: this range has no registered policy at all.
        None
    } else if route_len < min {
        None
    } else {
        let resolved: u8 = match explicit {
            Some(l) => l,
            None => if max > route_len {
                max
            } else {
                route_len
            },
        };
        if explicit matches Some(l) && l < route_len {
            None
        } else if resolved > max {
            None
        } else if resolved > ceiling {
            None
        } else if resolved < route_len {
            None
        } else {
            Some(resolved)
        }
    }
}

/// Resolves the maximum length one (route, origin) pair may authorize, or
/// rejects the pair.
pub fn resolve_max_length(
    min: u8,
    max: u8,
    ceiling: u8,
    route_len: u8,
    explicit: Option<u8>,
) -> (r: Option<u8>)
    ensures
        r == spec_roa_decision(min, max, ceiling, route_len, explicit),
{
    if min == 0 && max == ceiling {
        return None;
    }
    if route_len < min {
        return None;
    }
    let resolved: u8 = match explicit {
        Some(l) => {
            if l < route_len {
                return None;
            }
            l
        },
        None => if max > route_len {
            max
        } else {
            route_len
        },
    };
    if resolved > max {
        return None;
    }
    if resolved > ceiling {
        return None;
    }
    if resolved < route_len {
        return None;
    }
    Some(resolved)
}

// ---------------------------------------------------------------------------
// The emitted text
// ---------------------------------------------------------------------------
/// One accepted authorization line, byte for byte.
pub open spec fn roa_line(cidr_text: Seq<char>, maxlen: u8, origin: Seq<char>) -> Seq<char> {
    "route "@ + cidr_text + " max "@ + dec_digits(maxlen as nat) + " as "@ + origin + ";\n"@
}

/// The policy bounds an IPv4 pair is judged by: the anycast origin `0`
/// forces `(28, 32)`, every other origin consults the table.
pub open spec fn v4_pair_bounds(r: RegistryRoute, origin: Seq<char>) -> (u8, u8) {
    if origin == "0"@ {
        (28u8, 32u8)
    } else {
        spec_v4_bounds(r.route.0)
    }
}

/// What one (route, origin) pair contributes to the IPv4 output.
pub open spec fn route4_entry(r: RegistryRoute, origin: Seq<char>) -> Seq<char> {
    let b = v4_pair_bounds(r, origin);
    match spec_roa_decision(b.0, b.1, 32, r.route.1, r.max_length) {
        Some(m) => roa_line(inet_cidr_text(r.route), m, origin),
        None => Seq::empty(),
    }
}

pub open spec fn route4_origins_out(r: RegistryRoute, os: Seq<String>) -> Seq<char>
    decreases os.len(),
{
    if os.len() == 0 {
        Seq::empty()
    } else {
        route4_origins_out(r, os.drop_last()) + route4_entry(r, os.last()@)
    }
}

/// The IPv4 output: every route's origins, in order, each gated separately.
pub open spec fn roa4_output(rs: Seq<RegistryRoute>) -> Seq<char>
    decreases rs.len(),
{
    if rs.len() == 0 {
        Seq::empty()
    } else {
        roa4_output(rs.drop_last()) + route4_origins_out(rs.last(), rs.last().origin@)
    }
}

/// What one (route, origin) pair contributes to the IPv6 output.
pub open spec fn route6_entry(r: RegistryRoute6, origin: Seq<char>) -> Seq<char> {
    let b = spec_v6_bounds(r.route6.0.groups@);
    match spec_roa_decision(b.0, b.1, 128, r.route6.1, r.max_length) {
        Some(m) => roa_line(inet6_cidr_text(r.route6), m, origin),
        None => Seq::empty(),
    }
}

pub open spec fn route6_origins_out(r: RegistryRoute6, os: Seq<String>) -> Seq<char>
    decreases os.len(),
{
    if os.len() == 0 {
        Seq::empty()
    } else {
        route6_origins_out(r, os.drop_last()) + route6_entry(r, os.last()@)
    }
}

/// The IPv6 output: every route's origins, in order, each gated separately.
pub open spec fn roa6_output(rs: Seq<RegistryRoute6>) -> Seq<char>
    decreases rs.len(),
{
    if rs.len() == 0 {
        Seq::empty()
    } else {
        roa6_output(rs.drop_last()) + route6_origins_out(rs.last(), rs.last().origin@)
    }
}

/// Appends one authorization line.
fn append_roa_line(out: &mut String, cidr_text: &String, maxlen: u8, origin: &String)
    ensures
        final(out)@ == old(out)@ + roa_line(cidr_text@, maxlen, origin@),
{
    out.append("route ");
    out.append(cidr_text.as_str());
    out.append(" max ");
    append_dec_u32(out, maxlen as u32);
    out.append(" as ");
    out.append(origin.as_str());
    out.append(";\n");
    assert(out@ =~= old(out)@ + roa_line(cidr_text@, maxlen, origin@));
}

/// Renders the accepted IPv4 authorizations of a store, in store order.
pub fn format_roa(data: &RegistryData) -> (r: String)
    ensures
        r@ == roa4_output(data.routes@),
{
    let mut out = String::new();
    let mut i: usize = 0;
    while i < data.routes.len()
        invariant
            0 <= i <= data.routes@.len(),
            out@ == roa4_output(data.routes@.subrange(0, i as int)),
        decreases data.routes@.len() - i,
    {
        let route = &data.routes[i];
        let mut j: usize = 0;
        while j < route.origin.len()
            invariant
                0 <= j <= route.origin@.len(),
                route == data.routes@[i as int],
                0 <= i < data.routes@.len(),
                out@ == roa4_output(data.routes@.subrange(0, i as int)) + route4_origins_out(
                    *route,
                    route.origin@.subrange(0, j as int),
                ),
            decreases route.origin@.len() - j,
        {
            proof {
                assert(route.origin@.subrange(0, j + 1).drop_last() =~= route.origin@.subrange(
                    0,
                    j as int,
                ));
            }
            let origin = &route.origin[j];
            let bounds: (u8, u8) = if eq_str(origin.as_str(), "0") {
                proof {
                    reveal_strlit("0");
                }
                (28, 32)
            } else {
                ipv4_min_max_default_prefix_len(&route.route)
            };
            match resolve_max_length(bounds.0, bounds.1, 32, route.route.len(), route.max_length) {
                Some(m) => {
                    let text = route.route.to_string();
                    append_roa_line(&mut out, &text, m, origin);
                },
                None => {},
            }
            assert(out@ =~= roa4_output(data.routes@.subrange(0, i as int)) + route4_origins_out(
                *route,
                route.origin@.subrange(0, j + 1),
            ));
            j = j + 1;
        }
        proof {
            assert(route.origin@.subrange(0, route.origin@.len() as int) =~= route.origin@);
            assert(data.routes@.subrange(0, i + 1).drop_last() =~= data.routes@.subrange(
                0,
                i as int,
            ));
        }
        i = i + 1;
    }
    assert(data.routes@.subrange(0, data.routes@.len() as int) =~= data.routes@);
    out
}

/// Renders the accepted IPv6 authorizations of a store, in store order.
pub fn format_roa6(data: &RegistryData) -> (r: String)
    ensures
        r@ == roa6_output(data.routes6@),
{
    let mut out = String::new();
    let mut i: usize = 0;
    while i < data.routes6.len()
        invariant
            0 <= i <= data.routes6@.len(),
            out@ == roa6_output(data.routes6@.subrange(0, i as int)),
        decreases data.routes6@.len() - i,
    {
        let route = &data.routes6[i];
        let mut j: usize = 0;
        while j < route.origin.len()
            invariant
                0 <= j <= route.origin@.len(),
                route == data.routes6@[i as int],
                0 <= i < data.routes6@.len(),
                out@ == roa6_output(data.routes6@.subrange(0, i as int)) + route6_origins_out(
                    *route,
                    route.origin@.subrange(0, j as int),
                ),
            decreases route.origin@.len() - j,
        {
            proof {
                assert(route.origin@.subrange(0, j + 1).drop_last() =~= route.origin@.subrange(
                    0,
                    j as int,
                ));
            }
            let origin = &route.origin[j];
            let bounds = ipv6_min_max_default_prefix_len(&route.route6);
            match resolve_max_length(bounds.0, bounds.1, 128, route.route6.len(), route.max_length)
            {
                Some(m) => {
                    let text = route.route6.to_string();
                    append_roa_line(&mut out, &text, m, origin);
                },
                None => {},
            }
            assert(out@ =~= roa6_output(data.routes6@.subrange(0, i as int)) + route6_origins_out(
                *route,
                route.origin@.subrange(0, j + 1),
            ));
            j = j + 1;
        }
        proof {
            assert(route.origin@.subrange(0, route.origin@.len() as int) =~= route.origin@);
            assert(data.routes6@.subrange(0, i + 1).drop_last() =~= data.routes6@.subrange(
                0,
                i as int,
            ));
        }
        i = i + 1;
    }
    assert(data.routes6@.subrange(0, data.routes6@.len() as int) =~= data.routes6@);
    out
}

// ---------------------------------------------------------------------------
// The service summary
// ---------------------------------------------------------------------------
/// One summary entry of the refresh service: a prefix, the maximum length it
/// reports, and the origin with its `AS` prefix restored.
pub struct RoaEntry {
    pub prefix: String,
    pub max_length: u8,
    pub asn: String,
}

/// The summary's maximum for an IPv4 route: at least 29.
pub open spec fn summary_max4(len: u8) -> u8 {
    if len > 29 {
        len
    } else {
        29
    }
}

/// The summary's maximum for an IPv6 route: at least 64.
pub open spec fn summary_max6(len: u8) -> u8 {
    if len > 64 {
        len
    } else {
        64
    }
}

pub open spec fn entry_views(es: Seq<RoaEntry>) -> Seq<(Seq<char>, u8, Seq<char>)> {
    es.map_values(|e: RoaEntry| (e.prefix@, e.max_length, e.asn@))
}

pub open spec fn v4_summary(r: RegistryRoute, os: Seq<String>) -> Seq<(Seq<char>, u8, Seq<char>)>
    decreases os.len(),
{
    if os.len() == 0 {
        Seq::empty()
    } else {
        v4_summary(r, os.drop_last()).push(
            (inet_cidr_text(r.route), summary_max4(r.route.1), "AS"@ + os.last()@),
        )
    }
}

pub open spec fn v4_summaries(rs: Seq<RegistryRoute>) -> Seq<(Seq<char>, u8, Seq<char>)>
    decreases rs.len(),
{
    if rs.len() == 0 {
        Seq::empty()
    } else {
        v4_summaries(rs.drop_last()) + v4_summary(rs.last(), rs.last().origin@)
    }
}

pub open spec fn v6_summary(r: RegistryRoute6, os: Seq<String>) -> Seq<(Seq<char>, u8, Seq<char>)>
    decreases os.len(),
{
    if os.len() == 0 {
        Seq::empty()
    } else {
        v6_summary(r, os.drop_last()).push(
            (inet6_cidr_text(r.route6), summary_max6(r.route6.1), "AS"@ + os.last()@),
        )
    }
}

pub open spec fn v6_summaries(rs: Seq<RegistryRoute6>) -> Seq<(Seq<char>, u8, Seq<char>)>
    decreases rs.len(),
{
    if rs.len() == 0 {
        Seq::empty()
    } else {
        v6_summaries(rs.drop_last()) + v6_summary(rs.last(), rs.last().origin@)
    }
}


/// Appends one ungated summary entry per (route, origin) pair, IPv4.
fn push_v4_summaries(routes: &Vec<RegistryRoute>, entries: &mut Vec<RoaEntry>)
    ensures
        entry_views(final(entries)@) == entry_views(old(entries)@) + v4_summaries(routes@),
{
    let ghost base = entry_views(entries@);
    let mut i: usize = 0;
    proof {
        assert(base + v4_summaries(routes@.subrange(0, 0)) =~= base);
    }
    while i < routes.len()
        invariant
            0 <= i <= routes@.len(),
            entry_views(entries@) == base + v4_summaries(routes@.subrange(0, i as int)),
        decreases routes@.len() - i,
    {
        let route = &routes[i];
        let mut j: usize = 0;
        while j < route.origin.len()
            invariant
                0 <= j <= route.origin@.len(),
                route == routes@[i as int],
                0 <= i < routes@.len(),
                entry_views(entries@) == base + v4_summaries(routes@.subrange(0, i as int))
                    + v4_summary(*route, route.origin@.subrange(0, j as int)),
            decreases route.origin@.len() - j,
        {
            proof {
                assert(route.origin@.subrange(0, j + 1).drop_last() =~= route.origin@.subrange(
                    0,
                    j as int,
                ));
            }
            let origin = &route.origin[j];
            let len = route.route.len();
            let mut asn = String::from_str("AS");
            asn.append(origin.as_str());
            let ghost prev = entries@;
            let e = RoaEntry {
                prefix: route.route.to_string(),
                max_length: if len > 29 { len } else { 29 },
                asn,
            };
            let ghost ge = e;
            entries.push(e);
            proof {
                assert(entries@ == prev.push(ge));
                assert(ge.asn@ == "AS"@ + route.origin@[j as int]@);
                assert(entry_views(prev.push(ge)) =~= entry_views(prev).push(
                    (ge.prefix@, ge.max_length, ge.asn@),
                ));
                assert(v4_summary(*route, route.origin@.subrange(0, j + 1)) == v4_summary(
                    *route,
                    route.origin@.subrange(0, j as int),
                ).push((inet_cidr_text(route.route), summary_max4(route.route.1), "AS"@
                    + route.origin@[j as int]@)));
                assert(entry_views(entries@) =~= base + v4_summaries(
                    routes@.subrange(0, i as int),
                ) + v4_summary(*route, route.origin@.subrange(0, j + 1)));
            }
            j = j + 1;
        }
        proof {
            assert(route.origin@.subrange(0, route.origin@.len() as int) =~= route.origin@);
            assert(routes@.subrange(0, i + 1).drop_last() =~= routes@.subrange(0, i as int));
        }
        i = i + 1;
    }
    assert(routes@.subrange(0, routes@.len() as int) =~= routes@);
}

/// Appends one ungated summary entry per (route, origin) pair, IPv6.
fn push_v6_summaries(routes: &Vec<RegistryRoute6>, entries: &mut Vec<RoaEntry>)
    ensures
        entry_views(final(entries)@) == entry_views(old(entries)@) + v6_summaries(routes@),
{
    let ghost base = entry_views(entries@);
    let mut i: usize = 0;
    proof {
        assert(base + v6_summaries(routes@.subrange(0, 0)) =~= base);
    }
    while i < routes.len()
        invariant
            0 <= i <= routes@.len(),
            entry_views(entries@) == base + v6_summaries(routes@.subrange(0, i as int)),
        decreases routes@.len() - i,
    {
        let route = &routes[i];
        let mut j: usize = 0;
        while j < route.origin.len()
            invariant
                0 <= j <= route.origin@.len(),
                route == routes@[i as int],
                0 <= i < routes@.len(),
                entry_views(entries@) == base + v6_summaries(routes@.subrange(0, i as int))
                    + v6_summary(*route, route.origin@.subrange(0, j as int)),
            decreases route.origin@.len() - j,
        {
            proof {
                assert(route.origin@.subrange(0, j + 1).drop_last() =~= route.origin@.subrange(
                    0,
                    j as int,
                ));
            }
            let origin = &route.origin[j];
            let len = route.route6.len();
            let mut asn = String::from_str("AS");
            asn.append(origin.as_str());
            let ghost prev = entries@;
            let e = RoaEntry {
                prefix: route.route6.to_string(),
                max_length: if len > 64 { len } else { 64 },
                asn,
            };
            let ghost ge = e;
            entries.push(e);
            proof {
                assert(entries@ == prev.push(ge));
                assert(ge.asn@ == "AS"@ + route.origin@[j as int]@);
                assert(entry_views(prev.push(ge)) =~= entry_views(prev).push(
                    (ge.prefix@, ge.max_length, ge.asn@),
                ));
                assert(v6_summary(*route, route.origin@.subrange(0, j + 1)) == v6_summary(
                    *route,
                    route.origin@.subrange(0, j as int),
                ).push((inet6_cidr_text(route.route6), summary_max6(route.route6.1), "AS"@
                    + route.origin@[j as int]@)));
                assert(entry_views(entries@) =~= base + v6_summaries(
                    routes@.subrange(0, i as int),
                ) + v6_summary(*route, route.origin@.subrange(0, j + 1)));
            }
            j = j + 1;
        }
        proof {
            assert(route.origin@.subrange(0, route.origin@.len() as int) =~= route.origin@);
            assert(routes@.subrange(0, i + 1).drop_last() =~= routes@.subrange(0, i as int));
        }
        i = i + 1;
    }
    assert(routes@.subrange(0, routes@.len() as int) =~= routes@);
}

/// The refresh service's state: the current summary and the parser it is
/// refreshed from.
pub struct RoaSrv {
    pub roa_data: Vec<RoaEntry>,
    pub parser_context: ParserContext,
}

impl RoaSrv {
    /// Re-parses the source and rebuilds the summary: one entry per
    /// (route, origin) pair of both families, ungated.
    pub fn update_roa_data(&mut self, source: &RegistrySource) -> (r: Result<(), ParseError>)
        ensures
            final(self).parser_context.config == old(self).parser_context.config,
            r is Ok <==> source_ok(old(self).parser_context.config, *source),
            r is Ok ==> store_matches(
                final(self).parser_context.registry_data,
                old(self).parser_context.config,
                *source,
            ),
            r is Ok ==> entry_views(final(self).roa_data@) == v4_summaries(
                final(self).parser_context.registry_data.routes@,
            ) + v6_summaries(final(self).parser_context.registry_data.routes6@),
            r is Err ==> final(self).roa_data == old(self).roa_data,
    {
        match self.parser_context.parse(source) {
            Ok(()) => {},
            Err(e) => {
                return Err(e);
            },
        }
        let mut entries: Vec<RoaEntry> = Vec::new();
        proof {
            assert(entry_views(entries@) =~= Seq::<(Seq<char>, u8, Seq<char>)>::empty());
        }
        push_v4_summaries(&self.parser_context.registry_data.routes, &mut entries);
        push_v6_summaries(&self.parser_context.registry_data.routes6, &mut entries);
        proof {
            assert(entry_views(entries@) =~= v4_summaries(
                self.parser_context.registry_data.routes@,
            ) + v6_summaries(self.parser_context.registry_data.routes6@));
        }
        self.roa_data = entries;
        Ok(())
    }
}

/// Whenever an IPv4 pair emits a line, the maximum it authorizes lies
/// between the route's own prefix length and the family ceiling of 32.
pub proof fn lemma_v4_emitted_max_in_range(r: RegistryRoute, origin: Seq<char>)
    ensures
        route4_entry(r, origin).len() != 0 ==> (spec_roa_decision(
            v4_pair_bounds(r, origin).0,
            v4_pair_bounds(r, origin).1,
            32,
            r.route.1,
            r.max_length,
        ) matches Some(m) && r.route.1 <= m <= 32),
{
}

/// Whenever an IPv6 pair emits a line, the maximum it authorizes lies
/// between the route's own prefix length and the family ceiling of 128.
pub proof fn lemma_v6_emitted_max_in_range(r: RegistryRoute6, origin: Seq<char>)
    ensures
        route6_entry(r, origin).len() != 0 ==> (spec_roa_decision(
            spec_v6_bounds(r.route6.0.groups@).0,
            spec_v6_bounds(r.route6.0.groups@).1,
            128,
            r.route6.1,
            r.max_length,
        ) matches Some(m) && r.route6.1 <= m <= 128),
{
}

/// Whenever a pair is accepted, its resolved maximum lies between the
/// route's own length and the address family's ceiling.
pub proof fn lemma_resolved_max_in_range(
    min: u8,
    max: u8,
    ceiling: u8,
    route_len: u8,
    explicit: Option<u8>,
)
    ensures
        spec_roa_decision(min, max, ceiling, route_len, explicit) matches Some(m) ==> route_len
            <= m <= ceiling,
{
}

} // verus!
