//! The directory scheduler: discover every record file of the enabled
//! categories, then parse them all into a fresh aggregate store.
//!
//! Discovery and execution are two separate phases: one job per discovered
//! file is queued (carrying the filename-derived identity and the file's
//! lines) before any job runs. A run either fills every enabled category
//! completely or leaves the store empty.
use vstd::prelude::*;

use std::collections::VecDeque;

use crate::data::{
    as_num_of, aut_num_matches, aut_num_ok, as_set_matches, as_set_ok, as_block_matches,
    as_block_ok, dns_matches, dns_ok, inetnum_rec_matches, inetnum_rec_ok, inet6num_rec_matches,
    inet6num_rec_ok, inet6num_rec_ok_text, inet6num_rec_key_ok, inet6num_rec_key_ok_text,
    route_matches, route_ok, route6_matches, route6_ok, route6_ok_text, route6_key_ok,
    route6_key_ok_text, route_set_matches, route_set_ok, is_as_value, RegistryAutNum,
    RegistryAsSet, RegistryAsBlock, RegistryDns, RegistryInetNum, RegistryInet6Num, RegistryRoute,
    RegistryRoute6, RegistryRouteSet, RegistryData, registry_data_empty,
};
use crate::error::ParseError;
use crate::grammar::{pairs_of, pairs_ok};
use crate::net::{
    cidr6_text, inet6_cidr_text, v4_filename, v6_filename_addr, v6_filename_len, v6_filename_ok,
    InetCidr, Inet6Cidr, ipv6_groups,
};
use crate::text::{parse_dec_u32, starts_with_str};

verus! {

/// One discovered record file: its name and its text, line by line.
pub struct SourceFile {
    pub name: String,
    pub lines: Vec<String>,
}

/// The registry tree handed to a parse run: one listing per category,
/// in directory order.
pub struct RegistrySource {
    pub aut_nums: Vec<SourceFile>,
    pub as_sets: Vec<SourceFile>,
    pub as_blocks: Vec<SourceFile>,
    pub dns: Vec<SourceFile>,
    pub inet_nums: Vec<SourceFile>,
    pub inet6_nums: Vec<SourceFile>,
    pub routes: Vec<SourceFile>,
    pub routes6: Vec<SourceFile>,
    pub route_sets: Vec<SourceFile>,
}

impl RegistrySource {
    /// An empty tree.
    pub fn new() -> (r: RegistrySource)
        ensures
            r.aut_nums@.len() == 0,
            r.as_sets@.len() == 0,
            r.as_blocks@.len() == 0,
            r.dns@.len() == 0,
            r.inet_nums@.len() == 0,
            r.inet6_nums@.len() == 0,
            r.routes@.len() == 0,
            r.routes6@.len() == 0,
            r.route_sets@.len() == 0,
    {
        RegistrySource {
            aut_nums: Vec::new(),
            as_sets: Vec::new(),
            as_blocks: Vec::new(),
            dns: Vec::new(),
            inet_nums: Vec::new(),
            inet6_nums: Vec::new(),
            routes: Vec::new(),
            routes6: Vec::new(),
            route_sets: Vec::new(),
        }
    }
}

/// Which record categories a parse run takes in.
pub struct ParserConfig {
    pub aut_nums: bool,
    pub inet_nums: bool,
    pub inet6_nums: bool,
    pub as_sets: bool,
    pub as_blocks: bool,
    pub domains: bool,
    pub routes: bool,
    pub routes6: bool,
    pub route_sets: bool,
}

impl ParserConfig {
    /// No category enabled.
    pub fn new() -> (r: ParserConfig)
        ensures
            r == (ParserConfig {
                aut_nums: false,
                inet_nums: false,
                inet6_nums: false,
                as_sets: false,
                as_blocks: false,
                domains: false,
                routes: false,
                routes6: false,
                route_sets: false,
            }),
    {
        ParserConfig {
            aut_nums: false,
            inet_nums: false,
            inet6_nums: false,
            as_sets: false,
            as_blocks: false,
            domains: false,
            routes: false,
            routes6: false,
            route_sets: false,
        }
    }

    /// An explicit selection of categories.
    pub fn custom(
        par_aut_nums: bool,
        par_inet_nums: bool,
        par_inet6_nums: bool,
        par_as_sets: bool,
        par_as_blocks: bool,
        par_domains: bool,
        par_routes: bool,
        par_routes6: bool,
        par_route_sets: bool,
    ) -> (r: ParserConfig)
        ensures
            r == (ParserConfig {
                aut_nums: par_aut_nums,
                inet_nums: par_inet_nums,
                inet6_nums: par_inet6_nums,
                as_sets: par_as_sets,
                as_blocks: par_as_blocks,
                domains: par_domains,
                routes: par_routes,
                routes6: par_routes6,
                route_sets: par_route_sets,
            }),
    {
        ParserConfig {
            aut_nums: par_aut_nums,
            inet_nums: par_inet_nums,
            inet6_nums: par_inet6_nums,
            as_sets: par_as_sets,
            as_blocks: par_as_blocks,
            domains: par_domains,
            routes: par_routes,
            routes6: par_routes6,
            route_sets: par_route_sets,
        }
    }

    /// Both route categories only.
    pub fn routes() -> (r: ParserConfig)
        ensures
            r == (ParserConfig {
                aut_nums: false,
                inet_nums: false,
                inet6_nums: false,
                as_sets: false,
                as_blocks: false,
                domains: false,
                routes: true,
                routes6: true,
                route_sets: false,
            }),
    {
        let mut config = ParserConfig::new();
        config.routes = true;
        config.routes6 = true;
        config
    }

    /// Both address-block categories only.
    pub fn inet_nums() -> (r: ParserConfig)
        ensures
            r == (ParserConfig {
                aut_nums: false,
                inet_nums: true,
                inet6_nums: true,
                as_sets: false,
                as_blocks: false,
                domains: false,
                routes: false,
                routes6: false,
                route_sets: false,
            }),
    {
        let mut config = ParserConfig::new();
        config.inet_nums = true;
        config.inet6_nums = true;
        config
    }

    /// Every category.
    pub fn all() -> (r: ParserConfig)
        ensures
            r == (ParserConfig {
                aut_nums: true,
                inet_nums: true,
                inet6_nums: true,
                as_sets: true,
                as_blocks: true,
                domains: true,
                routes: true,
                routes6: true,
                route_sets: true,
            }),
    {
        ParserConfig::custom(true, true, true, true, true, true, true, true, true)
    }
}

/// One queued parse job: the category tag, the filename-derived identity,
/// and the file's lines.
pub enum ParserJob {
    AutNum(u32, Vec<String>),
    InetNum(InetCidr, Vec<String>),
    Inet6Num(Inet6Cidr, Vec<String>),
    AsSet(String, Vec<String>),
    AsBlock(String, Vec<String>),
    Domain(String, Vec<String>),
    Route(InetCidr, Vec<String>),
    Route6(Inet6Cidr, Vec<String>),
    RouteSet(String, Vec<String>),
}


// ---------------------------------------------------------------------------
// The job queue, projected per category
// ---------------------------------------------------------------------------
/// Sequence membership survives a push.
proof fn lemma_contains_push<T>(s: Seq<T>, x: T, y: T)
    requires
        s.contains(x),
    ensures
        s.push(y).contains(x),
{
    let i = choose|i: int| 0 <= i < s.len() && s[i] == x;
    assert(s.push(y)[i] == x);
}

/// The AutNum jobs of a queue, in order, as identity and lines.
pub open spec fn aut_jobs(js: Seq<ParserJob>) -> Seq<(u32, Seq<Seq<char>>)>
    decreases js.len(),
{
    if js.len() == 0 {
        seq![]
    } else {
        let rest = aut_jobs(js.drop_last());
        match js.last() {
            ParserJob::AutNum(x, ls) => rest.push((x, ls.deep_view())),
            _ => rest,
        }
    }
}

proof fn lemma_aut_jobs_push(js: Seq<ParserJob>, j: ParserJob)
    ensures
        aut_jobs(js.push(j)) == (match j {
            ParserJob::AutNum(x, ls) => aut_jobs(js).push((x, ls.deep_view())),
            _ => aut_jobs(js),
        }),
{
    assert(js.push(j).drop_last() =~= js);
}

proof fn lemma_aut_jobs_mem(js: Seq<ParserJob>, i: int)
    requires
        0 <= i < js.len(),
    ensures
        (js[i] matches ParserJob::AutNum(x, ls) ==> aut_jobs(js).contains((x, ls.deep_view()))),
    decreases js.len(),
{
    if js[i] is AutNum {
        if i == js.len() - 1 {
            let r = aut_jobs(js);
            assert(r[r.len() - 1] == (js[i]->AutNum_0, js[i]->AutNum_1.deep_view()));
            assert(r.contains((js[i]->AutNum_0, js[i]->AutNum_1.deep_view())));
        } else {
            lemma_aut_jobs_mem(js.drop_last(), i);
            assert(js.drop_last()[i] == js[i]);
            match js.last() {
                ParserJob::AutNum(y, ys) => {
                    lemma_contains_push(aut_jobs(js.drop_last()), (js[i]->AutNum_0, js[i]->AutNum_1.deep_view()), (y, ys.deep_view()));
                },
                _ => {},
            }
        }
    }
}

/// The AsSet jobs of a queue, in order, as identity and lines.
pub open spec fn as_set_jobs(js: Seq<ParserJob>) -> Seq<(Seq<char>, Seq<Seq<char>>)>
    decreases js.len(),
{
    if js.len() == 0 {
        seq![]
    } else {
        let rest = as_set_jobs(js.drop_last());
        match js.last() {
            ParserJob::AsSet(x, ls) => rest.push((x@, ls.deep_view())),
            _ => rest,
        }
    }
}

proof fn lemma_as_set_jobs_push(js: Seq<ParserJob>, j: ParserJob)
    ensures
        as_set_jobs(js.push(j)) == (match j {
            ParserJob::AsSet(x, ls) => as_set_jobs(js).push((x@, ls.deep_view())),
            _ => as_set_jobs(js),
        }),
{
    assert(js.push(j).drop_last() =~= js);
}

proof fn lemma_as_set_jobs_mem(js: Seq<ParserJob>, i: int)
    requires
        0 <= i < js.len(),
    ensures
        (js[i] matches ParserJob::AsSet(x, ls) ==> as_set_jobs(js).contains((x@, ls.deep_view()))),
    decreases js.len(),
{
    if js[i] is AsSet {
        if i == js.len() - 1 {
            let r = as_set_jobs(js);
            assert(r[r.len() - 1] == (js[i]->AsSet_0@, js[i]->AsSet_1.deep_view()));
            assert(r.contains((js[i]->AsSet_0@, js[i]->AsSet_1.deep_view())));
        } else {
            lemma_as_set_jobs_mem(js.drop_last(), i);
            assert(js.drop_last()[i] == js[i]);
            match js.last() {
                ParserJob::AsSet(y, ys) => {
                    lemma_contains_push(as_set_jobs(js.drop_last()), (js[i]->AsSet_0@, js[i]->AsSet_1.deep_view()), (y@, ys.deep_view()));
                },
                _ => {},
            }
        }
    }
}

/// The AsBlock jobs of a queue, in order, as identity and lines.
pub open spec fn as_block_jobs(js: Seq<ParserJob>) -> Seq<(Seq<char>, Seq<Seq<char>>)>
    decreases js.len(),
{
    if js.len() == 0 {
        seq![]
    } else {
        let rest = as_block_jobs(js.drop_last());
        match js.last() {
            ParserJob::AsBlock(x, ls) => rest.push((x@, ls.deep_view())),
            _ => rest,
        }
    }
}

proof fn lemma_as_block_jobs_push(js: Seq<ParserJob>, j: ParserJob)
    ensures
        as_block_jobs(js.push(j)) == (match j {
            ParserJob::AsBlock(x, ls) => as_block_jobs(js).push((x@, ls.deep_view())),
            _ => as_block_jobs(js),
        }),
{
    assert(js.push(j).drop_last() =~= js);
}

proof fn lemma_as_block_jobs_mem(js: Seq<ParserJob>, i: int)
    requires
        0 <= i < js.len(),
    ensures
        (js[i] matches ParserJob::AsBlock(x, ls) ==> as_block_jobs(js).contains((x@, ls.deep_view()))),
    decreases js.len(),
{
    if js[i] is AsBlock {
        if i == js.len() - 1 {
            let r = as_block_jobs(js);
            assert(r[r.len() - 1] == (js[i]->AsBlock_0@, js[i]->AsBlock_1.deep_view()));
            assert(r.contains((js[i]->AsBlock_0@, js[i]->AsBlock_1.deep_view())));
        } else {
            lemma_as_block_jobs_mem(js.drop_last(), i);
            assert(js.drop_last()[i] == js[i]);
            match js.last() {
                ParserJob::AsBlock(y, ys) => {
                    lemma_contains_push(as_block_jobs(js.drop_last()), (js[i]->AsBlock_0@, js[i]->AsBlock_1.deep_view()), (y@, ys.deep_view()));
                },
                _ => {},
            }
        }
    }
}

/// The Domain jobs of a queue, in order, as identity and lines.
pub open spec fn dns_jobs(js: Seq<ParserJob>) -> Seq<(Seq<char>, Seq<Seq<char>>)>
    decreases js.len(),
{
    if js.len() == 0 {
        seq![]
    } else {
        let rest = dns_jobs(js.drop_last());
        match js.last() {
            ParserJob::Domain(x, ls) => rest.push((x@, ls.deep_view())),
            _ => rest,
        }
    }
}

proof fn lemma_dns_jobs_push(js: Seq<ParserJob>, j: ParserJob)
    ensures
        dns_jobs(js.push(j)) == (match j {
            ParserJob::Domain(x, ls) => dns_jobs(js).push((x@, ls.deep_view())),
            _ => dns_jobs(js),
        }),
{
    assert(js.push(j).drop_last() =~= js);
}

proof fn lemma_dns_jobs_mem(js: Seq<ParserJob>, i: int)
    requires
        0 <= i < js.len(),
    ensures
        (js[i] matches ParserJob::Domain(x, ls) ==> dns_jobs(js).contains((x@, ls.deep_view()))),
    decreases js.len(),
{
    if js[i] is Domain {
        if i == js.len() - 1 {
            let r = dns_jobs(js);
            assert(r[r.len() - 1] == (js[i]->Domain_0@, js[i]->Domain_1.deep_view()));
            assert(r.contains((js[i]->Domain_0@, js[i]->Domain_1.deep_view())));
        } else {
            lemma_dns_jobs_mem(js.drop_last(), i);
            assert(js.drop_last()[i] == js[i]);
            match js.last() {
                ParserJob::Domain(y, ys) => {
                    lemma_contains_push(dns_jobs(js.drop_last()), (js[i]->Domain_0@, js[i]->Domain_1.deep_view()), (y@, ys.deep_view()));
                },
                _ => {},
            }
        }
    }
}

/// The InetNum jobs of a queue, in order, as identity and lines.
pub open spec fn inetnum_jobs(js: Seq<ParserJob>) -> Seq<(InetCidr, Seq<Seq<char>>)>
    decreases js.len(),
{
    if js.len() == 0 {
        seq![]
    } else {
        let rest = inetnum_jobs(js.drop_last());
        match js.last() {
            ParserJob::InetNum(x, ls) => rest.push((x, ls.deep_view())),
            _ => rest,
        }
    }
}

proof fn lemma_inetnum_jobs_push(js: Seq<ParserJob>, j: ParserJob)
    ensures
        inetnum_jobs(js.push(j)) == (match j {
            ParserJob::InetNum(x, ls) => inetnum_jobs(js).push((x, ls.deep_view())),
            _ => inetnum_jobs(js),
        }),
{
    assert(js.push(j).drop_last() =~= js);
}

proof fn lemma_inetnum_jobs_mem(js: Seq<ParserJob>, i: int)
    requires
        0 <= i < js.len(),
    ensures
        (js[i] matches ParserJob::InetNum(x, ls) ==> inetnum_jobs(js).contains((x, ls.deep_view()))),
    decreases js.len(),
{
    if js[i] is InetNum {
        if i == js.len() - 1 {
            let r = inetnum_jobs(js);
            assert(r[r.len() - 1] == (js[i]->InetNum_0, js[i]->InetNum_1.deep_view()));
            assert(r.contains((js[i]->InetNum_0, js[i]->InetNum_1.deep_view())));
        } else {
            lemma_inetnum_jobs_mem(js.drop_last(), i);
            assert(js.drop_last()[i] == js[i]);
            match js.last() {
                ParserJob::InetNum(y, ys) => {
                    lemma_contains_push(inetnum_jobs(js.drop_last()), (js[i]->InetNum_0, js[i]->InetNum_1.deep_view()), (y, ys.deep_view()));
                },
                _ => {},
            }
        }
    }
}

/// The Inet6Num jobs of a queue, in order, as identity and lines.
pub open spec fn inet6num_jobs(js: Seq<ParserJob>) -> Seq<(Seq<char>, Seq<u16>, u8, Seq<Seq<char>>)>
    decreases js.len(),
{
    if js.len() == 0 {
        seq![]
    } else {
        let rest = inet6num_jobs(js.drop_last());
        match js.last() {
            ParserJob::Inet6Num(x, ls) => rest.push((x.0.text@, x.0.groups@, x.1, ls.deep_view())),
            _ => rest,
        }
    }
}

proof fn lemma_inet6num_jobs_push(js: Seq<ParserJob>, j: ParserJob)
    ensures
        inet6num_jobs(js.push(j)) == (match j {
            ParserJob::Inet6Num(x, ls) => inet6num_jobs(js).push((x.0.text@, x.0.groups@, x.1, ls.deep_view())),
            _ => inet6num_jobs(js),
        }),
{
    assert(js.push(j).drop_last() =~= js);
}

proof fn lemma_inet6num_jobs_mem(js: Seq<ParserJob>, i: int)
    requires
        0 <= i < js.len(),
    ensures
        (js[i] matches ParserJob::Inet6Num(x, ls) ==> inet6num_jobs(js).contains((x.0.text@, x.0.groups@, x.1, ls.deep_view()))),
    decreases js.len(),
{
    if js[i] is Inet6Num {
        if i == js.len() - 1 {
            let r = inet6num_jobs(js);
            assert(r[r.len() - 1] == (js[i]->Inet6Num_0.0.text@, js[i]->Inet6Num_0.0.groups@, js[i]->Inet6Num_0.1, js[i]->Inet6Num_1.deep_view()));
            assert(r.contains((js[i]->Inet6Num_0.0.text@, js[i]->Inet6Num_0.0.groups@, js[i]->Inet6Num_0.1, js[i]->Inet6Num_1.deep_view())));
        } else {
            lemma_inet6num_jobs_mem(js.drop_last(), i);
            assert(js.drop_last()[i] == js[i]);
            match js.last() {
                ParserJob::Inet6Num(y, ys) => {
                    lemma_contains_push(inet6num_jobs(js.drop_last()), (js[i]->Inet6Num_0.0.text@, js[i]->Inet6Num_0.0.groups@, js[i]->Inet6Num_0.1, js[i]->Inet6Num_1.deep_view()), (y.0.text@, y.0.groups@, y.1, ys.deep_view()));
                },
                _ => {},
            }
        }
    }
}

/// The Route jobs of a queue, in order, as identity and lines.
pub open spec fn route_jobs(js: Seq<ParserJob>) -> Seq<(InetCidr, Seq<Seq<char>>)>
    decreases js.len(),
{
    if js.len() == 0 {
        seq![]
    } else {
        let rest = route_jobs(js.drop_last());
        match js.last() {
            ParserJob::Route(x, ls) => rest.push((x, ls.deep_view())),
            _ => rest,
        }
    }
}

proof fn lemma_route_jobs_push(js: Seq<ParserJob>, j: ParserJob)
    ensures
        route_jobs(js.push(j)) == (match j {
            ParserJob::Route(x, ls) => route_jobs(js).push((x, ls.deep_view())),
            _ => route_jobs(js),
        }),
{
    assert(js.push(j).drop_last() =~= js);
}

proof fn lemma_route_jobs_mem(js: Seq<ParserJob>, i: int)
    requires
        0 <= i < js.len(),
    ensures
        (js[i] matches ParserJob::Route(x, ls) ==> route_jobs(js).contains((x, ls.deep_view()))),
    decreases js.len(),
{
    if js[i] is Route {
        if i == js.len() - 1 {
            let r = route_jobs(js);
            assert(r[r.len() - 1] == (js[i]->Route_0, js[i]->Route_1.deep_view()));
            assert(r.contains((js[i]->Route_0, js[i]->Route_1.deep_view())));
        } else {
            lemma_route_jobs_mem(js.drop_last(), i);
            assert(js.drop_last()[i] == js[i]);
            match js.last() {
                ParserJob::Route(y, ys) => {
                    lemma_contains_push(route_jobs(js.drop_last()), (js[i]->Route_0, js[i]->Route_1.deep_view()), (y, ys.deep_view()));
                },
                _ => {},
            }
        }
    }
}

/// The Route6 jobs of a queue, in order, as identity and lines.
pub open spec fn route6_jobs(js: Seq<ParserJob>) -> Seq<(Seq<char>, Seq<u16>, u8, Seq<Seq<char>>)>
    decreases js.len(),
{
    if js.len() == 0 {
        seq![]
    } else {
        let rest = route6_jobs(js.drop_last());
        match js.last() {
            ParserJob::Route6(x, ls) => rest.push((x.0.text@, x.0.groups@, x.1, ls.deep_view())),
            _ => rest,
        }
    }
}

proof fn lemma_route6_jobs_push(js: Seq<ParserJob>, j: ParserJob)
    ensures
        route6_jobs(js.push(j)) == (match j {
            ParserJob::Route6(x, ls) => route6_jobs(js).push((x.0.text@, x.0.groups@, x.1, ls.deep_view())),
            _ => route6_jobs(js),
        }),
{
    assert(js.push(j).drop_last() =~= js);
}

proof fn lemma_route6_jobs_mem(js: Seq<ParserJob>, i: int)
    requires
        0 <= i < js.len(),
    ensures
        (js[i] matches ParserJob::Route6(x, ls) ==> route6_jobs(js).contains((x.0.text@, x.0.groups@, x.1, ls.deep_view()))),
    decreases js.len(),
{
    if js[i] is Route6 {
        if i == js.len() - 1 {
            let r = route6_jobs(js);
            assert(r[r.len() - 1] == (js[i]->Route6_0.0.text@, js[i]->Route6_0.0.groups@, js[i]->Route6_0.1, js[i]->Route6_1.deep_view()));
            assert(r.contains((js[i]->Route6_0.0.text@, js[i]->Route6_0.0.groups@, js[i]->Route6_0.1, js[i]->Route6_1.deep_view())));
        } else {
            lemma_route6_jobs_mem(js.drop_last(), i);
            assert(js.drop_last()[i] == js[i]);
            match js.last() {
                ParserJob::Route6(y, ys) => {
                    lemma_contains_push(route6_jobs(js.drop_last()), (js[i]->Route6_0.0.text@, js[i]->Route6_0.0.groups@, js[i]->Route6_0.1, js[i]->Route6_1.deep_view()), (y.0.text@, y.0.groups@, y.1, ys.deep_view()));
                },
                _ => {},
            }
        }
    }
}

/// The RouteSet jobs of a queue, in order, as identity and lines.
pub open spec fn route_set_jobs(js: Seq<ParserJob>) -> Seq<(Seq<char>, Seq<Seq<char>>)>
    decreases js.len(),
{
    if js.len() == 0 {
        seq![]
    } else {
        let rest = route_set_jobs(js.drop_last());
        match js.last() {
            ParserJob::RouteSet(x, ls) => rest.push((x@, ls.deep_view())),
            _ => rest,
        }
    }
}

proof fn lemma_route_set_jobs_push(js: Seq<ParserJob>, j: ParserJob)
    ensures
        route_set_jobs(js.push(j)) == (match j {
            ParserJob::RouteSet(x, ls) => route_set_jobs(js).push((x@, ls.deep_view())),
            _ => route_set_jobs(js),
        }),
{
    assert(js.push(j).drop_last() =~= js);
}

proof fn lemma_route_set_jobs_mem(js: Seq<ParserJob>, i: int)
    requires
        0 <= i < js.len(),
    ensures
        (js[i] matches ParserJob::RouteSet(x, ls) ==> route_set_jobs(js).contains((x@, ls.deep_view()))),
    decreases js.len(),
{
    if js[i] is RouteSet {
        if i == js.len() - 1 {
            let r = route_set_jobs(js);
            assert(r[r.len() - 1] == (js[i]->RouteSet_0@, js[i]->RouteSet_1.deep_view()));
            assert(r.contains((js[i]->RouteSet_0@, js[i]->RouteSet_1.deep_view())));
        } else {
            lemma_route_set_jobs_mem(js.drop_last(), i);
            assert(js.drop_last()[i] == js[i]);
            match js.last() {
                ParserJob::RouteSet(y, ys) => {
                    lemma_contains_push(route_set_jobs(js.drop_last()), (js[i]->RouteSet_0@, js[i]->RouteSet_1.deep_view()), (y@, ys.deep_view()));
                },
                _ => {},
            }
        }
    }
}


// ---------------------------------------------------------------------------
// What a whole source tree must satisfy
// ---------------------------------------------------------------------------
/// The eight groups encoded by a CIDR filename's address part.
pub open spec fn v6_filename_groups(s: Seq<char>) -> Seq<u16> {
    ipv6_groups(v6_filename_addr(s))->0
}

/// An aut-num file: `AS<number>` filename, well-formed text, acceptable keys.
pub open spec fn aut_file_ok(f: SourceFile) -> bool {
    &&& is_as_value(f.name@)
    &&& pairs_ok(f.lines.deep_view())
    &&& aut_num_ok(pairs_of(f.lines.deep_view()), as_num_of(f.name@))
}

pub open spec fn as_set_file_ok(f: SourceFile) -> bool {
    &&& pairs_ok(f.lines.deep_view())
    &&& as_set_ok(pairs_of(f.lines.deep_view()), f.name@)
}

pub open spec fn as_block_file_ok(f: SourceFile) -> bool {
    &&& pairs_ok(f.lines.deep_view())
    &&& as_block_ok(pairs_of(f.lines.deep_view()), f.name@)
}

pub open spec fn dns_file_ok(f: SourceFile) -> bool {
    &&& pairs_ok(f.lines.deep_view())
    &&& dns_ok(pairs_of(f.lines.deep_view()), f.name@)
}

pub open spec fn route_set_file_ok(f: SourceFile) -> bool {
    &&& pairs_ok(f.lines.deep_view())
    &&& route_set_ok(pairs_of(f.lines.deep_view()), f.name@)
}

pub open spec fn inetnum_file_ok(f: SourceFile) -> bool {
    &&& v4_filename(f.name@) is Some
    &&& pairs_ok(f.lines.deep_view())
    &&& inetnum_rec_ok(pairs_of(f.lines.deep_view()), v4_filename(f.name@)->0)
}

pub open spec fn route_file_ok(f: SourceFile) -> bool {
    &&& v4_filename(f.name@) is Some
    &&& pairs_ok(f.lines.deep_view())
    &&& route_ok(pairs_of(f.lines.deep_view()), v4_filename(f.name@)->0)
}

pub open spec fn inet6num_file_ok(f: SourceFile) -> bool {
    &&& v6_filename_ok(f.name@)
    &&& pairs_ok(f.lines.deep_view())
    &&& inet6num_rec_ok_text(
        pairs_of(f.lines.deep_view()),
        cidr6_text(v6_filename_addr(f.name@), v6_filename_len(f.name@)),
    )
}

pub open spec fn route6_file_ok(f: SourceFile) -> bool {
    &&& v6_filename_ok(f.name@)
    &&& pairs_ok(f.lines.deep_view())
    &&& route6_ok_text(
        pairs_of(f.lines.deep_view()),
        cidr6_text(v6_filename_addr(f.name@), v6_filename_len(f.name@)),
    )
}

/// Every file of every enabled category is parseable.
pub open spec fn source_ok(config: ParserConfig, source: RegistrySource) -> bool {
    &&& config.aut_nums ==> forall|i: int|
        0 <= i < source.aut_nums@.len() ==> aut_file_ok(#[trigger] source.aut_nums@[i])
    &&& config.as_sets ==> forall|i: int|
        0 <= i < source.as_sets@.len() ==> as_set_file_ok(#[trigger] source.as_sets@[i])
    &&& config.as_blocks ==> forall|i: int|
        0 <= i < source.as_blocks@.len() ==> as_block_file_ok(#[trigger] source.as_blocks@[i])
    &&& config.domains ==> forall|i: int|
        0 <= i < source.dns@.len() ==> dns_file_ok(#[trigger] source.dns@[i])
    &&& config.inet_nums ==> forall|i: int|
        0 <= i < source.inet_nums@.len() ==> inetnum_file_ok(#[trigger] source.inet_nums@[i])
    &&& config.inet6_nums ==> forall|i: int|
        0 <= i < source.inet6_nums@.len() ==> inet6num_file_ok(#[trigger] source.inet6_nums@[i])
    &&& config.routes ==> forall|i: int|
        0 <= i < source.routes@.len() ==> route_file_ok(#[trigger] source.routes@[i])
    &&& config.routes6 ==> forall|i: int|
        0 <= i < source.routes6@.len() ==> route6_file_ok(#[trigger] source.routes6@[i])
    &&& config.route_sets ==> forall|i: int|
        0 <= i < source.route_sets@.len() ==> route_set_file_ok(#[trigger] source.route_sets@[i])
}

/// Every filename of every enabled category encodes a valid identity.
pub open spec fn source_names_ok(config: ParserConfig, source: RegistrySource) -> bool {
    &&& config.aut_nums ==> forall|i: int|
        0 <= i < source.aut_nums@.len() ==> is_as_value((#[trigger] source.aut_nums@[i]).name@)
    &&& config.inet_nums ==> forall|i: int|
        0 <= i < source.inet_nums@.len() ==> v4_filename(
            (#[trigger] source.inet_nums@[i]).name@,
        ) is Some
    &&& config.inet6_nums ==> forall|i: int|
        0 <= i < source.inet6_nums@.len() ==> v6_filename_ok(
            (#[trigger] source.inet6_nums@[i]).name@,
        )
    &&& config.routes ==> forall|i: int|
        0 <= i < source.routes@.len() ==> v4_filename((#[trigger] source.routes@[i]).name@) is Some
    &&& config.routes6 ==> forall|i: int|
        0 <= i < source.routes6@.len() ==> v6_filename_ok((#[trigger] source.routes6@[i]).name@)
}

// ---------------------------------------------------------------------------
// What the queue must carry per category
// ---------------------------------------------------------------------------
pub open spec fn aut_expected(files: Seq<SourceFile>) -> Seq<(u32, Seq<Seq<char>>)> {
    files.map_values(|f: SourceFile| (as_num_of(f.name@), f.lines.deep_view()))
}

pub open spec fn as_set_expected(files: Seq<SourceFile>) -> Seq<(Seq<char>, Seq<Seq<char>>)> {
    files.map_values(|f: SourceFile| (f.name@, f.lines.deep_view()))
}

pub open spec fn inetnum_expected(files: Seq<SourceFile>) -> Seq<(InetCidr, Seq<Seq<char>>)> {
    files.map_values(|f: SourceFile| (v4_filename(f.name@)->0, f.lines.deep_view()))
}

pub open spec fn inet6num_expected(files: Seq<SourceFile>) -> Seq<
    (Seq<char>, Seq<u16>, u8, Seq<Seq<char>>),
> {
    files.map_values(
        |f: SourceFile|
            (
                v6_filename_addr(f.name@),
                v6_filename_groups(f.name@),
                v6_filename_len(f.name@),
                f.lines.deep_view(),
            ),
    )
}

// ---------------------------------------------------------------------------
// What an executed job leaves in the store
// ---------------------------------------------------------------------------
pub open spec fn aut_rec_job(rec: RegistryAutNum, j: (u32, Seq<Seq<char>>)) -> bool {
    &&& pairs_ok(j.1)
    &&& aut_num_ok(pairs_of(j.1), j.0)
    &&& aut_num_matches(rec, pairs_of(j.1), j.0)
}

pub open spec fn as_set_rec_job(rec: RegistryAsSet, j: (Seq<char>, Seq<Seq<char>>)) -> bool {
    &&& pairs_ok(j.1)
    &&& as_set_ok(pairs_of(j.1), j.0)
    &&& as_set_matches(rec, pairs_of(j.1), j.0)
}

pub open spec fn as_block_rec_job(rec: RegistryAsBlock, j: (Seq<char>, Seq<Seq<char>>)) -> bool {
    &&& pairs_ok(j.1)
    &&& as_block_ok(pairs_of(j.1), j.0)
    &&& as_block_matches(rec, pairs_of(j.1), j.0)
}

pub open spec fn dns_rec_job(rec: RegistryDns, j: (Seq<char>, Seq<Seq<char>>)) -> bool {
    &&& pairs_ok(j.1)
    &&& dns_ok(pairs_of(j.1), j.0)
    &&& dns_matches(rec, pairs_of(j.1), j.0)
}

pub open spec fn route_set_rec_job(rec: RegistryRouteSet, j: (Seq<char>, Seq<Seq<char>>)) -> bool {
    &&& pairs_ok(j.1)
    &&& route_set_ok(pairs_of(j.1), j.0)
    &&& route_set_matches(rec, pairs_of(j.1), j.0)
}

pub open spec fn inetnum_rec_job(rec: RegistryInetNum, j: (InetCidr, Seq<Seq<char>>)) -> bool {
    &&& pairs_ok(j.1)
    &&& inetnum_rec_ok(pairs_of(j.1), j.0)
    &&& inetnum_rec_matches(rec, pairs_of(j.1), j.0)
}

pub open spec fn route_rec_job(rec: RegistryRoute, j: (InetCidr, Seq<Seq<char>>)) -> bool {
    &&& pairs_ok(j.1)
    &&& route_ok(pairs_of(j.1), j.0)
    &&& route_matches(rec, pairs_of(j.1), j.0)
}

pub open spec fn inet6num_rec_job(
    rec: RegistryInet6Num,
    j: (Seq<char>, Seq<u16>, u8, Seq<Seq<char>>),
) -> bool {
    &&& rec.cidr.0.text@ == j.0
    &&& rec.cidr.0.groups@ == j.1
    &&& rec.cidr.1 == j.2
    &&& pairs_ok(j.3)
    &&& inet6num_rec_ok(pairs_of(j.3), rec.cidr)
    &&& inet6num_rec_matches(rec, pairs_of(j.3), rec.cidr)
}

pub open spec fn route6_rec_job(
    rec: RegistryRoute6,
    j: (Seq<char>, Seq<u16>, u8, Seq<Seq<char>>),
) -> bool {
    &&& rec.route6.0.text@ == j.0
    &&& rec.route6.0.groups@ == j.1
    &&& rec.route6.1 == j.2
    &&& pairs_ok(j.3)
    &&& route6_ok(pairs_of(j.3), rec.route6)
    &&& route6_matches(rec, pairs_of(j.3), rec.route6)
}

pub open spec fn aut_recs_jobs(recs: Seq<RegistryAutNum>, js: Seq<(u32, Seq<Seq<char>>)>) -> bool {
    recs.len() == js.len() && forall|i: int|
        0 <= i < js.len() ==> aut_rec_job(#[trigger] recs[i], js[i])
}

pub open spec fn as_set_recs_jobs(
    recs: Seq<RegistryAsSet>,
    js: Seq<(Seq<char>, Seq<Seq<char>>)>,
) -> bool {
    recs.len() == js.len() && forall|i: int|
        0 <= i < js.len() ==> as_set_rec_job(#[trigger] recs[i], js[i])
}

pub open spec fn as_block_recs_jobs(
    recs: Seq<RegistryAsBlock>,
    js: Seq<(Seq<char>, Seq<Seq<char>>)>,
) -> bool {
    recs.len() == js.len() && forall|i: int|
        0 <= i < js.len() ==> as_block_rec_job(#[trigger] recs[i], js[i])
}

pub open spec fn dns_recs_jobs(recs: Seq<RegistryDns>, js: Seq<(Seq<char>, Seq<Seq<char>>)>) -> bool {
    recs.len() == js.len() && forall|i: int|
        0 <= i < js.len() ==> dns_rec_job(#[trigger] recs[i], js[i])
}

pub open spec fn route_set_recs_jobs(
    recs: Seq<RegistryRouteSet>,
    js: Seq<(Seq<char>, Seq<Seq<char>>)>,
) -> bool {
    recs.len() == js.len() && forall|i: int|
        0 <= i < js.len() ==> route_set_rec_job(#[trigger] recs[i], js[i])
}

pub open spec fn inetnum_recs_jobs(
    recs: Seq<RegistryInetNum>,
    js: Seq<(InetCidr, Seq<Seq<char>>)>,
) -> bool {
    recs.len() == js.len() && forall|i: int|
        0 <= i < js.len() ==> inetnum_rec_job(#[trigger] recs[i], js[i])
}

pub open spec fn route_recs_jobs(
    recs: Seq<RegistryRoute>,
    js: Seq<(InetCidr, Seq<Seq<char>>)>,
) -> bool {
    recs.len() == js.len() && forall|i: int|
        0 <= i < js.len() ==> route_rec_job(#[trigger] recs[i], js[i])
}

pub open spec fn inet6num_recs_jobs(
    recs: Seq<RegistryInet6Num>,
    js: Seq<(Seq<char>, Seq<u16>, u8, Seq<Seq<char>>)>,
) -> bool {
    recs.len() == js.len() && forall|i: int|
        0 <= i < js.len() ==> inet6num_rec_job(#[trigger] recs[i], js[i])
}

pub open spec fn route6_recs_jobs(
    recs: Seq<RegistryRoute6>,
    js: Seq<(Seq<char>, Seq<u16>, u8, Seq<Seq<char>>)>,
) -> bool {
    recs.len() == js.len() && forall|i: int|
        0 <= i < js.len() ==> route6_rec_job(#[trigger] recs[i], js[i])
}

/// The whole store corresponds to the source tree: enabled categories filled
/// completely and in discovery order, disabled categories empty.
pub open spec fn store_matches(d: RegistryData, config: ParserConfig, source: RegistrySource) -> bool {
    &&& if config.aut_nums {
        aut_recs_jobs(d.aut_nums@, aut_expected(source.aut_nums@))
    } else {
        d.aut_nums@.len() == 0
    }
    &&& if config.as_sets {
        as_set_recs_jobs(d.as_sets@, as_set_expected(source.as_sets@))
    } else {
        d.as_sets@.len() == 0
    }
    &&& if config.as_blocks {
        as_block_recs_jobs(d.as_blocks@, as_set_expected(source.as_blocks@))
    } else {
        d.as_blocks@.len() == 0
    }
    &&& if config.domains {
        dns_recs_jobs(d.dns@, as_set_expected(source.dns@))
    } else {
        d.dns@.len() == 0
    }
    &&& if config.inet_nums {
        inetnum_recs_jobs(d.inet_nums@, inetnum_expected(source.inet_nums@))
    } else {
        d.inet_nums@.len() == 0
    }
    &&& if config.inet6_nums {
        inet6num_recs_jobs(d.inet6_nums@, inet6num_expected(source.inet6_nums@))
    } else {
        d.inet6_nums@.len() == 0
    }
    &&& if config.routes {
        route_recs_jobs(d.routes@, inetnum_expected(source.routes@))
    } else {
        d.routes@.len() == 0
    }
    &&& if config.routes6 {
        route6_recs_jobs(d.routes6@, inet6num_expected(source.routes6@))
    } else {
        d.routes6@.len() == 0
    }
    &&& if config.route_sets {
        route_set_recs_jobs(d.route_sets@, as_set_expected(source.route_sets@))
    } else {
        d.route_sets@.len() == 0
    }
}

/// The record-level acceptance of an inet6num file depends on the block's
/// text form alone.
proof fn lemma_inet6num_ok_text(ps: Seq<(Seq<char>, Seq<char>)>, cidr: Inet6Cidr)
    ensures
        inet6num_rec_ok(ps, cidr) <==> inet6num_rec_ok_text(
            ps,
            cidr6_text(cidr.0.text@, cidr.1),
        ),
{
    let t = cidr6_text(cidr.0.text@, cidr.1);
    assert(inet6_cidr_text(cidr) == t);
    if inet6num_rec_ok(ps, cidr) {
        assert forall|i: int| 0 <= i < ps.len() implies inet6num_rec_key_ok_text(
            #[trigger] ps[i],
            t,
        ) by {
            assert(inet6num_rec_key_ok(ps[i], cidr));
        }
    }
    if inet6num_rec_ok_text(ps, t) {
        assert forall|i: int| 0 <= i < ps.len() implies inet6num_rec_key_ok(
            #[trigger] ps[i],
            cidr,
        ) by {
            assert(inet6num_rec_key_ok_text(ps[i], t));
        }
    }
}

/// The record-level acceptance of a route6 file depends on the block's text
/// form alone.
proof fn lemma_route6_ok_text(ps: Seq<(Seq<char>, Seq<char>)>, cidr: Inet6Cidr)
    ensures
        route6_ok(ps, cidr) <==> route6_ok_text(ps, cidr6_text(cidr.0.text@, cidr.1)),
{
    let t = cidr6_text(cidr.0.text@, cidr.1);
    assert(inet6_cidr_text(cidr) == t);
    if route6_ok(ps, cidr) {
        assert forall|i: int| 0 <= i < ps.len() implies route6_key_ok_text(
            #[trigger] ps[i],
            t,
        ) by {
            assert(route6_key_ok(ps[i], cidr));
        }
    }
    if route6_ok_text(ps, t) {
        assert forall|i: int| 0 <= i < ps.len() implies route6_key_ok(#[trigger] ps[i], cidr) by {
            assert(route6_key_ok_text(ps[i], t));
        }
    }
}

/// Decodes an `AS<number>` filename.
fn parse_as_filename(name: &str) -> (r: Option<u32>)
    ensures
        r is Some <==> is_as_value(name@),
        r matches Some(n) ==> n == as_num_of(name@),
{
    proof {
        reveal_strlit("AS");
    }
    if !starts_with_str(name, "AS") {
        return None;
    }
    let n = name.unicode_len();
    let rest = crate::text::copy_range(name, 2, n);
    assert(rest@ =~= name@.skip(2));
    parse_dec_u32(rest.as_str())
}

/// Clones a file's lines; the copy reads the same.
fn clone_lines(v: &Vec<String>) -> (r: Vec<String>)
    ensures
        r@ == v@,
{
    let r = v.clone();
    proof {
        assert forall|i: int| 0 <= i < v@.len() implies r@[i] == v@[i] by {
            assert(cloned::<String>(v[i], r[i]));
        }
        assert(r@ =~= v@);
    }
    r
}


// ---------------------------------------------------------------------------
// The scheduler itself
// ---------------------------------------------------------------------------
/// A parse run's state: the store being filled, the job queue, and the
/// category selection.
pub struct ParserContext {
    pub registry_data: RegistryData,
    pub jobs: VecDeque<ParserJob>,
    pub config: ParserConfig,
}

impl ParserContext {
    /// A context with an empty store.
    pub fn new(config: ParserConfig) -> (r: ParserContext)
        ensures
            registry_data_empty(r.registry_data),
            r.config == config,
    {
        ParserContext {
            registry_data: RegistryData::new(),
            jobs: VecDeque::new(),
            config,
        }
    }


    /// Queues one job per aut-nums file.
    fn queue_aut_nums(&mut self, files: &Vec<SourceFile>) -> (r: Result<(), ParseError>)
        ensures
            final(self).config == old(self).config,
            final(self).registry_data == old(self).registry_data,
            r is Ok <==> (forall|i: int| 0 <= i < files@.len() ==> is_as_value((#[trigger] files@[i]).name@)),
            r is Ok ==> aut_jobs(final(self).jobs@) == aut_jobs(old(self).jobs@) + aut_expected(files@),
                as_set_jobs(final(self).jobs@) == as_set_jobs(old(self).jobs@),
                as_block_jobs(final(self).jobs@) == as_block_jobs(old(self).jobs@),
                dns_jobs(final(self).jobs@) == dns_jobs(old(self).jobs@),
                inetnum_jobs(final(self).jobs@) == inetnum_jobs(old(self).jobs@),
                inet6num_jobs(final(self).jobs@) == inet6num_jobs(old(self).jobs@),
                route_jobs(final(self).jobs@) == route_jobs(old(self).jobs@),
                route6_jobs(final(self).jobs@) == route6_jobs(old(self).jobs@),
                route_set_jobs(final(self).jobs@) == route_set_jobs(old(self).jobs@),
    {
        let ghost js0 = self.jobs@;
        proof {
            assert(aut_expected(files@.subrange(0, 0)) =~= Seq::empty());
        }
        let mut j: usize = 0;
        while j < files.len()
            invariant
                0 <= j <= files.len(),
                self.config == old(self).config,
                self.registry_data == old(self).registry_data,
                forall|i: int| 0 <= i < j ==> is_as_value((#[trigger] files@[i]).name@),
                aut_jobs(self.jobs@) == aut_jobs(js0) + aut_expected(files@.subrange(0, j as int)),
                as_set_jobs(self.jobs@) == as_set_jobs(js0),
                as_block_jobs(self.jobs@) == as_block_jobs(js0),
                dns_jobs(self.jobs@) == dns_jobs(js0),
                inetnum_jobs(self.jobs@) == inetnum_jobs(js0),
                inet6num_jobs(self.jobs@) == inet6num_jobs(js0),
                route_jobs(self.jobs@) == route_jobs(js0),
                route6_jobs(self.jobs@) == route6_jobs(js0),
                route_set_jobs(self.jobs@) == route_set_jobs(js0),
            decreases files.len() - j,
        {
            let f = &files[j];
            match parse_as_filename(f.name.as_str()) {
                Some(num) => {
                    let cl = clone_lines(&f.lines);
                    let job = ParserJob::AutNum(num, cl);
                    let ghost gjob = job;
                    let ghost jsb = self.jobs@;
                    self.jobs.push_back(job);
                    proof {
                lemma_aut_jobs_push(jsb, gjob);
                lemma_as_set_jobs_push(jsb, gjob);
                lemma_as_block_jobs_push(jsb, gjob);
                lemma_dns_jobs_push(jsb, gjob);
                lemma_inetnum_jobs_push(jsb, gjob);
                lemma_inet6num_jobs_push(jsb, gjob);
                lemma_route_jobs_push(jsb, gjob);
                lemma_route6_jobs_push(jsb, gjob);
                lemma_route_set_jobs_push(jsb, gjob);
                        assert(aut_expected(files@.subrange(0, j + 1)) =~= aut_expected(
                            files@.subrange(0, j as int),
                        ).push((as_num_of(files@[j as int].name@), files@[j as int].lines.deep_view())));
                    }
                },
                None => {
                    return Err(ParseError::BadFilename { name: f.name.clone() });
                },
            }
            j = j + 1;
        }
        assert(files@.subrange(0, files@.len() as int) =~= files@);
        Ok(())
    }

    /// Queues one job per as-sets file.
    fn queue_as_sets(&mut self, files: &Vec<SourceFile>) -> (r: Result<(), ParseError>)
        ensures
            final(self).config == old(self).config,
            final(self).registry_data == old(self).registry_data,
            r is Ok,
            r is Ok ==> as_set_jobs(final(self).jobs@) == as_set_jobs(old(self).jobs@) + as_set_expected(files@),
                aut_jobs(final(self).jobs@) == aut_jobs(old(self).jobs@),
                as_block_jobs(final(self).jobs@) == as_block_jobs(old(self).jobs@),
                dns_jobs(final(self).jobs@) == dns_jobs(old(self).jobs@),
                inetnum_jobs(final(self).jobs@) == inetnum_jobs(old(self).jobs@),
                inet6num_jobs(final(self).jobs@) == inet6num_jobs(old(self).jobs@),
                route_jobs(final(self).jobs@) == route_jobs(old(self).jobs@),
                route6_jobs(final(self).jobs@) == route6_jobs(old(self).jobs@),
                route_set_jobs(final(self).jobs@) == route_set_jobs(old(self).jobs@),
    {
        let ghost js0 = self.jobs@;
        proof {
            assert(as_set_expected(files@.subrange(0, 0)) =~= Seq::empty());
        }
        let mut j: usize = 0;
        while j < files.len()
            invariant
                0 <= j <= files.len(),
                self.config == old(self).config,
                self.registry_data == old(self).registry_data,
                as_set_jobs(self.jobs@) == as_set_jobs(js0) + as_set_expected(files@.subrange(0, j as int)),
                aut_jobs(self.jobs@) == aut_jobs(js0),
                as_block_jobs(self.jobs@) == as_block_jobs(js0),
                dns_jobs(self.jobs@) == dns_jobs(js0),
                inetnum_jobs(self.jobs@) == inetnum_jobs(js0),
                inet6num_jobs(self.jobs@) == inet6num_jobs(js0),
                route_jobs(self.jobs@) == route_jobs(js0),
                route6_jobs(self.jobs@) == route6_jobs(js0),
                route_set_jobs(self.jobs@) == route_set_jobs(js0),
            decreases files.len() - j,
        {
            let f = &files[j];
            let cl = clone_lines(&f.lines);
            let job = ParserJob::AsSet(f.name.clone(), cl);
            let ghost gjob = job;
            let ghost jsb = self.jobs@;
            self.jobs.push_back(job);
            proof {
                lemma_aut_jobs_push(jsb, gjob);
                lemma_as_set_jobs_push(jsb, gjob);
                lemma_as_block_jobs_push(jsb, gjob);
                lemma_dns_jobs_push(jsb, gjob);
                lemma_inetnum_jobs_push(jsb, gjob);
                lemma_inet6num_jobs_push(jsb, gjob);
                lemma_route_jobs_push(jsb, gjob);
                lemma_route6_jobs_push(jsb, gjob);
                lemma_route_set_jobs_push(jsb, gjob);
                assert(as_set_expected(files@.subrange(0, j + 1)) =~= as_set_expected(
                    files@.subrange(0, j as int),
                ).push((files@[j as int].name@, files@[j as int].lines.deep_view())));
            }
            j = j + 1;
        }
        assert(files@.subrange(0, files@.len() as int) =~= files@);
        Ok(())
    }

    /// Queues one job per as-blocks file.
    fn queue_as_blocks(&mut self, files: &Vec<SourceFile>) -> (r: Result<(), ParseError>)
        ensures
            final(self).config == old(self).config,
            final(self).registry_data == old(self).registry_data,
            r is Ok,
            r is Ok ==> as_block_jobs(final(self).jobs@) == as_block_jobs(old(self).jobs@) + as_set_expected(files@),
                aut_jobs(final(self).jobs@) == aut_jobs(old(self).jobs@),
                as_set_jobs(final(self).jobs@) == as_set_jobs(old(self).jobs@),
                dns_jobs(final(self).jobs@) == dns_jobs(old(self).jobs@),
                inetnum_jobs(final(self).jobs@) == inetnum_jobs(old(self).jobs@),
                inet6num_jobs(final(self).jobs@) == inet6num_jobs(old(self).jobs@),
                route_jobs(final(self).jobs@) == route_jobs(old(self).jobs@),
                route6_jobs(final(self).jobs@) == route6_jobs(old(self).jobs@),
                route_set_jobs(final(self).jobs@) == route_set_jobs(old(self).jobs@),
    {
        let ghost js0 = self.jobs@;
        proof {
            assert(as_set_expected(files@.subrange(0, 0)) =~= Seq::empty());
        }
        let mut j: usize = 0;
        while j < files.len()
            invariant
                0 <= j <= files.len(),
                self.config == old(self).config,
                self.registry_data == old(self).registry_data,
                as_block_jobs(self.jobs@) == as_block_jobs(js0) + as_set_expected(files@.subrange(0, j as int)),
                aut_jobs(self.jobs@) == aut_jobs(js0),
                as_set_jobs(self.jobs@) == as_set_jobs(js0),
                dns_jobs(self.jobs@) == dns_jobs(js0),
                inetnum_jobs(self.jobs@) == inetnum_jobs(js0),
                inet6num_jobs(self.jobs@) == inet6num_jobs(js0),
                route_jobs(self.jobs@) == route_jobs(js0),
                route6_jobs(self.jobs@) == route6_jobs(js0),
                route_set_jobs(self.jobs@) == route_set_jobs(js0),
            decreases files.len() - j,
        {
            let f = &files[j];
            let cl = clone_lines(&f.lines);
            let job = ParserJob::AsBlock(f.name.clone(), cl);
            let ghost gjob = job;
            let ghost jsb = self.jobs@;
            self.jobs.push_back(job);
            proof {
                lemma_aut_jobs_push(jsb, gjob);
                lemma_as_set_jobs_push(jsb, gjob);
                lemma_as_block_jobs_push(jsb, gjob);
                lemma_dns_jobs_push(jsb, gjob);
                lemma_inetnum_jobs_push(jsb, gjob);
                lemma_inet6num_jobs_push(jsb, gjob);
                lemma_route_jobs_push(jsb, gjob);
                lemma_route6_jobs_push(jsb, gjob);
                lemma_route_set_jobs_push(jsb, gjob);
                assert(as_set_expected(files@.subrange(0, j + 1)) =~= as_set_expected(
                    files@.subrange(0, j as int),
                ).push((files@[j as int].name@, files@[j as int].lines.deep_view())));
            }
            j = j + 1;
        }
        assert(files@.subrange(0, files@.len() as int) =~= files@);
        Ok(())
    }

    /// Queues one job per dns file.
    fn queue_domains(&mut self, files: &Vec<SourceFile>) -> (r: Result<(), ParseError>)
        ensures
            final(self).config == old(self).config,
            final(self).registry_data == old(self).registry_data,
            r is Ok,
            r is Ok ==> dns_jobs(final(self).jobs@) == dns_jobs(old(self).jobs@) + as_set_expected(files@),
                aut_jobs(final(self).jobs@) == aut_jobs(old(self).jobs@),
                as_set_jobs(final(self).jobs@) == as_set_jobs(old(self).jobs@),
                as_block_jobs(final(self).jobs@) == as_block_jobs(old(self).jobs@),
                inetnum_jobs(final(self).jobs@) == inetnum_jobs(old(self).jobs@),
                inet6num_jobs(final(self).jobs@) == inet6num_jobs(old(self).jobs@),
                route_jobs(final(self).jobs@) == route_jobs(old(self).jobs@),
                route6_jobs(final(self).jobs@) == route6_jobs(old(self).jobs@),
                route_set_jobs(final(self).jobs@) == route_set_jobs(old(self).jobs@),
    {
        let ghost js0 = self.jobs@;
        proof {
            assert(as_set_expected(files@.subrange(0, 0)) =~= Seq::empty());
        }
        let mut j: usize = 0;
        while j < files.len()
            invariant
                0 <= j <= files.len(),
                self.config == old(self).config,
                self.registry_data == old(self).registry_data,
                dns_jobs(self.jobs@) == dns_jobs(js0) + as_set_expected(files@.subrange(0, j as int)),
                aut_jobs(self.jobs@) == aut_jobs(js0),
                as_set_jobs(self.jobs@) == as_set_jobs(js0),
                as_block_jobs(self.jobs@) == as_block_jobs(js0),
                inetnum_jobs(self.jobs@) == inetnum_jobs(js0),
                inet6num_jobs(self.jobs@) == inet6num_jobs(js0),
                route_jobs(self.jobs@) == route_jobs(js0),
                route6_jobs(self.jobs@) == route6_jobs(js0),
                route_set_jobs(self.jobs@) == route_set_jobs(js0),
            decreases files.len() - j,
        {
            let f = &files[j];
            let cl = clone_lines(&f.lines);
            let job = ParserJob::Domain(f.name.clone(), cl);
            let ghost gjob = job;
            let ghost jsb = self.jobs@;
            self.jobs.push_back(job);
            proof {
                lemma_aut_jobs_push(jsb, gjob);
                lemma_as_set_jobs_push(jsb, gjob);
                lemma_as_block_jobs_push(jsb, gjob);
                lemma_dns_jobs_push(jsb, gjob);
                lemma_inetnum_jobs_push(jsb, gjob);
                lemma_inet6num_jobs_push(jsb, gjob);
                lemma_route_jobs_push(jsb, gjob);
                lemma_route6_jobs_push(jsb, gjob);
                lemma_route_set_jobs_push(jsb, gjob);
                assert(as_set_expected(files@.subrange(0, j + 1)) =~= as_set_expected(
                    files@.subrange(0, j as int),
                ).push((files@[j as int].name@, files@[j as int].lines.deep_view())));
            }
            j = j + 1;
        }
        assert(files@.subrange(0, files@.len() as int) =~= files@);
        Ok(())
    }

    /// Queues one job per inet-nums file.
    fn queue_inet_nums(&mut self, files: &Vec<SourceFile>) -> (r: Result<(), ParseError>)
        ensures
            final(self).config == old(self).config,
            final(self).registry_data == old(self).registry_data,
            r is Ok <==> (forall|i: int| 0 <= i < files@.len() ==> v4_filename((#[trigger] files@[i]).name@) is Some),
            r is Ok ==> inetnum_jobs(final(self).jobs@) == inetnum_jobs(old(self).jobs@) + inetnum_expected(files@),
                aut_jobs(final(self).jobs@) == aut_jobs(old(self).jobs@),
                as_set_jobs(final(self).jobs@) == as_set_jobs(old(self).jobs@),
                as_block_jobs(final(self).jobs@) == as_block_jobs(old(self).jobs@),
                dns_jobs(final(self).jobs@) == dns_jobs(old(self).jobs@),
                inet6num_jobs(final(self).jobs@) == inet6num_jobs(old(self).jobs@),
                route_jobs(final(self).jobs@) == route_jobs(old(self).jobs@),
                route6_jobs(final(self).jobs@) == route6_jobs(old(self).jobs@),
                route_set_jobs(final(self).jobs@) == route_set_jobs(old(self).jobs@),
    {
        let ghost js0 = self.jobs@;
        proof {
            assert(inetnum_expected(files@.subrange(0, 0)) =~= Seq::empty());
        }
        let mut j: usize = 0;
        while j < files.len()
            invariant
                0 <= j <= files.len(),
                self.config == old(self).config,
                self.registry_data == old(self).registry_data,
                forall|i: int| 0 <= i < j ==> v4_filename((#[trigger] files@[i]).name@) is Some,
                inetnum_jobs(self.jobs@) == inetnum_jobs(js0) + inetnum_expected(files@.subrange(0, j as int)),
                aut_jobs(self.jobs@) == aut_jobs(js0),
                as_set_jobs(self.jobs@) == as_set_jobs(js0),
                as_block_jobs(self.jobs@) == as_block_jobs(js0),
                dns_jobs(self.jobs@) == dns_jobs(js0),
                inet6num_jobs(self.jobs@) == inet6num_jobs(js0),
                route_jobs(self.jobs@) == route_jobs(js0),
                route6_jobs(self.jobs@) == route6_jobs(js0),
                route_set_jobs(self.jobs@) == route_set_jobs(js0),
            decreases files.len() - j,
        {
            let f = &files[j];
            match InetCidr::from_filename(f.name.as_str()) {
                Ok(cidr) => {
                    let cl = clone_lines(&f.lines);
                    let job = ParserJob::InetNum(cidr, cl);
                    let ghost gjob = job;
                    let ghost jsb = self.jobs@;
                    self.jobs.push_back(job);
                    proof {
                lemma_aut_jobs_push(jsb, gjob);
                lemma_as_set_jobs_push(jsb, gjob);
                lemma_as_block_jobs_push(jsb, gjob);
                lemma_dns_jobs_push(jsb, gjob);
                lemma_inetnum_jobs_push(jsb, gjob);
                lemma_inet6num_jobs_push(jsb, gjob);
                lemma_route_jobs_push(jsb, gjob);
                lemma_route6_jobs_push(jsb, gjob);
                lemma_route_set_jobs_push(jsb, gjob);
                        assert(inetnum_expected(files@.subrange(0, j + 1)) =~= inetnum_expected(
                            files@.subrange(0, j as int),
                        ).push((v4_filename(files@[j as int].name@)->0, files@[j as int].lines.deep_view())));
                    }
                },
                Err(e) => {
                    return Err(e);
                },
            }
            j = j + 1;
        }
        assert(files@.subrange(0, files@.len() as int) =~= files@);
        Ok(())
    }

    /// Queues one job per inet6-nums file.
    fn queue_inet6_nums(&mut self, files: &Vec<SourceFile>) -> (r: Result<(), ParseError>)
        ensures
            final(self).config == old(self).config,
            final(self).registry_data == old(self).registry_data,
            r is Ok <==> (forall|i: int| 0 <= i < files@.len() ==> v6_filename_ok((#[trigger] files@[i]).name@)),
            r is Ok ==> inet6num_jobs(final(self).jobs@) == inet6num_jobs(old(self).jobs@) + inet6num_expected(files@),
                aut_jobs(final(self).jobs@) == aut_jobs(old(self).jobs@),
                as_set_jobs(final(self).jobs@) == as_set_jobs(old(self).jobs@),
                as_block_jobs(final(self).jobs@) == as_block_jobs(old(self).jobs@),
                dns_jobs(final(self).jobs@) == dns_jobs(old(self).jobs@),
                inetnum_jobs(final(self).jobs@) == inetnum_jobs(old(self).jobs@),
                route_jobs(final(self).jobs@) == route_jobs(old(self).jobs@),
                route6_jobs(final(self).jobs@) == route6_jobs(old(self).jobs@),
                route_set_jobs(final(self).jobs@) == route_set_jobs(old(self).jobs@),
    {
        let ghost js0 = self.jobs@;
        proof {
            assert(inet6num_expected(files@.subrange(0, 0)) =~= Seq::empty());
        }
        let mut j: usize = 0;
        while j < files.len()
            invariant
                0 <= j <= files.len(),
                self.config == old(self).config,
                self.registry_data == old(self).registry_data,
                forall|i: int| 0 <= i < j ==> v6_filename_ok((#[trigger] files@[i]).name@),
                inet6num_jobs(self.jobs@) == inet6num_jobs(js0) + inet6num_expected(files@.subrange(0, j as int)),
                aut_jobs(self.jobs@) == aut_jobs(js0),
                as_set_jobs(self.jobs@) == as_set_jobs(js0),
                as_block_jobs(self.jobs@) == as_block_jobs(js0),
                dns_jobs(self.jobs@) == dns_jobs(js0),
                inetnum_jobs(self.jobs@) == inetnum_jobs(js0),
                route_jobs(self.jobs@) == route_jobs(js0),
                route6_jobs(self.jobs@) == route6_jobs(js0),
                route_set_jobs(self.jobs@) == route_set_jobs(js0),
            decreases files.len() - j,
        {
            let f = &files[j];
            match Inet6Cidr::from_filename(f.name.as_str()) {
                Ok(cidr) => {
                    let cl = clone_lines(&f.lines);
                    let job = ParserJob::Inet6Num(cidr, cl);
                    let ghost gjob = job;
                    let ghost jsb = self.jobs@;
                    self.jobs.push_back(job);
                    proof {
                lemma_aut_jobs_push(jsb, gjob);
                lemma_as_set_jobs_push(jsb, gjob);
                lemma_as_block_jobs_push(jsb, gjob);
                lemma_dns_jobs_push(jsb, gjob);
                lemma_inetnum_jobs_push(jsb, gjob);
                lemma_inet6num_jobs_push(jsb, gjob);
                lemma_route_jobs_push(jsb, gjob);
                lemma_route6_jobs_push(jsb, gjob);
                lemma_route_set_jobs_push(jsb, gjob);
                        assert(inet6num_expected(files@.subrange(0, j + 1)) =~= inet6num_expected(
                            files@.subrange(0, j as int),
                        ).push((v6_filename_addr(files@[j as int].name@), v6_filename_groups(files@[j as int].name@), v6_filename_len(files@[j as int].name@), files@[j as int].lines.deep_view())));
                    }
                },
                Err(e) => {
                    return Err(e);
                },
            }
            j = j + 1;
        }
        assert(files@.subrange(0, files@.len() as int) =~= files@);
        Ok(())
    }

    /// Queues one job per routes file.
    fn queue_routes(&mut self, files: &Vec<SourceFile>) -> (r: Result<(), ParseError>)
        ensures
            final(self).config == old(self).config,
            final(self).registry_data == old(self).registry_data,
            r is Ok <==> (forall|i: int| 0 <= i < files@.len() ==> v4_filename((#[trigger] files@[i]).name@) is Some),
            r is Ok ==> route_jobs(final(self).jobs@) == route_jobs(old(self).jobs@) + inetnum_expected(files@),
                aut_jobs(final(self).jobs@) == aut_jobs(old(self).jobs@),
                as_set_jobs(final(self).jobs@) == as_set_jobs(old(self).jobs@),
                as_block_jobs(final(self).jobs@) == as_block_jobs(old(self).jobs@),
                dns_jobs(final(self).jobs@) == dns_jobs(old(self).jobs@),
                inetnum_jobs(final(self).jobs@) == inetnum_jobs(old(self).jobs@),
                inet6num_jobs(final(self).jobs@) == inet6num_jobs(old(self).jobs@),
                route6_jobs(final(self).jobs@) == route6_jobs(old(self).jobs@),
                route_set_jobs(final(self).jobs@) == route_set_jobs(old(self).jobs@),
    {
        let ghost js0 = self.jobs@;
        proof {
            assert(inetnum_expected(files@.subrange(0, 0)) =~= Seq::empty());
        }
        let mut j: usize = 0;
        while j < files.len()
            invariant
                0 <= j <= files.len(),
                self.config == old(self).config,
                self.registry_data == old(self).registry_data,
                forall|i: int| 0 <= i < j ==> v4_filename((#[trigger] files@[i]).name@) is Some,
                route_jobs(self.jobs@) == route_jobs(js0) + inetnum_expected(files@.subrange(0, j as int)),
                aut_jobs(self.jobs@) == aut_jobs(js0),
                as_set_jobs(self.jobs@) == as_set_jobs(js0),
                as_block_jobs(self.jobs@) == as_block_jobs(js0),
                dns_jobs(self.jobs@) == dns_jobs(js0),
                inetnum_jobs(self.jobs@) == inetnum_jobs(js0),
                inet6num_jobs(self.jobs@) == inet6num_jobs(js0),
                route6_jobs(self.jobs@) == route6_jobs(js0),
                route_set_jobs(self.jobs@) == route_set_jobs(js0),
            decreases files.len() - j,
        {
            let f = &files[j];
            match InetCidr::from_filename(f.name.as_str()) {
                Ok(cidr) => {
                    let cl = clone_lines(&f.lines);
                    let job = ParserJob::Route(cidr, cl);
                    let ghost gjob = job;
                    let ghost jsb = self.jobs@;
                    self.jobs.push_back(job);
                    proof {
                lemma_aut_jobs_push(jsb, gjob);
                lemma_as_set_jobs_push(jsb, gjob);
                lemma_as_block_jobs_push(jsb, gjob);
                lemma_dns_jobs_push(jsb, gjob);
                lemma_inetnum_jobs_push(jsb, gjob);
                lemma_inet6num_jobs_push(jsb, gjob);
                lemma_route_jobs_push(jsb, gjob);
                lemma_route6_jobs_push(jsb, gjob);
                lemma_route_set_jobs_push(jsb, gjob);
                        assert(inetnum_expected(files@.subrange(0, j + 1)) =~= inetnum_expected(
                            files@.subrange(0, j as int),
                        ).push((v4_filename(files@[j as int].name@)->0, files@[j as int].lines.deep_view())));
                    }
                },
                Err(e) => {
                    return Err(e);
                },
            }
            j = j + 1;
        }
        assert(files@.subrange(0, files@.len() as int) =~= files@);
        Ok(())
    }

    /// Queues one job per routes6 file.
    fn queue_routes6(&mut self, files: &Vec<SourceFile>) -> (r: Result<(), ParseError>)
        ensures
            final(self).config == old(self).config,
            final(self).registry_data == old(self).registry_data,
            r is Ok <==> (forall|i: int| 0 <= i < files@.len() ==> v6_filename_ok((#[trigger] files@[i]).name@)),
            r is Ok ==> route6_jobs(final(self).jobs@) == route6_jobs(old(self).jobs@) + inet6num_expected(files@),
                aut_jobs(final(self).jobs@) == aut_jobs(old(self).jobs@),
                as_set_jobs(final(self).jobs@) == as_set_jobs(old(self).jobs@),
                as_block_jobs(final(self).jobs@) == as_block_jobs(old(self).jobs@),
                dns_jobs(final(self).jobs@) == dns_jobs(old(self).jobs@),
                inetnum_jobs(final(self).jobs@) == inetnum_jobs(old(self).jobs@),
                inet6num_jobs(final(self).jobs@) == inet6num_jobs(old(self).jobs@),
                route_jobs(final(self).jobs@) == route_jobs(old(self).jobs@),
                route_set_jobs(final(self).jobs@) == route_set_jobs(old(self).jobs@),
    {
        let ghost js0 = self.jobs@;
        proof {
            assert(inet6num_expected(files@.subrange(0, 0)) =~= Seq::empty());
        }
        let mut j: usize = 0;
        while j < files.len()
            invariant
                0 <= j <= files.len(),
                self.config == old(self).config,
                self.registry_data == old(self).registry_data,
                forall|i: int| 0 <= i < j ==> v6_filename_ok((#[trigger] files@[i]).name@),
                route6_jobs(self.jobs@) == route6_jobs(js0) + inet6num_expected(files@.subrange(0, j as int)),
                aut_jobs(self.jobs@) == aut_jobs(js0),
                as_set_jobs(self.jobs@) == as_set_jobs(js0),
                as_block_jobs(self.jobs@) == as_block_jobs(js0),
                dns_jobs(self.jobs@) == dns_jobs(js0),
                inetnum_jobs(self.jobs@) == inetnum_jobs(js0),
                inet6num_jobs(self.jobs@) == inet6num_jobs(js0),
                route_jobs(self.jobs@) == route_jobs(js0),
                route_set_jobs(self.jobs@) == route_set_jobs(js0),
            decreases files.len() - j,
        {
            let f = &files[j];
            match Inet6Cidr::from_filename(f.name.as_str()) {
                Ok(cidr) => {
                    let cl = clone_lines(&f.lines);
                    let job = ParserJob::Route6(cidr, cl);
                    let ghost gjob = job;
                    let ghost jsb = self.jobs@;
                    self.jobs.push_back(job);
                    proof {
                lemma_aut_jobs_push(jsb, gjob);
                lemma_as_set_jobs_push(jsb, gjob);
                lemma_as_block_jobs_push(jsb, gjob);
                lemma_dns_jobs_push(jsb, gjob);
                lemma_inetnum_jobs_push(jsb, gjob);
                lemma_inet6num_jobs_push(jsb, gjob);
                lemma_route_jobs_push(jsb, gjob);
                lemma_route6_jobs_push(jsb, gjob);
                lemma_route_set_jobs_push(jsb, gjob);
                        assert(inet6num_expected(files@.subrange(0, j + 1)) =~= inet6num_expected(
                            files@.subrange(0, j as int),
                        ).push((v6_filename_addr(files@[j as int].name@), v6_filename_groups(files@[j as int].name@), v6_filename_len(files@[j as int].name@), files@[j as int].lines.deep_view())));
                    }
                },
                Err(e) => {
                    return Err(e);
                },
            }
            j = j + 1;
        }
        assert(files@.subrange(0, files@.len() as int) =~= files@);
        Ok(())
    }

    /// Queues one job per route-sets file.
    fn queue_route_sets(&mut self, files: &Vec<SourceFile>) -> (r: Result<(), ParseError>)
        ensures
            final(self).config == old(self).config,
            final(self).registry_data == old(self).registry_data,
            r is Ok,
            r is Ok ==> route_set_jobs(final(self).jobs@) == route_set_jobs(old(self).jobs@) + as_set_expected(files@),
                aut_jobs(final(self).jobs@) == aut_jobs(old(self).jobs@),
                as_set_jobs(final(self).jobs@) == as_set_jobs(old(self).jobs@),
                as_block_jobs(final(self).jobs@) == as_block_jobs(old(self).jobs@),
                dns_jobs(final(self).jobs@) == dns_jobs(old(self).jobs@),
                inetnum_jobs(final(self).jobs@) == inetnum_jobs(old(self).jobs@),
                inet6num_jobs(final(self).jobs@) == inet6num_jobs(old(self).jobs@),
                route_jobs(final(self).jobs@) == route_jobs(old(self).jobs@),
                route6_jobs(final(self).jobs@) == route6_jobs(old(self).jobs@),
    {
        let ghost js0 = self.jobs@;
        proof {
            assert(as_set_expected(files@.subrange(0, 0)) =~= Seq::empty());
        }
        let mut j: usize = 0;
        while j < files.len()
            invariant
                0 <= j <= files.len(),
                self.config == old(self).config,
                self.registry_data == old(self).registry_data,
                route_set_jobs(self.jobs@) == route_set_jobs(js0) + as_set_expected(files@.subrange(0, j as int)),
                aut_jobs(self.jobs@) == aut_jobs(js0),
                as_set_jobs(self.jobs@) == as_set_jobs(js0),
                as_block_jobs(self.jobs@) == as_block_jobs(js0),
                dns_jobs(self.jobs@) == dns_jobs(js0),
                inetnum_jobs(self.jobs@) == inetnum_jobs(js0),
                inet6num_jobs(self.jobs@) == inet6num_jobs(js0),
                route_jobs(self.jobs@) == route_jobs(js0),
                route6_jobs(self.jobs@) == route6_jobs(js0),
            decreases files.len() - j,
        {
            let f = &files[j];
            let cl = clone_lines(&f.lines);
            let job = ParserJob::RouteSet(f.name.clone(), cl);
            let ghost gjob = job;
            let ghost jsb = self.jobs@;
            self.jobs.push_back(job);
            proof {
                lemma_aut_jobs_push(jsb, gjob);
                lemma_as_set_jobs_push(jsb, gjob);
                lemma_as_block_jobs_push(jsb, gjob);
                lemma_dns_jobs_push(jsb, gjob);
                lemma_inetnum_jobs_push(jsb, gjob);
                lemma_inet6num_jobs_push(jsb, gjob);
                lemma_route_jobs_push(jsb, gjob);
                lemma_route6_jobs_push(jsb, gjob);
                lemma_route_set_jobs_push(jsb, gjob);
                assert(as_set_expected(files@.subrange(0, j + 1)) =~= as_set_expected(
                    files@.subrange(0, j as int),
                ).push((files@[j as int].name@, files@[j as int].lines.deep_view())));
            }
            j = j + 1;
        }
        assert(files@.subrange(0, files@.len() as int) =~= files@);
        Ok(())
    }

    /// Phase one: one job per discovered file, across every enabled category,
    /// before anything is parsed.
    fn populate_queue(&mut self, source: &RegistrySource) -> (r: Result<(), ParseError>)
        requires
            old(self).jobs@.len() == 0,
        ensures
            final(self).config == old(self).config,
            final(self).registry_data == old(self).registry_data,
            r is Ok <==> source_names_ok(old(self).config, *source),
            r is Ok ==> aut_jobs(final(self).jobs@) == (if old(self).config.aut_nums {
                aut_expected(source.aut_nums@)
            } else {
                Seq::empty()
            }),
            r is Ok ==> as_set_jobs(final(self).jobs@) == (if old(self).config.as_sets {
                as_set_expected(source.as_sets@)
            } else {
                Seq::empty()
            }),
            r is Ok ==> as_block_jobs(final(self).jobs@) == (if old(self).config.as_blocks {
                as_set_expected(source.as_blocks@)
            } else {
                Seq::empty()
            }),
            r is Ok ==> dns_jobs(final(self).jobs@) == (if old(self).config.domains {
                as_set_expected(source.dns@)
            } else {
                Seq::empty()
            }),
            r is Ok ==> inetnum_jobs(final(self).jobs@) == (if old(self).config.inet_nums {
                inetnum_expected(source.inet_nums@)
            } else {
                Seq::empty()
            }),
            r is Ok ==> inet6num_jobs(final(self).jobs@) == (if old(self).config.inet6_nums {
                inet6num_expected(source.inet6_nums@)
            } else {
                Seq::empty()
            }),
            r is Ok ==> route_jobs(final(self).jobs@) == (if old(self).config.routes {
                inetnum_expected(source.routes@)
            } else {
                Seq::empty()
            }),
            r is Ok ==> route6_jobs(final(self).jobs@) == (if old(self).config.routes6 {
                inet6num_expected(source.routes6@)
            } else {
                Seq::empty()
            }),
            r is Ok ==> route_set_jobs(final(self).jobs@) == (if old(self).config.route_sets {
                as_set_expected(source.route_sets@)
            } else {
                Seq::empty()
            }),
    {
        proof {
            assert(self.jobs@ =~= Seq::<ParserJob>::empty());
        }
        if self.config.aut_nums {
            match self.queue_aut_nums(&source.aut_nums) {
                Ok(()) => {},
                Err(e) => {
                    return Err(e);
                },
            }
        }
        if self.config.as_sets {
            match self.queue_as_sets(&source.as_sets) {
                Ok(()) => {},
                Err(e) => {
                    return Err(e);
                },
            }
        }
        if self.config.as_blocks {
            match self.queue_as_blocks(&source.as_blocks) {
                Ok(()) => {},
                Err(e) => {
                    return Err(e);
                },
            }
        }
        if self.config.domains {
            match self.queue_domains(&source.dns) {
                Ok(()) => {},
                Err(e) => {
                    return Err(e);
                },
            }
        }
        if self.config.inet_nums {
            match self.queue_inet_nums(&source.inet_nums) {
                Ok(()) => {},
                Err(e) => {
                    return Err(e);
                },
            }
        }
        if self.config.inet6_nums {
            match self.queue_inet6_nums(&source.inet6_nums) {
                Ok(()) => {},
                Err(e) => {
                    return Err(e);
                },
            }
        }
        if self.config.routes {
            match self.queue_routes(&source.routes) {
                Ok(()) => {},
                Err(e) => {
                    return Err(e);
                },
            }
        }
        if self.config.routes6 {
            match self.queue_routes6(&source.routes6) {
                Ok(()) => {},
                Err(e) => {
                    return Err(e);
                },
            }
        }
        if self.config.route_sets {
            match self.queue_route_sets(&source.route_sets) {
                Ok(()) => {},
                Err(e) => {
                    return Err(e);
                },
            }
        }
        proof {
            assert(Seq::empty() + aut_expected(source.aut_nums@) =~= aut_expected(source.aut_nums@));
            assert(Seq::empty() + as_set_expected(source.as_sets@) =~= as_set_expected(source.as_sets@));
            assert(Seq::empty() + as_set_expected(source.as_blocks@) =~= as_set_expected(source.as_blocks@));
            assert(Seq::empty() + as_set_expected(source.dns@) =~= as_set_expected(source.dns@));
            assert(Seq::empty() + inetnum_expected(source.inet_nums@) =~= inetnum_expected(source.inet_nums@));
            assert(Seq::empty() + inet6num_expected(source.inet6_nums@) =~= inet6num_expected(source.inet6_nums@));
            assert(Seq::empty() + inetnum_expected(source.routes@) =~= inetnum_expected(source.routes@));
            assert(Seq::empty() + inet6num_expected(source.routes6@) =~= inet6num_expected(source.routes6@));
            assert(Seq::empty() + as_set_expected(source.route_sets@) =~= as_set_expected(source.route_sets@));
        }
        Ok(())
    }

    /// One full parse run: clear the store, queue a job for every file of
    /// every enabled category, then run every job. On the first failure the
    /// store is left empty; on success every enabled category holds exactly
    /// the records of its files, in discovery order.
    pub fn parse(&mut self, source: &RegistrySource) -> (r: Result<(), ParseError>)
        ensures
            final(self).config == old(self).config,
            r is Ok <==> source_ok(old(self).config, *source),
            r is Ok ==> store_matches(final(self).registry_data, old(self).config, *source),
            r is Err ==> registry_data_empty(final(self).registry_data),
    {
        self.registry_data.clear();
        self.jobs.clear();
        match self.populate_queue(source) {
            Ok(()) => {},
            Err(e) => {
                proof {
                    if source_ok(old(self).config, *source) {
                        lemma_source_ok_names(old(self).config, *source);
                    }
                }
                return Err(e);
            },
        }
        let ghost all_jobs = self.jobs@;
        let ghost mut k: int = 0;
        loop
            invariant
                0 <= k <= all_jobs.len(),
                self.jobs@ == all_jobs.subrange(k as int, all_jobs.len() as int),
                self.config == old(self).config,
                aut_recs_jobs(self.registry_data.aut_nums@, aut_jobs(all_jobs.subrange(0, k as int))),
                as_set_recs_jobs(self.registry_data.as_sets@, as_set_jobs(all_jobs.subrange(0, k as int))),
                as_block_recs_jobs(self.registry_data.as_blocks@, as_block_jobs(all_jobs.subrange(0, k as int))),
                dns_recs_jobs(self.registry_data.dns@, dns_jobs(all_jobs.subrange(0, k as int))),
                inetnum_recs_jobs(self.registry_data.inet_nums@, inetnum_jobs(all_jobs.subrange(0, k as int))),
                inet6num_recs_jobs(self.registry_data.inet6_nums@, inet6num_jobs(all_jobs.subrange(0, k as int))),
                route_recs_jobs(self.registry_data.routes@, route_jobs(all_jobs.subrange(0, k as int))),
                route6_recs_jobs(self.registry_data.routes6@, route6_jobs(all_jobs.subrange(0, k as int))),
                route_set_recs_jobs(self.registry_data.route_sets@, route_set_jobs(all_jobs.subrange(0, k as int))),
            decreases all_jobs.len() - k,
        {
            let job = match self.jobs.pop_front() {
                Some(j) => j,
                None => {
                    break;
                },
            };
            proof {
                assert(all_jobs.subrange(k as int, all_jobs.len() as int)[0] == all_jobs[k as int]);
                assert(job == all_jobs[k as int]);
                assert(self.jobs@ =~= all_jobs.subrange(k + 1, all_jobs.len() as int));
                assert(all_jobs.subrange(0, k + 1) =~= all_jobs.subrange(0, k as int).push(
                    all_jobs[k as int],
                ));
                lemma_aut_jobs_push(all_jobs.subrange(0, k as int), all_jobs[k as int]);
                lemma_as_set_jobs_push(all_jobs.subrange(0, k as int), all_jobs[k as int]);
                lemma_as_block_jobs_push(all_jobs.subrange(0, k as int), all_jobs[k as int]);
                lemma_dns_jobs_push(all_jobs.subrange(0, k as int), all_jobs[k as int]);
                lemma_inetnum_jobs_push(all_jobs.subrange(0, k as int), all_jobs[k as int]);
                lemma_inet6num_jobs_push(all_jobs.subrange(0, k as int), all_jobs[k as int]);
                lemma_route_jobs_push(all_jobs.subrange(0, k as int), all_jobs[k as int]);
                lemma_route6_jobs_push(all_jobs.subrange(0, k as int), all_jobs[k as int]);
                lemma_route_set_jobs_push(all_jobs.subrange(0, k as int), all_jobs[k as int]);
            }
            match job {
            ParserJob::AutNum(ident, lines) => {
        let ghost gident = ident;
                match RegistryAutNum::from(&lines, ident) {
                    Ok(rec) => {
                        let ghost recs0 = self.registry_data.aut_nums@;
                        self.registry_data.aut_nums.push(rec);
                        proof {
                            assert(aut_jobs(all_jobs.subrange(0, k + 1)) == aut_jobs(
                                all_jobs.subrange(0, k as int),
                            ).push((gident, lines.deep_view())));
                            assert(aut_rec_job(rec, (gident, lines.deep_view())));
                            assert(aut_recs_jobs(
                                self.registry_data.aut_nums@,
                                aut_jobs(all_jobs.subrange(0, k + 1)),
                            ));
                        }
                    },
                    Err(e) => {
                        proof {
                            lemma_aut_jobs_mem(all_jobs, k as int);
                            let p = (gident, lines.deep_view());
                            assert(aut_jobs(all_jobs).contains(p));
                            if old(self).config.aut_nums {
                                let ex = aut_expected(source.aut_nums@);
                                let wi = choose|wi: int|
                                    0 <= wi < ex.len() && ex[wi] == p;
                                assert(ex[wi] == (as_num_of(source.aut_nums@[wi].name@), source.aut_nums@[wi].lines.deep_view()));
                                assert(!aut_file_ok(source.aut_nums@[wi]));
                            } else {
                                assert(false);
                            }
                        }
                        self.registry_data.clear();
                        return Err(e);
                    },
                }
            },
            ParserJob::AsSet(ident, lines) => {
        let ghost gident = ident;
                match RegistryAsSet::from(&lines, ident.as_str()) {
                    Ok(rec) => {
                        let ghost recs0 = self.registry_data.as_sets@;
                        self.registry_data.as_sets.push(rec);
                        proof {
                            assert(as_set_jobs(all_jobs.subrange(0, k + 1)) == as_set_jobs(
                                all_jobs.subrange(0, k as int),
                            ).push((gident@, lines.deep_view())));
                            assert(as_set_rec_job(rec, (gident@, lines.deep_view())));
                            assert(as_set_recs_jobs(
                                self.registry_data.as_sets@,
                                as_set_jobs(all_jobs.subrange(0, k + 1)),
                            ));
                        }
                    },
                    Err(e) => {
                        proof {
                            lemma_as_set_jobs_mem(all_jobs, k as int);
                            let p = (gident@, lines.deep_view());
                            assert(as_set_jobs(all_jobs).contains(p));
                            if old(self).config.as_sets {
                                let ex = as_set_expected(source.as_sets@);
                                let wi = choose|wi: int|
                                    0 <= wi < ex.len() && ex[wi] == p;
                                assert(ex[wi] == (source.as_sets@[wi].name@, source.as_sets@[wi].lines.deep_view()));
                                assert(!as_set_file_ok(source.as_sets@[wi]));
                            } else {
                                assert(false);
                            }
                        }
                        self.registry_data.clear();
                        return Err(e);
                    },
                }
            },
            ParserJob::AsBlock(ident, lines) => {
        let ghost gident = ident;
                match RegistryAsBlock::from(&lines, ident.as_str()) {
                    Ok(rec) => {
                        let ghost recs0 = self.registry_data.as_blocks@;
                        self.registry_data.as_blocks.push(rec);
                        proof {
                            assert(as_block_jobs(all_jobs.subrange(0, k + 1)) == as_block_jobs(
                                all_jobs.subrange(0, k as int),
                            ).push((gident@, lines.deep_view())));
                            assert(as_block_rec_job(rec, (gident@, lines.deep_view())));
                            assert(as_block_recs_jobs(
                                self.registry_data.as_blocks@,
                                as_block_jobs(all_jobs.subrange(0, k + 1)),
                            ));
                        }
                    },
                    Err(e) => {
                        proof {
                            lemma_as_block_jobs_mem(all_jobs, k as int);
                            let p = (gident@, lines.deep_view());
                            assert(as_block_jobs(all_jobs).contains(p));
                            if old(self).config.as_blocks {
                                let ex = as_set_expected(source.as_blocks@);
                                let wi = choose|wi: int|
                                    0 <= wi < ex.len() && ex[wi] == p;
                                assert(ex[wi] == (source.as_blocks@[wi].name@, source.as_blocks@[wi].lines.deep_view()));
                                assert(!as_block_file_ok(source.as_blocks@[wi]));
                            } else {
                                assert(false);
                            }
                        }
                        self.registry_data.clear();
                        return Err(e);
                    },
                }
            },
            ParserJob::Domain(ident, lines) => {
        let ghost gident = ident;
                match RegistryDns::from(&lines, ident.as_str()) {
                    Ok(rec) => {
                        let ghost recs0 = self.registry_data.dns@;
                        self.registry_data.dns.push(rec);
                        proof {
                            assert(dns_jobs(all_jobs.subrange(0, k + 1)) == dns_jobs(
                                all_jobs.subrange(0, k as int),
                            ).push((gident@, lines.deep_view())));
                            assert(dns_rec_job(rec, (gident@, lines.deep_view())));
                            assert(dns_recs_jobs(
                                self.registry_data.dns@,
                                dns_jobs(all_jobs.subrange(0, k + 1)),
                            ));
                        }
                    },
                    Err(e) => {
                        proof {
                            lemma_dns_jobs_mem(all_jobs, k as int);
                            let p = (gident@, lines.deep_view());
                            assert(dns_jobs(all_jobs).contains(p));
                            if old(self).config.domains {
                                let ex = as_set_expected(source.dns@);
                                let wi = choose|wi: int|
                                    0 <= wi < ex.len() && ex[wi] == p;
                                assert(ex[wi] == (source.dns@[wi].name@, source.dns@[wi].lines.deep_view()));
                                assert(!dns_file_ok(source.dns@[wi]));
                            } else {
                                assert(false);
                            }
                        }
                        self.registry_data.clear();
                        return Err(e);
                    },
                }
            },
            ParserJob::InetNum(ident, lines) => {
        let ghost gident = ident;
                match RegistryInetNum::from(&lines, ident) {
                    Ok(rec) => {
                        let ghost recs0 = self.registry_data.inet_nums@;
                        self.registry_data.inet_nums.push(rec);
                        proof {
                            assert(inetnum_jobs(all_jobs.subrange(0, k + 1)) == inetnum_jobs(
                                all_jobs.subrange(0, k as int),
                            ).push((gident, lines.deep_view())));
                            assert(inetnum_rec_job(rec, (gident, lines.deep_view())));
                            assert(inetnum_recs_jobs(
                                self.registry_data.inet_nums@,
                                inetnum_jobs(all_jobs.subrange(0, k + 1)),
                            ));
                        }
                    },
                    Err(e) => {
                        proof {
                            lemma_inetnum_jobs_mem(all_jobs, k as int);
                            let p = (gident, lines.deep_view());
                            assert(inetnum_jobs(all_jobs).contains(p));
                            if old(self).config.inet_nums {
                                let ex = inetnum_expected(source.inet_nums@);
                                let wi = choose|wi: int|
                                    0 <= wi < ex.len() && ex[wi] == p;
                                assert(ex[wi] == (v4_filename(source.inet_nums@[wi].name@)->0, source.inet_nums@[wi].lines.deep_view()));
                                assert(!inetnum_file_ok(source.inet_nums@[wi]));
                            } else {
                                assert(false);
                            }
                        }
                        self.registry_data.clear();
                        return Err(e);
                    },
                }
            },
            ParserJob::Inet6Num(ident, lines) => {
        let ghost gident = ident;
                match RegistryInet6Num::from(&lines, ident) {
                    Ok(rec) => {
                        let ghost recs0 = self.registry_data.inet6_nums@;
                        self.registry_data.inet6_nums.push(rec);
                        proof {
                            assert(inet6num_jobs(all_jobs.subrange(0, k + 1)) == inet6num_jobs(
                                all_jobs.subrange(0, k as int),
                            ).push((gident.0.text@, gident.0.groups@, gident.1, lines.deep_view())));
                            assert(inet6num_rec_job(rec, (gident.0.text@, gident.0.groups@, gident.1, lines.deep_view())));
                            assert(inet6num_recs_jobs(
                                self.registry_data.inet6_nums@,
                                inet6num_jobs(all_jobs.subrange(0, k + 1)),
                            ));
                        }
                    },
                    Err(e) => {
                        proof {
                            lemma_inet6num_jobs_mem(all_jobs, k as int);
                            let p = (gident.0.text@, gident.0.groups@, gident.1, lines.deep_view());
                            assert(inet6num_jobs(all_jobs).contains(p));
                            if old(self).config.inet6_nums {
                                let ex = inet6num_expected(source.inet6_nums@);
                                let wi = choose|wi: int|
                                    0 <= wi < ex.len() && ex[wi] == p;
                                assert(ex[wi] == (v6_filename_addr(source.inet6_nums@[wi].name@), v6_filename_groups(source.inet6_nums@[wi].name@), v6_filename_len(source.inet6_nums@[wi].name@), source.inet6_nums@[wi].lines.deep_view()));
                                lemma_inet6num_ok_text(pairs_of(lines.deep_view()), gident);
                                assert(!inet6num_file_ok(source.inet6_nums@[wi]));
                            } else {
                                assert(false);
                            }
                        }
                        self.registry_data.clear();
                        return Err(e);
                    },
                }
            },
            ParserJob::Route(ident, lines) => {
        let ghost gident = ident;
                match RegistryRoute::from(&lines, ident) {
                    Ok(rec) => {
                        let ghost recs0 = self.registry_data.routes@;
                        self.registry_data.routes.push(rec);
                        proof {
                            assert(route_jobs(all_jobs.subrange(0, k + 1)) == route_jobs(
                                all_jobs.subrange(0, k as int),
                            ).push((gident, lines.deep_view())));
                            assert(route_rec_job(rec, (gident, lines.deep_view())));
                            assert(route_recs_jobs(
                                self.registry_data.routes@,
                                route_jobs(all_jobs.subrange(0, k + 1)),
                            ));
                        }
                    },
                    Err(e) => {
                        proof {
                            lemma_route_jobs_mem(all_jobs, k as int);
                            let p = (gident, lines.deep_view());
                            assert(route_jobs(all_jobs).contains(p));
                            if old(self).config.routes {
                                let ex = inetnum_expected(source.routes@);
                                let wi = choose|wi: int|
                                    0 <= wi < ex.len() && ex[wi] == p;
                                assert(ex[wi] == (v4_filename(source.routes@[wi].name@)->0, source.routes@[wi].lines.deep_view()));
                                assert(!route_file_ok(source.routes@[wi]));
                            } else {
                                assert(false);
                            }
                        }
                        self.registry_data.clear();
                        return Err(e);
                    },
                }
            },
            ParserJob::Route6(ident, lines) => {
        let ghost gident = ident;
                match RegistryRoute6::from(&lines, ident) {
                    Ok(rec) => {
                        let ghost recs0 = self.registry_data.routes6@;
                        self.registry_data.routes6.push(rec);
                        proof {
                            assert(route6_jobs(all_jobs.subrange(0, k + 1)) == route6_jobs(
                                all_jobs.subrange(0, k as int),
                            ).push((gident.0.text@, gident.0.groups@, gident.1, lines.deep_view())));
                            assert(route6_rec_job(rec, (gident.0.text@, gident.0.groups@, gident.1, lines.deep_view())));
                            assert(route6_recs_jobs(
                                self.registry_data.routes6@,
                                route6_jobs(all_jobs.subrange(0, k + 1)),
                            ));
                        }
                    },
                    Err(e) => {
                        proof {
                            lemma_route6_jobs_mem(all_jobs, k as int);
                            let p = (gident.0.text@, gident.0.groups@, gident.1, lines.deep_view());
                            assert(route6_jobs(all_jobs).contains(p));
                            if old(self).config.routes6 {
                                let ex = inet6num_expected(source.routes6@);
                                let wi = choose|wi: int|
                                    0 <= wi < ex.len() && ex[wi] == p;
                                assert(ex[wi] == (v6_filename_addr(source.routes6@[wi].name@), v6_filename_groups(source.routes6@[wi].name@), v6_filename_len(source.routes6@[wi].name@), source.routes6@[wi].lines.deep_view()));
                                lemma_route6_ok_text(pairs_of(lines.deep_view()), gident);
                                assert(!route6_file_ok(source.routes6@[wi]));
                            } else {
                                assert(false);
                            }
                        }
                        self.registry_data.clear();
                        return Err(e);
                    },
                }
            },
            ParserJob::RouteSet(ident, lines) => {
        let ghost gident = ident;
                match RegistryRouteSet::from(&lines, ident) {
                    Ok(rec) => {
                        let ghost recs0 = self.registry_data.route_sets@;
                        self.registry_data.route_sets.push(rec);
                        proof {
                            assert(route_set_jobs(all_jobs.subrange(0, k + 1)) == route_set_jobs(
                                all_jobs.subrange(0, k as int),
                            ).push((gident@, lines.deep_view())));
                            assert(route_set_rec_job(rec, (gident@, lines.deep_view())));
                            assert(route_set_recs_jobs(
                                self.registry_data.route_sets@,
                                route_set_jobs(all_jobs.subrange(0, k + 1)),
                            ));
                        }
                    },
                    Err(e) => {
                        proof {
                            lemma_route_set_jobs_mem(all_jobs, k as int);
                            let p = (gident@, lines.deep_view());
                            assert(route_set_jobs(all_jobs).contains(p));
                            if old(self).config.route_sets {
                                let ex = as_set_expected(source.route_sets@);
                                let wi = choose|wi: int|
                                    0 <= wi < ex.len() && ex[wi] == p;
                                assert(ex[wi] == (source.route_sets@[wi].name@, source.route_sets@[wi].lines.deep_view()));
                                assert(!route_set_file_ok(source.route_sets@[wi]));
                            } else {
                                assert(false);
                            }
                        }
                        self.registry_data.clear();
                        return Err(e);
                    },
                }
            },
            }
            proof {
                k = k + 1;
            }
        }
        proof {
            assert(all_jobs.subrange(k as int, all_jobs.len() as int).len() == 0);
            assert(all_jobs.subrange(0, k as int) =~= all_jobs);
        if old(self).config.aut_nums {
            assert forall|i: int| 0 <= i < source.aut_nums@.len() implies aut_file_ok(
                #[trigger] source.aut_nums@[i],
            ) by {
                let ex = aut_expected(source.aut_nums@);
                assert(aut_rec_job(self.registry_data.aut_nums@[i], ex[i]));
                assert(ex[i] == (as_num_of(source.aut_nums@[i].name@), source.aut_nums@[i].lines.deep_view()));
            }
        }
        if old(self).config.as_sets {
            assert forall|i: int| 0 <= i < source.as_sets@.len() implies as_set_file_ok(
                #[trigger] source.as_sets@[i],
            ) by {
                let ex = as_set_expected(source.as_sets@);
                assert(as_set_rec_job(self.registry_data.as_sets@[i], ex[i]));
                assert(ex[i] == (source.as_sets@[i].name@, source.as_sets@[i].lines.deep_view()));
            }
        }
        if old(self).config.as_blocks {
            assert forall|i: int| 0 <= i < source.as_blocks@.len() implies as_block_file_ok(
                #[trigger] source.as_blocks@[i],
            ) by {
                let ex = as_set_expected(source.as_blocks@);
                assert(as_block_rec_job(self.registry_data.as_blocks@[i], ex[i]));
                assert(ex[i] == (source.as_blocks@[i].name@, source.as_blocks@[i].lines.deep_view()));
            }
        }
        if old(self).config.domains {
            assert forall|i: int| 0 <= i < source.dns@.len() implies dns_file_ok(
                #[trigger] source.dns@[i],
            ) by {
                let ex = as_set_expected(source.dns@);
                assert(dns_rec_job(self.registry_data.dns@[i], ex[i]));
                assert(ex[i] == (source.dns@[i].name@, source.dns@[i].lines.deep_view()));
            }
        }
        if old(self).config.inet_nums {
            assert forall|i: int| 0 <= i < source.inet_nums@.len() implies inetnum_file_ok(
                #[trigger] source.inet_nums@[i],
            ) by {
                let ex = inetnum_expected(source.inet_nums@);
                assert(inetnum_rec_job(self.registry_data.inet_nums@[i], ex[i]));
                assert(ex[i] == (v4_filename(source.inet_nums@[i].name@)->0, source.inet_nums@[i].lines.deep_view()));
            }
        }
        if old(self).config.inet6_nums {
            assert forall|i: int| 0 <= i < source.inet6_nums@.len() implies inet6num_file_ok(
                #[trigger] source.inet6_nums@[i],
            ) by {
                let ex = inet6num_expected(source.inet6_nums@);
                assert(inet6num_rec_job(self.registry_data.inet6_nums@[i], ex[i]));
                assert(ex[i] == (v6_filename_addr(source.inet6_nums@[i].name@), v6_filename_groups(source.inet6_nums@[i].name@), v6_filename_len(source.inet6_nums@[i].name@), source.inet6_nums@[i].lines.deep_view()));
                    lemma_inet6num_ok_text(pairs_of(source.inet6_nums@[i].lines.deep_view()), self.registry_data.inet6_nums@[i].cidr);
            }
        }
        if old(self).config.routes {
            assert forall|i: int| 0 <= i < source.routes@.len() implies route_file_ok(
                #[trigger] source.routes@[i],
            ) by {
                let ex = inetnum_expected(source.routes@);
                assert(route_rec_job(self.registry_data.routes@[i], ex[i]));
                assert(ex[i] == (v4_filename(source.routes@[i].name@)->0, source.routes@[i].lines.deep_view()));
            }
        }
        if old(self).config.routes6 {
            assert forall|i: int| 0 <= i < source.routes6@.len() implies route6_file_ok(
                #[trigger] source.routes6@[i],
            ) by {
                let ex = inet6num_expected(source.routes6@);
                assert(route6_rec_job(self.registry_data.routes6@[i], ex[i]));
                assert(ex[i] == (v6_filename_addr(source.routes6@[i].name@), v6_filename_groups(source.routes6@[i].name@), v6_filename_len(source.routes6@[i].name@), source.routes6@[i].lines.deep_view()));
                    lemma_route6_ok_text(pairs_of(source.routes6@[i].lines.deep_view()), self.registry_data.routes6@[i].route6);
            }
        }
        if old(self).config.route_sets {
            assert forall|i: int| 0 <= i < source.route_sets@.len() implies route_set_file_ok(
                #[trigger] source.route_sets@[i],
            ) by {
                let ex = as_set_expected(source.route_sets@);
                assert(route_set_rec_job(self.registry_data.route_sets@[i], ex[i]));
                assert(ex[i] == (source.route_sets@[i].name@, source.route_sets@[i].lines.deep_view()));
            }
        }

        }
        Ok(())
    }
}

/// A source every file of which parses has, in particular, well-formed
/// identities in every enabled filename.
proof fn lemma_source_ok_names(config: ParserConfig, source: RegistrySource)
    requires
        source_ok(config, source),
    ensures
        source_names_ok(config, source),
{
    if config.aut_nums {
        assert forall|i: int| 0 <= i < source.aut_nums@.len() implies is_as_value(
            (#[trigger] source.aut_nums@[i]).name@,
        ) by {
            assert(aut_file_ok(source.aut_nums@[i]));
        }
    }
    if config.inet_nums {
        assert forall|i: int| 0 <= i < source.inet_nums@.len() implies v4_filename(
            (#[trigger] source.inet_nums@[i]).name@,
        ) is Some by {
            assert(inetnum_file_ok(source.inet_nums@[i]));
        }
    }
    if config.inet6_nums {
        assert forall|i: int| 0 <= i < source.inet6_nums@.len() implies v6_filename_ok(
            (#[trigger] source.inet6_nums@[i]).name@,
        ) by {
            assert(inet6num_file_ok(source.inet6_nums@[i]));
        }
    }
    if config.routes {
        assert forall|i: int| 0 <= i < source.routes@.len() implies v4_filename(
            (#[trigger] source.routes@[i]).name@,
        ) is Some by {
            assert(route_file_ok(source.routes@[i]));
        }
    }
    if config.routes6 {
        assert forall|i: int| 0 <= i < source.routes6@.len() implies v6_filename_ok(
            (#[trigger] source.routes6@[i]).name@,
        ) by {
            assert(route6_file_ok(source.routes6@[i]));
        }
    }
}

} // verus!
