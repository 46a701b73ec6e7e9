//! Laws relating whole parse runs.
//!
//! The scheduler's contract pins every record field to the source text, so
//! two runs over the same source agree on every stored byte and on every
//! emitted authorization line.
use vstd::prelude::*;

use crate::data::{
    RegistryAutNum, RegistryAsSet, RegistryAsBlock, RegistryDns, RegistryInetNumCommon,
    RegistryInetNum, RegistryInet6Num, RegistryRoute, RegistryRoute6, RegistryRouteSet,
    RegistryData,
};
use crate::parse::{
    aut_rec_job, as_set_rec_job, as_block_rec_job, dns_rec_job, inetnum_rec_job,
    inet6num_rec_job, route_rec_job, route6_rec_job, route_set_rec_job, store_matches,
    ParserConfig, RegistrySource,
};
use crate::roa::{roa4_output, roa6_output, route4_origins_out, route6_origins_out};

verus! {

/// The two records read the same, field for field.
pub open spec fn aut_equiv(x: RegistryAutNum, y: RegistryAutNum) -> bool {
    &&& x.aut_num == y.aut_num
    &&& x.as_name@ == y.as_name@
    &&& x.descr.deep_view() == y.descr.deep_view()
    &&& x.org.deep_view() == y.org.deep_view()
    &&& x.mnt_by.deep_view() == y.mnt_by.deep_view()
    &&& x.member_of.deep_view() == y.member_of.deep_view()
    &&& x.admin_c.deep_view() == y.admin_c.deep_view()
    &&& x.tech_c.deep_view() == y.tech_c.deep_view()
    &&& x.import.deep_view() == y.import.deep_view()
    &&& x.export.deep_view() == y.export.deep_view()
    &&& x.default.deep_view() == y.default.deep_view()
    &&& x.mp_peer.deep_view() == y.mp_peer.deep_view()
    &&& x.mp_group.deep_view() == y.mp_group.deep_view()
    &&& x.mp_import.deep_view() == y.mp_import.deep_view()
    &&& x.mp_export.deep_view() == y.mp_export.deep_view()
    &&& x.mp_default.deep_view() == y.mp_default.deep_view()
    &&& x.geo_loc.deep_view() == y.geo_loc.deep_view()
    &&& x.remarks.deep_view() == y.remarks.deep_view()
    &&& x.source@ == y.source@
}

/// The two records read the same, field for field.
pub open spec fn as_set_equiv(x: RegistryAsSet, y: RegistryAsSet) -> bool {
    &&& x.as_set@ == y.as_set@
    &&& x.descr.deep_view() == y.descr.deep_view()
    &&& x.mnt_by.deep_view() == y.mnt_by.deep_view()
    &&& x.members.deep_view() == y.members.deep_view()
    &&& x.mbrs_by_ref.deep_view() == y.mbrs_by_ref.deep_view()
    &&& x.admin_c.deep_view() == y.admin_c.deep_view()
    &&& x.tech_c.deep_view() == y.tech_c.deep_view()
    &&& x.remarks.deep_view() == y.remarks.deep_view()
    &&& x.source@ == y.source@
}

/// The two records read the same, field for field.
pub open spec fn as_block_equiv(x: RegistryAsBlock, y: RegistryAsBlock) -> bool {
    &&& x.as_block@ == y.as_block@
    &&& x.descr.deep_view() == y.descr.deep_view()
    &&& x.policy@ == y.policy@
    &&& x.mnt_by.deep_view() == y.mnt_by.deep_view()
    &&& x.admin_c.deep_view() == y.admin_c.deep_view()
    &&& x.tech_c.deep_view() == y.tech_c.deep_view()
    &&& x.remarks.deep_view() == y.remarks.deep_view()
    &&& x.source@ == y.source@
}

/// The two records read the same, field for field.
pub open spec fn dns_equiv(x: RegistryDns, y: RegistryDns) -> bool {
    &&& x.domain@ == y.domain@
    &&& x.nserver.deep_view() == y.nserver.deep_view()
    &&& x.status@ == y.status@
    &&& x.descr.deep_view() == y.descr.deep_view()
    &&& x.mnt_by.deep_view() == y.mnt_by.deep_view()
    &&& x.admin_c.deep_view() == y.admin_c.deep_view()
    &&& x.tech_c.deep_view() == y.tech_c.deep_view()
    &&& x.org.deep_view() == y.org.deep_view()
    &&& x.country.deep_view() == y.country.deep_view()
    &&& x.remarks.deep_view() == y.remarks.deep_view()
    &&& x.source@ == y.source@
}

/// The two records read the same, field for field.
pub open spec fn common_equiv(x: RegistryInetNumCommon, y: RegistryInetNumCommon) -> bool {
    &&& x.netname@ == y.netname@
    &&& x.nserver.deep_view() == y.nserver.deep_view()
    &&& x.country.deep_view() == y.country.deep_view()
    &&& x.descr.deep_view() == y.descr.deep_view()
    &&& x.status.deep_view() == y.status.deep_view()
    &&& x.bgp_status.deep_view() == y.bgp_status.deep_view()
    &&& x.policy.deep_view() == y.policy.deep_view()
    &&& x.admin_c.deep_view() == y.admin_c.deep_view()
    &&& x.tech_c.deep_view() == y.tech_c.deep_view()
    &&& x.zone_c.deep_view() == y.zone_c.deep_view()
    &&& x.ds_rdata.deep_view() == y.ds_rdata.deep_view()
    &&& x.mnt_by.deep_view() == y.mnt_by.deep_view()
    &&& x.mnt_lower.deep_view() == y.mnt_lower.deep_view()
    &&& x.mnt_routes.deep_view() == y.mnt_routes.deep_view()
    &&& x.org.deep_view() == y.org.deep_view()
    &&& x.remarks.deep_view() == y.remarks.deep_view()
    &&& x.source@ == y.source@
}

/// The two records read the same, field for field.
pub open spec fn inetnum_equiv(x: RegistryInetNum, y: RegistryInetNum) -> bool {
    &&& x.inetnum@ == y.inetnum@
    &&& x.cidr == y.cidr
    &&& common_equiv(x.common, y.common)
}

/// The two records read the same, field for field.
pub open spec fn inet6num_equiv(x: RegistryInet6Num, y: RegistryInet6Num) -> bool {
    &&& x.inet6num@ == y.inet6num@
    &&& x.cidr.0.text@ == y.cidr.0.text@
    &&& x.cidr.0.groups@ == y.cidr.0.groups@
    &&& x.cidr.1 == y.cidr.1
    &&& common_equiv(x.common, y.common)
}

/// The two records read the same, field for field.
pub open spec fn route_equiv(x: RegistryRoute, y: RegistryRoute) -> bool {
    &&& x.route == y.route
    &&& x.max_length == y.max_length
    &&& x.mnt_by.deep_view() == y.mnt_by.deep_view()
    &&& x.origin.deep_view() == y.origin.deep_view()
    &&& x.member_of.deep_view() == y.member_of.deep_view()
    &&& x.admin_c.deep_view() == y.admin_c.deep_view()
    &&& x.tech_c.deep_view() == y.tech_c.deep_view()
    &&& x.descr.deep_view() == y.descr.deep_view()
    &&& x.remarks.deep_view() == y.remarks.deep_view()
    &&& x.source@ == y.source@
    &&& x.pingable@ == y.pingable@
}

/// The two records read the same, field for field.
pub open spec fn route6_equiv(x: RegistryRoute6, y: RegistryRoute6) -> bool {
    &&& x.route6.0.text@ == y.route6.0.text@
    &&& x.route6.0.groups@ == y.route6.0.groups@
    &&& x.route6.1 == y.route6.1
    &&& x.max_length == y.max_length
    &&& x.mnt_by.deep_view() == y.mnt_by.deep_view()
    &&& x.origin.deep_view() == y.origin.deep_view()
    &&& x.member_of.deep_view() == y.member_of.deep_view()
    &&& x.admin_c.deep_view() == y.admin_c.deep_view()
    &&& x.tech_c.deep_view() == y.tech_c.deep_view()
    &&& x.descr.deep_view() == y.descr.deep_view()
    &&& x.remarks.deep_view() == y.remarks.deep_view()
    &&& x.source@ == y.source@
    &&& x.pingable@.len() == y.pingable@.len()
    &&& forall|k: int| 0 <= k < x.pingable@.len() ==> (#[trigger] x.pingable@[k]).text@ == y.pingable@[k].text@ && x.pingable@[k].groups@ == y.pingable@[k].groups@
}

/// The two records read the same, field for field.
pub open spec fn route_set_equiv(x: RegistryRouteSet, y: RegistryRouteSet) -> bool {
    &&& x.route_set@ == y.route_set@
    &&& x.descr.deep_view() == y.descr.deep_view()
    &&& x.mnt_by.deep_view() == y.mnt_by.deep_view()
    &&& x.members.deep_view() == y.members.deep_view()
    &&& x.mp_members.deep_view() == y.mp_members.deep_view()
    &&& x.mbrs_by_ref.deep_view() == y.mbrs_by_ref.deep_view()
    &&& x.admin_c.deep_view() == y.admin_c.deep_view()
    &&& x.tech_c.deep_view() == y.tech_c.deep_view()
    &&& x.remarks.deep_view() == y.remarks.deep_view()
    &&& x.source@ == y.source@
}

/// The two stores hold byte-identical contents.
pub open spec fn data_equiv(a: RegistryData, b: RegistryData) -> bool {
    &&& a.aut_nums@.len() == b.aut_nums@.len()
    &&& forall|i: int| 0 <= i < a.aut_nums@.len() ==> aut_equiv(#[trigger] a.aut_nums@[i], b.aut_nums@[i])
    &&& a.as_sets@.len() == b.as_sets@.len()
    &&& forall|i: int| 0 <= i < a.as_sets@.len() ==> as_set_equiv(#[trigger] a.as_sets@[i], b.as_sets@[i])
    &&& a.as_blocks@.len() == b.as_blocks@.len()
    &&& forall|i: int| 0 <= i < a.as_blocks@.len() ==> as_block_equiv(#[trigger] a.as_blocks@[i], b.as_blocks@[i])
    &&& a.dns@.len() == b.dns@.len()
    &&& forall|i: int| 0 <= i < a.dns@.len() ==> dns_equiv(#[trigger] a.dns@[i], b.dns@[i])
    &&& a.inet_nums@.len() == b.inet_nums@.len()
    &&& forall|i: int| 0 <= i < a.inet_nums@.len() ==> inetnum_equiv(#[trigger] a.inet_nums@[i], b.inet_nums@[i])
    &&& a.inet6_nums@.len() == b.inet6_nums@.len()
    &&& forall|i: int| 0 <= i < a.inet6_nums@.len() ==> inet6num_equiv(#[trigger] a.inet6_nums@[i], b.inet6_nums@[i])
    &&& a.routes@.len() == b.routes@.len()
    &&& forall|i: int| 0 <= i < a.routes@.len() ==> route_equiv(#[trigger] a.routes@[i], b.routes@[i])
    &&& a.routes6@.len() == b.routes6@.len()
    &&& forall|i: int| 0 <= i < a.routes6@.len() ==> route6_equiv(#[trigger] a.routes6@[i], b.routes6@[i])
    &&& a.route_sets@.len() == b.route_sets@.len()
    &&& forall|i: int| 0 <= i < a.route_sets@.len() ==> route_set_equiv(#[trigger] a.route_sets@[i], b.route_sets@[i])
}

/// Equivalent IPv4 routes contribute the same output for equivalent origin
/// lists.
proof fn lemma_route4_origins_congruent(
    x: RegistryRoute,
    y: RegistryRoute,
    os1: Seq<String>,
    os2: Seq<String>,
)
    requires
        route_equiv(x, y),
        os1.len() == os2.len(),
        forall|k: int| 0 <= k < os1.len() ==> (#[trigger] os1[k])@ == os2[k]@,
    ensures
        route4_origins_out(x, os1) == route4_origins_out(y, os2),
    decreases os1.len(),
{
    if os1.len() > 0 {
        lemma_route4_origins_congruent(x, y, os1.drop_last(), os2.drop_last());
    }
}

/// Byte-identical IPv4 stores emit byte-identical output.
proof fn lemma_roa4_congruent(xs: Seq<RegistryRoute>, ys: Seq<RegistryRoute>)
    requires
        xs.len() == ys.len(),
        forall|i: int| 0 <= i < xs.len() ==> route_equiv(#[trigger] xs[i], ys[i]),
    ensures
        roa4_output(xs) == roa4_output(ys),
    decreases xs.len(),
{
    if xs.len() > 0 {
        lemma_roa4_congruent(xs.drop_last(), ys.drop_last());
        let x = xs.last();
        let y = ys.last();
        assert(route_equiv(x, y));
        assert forall|k: int| 0 <= k < x.origin@.len() implies (#[trigger] x.origin@[k])@
            == y.origin@[k]@ by {
            assert(x.origin.deep_view().len() == x.origin@.len());
            assert(y.origin.deep_view().len() == y.origin@.len());
            assert(x.origin.deep_view()[k] == x.origin@[k].deep_view());
            assert(y.origin.deep_view()[k] == y.origin@[k].deep_view());
        }
        assert(x.origin.deep_view().len() == x.origin@.len());
        assert(y.origin.deep_view().len() == y.origin@.len());
        lemma_route4_origins_congruent(x, y, x.origin@, y.origin@);
    }
}

/// Equivalent IPv6 routes contribute the same output for equivalent origin
/// lists.
proof fn lemma_route6_origins_congruent(
    x: RegistryRoute6,
    y: RegistryRoute6,
    os1: Seq<String>,
    os2: Seq<String>,
)
    requires
        route6_equiv(x, y),
        os1.len() == os2.len(),
        forall|k: int| 0 <= k < os1.len() ==> (#[trigger] os1[k])@ == os2[k]@,
    ensures
        route6_origins_out(x, os1) == route6_origins_out(y, os2),
    decreases os1.len(),
{
    if os1.len() > 0 {
        lemma_route6_origins_congruent(x, y, os1.drop_last(), os2.drop_last());
    }
}

/// Byte-identical IPv6 stores emit byte-identical output.
proof fn lemma_roa6_congruent(xs: Seq<RegistryRoute6>, ys: Seq<RegistryRoute6>)
    requires
        xs.len() == ys.len(),
        forall|i: int| 0 <= i < xs.len() ==> route6_equiv(#[trigger] xs[i], ys[i]),
    ensures
        roa6_output(xs) == roa6_output(ys),
    decreases xs.len(),
{
    if xs.len() > 0 {
        lemma_roa6_congruent(xs.drop_last(), ys.drop_last());
        let x = xs.last();
        let y = ys.last();
        assert(route6_equiv(x, y));
        assert forall|k: int| 0 <= k < x.origin@.len() implies (#[trigger] x.origin@[k])@
            == y.origin@[k]@ by {
            assert(x.origin.deep_view().len() == x.origin@.len());
            assert(y.origin.deep_view().len() == y.origin@.len());
            assert(x.origin.deep_view()[k] == x.origin@[k].deep_view());
            assert(y.origin.deep_view()[k] == y.origin@[k].deep_view());
        }
        assert(x.origin.deep_view().len() == x.origin@.len());
        assert(y.origin.deep_view().len() == y.origin@.len());
        lemma_route6_origins_congruent(x, y, x.origin@, y.origin@);
    }
}

/// Parsing the same unchanged source twice is idempotent: any two stores a
/// run leaves behind hold byte-identical contents, and the emitted
/// authorization lists are byte-identical too.
pub proof fn lemma_run_deterministic(
    a: RegistryData,
    b: RegistryData,
    config: ParserConfig,
    source: RegistrySource,
)
    requires
        store_matches(a, config, source),
        store_matches(b, config, source),
    ensures
        data_equiv(a, b),
        roa4_output(a.routes@) == roa4_output(b.routes@),
        roa6_output(a.routes6@) == roa6_output(b.routes6@),
{
    if config.aut_nums {
        assert forall|i: int| 0 <= i < a.aut_nums@.len() implies aut_equiv(
            #[trigger] a.aut_nums@[i],
            b.aut_nums@[i],
        ) by {
            let ex = crate::parse::aut_expected(source.aut_nums@);
            assert(aut_rec_job(a.aut_nums@[i], ex[i]));
            assert(aut_rec_job(b.aut_nums@[i], ex[i]));
        }
    }
    if config.as_sets {
        assert forall|i: int| 0 <= i < a.as_sets@.len() implies as_set_equiv(
            #[trigger] a.as_sets@[i],
            b.as_sets@[i],
        ) by {
            let ex = crate::parse::as_set_expected(source.as_sets@);
            assert(as_set_rec_job(a.as_sets@[i], ex[i]));
            assert(as_set_rec_job(b.as_sets@[i], ex[i]));
        }
    }
    if config.as_blocks {
        assert forall|i: int| 0 <= i < a.as_blocks@.len() implies as_block_equiv(
            #[trigger] a.as_blocks@[i],
            b.as_blocks@[i],
        ) by {
            let ex = crate::parse::as_set_expected(source.as_blocks@);
            assert(as_block_rec_job(a.as_blocks@[i], ex[i]));
            assert(as_block_rec_job(b.as_blocks@[i], ex[i]));
        }
    }
    if config.domains {
        assert forall|i: int| 0 <= i < a.dns@.len() implies dns_equiv(
            #[trigger] a.dns@[i],
            b.dns@[i],
        ) by {
            let ex = crate::parse::as_set_expected(source.dns@);
            assert(dns_rec_job(a.dns@[i], ex[i]));
            assert(dns_rec_job(b.dns@[i], ex[i]));
        }
    }
    if config.inet_nums {
        assert forall|i: int| 0 <= i < a.inet_nums@.len() implies inetnum_equiv(
            #[trigger] a.inet_nums@[i],
            b.inet_nums@[i],
        ) by {
            let ex = crate::parse::inetnum_expected(source.inet_nums@);
            assert(inetnum_rec_job(a.inet_nums@[i], ex[i]));
            assert(inetnum_rec_job(b.inet_nums@[i], ex[i]));
        }
    }
    if config.inet6_nums {
        assert forall|i: int| 0 <= i < a.inet6_nums@.len() implies inet6num_equiv(
            #[trigger] a.inet6_nums@[i],
            b.inet6_nums@[i],
        ) by {
            let ex = crate::parse::inet6num_expected(source.inet6_nums@);
            assert(inet6num_rec_job(a.inet6_nums@[i], ex[i]));
            assert(inet6num_rec_job(b.inet6_nums@[i], ex[i]));
        }
    }
    if config.routes {
        assert forall|i: int| 0 <= i < a.routes@.len() implies route_equiv(
            #[trigger] a.routes@[i],
            b.routes@[i],
        ) by {
            let ex = crate::parse::inetnum_expected(source.routes@);
            assert(route_rec_job(a.routes@[i], ex[i]));
            assert(route_rec_job(b.routes@[i], ex[i]));
        }
    }
    if config.routes6 {
        assert forall|i: int| 0 <= i < a.routes6@.len() implies route6_equiv(
            #[trigger] a.routes6@[i],
            b.routes6@[i],
        ) by {
            let ex = crate::parse::inet6num_expected(source.routes6@);
            assert(route6_rec_job(a.routes6@[i], ex[i]));
            assert(route6_rec_job(b.routes6@[i], ex[i]));
        }
    }
    if config.route_sets {
        assert forall|i: int| 0 <= i < a.route_sets@.len() implies route_set_equiv(
            #[trigger] a.route_sets@[i],
            b.route_sets@[i],
        ) by {
            let ex = crate::parse::as_set_expected(source.route_sets@);
            assert(route_set_rec_job(a.route_sets@[i], ex[i]));
            assert(route_set_rec_job(b.route_sets@[i], ex[i]));
        }
    }
    lemma_roa4_congruent(a.routes@, b.routes@);
    lemma_roa6_congruent(a.routes6@, b.routes6@);
}

} // verus!
