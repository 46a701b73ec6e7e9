//! Typed registry records and the aggregate store.
//!
//! Each record type folds the key/value pairs of one file into a fixed set of
//! attributes: multi-valued keys append in order, combinable keys join with a
//! line break, the identity key must echo the filename-derived identity, and
//! any other key is fatal.
use vstd::prelude::*;

use crate::error::ParseError;
use crate::grammar::{grammar_err_matches, pairs_of, pairs_ok, record_pairs};
use crate::net::{
    is_v4_addr, v4_addr_of, inet_cidr_text, inet6_cidr_text, InetCidr, Inet6Cidr, InetNum,
    Inet6Num,
};
use crate::text::{append_dec_u32, copy_range, dec_digits, dec_value, eq_str, has_prefix, is_dec,
    parse_dec_u32, parse_dec_u8, starts_with_str};

verus! {

broadcast use vstd::string::group_string_axioms;

// ---------------------------------------------------------------------------
// Attribute folding
// ---------------------------------------------------------------------------
/// The values under key `k`, in order of appearance.
pub open spec fn values_of(ps: Seq<(Seq<char>, Seq<char>)>, k: Seq<char>) -> Seq<Seq<char>>
    decreases ps.len(),
{
    if ps.len() == 0 {
        seq![]
    } else {
        let rest = values_of(ps.drop_last(), k);
        if ps.last().0 == k {
            rest.push(ps.last().1)
        } else {
            rest
        }
    }
}

/// One more pair extends exactly the values under its own key.
pub broadcast proof fn lemma_values_push(
    ps: Seq<(Seq<char>, Seq<char>)>,
    p: (Seq<char>, Seq<char>),
    k: Seq<char>,
)
    ensures
        #[trigger] values_of(ps.push(p), k) == if p.0 == k {
            values_of(ps, k).push(p.1)
        } else {
            values_of(ps, k)
        },
{
    assert(ps.push(p).drop_last() =~= ps);
}

/// Joining a later occurrence onto an earlier one, with a line break unless
/// nothing was there yet.
pub open spec fn combine_seq(a: Seq<char>, b: Seq<char>) -> Seq<char> {
    if a.len() == 0 {
        b
    } else {
        a + "\n"@ + b
    }
}

/// All occurrences of a combinable key folded into one value, starting empty.
pub open spec fn combine_fold(vs: Seq<Seq<char>>) -> Seq<char>
    decreases vs.len(),
{
    if vs.len() == 0 {
        Seq::empty()
    } else {
        combine_seq(combine_fold(vs.drop_last()), vs.last())
    }
}

pub broadcast proof fn lemma_combine_fold_push(vs: Seq<Seq<char>>, x: Seq<char>)
    ensures
        #[trigger] combine_fold(vs.push(x)) == combine_seq(combine_fold(vs), x),
{
    assert(vs.push(x).drop_last() =~= vs);
}

/// All occurrences of a combinable optional key: absent stays absent, later
/// occurrences join with a line break.
pub open spec fn combined_opt(vs: Seq<Seq<char>>) -> Option<Seq<char>>
    decreases vs.len(),
{
    if vs.len() == 0 {
        None
    } else {
        match combined_opt(vs.drop_last()) {
            None => Some(vs.last()),
            Some(x) => Some(x + "\n"@ + vs.last()),
        }
    }
}

pub broadcast proof fn lemma_combined_opt_push(vs: Seq<Seq<char>>, x: Seq<char>)
    ensures
        #[trigger] combined_opt(vs.push(x)) == match combined_opt(vs) {
            None => Some(x),
            Some(y) => Some(y + "\n"@ + x),
        },
{
    assert(vs.push(x).drop_last() =~= vs);
}

/// The last occurrence of an overwriting key, or empty.
pub open spec fn last_or_empty(vs: Seq<Seq<char>>) -> Seq<char> {
    if vs.len() == 0 {
        Seq::empty()
    } else {
        vs.last()
    }
}

/// The last occurrence of a numeric overwriting key, decoded, if any.
pub open spec fn opt_last_dec(vs: Seq<Seq<char>>) -> Option<u8> {
    if vs.len() == 0 {
        None
    } else {
        Some(dec_value(vs.last()) as u8)
    }
}

/// The textual reference to an autonomous system: `AS` and its number.
pub open spec fn as_ref_text(num: u32) -> Seq<char> {
    "AS"@ + dec_digits(num as nat)
}

/// An origin value: an `AS` reference whose number fits the protocol range.
pub open spec fn is_as_value(v: Seq<char>) -> bool {
    has_prefix(v, "AS"@) && is_dec(v.skip(2)) && dec_value(v.skip(2)) <= u32::MAX
}

/// The number of an `AS` reference value.
pub open spec fn as_num_of(v: Seq<char>) -> u32 {
    dec_value(v.skip(2)) as u32
}

/// A maximum-length value: a decimal that fits the field's width.
pub open spec fn max_len_ok(v: Seq<char>) -> bool {
    is_dec(v) && dec_value(v) <= u8::MAX
}

/// Joins a later occurrence of a combinable key onto the value so far.
pub fn combine(a: &String, b: String) -> (r: String)
    ensures
        r@ == combine_seq(a@, b@),
{
    if a.as_str().unicode_len() == 0 {
        b
    } else {
        let mut s = a.clone();
        s.append("\n");
        s.append(b.as_str());
        proof {
            reveal_strlit("\n");
            assert(s@ =~= a@ + "\n"@ + b@);
        }
        s
    }
}

/// Joins a later occurrence of a combinable optional key.
pub fn combine_option(a: &Option<String>, b: String) -> (r: Option<String>)
    ensures
        r matches Some(x) && x@ == (match a {
            Some(v) => v@ + "\n"@ + b@,
            None => b@,
        }),
{
    match a {
        Some(v) => {
            let mut s = v.clone();
            s.append("\n");
            s.append(b.as_str());
            proof {
                reveal_strlit("\n");
                assert(s@ =~= v@ + "\n"@ + b@);
            }
            Some(s)
        },
        None => Some(b),
    }
}

/// Appends one occurrence of a multi-valued attribute.
pub fn push_value(xs: &mut Vec<String>, v: &String)
    ensures
        final(xs).deep_view() == old(xs).deep_view().push(v@),
{
    let ghost before = xs.deep_view();
    xs.push(v.clone());
    proof {
        assert(xs.deep_view() =~= before.push(v@));
    }
}

/// Renders the textual `AS` reference of a number.
pub fn as_ref_string(num: u32) -> (r: String)
    ensures
        r@ == as_ref_text(num),
{
    let mut s = String::from_str("AS");
    append_dec_u32(&mut s, num);
    s
}

/// Checks an origin value and strips its two-character `AS` prefix.
pub fn parse_origin(v: &str) -> (r: Option<String>)
    ensures
        r is Some <==> is_as_value(v@),
        r matches Some(x) ==> x@ == v@.skip(2),
{
    proof {
        reveal_strlit("AS");
    }
    if !starts_with_str(v, "AS") {
        return None;
    }
    let n = v.unicode_len();
    let rest = copy_range(v, 2, n);
    assert(rest@ =~= v@.skip(2));
    match parse_dec_u32(rest.as_str()) {
        Some(_) => Some(rest),
        None => None,
    }
}

// ---------------------------------------------------------------------------
// aut-num records
// ---------------------------------------------------------------------------
/// An autonomous-system record.
#[derive(Debug)]
pub struct RegistryAutNum {
    pub aut_num: u32,
    pub as_name: String,
    pub descr: Option<String>,
    pub mnt_by: Vec<String>,
    pub member_of: Vec<String>,
    pub admin_c: Vec<String>,
    pub tech_c: Vec<String>,
    pub org: Option<String>,
    pub import: Vec<String>,
    pub export: Vec<String>,
    pub default: Vec<String>,
    pub mp_peer: Vec<String>,
    pub mp_group: Vec<String>,
    pub mp_import: Vec<String>,
    pub mp_export: Vec<String>,
    pub mp_default: Vec<String>,
    pub geo_loc: Vec<String>,
    pub remarks: Vec<String>,
    pub source: String,
}

/// The non-identity keys an aut-num record recognizes.
pub open spec fn aut_num_plain_key(k: Seq<char>) -> bool {
    ||| k == "as-name"@
    ||| k == "descr"@
    ||| k == "mnt-by"@
    ||| k == "member-of"@
    ||| k == "admin-c"@
    ||| k == "tech-c"@
    ||| k == "org"@
    ||| k == "import"@
    ||| k == "export"@
    ||| k == "default"@
    ||| k == "mp-peer"@
    ||| k == "mp-group"@
    ||| k == "mp-import"@
    ||| k == "mp-export"@
    ||| k == "mp-default"@
    ||| k == "geo-loc"@
    ||| k == "remarks"@
    ||| k == "source"@
}

/// One pair is acceptable to an aut-num record with the given number.
pub open spec fn aut_num_key_ok(p: (Seq<char>, Seq<char>), num: u32) -> bool {
    if p.0 == "aut-num"@ {
        p.1 == as_ref_text(num)
    } else {
        aut_num_plain_key(p.0)
    }
}

pub open spec fn aut_num_ok(ps: Seq<(Seq<char>, Seq<char>)>, num: u32) -> bool {
    forall|i: int| 0 <= i < ps.len() ==> aut_num_key_ok(#[trigger] ps[i], num)
}

/// The first pair an aut-num record rejects (meaningful when not all are
/// acceptable).
pub open spec fn aut_num_bad(ps: Seq<(Seq<char>, Seq<char>)>, num: u32) -> (Seq<char>, Seq<char>)
    decreases ps.len(),
{
    if ps.len() == 0 {
        (Seq::empty(), Seq::empty())
    } else if !aut_num_key_ok(ps.first(), num) {
        ps.first()
    } else {
        aut_num_bad(ps.drop_first(), num)
    }
}

proof fn lemma_aut_num_bad(ps: Seq<(Seq<char>, Seq<char>)>, num: u32, i: int)
    requires
        0 <= i < ps.len(),
        forall|j: int| 0 <= j < i ==> aut_num_key_ok(#[trigger] ps[j], num),
        !aut_num_key_ok(ps[i], num),
    ensures
        aut_num_bad(ps, num) == ps[i],
    decreases i,
{
    if i > 0 {
        lemma_aut_num_bad(ps.drop_first(), num, i - 1);
    }
}

/// How an aut-num record's fields relate to the pairs that built it.
pub open spec fn aut_num_matches(
    r: RegistryAutNum,
    ps: Seq<(Seq<char>, Seq<char>)>,
    num: u32,
) -> bool {
    &&& r.aut_num == num
    &&& r.as_name@ == combine_fold(values_of(ps, "as-name"@))
    &&& r.descr.deep_view() == combined_opt(values_of(ps, "descr"@))
    &&& r.mnt_by.deep_view() == values_of(ps, "mnt-by"@)
    &&& r.member_of.deep_view() == values_of(ps, "member-of"@)
    &&& r.admin_c.deep_view() == values_of(ps, "admin-c"@)
    &&& r.tech_c.deep_view() == values_of(ps, "tech-c"@)
    &&& r.org.deep_view() == combined_opt(values_of(ps, "org"@))
    &&& r.import.deep_view() == values_of(ps, "import"@)
    &&& r.export.deep_view() == values_of(ps, "export"@)
    &&& r.default.deep_view() == values_of(ps, "default"@)
    &&& r.mp_peer.deep_view() == values_of(ps, "mp-peer"@)
    &&& r.mp_group.deep_view() == values_of(ps, "mp-group"@)
    &&& r.mp_import.deep_view() == values_of(ps, "mp-import"@)
    &&& r.mp_export.deep_view() == values_of(ps, "mp-export"@)
    &&& r.mp_default.deep_view() == values_of(ps, "mp-default"@)
    &&& r.geo_loc.deep_view() == values_of(ps, "geo-loc"@)
    &&& r.remarks.deep_view() == values_of(ps, "remarks"@)
    &&& r.source@ == last_or_empty(values_of(ps, "source"@))
}

/// The error an aut-num record reports for its first rejected pair.
pub open spec fn aut_num_err_matches(
    e: ParseError,
    ps: Seq<(Seq<char>, Seq<char>)>,
    num: u32,
) -> bool {
    let bad = aut_num_bad(ps, num);
    if bad.0 == "aut-num"@ {
        e matches ParseError::IdentityMismatch { expected, found } && expected@ == as_ref_text(num)
            && found@ == bad.1
    } else {
        e matches ParseError::UnknownKey { ident, key, value } && ident@ == as_ref_text(num)
            && key@ == bad.0 && value@ == bad.1
    }
}


/// Length and leading-character facts that tell the attribute keys of all
/// record categories apart.
proof fn lemma_key_facts()
    ensures
        "aut-num"@.len() == 7,
        "aut-num"@[0] == 'a',
        "aut-num"@[1] == 'u',
        "as-name"@.len() == 7,
        "as-name"@[0] == 'a',
        "as-name"@[1] == 's',
        "descr"@.len() == 5,
        "descr"@[0] == 'd',
        "descr"@[1] == 'e',
        "mnt-by"@.len() == 6,
        "mnt-by"@[0] == 'm',
        "mnt-by"@[1] == 'n',
        "mnt-by"@[3] == '-',
        "member-of"@.len() == 9,
        "member-of"@[0] == 'm',
        "member-of"@[1] == 'e',
        "member-of"@[3] == 'b',
        "admin-c"@.len() == 7,
        "admin-c"@[0] == 'a',
        "admin-c"@[1] == 'd',
        "tech-c"@.len() == 6,
        "tech-c"@[0] == 't',
        "tech-c"@[1] == 'e',
        "org"@.len() == 3,
        "org"@[0] == 'o',
        "org"@[1] == 'r',
        "import"@.len() == 6,
        "import"@[0] == 'i',
        "import"@[1] == 'm',
        "export"@.len() == 6,
        "export"@[0] == 'e',
        "export"@[1] == 'x',
        "default"@.len() == 7,
        "default"@[0] == 'd',
        "default"@[1] == 'e',
        "mp-peer"@.len() == 7,
        "mp-peer"@[0] == 'm',
        "mp-peer"@[1] == 'p',
        "mp-peer"@[3] == 'p',
        "mp-group"@.len() == 8,
        "mp-group"@[0] == 'm',
        "mp-group"@[1] == 'p',
        "mp-group"@[3] == 'g',
        "mp-import"@.len() == 9,
        "mp-import"@[0] == 'm',
        "mp-import"@[1] == 'p',
        "mp-import"@[3] == 'i',
        "mp-export"@.len() == 9,
        "mp-export"@[0] == 'm',
        "mp-export"@[1] == 'p',
        "mp-export"@[3] == 'e',
        "mp-default"@.len() == 10,
        "mp-default"@[0] == 'm',
        "mp-default"@[1] == 'p',
        "mp-default"@[3] == 'd',
        "geo-loc"@.len() == 7,
        "geo-loc"@[0] == 'g',
        "geo-loc"@[1] == 'e',
        "remarks"@.len() == 7,
        "remarks"@[0] == 'r',
        "remarks"@[1] == 'e',
        "source"@.len() == 6,
        "source"@[0] == 's',
        "source"@[1] == 'o',
        "as-set"@.len() == 6,
        "as-set"@[0] == 'a',
        "as-set"@[1] == 's',
        "members"@.len() == 7,
        "members"@[0] == 'm',
        "members"@[1] == 'e',
        "mbrs-by-ref"@.len() == 11,
        "mbrs-by-ref"@[0] == 'm',
        "mbrs-by-ref"@[1] == 'b',
        "mbrs-by-ref"@[3] == 's',
        "as-block"@.len() == 8,
        "as-block"@[0] == 'a',
        "as-block"@[1] == 's',
        "policy"@.len() == 6,
        "policy"@[0] == 'p',
        "policy"@[1] == 'o',
        "domain"@.len() == 6,
        "domain"@[0] == 'd',
        "domain"@[1] == 'o',
        "nserver"@.len() == 7,
        "nserver"@[0] == 'n',
        "nserver"@[1] == 's',
        "status"@.len() == 6,
        "status"@[0] == 's',
        "status"@[1] == 't',
        "country"@.len() == 7,
        "country"@[0] == 'c',
        "country"@[1] == 'o',
        "netname"@.len() == 7,
        "netname"@[0] == 'n',
        "netname"@[1] == 'e',
        "bgp-status"@.len() == 10,
        "bgp-status"@[0] == 'b',
        "bgp-status"@[1] == 'g',
        "zone-c"@.len() == 6,
        "zone-c"@[0] == 'z',
        "zone-c"@[1] == 'o',
        "ds-rdata"@.len() == 8,
        "ds-rdata"@[0] == 'd',
        "ds-rdata"@[1] == 's',
        "mnt-lower"@.len() == 9,
        "mnt-lower"@[0] == 'm',
        "mnt-lower"@[1] == 'n',
        "mnt-lower"@[3] == '-',
        "mnt-routes"@.len() == 10,
        "mnt-routes"@[0] == 'm',
        "mnt-routes"@[1] == 'n',
        "mnt-routes"@[3] == '-',
        "cidr"@.len() == 4,
        "cidr"@[0] == 'c',
        "cidr"@[1] == 'i',
        "inetnum"@.len() == 7,
        "inetnum"@[0] == 'i',
        "inetnum"@[1] == 'n',
        "inet6num"@.len() == 8,
        "inet6num"@[0] == 'i',
        "inet6num"@[1] == 'n',
        "route"@.len() == 5,
        "route"@[0] == 'r',
        "route"@[1] == 'o',
        "max-length"@.len() == 10,
        "max-length"@[0] == 'm',
        "max-length"@[1] == 'a',
        "max-length"@[3] == '-',
        "origin"@.len() == 6,
        "origin"@[0] == 'o',
        "origin"@[1] == 'r',
        "pingable"@.len() == 8,
        "pingable"@[0] == 'p',
        "pingable"@[1] == 'i',
        "route6"@.len() == 6,
        "route6"@[0] == 'r',
        "route6"@[1] == 'o',
        "route-set"@.len() == 9,
        "route-set"@[0] == 'r',
        "route-set"@[1] == 'o',
        "mp-members"@.len() == 10,
        "mp-members"@[0] == 'm',
        "mp-members"@[1] == 'p',
        "mp-members"@[3] == 'm',
{
    reveal_strlit("aut-num");
    reveal_strlit("as-name");
    reveal_strlit("descr");
    reveal_strlit("mnt-by");
    reveal_strlit("member-of");
    reveal_strlit("admin-c");
    reveal_strlit("tech-c");
    reveal_strlit("org");
    reveal_strlit("import");
    reveal_strlit("export");
    reveal_strlit("default");
    reveal_strlit("mp-peer");
    reveal_strlit("mp-group");
    reveal_strlit("mp-import");
    reveal_strlit("mp-export");
    reveal_strlit("mp-default");
    reveal_strlit("geo-loc");
    reveal_strlit("remarks");
    reveal_strlit("source");
    reveal_strlit("as-set");
    reveal_strlit("members");
    reveal_strlit("mbrs-by-ref");
    reveal_strlit("as-block");
    reveal_strlit("policy");
    reveal_strlit("domain");
    reveal_strlit("nserver");
    reveal_strlit("status");
    reveal_strlit("country");
    reveal_strlit("netname");
    reveal_strlit("bgp-status");
    reveal_strlit("zone-c");
    reveal_strlit("ds-rdata");
    reveal_strlit("mnt-lower");
    reveal_strlit("mnt-routes");
    reveal_strlit("cidr");
    reveal_strlit("inetnum");
    reveal_strlit("inet6num");
    reveal_strlit("route");
    reveal_strlit("max-length");
    reveal_strlit("origin");
    reveal_strlit("pingable");
    reveal_strlit("route6");
    reveal_strlit("route-set");
    reveal_strlit("mp-members");
}

impl RegistryAutNum {
    /// An empty record for the given number.
    pub fn new(num: u32) -> (r: RegistryAutNum)
        ensures
            aut_num_matches(r, Seq::empty(), num),
    {
        let r = RegistryAutNum {
            aut_num: num,
            as_name: String::new(),
            descr: None,
            mnt_by: Vec::new(),
            member_of: Vec::new(),
            admin_c: Vec::new(),
            tech_c: Vec::new(),
            org: None,
            import: Vec::new(),
            export: Vec::new(),
            default: Vec::new(),
            mp_peer: Vec::new(),
            mp_group: Vec::new(),
            mp_import: Vec::new(),
            mp_export: Vec::new(),
            mp_default: Vec::new(),
            geo_loc: Vec::new(),
            remarks: Vec::new(),
            source: String::new(),
        };
        proof {
            assert(r.mnt_by.deep_view() =~= Seq::<Seq<char>>::empty());
            assert(r.member_of.deep_view() =~= Seq::<Seq<char>>::empty());
            assert(r.admin_c.deep_view() =~= Seq::<Seq<char>>::empty());
            assert(r.tech_c.deep_view() =~= Seq::<Seq<char>>::empty());
            assert(r.import.deep_view() =~= Seq::<Seq<char>>::empty());
            assert(r.export.deep_view() =~= Seq::<Seq<char>>::empty());
            assert(r.default.deep_view() =~= Seq::<Seq<char>>::empty());
            assert(r.mp_peer.deep_view() =~= Seq::<Seq<char>>::empty());
            assert(r.mp_group.deep_view() =~= Seq::<Seq<char>>::empty());
            assert(r.mp_import.deep_view() =~= Seq::<Seq<char>>::empty());
            assert(r.mp_export.deep_view() =~= Seq::<Seq<char>>::empty());
            assert(r.mp_default.deep_view() =~= Seq::<Seq<char>>::empty());
            assert(r.geo_loc.deep_view() =~= Seq::<Seq<char>>::empty());
            assert(r.remarks.deep_view() =~= Seq::<Seq<char>>::empty());
        }
        r
    }

    /// Folds a record file's lines into an aut-num record for the number its
    /// filename names, or reports the first failure.
    pub fn from(lines: &Vec<String>, num: u32) -> (r: Result<RegistryAutNum, ParseError>)
        ensures
            r is Ok <==> pairs_ok(lines.deep_view()) && aut_num_ok(pairs_of(lines.deep_view()), num),
            r matches Ok(rec) ==> aut_num_matches(rec, pairs_of(lines.deep_view()), num),
            r matches Err(e) ==> if pairs_ok(lines.deep_view()) {
                aut_num_err_matches(e, pairs_of(lines.deep_view()), num)
            } else {
                grammar_err_matches(e, lines.deep_view())
            },
    {
        broadcast use lemma_values_push, lemma_combine_fold_push, lemma_combined_opt_push;

        let pairs = match record_pairs(lines) {
            Ok(ps) => ps,
            Err(e) => { return Err(e) },
        };
        let ghost ps = pairs.deep_view();
        let expected = as_ref_string(num);
        let mut obj = RegistryAutNum::new(num);
        let mut i: usize = 0;
        while i < pairs.len()
            invariant
                0 <= i <= pairs.len(),
                ps.len() == pairs.len(),
                ps == pairs.deep_view(),
                expected@ == as_ref_text(num),
                forall|j: int| 0 <= j < i ==> aut_num_key_ok(#[trigger] ps[j], num),
                aut_num_matches(obj, ps.subrange(0, i as int), num),
            decreases pairs.len() - i,
        {
            proof {
                lemma_key_facts();
                let prefix = ps.subrange(0, i as int);
                let p = ps[i as int];
                assert(p == (pairs@[i as int].0@, pairs@[i as int].1@));
                assert(ps.subrange(0, i + 1) =~= prefix.push(p));
                lemma_values_push(prefix, p, "aut-num"@);
                lemma_values_push(prefix, p, "as-name"@);
                lemma_values_push(prefix, p, "descr"@);
                lemma_values_push(prefix, p, "mnt-by"@);
                lemma_values_push(prefix, p, "member-of"@);
                lemma_values_push(prefix, p, "admin-c"@);
                lemma_values_push(prefix, p, "tech-c"@);
                lemma_values_push(prefix, p, "org"@);
                lemma_values_push(prefix, p, "import"@);
                lemma_values_push(prefix, p, "export"@);
                lemma_values_push(prefix, p, "default"@);
                lemma_values_push(prefix, p, "mp-peer"@);
                lemma_values_push(prefix, p, "mp-group"@);
                lemma_values_push(prefix, p, "mp-import"@);
                lemma_values_push(prefix, p, "mp-export"@);
                lemma_values_push(prefix, p, "mp-default"@);
                lemma_values_push(prefix, p, "geo-loc"@);
                lemma_values_push(prefix, p, "remarks"@);
                lemma_values_push(prefix, p, "source"@);
                lemma_combine_fold_push(values_of(prefix, "as-name"@), p.1);
                lemma_combined_opt_push(values_of(prefix, "descr"@), p.1);
                lemma_combined_opt_push(values_of(prefix, "org"@), p.1);
            }
            let k = &pairs[i].0;
            let v = &pairs[i].1;
            if eq_str(k.as_str(), "aut-num") {
                if !eq_str(v.as_str(), expected.as_str()) {
                    proof {
                        lemma_aut_num_bad(ps, num, i as int);
                    }
                    return Err(ParseError::IdentityMismatch {
                        expected,
                        found: v.clone(),
                    });
                }
            } else if eq_str(k.as_str(), "as-name") {
                obj.as_name = combine(&obj.as_name, v.clone());
            } else if eq_str(k.as_str(), "descr") {
                obj.descr = combine_option(&obj.descr, v.clone());
            } else if eq_str(k.as_str(), "mnt-by") {
                push_value(&mut obj.mnt_by, v);
            } else if eq_str(k.as_str(), "member-of") {
                push_value(&mut obj.member_of, v);
            } else if eq_str(k.as_str(), "admin-c") {
                push_value(&mut obj.admin_c, v);
            } else if eq_str(k.as_str(), "tech-c") {
                push_value(&mut obj.tech_c, v);
            } else if eq_str(k.as_str(), "org") {
                obj.org = combine_option(&obj.org, v.clone());
            } else if eq_str(k.as_str(), "import") {
                push_value(&mut obj.import, v);
            } else if eq_str(k.as_str(), "export") {
                push_value(&mut obj.export, v);
            } else if eq_str(k.as_str(), "default") {
                push_value(&mut obj.default, v);
            } else if eq_str(k.as_str(), "mp-peer") {
                push_value(&mut obj.mp_peer, v);
            } else if eq_str(k.as_str(), "mp-group") {
                push_value(&mut obj.mp_group, v);
            } else if eq_str(k.as_str(), "mp-import") {
                push_value(&mut obj.mp_import, v);
            } else if eq_str(k.as_str(), "mp-export") {
                push_value(&mut obj.mp_export, v);
            } else if eq_str(k.as_str(), "mp-default") {
                push_value(&mut obj.mp_default, v);
            } else if eq_str(k.as_str(), "geo-loc") {
                push_value(&mut obj.geo_loc, v);
            } else if eq_str(k.as_str(), "remarks") {
                push_value(&mut obj.remarks, v);
            } else if eq_str(k.as_str(), "source") {
                obj.source = v.clone();
            } else {
                proof {
                    lemma_aut_num_bad(ps, num, i as int);
                }
                return Err(ParseError::UnknownKey {
                    ident: expected,
                    key: k.clone(),
                    value: v.clone(),
                });
            }
            assert(aut_num_matches(obj, ps.subrange(0, i + 1), num));
            i = i + 1;
        }
        assert(ps.subrange(0, ps.len() as int) =~= ps);
        Ok(obj)
    }
}

// ---------------------------------------------------------------------------
// as-set records
// ---------------------------------------------------------------------------
/// An AS-set record.
#[derive(Debug)]
pub struct RegistryAsSet {
    pub as_set: String,
    pub descr: Option<String>,
    pub mnt_by: Vec<String>,
    pub members: Vec<String>,
    pub mbrs_by_ref: Vec<String>,
    pub admin_c: Vec<String>,
    pub tech_c: Vec<String>,
    pub remarks: Vec<String>,
    pub source: String,
}

/// The non-identity keys a as-set record recognizes.
pub open spec fn as_set_plain_key(k: Seq<char>) -> bool {
    ||| k == "descr"@
    ||| k == "mnt-by"@
    ||| k == "members"@
    ||| k == "mbrs-by-ref"@
    ||| k == "admin-c"@
    ||| k == "tech-c"@
    ||| k == "remarks"@
    ||| k == "source"@
}

pub open spec fn as_set_key_ok(p: (Seq<char>, Seq<char>), name: Seq<char>) -> bool {
    if p.0 == "as-set"@ {
        p.1 == name
    } else {
        as_set_plain_key(p.0)
    }
}

pub open spec fn as_set_ok(ps: Seq<(Seq<char>, Seq<char>)>, name: Seq<char>) -> bool {
    forall|i: int| 0 <= i < ps.len() ==> as_set_key_ok(#[trigger] ps[i], name)
}

/// The first pair a as-set record rejects.
pub open spec fn as_set_bad(ps: Seq<(Seq<char>, Seq<char>)>, name: Seq<char>) -> (Seq<char>, Seq<char>)
    decreases ps.len(),
{
    if ps.len() == 0 {
        (Seq::empty(), Seq::empty())
    } else if !as_set_key_ok(ps.first(), name) {
        ps.first()
    } else {
        as_set_bad(ps.drop_first(), name)
    }
}

proof fn lemma_as_set_bad(ps: Seq<(Seq<char>, Seq<char>)>, name: Seq<char>, i: int)
    requires
        0 <= i < ps.len(),
        forall|j: int| 0 <= j < i ==> as_set_key_ok(#[trigger] ps[j], name),
        !as_set_key_ok(ps[i], name),
    ensures
        as_set_bad(ps, name) == ps[i],
    decreases i,
{
    if i > 0 {
        lemma_as_set_bad(ps.drop_first(), name, i - 1);
    }
}

/// How a as-set record's fields relate to the pairs that built it.
pub open spec fn as_set_matches(r: RegistryAsSet, ps: Seq<(Seq<char>, Seq<char>)>, name: Seq<char>) -> bool {
    &&& r.as_set@ == name
    &&& r.descr.deep_view() == combined_opt(values_of(ps, "descr"@))
    &&& r.mnt_by.deep_view() == values_of(ps, "mnt-by"@)
    &&& r.members.deep_view() == values_of(ps, "members"@)
    &&& r.mbrs_by_ref.deep_view() == values_of(ps, "mbrs-by-ref"@)
    &&& r.admin_c.deep_view() == values_of(ps, "admin-c"@)
    &&& r.tech_c.deep_view() == values_of(ps, "tech-c"@)
    &&& r.remarks.deep_view() == values_of(ps, "remarks"@)
    &&& r.source@ == last_or_empty(values_of(ps, "source"@))
}

/// The error a as-set record reports for its first rejected pair.
pub open spec fn as_set_err_matches(e: ParseError, ps: Seq<(Seq<char>, Seq<char>)>, name: Seq<char>) -> bool {
    let bad = as_set_bad(ps, name);
    if bad.0 == "as-set"@ {
        e matches ParseError::IdentityMismatch { expected, found } && expected@ == name
            && found@ == bad.1
    } else {
        e matches ParseError::UnknownKey { ident, key, value } && ident@ == name
            && key@ == bad.0 && value@ == bad.1
    }
}

impl RegistryAsSet {
    /// An empty record for the given name.
    pub fn new(name: &str) -> (r: RegistryAsSet)
        ensures
            as_set_matches(r, Seq::empty(), name@),
    {
        let r = RegistryAsSet {
            as_set: String::from_str(name),
            descr: None,
            mnt_by: Vec::new(),
            members: Vec::new(),
            mbrs_by_ref: Vec::new(),
            admin_c: Vec::new(),
            tech_c: Vec::new(),
            remarks: Vec::new(),
            source: String::new(),
        };
        proof {
            assert(r.mnt_by.deep_view() =~= Seq::<Seq<char>>::empty());
            assert(r.members.deep_view() =~= Seq::<Seq<char>>::empty());
            assert(r.mbrs_by_ref.deep_view() =~= Seq::<Seq<char>>::empty());
            assert(r.admin_c.deep_view() =~= Seq::<Seq<char>>::empty());
            assert(r.tech_c.deep_view() =~= Seq::<Seq<char>>::empty());
            assert(r.remarks.deep_view() =~= Seq::<Seq<char>>::empty());
        }
        r
    }

    /// Folds a record file's lines into a as-set record for the name its
    /// filename carries, or reports the first failure.
    pub fn from(lines: &Vec<String>, name: &str) -> (r: Result<RegistryAsSet, ParseError>)
        ensures
            r is Ok <==> pairs_ok(lines.deep_view()) && as_set_ok(pairs_of(lines.deep_view()), name@),
            r matches Ok(rec) ==> as_set_matches(rec, pairs_of(lines.deep_view()), name@),
            r matches Err(e) ==> if pairs_ok(lines.deep_view()) {
                as_set_err_matches(e, pairs_of(lines.deep_view()), name@)
            } else {
                grammar_err_matches(e, lines.deep_view())
            },
    {
        let pairs = match record_pairs(lines) {
            Ok(ps) => ps,
            Err(e) => { return Err(e) },
        };
        let ghost ps = pairs.deep_view();
        let mut obj = RegistryAsSet::new(name);
        let mut i: usize = 0;
        while i < pairs.len()
            invariant
                0 <= i <= pairs.len(),
                ps.len() == pairs.len(),
                ps == pairs.deep_view(),
                obj.as_set@ == name@,
                forall|j: int| 0 <= j < i ==> as_set_key_ok(#[trigger] ps[j], name@),
                as_set_matches(obj, ps.subrange(0, i as int), name@),
            decreases pairs.len() - i,
        {
            proof {
                lemma_key_facts();
                let prefix = ps.subrange(0, i as int);
                let p = ps[i as int];
                assert(p == (pairs@[i as int].0@, pairs@[i as int].1@));
                assert(ps.subrange(0, i + 1) =~= prefix.push(p));
                lemma_values_push(prefix, p, "as-set"@);
                lemma_values_push(prefix, p, "descr"@);
                lemma_combined_opt_push(values_of(prefix, "descr"@), p.1);
                lemma_values_push(prefix, p, "mnt-by"@);
                lemma_values_push(prefix, p, "members"@);
                lemma_values_push(prefix, p, "mbrs-by-ref"@);
                lemma_values_push(prefix, p, "admin-c"@);
                lemma_values_push(prefix, p, "tech-c"@);
                lemma_values_push(prefix, p, "remarks"@);
                lemma_values_push(prefix, p, "source"@);
            }
            let k = &pairs[i].0;
            let v = &pairs[i].1;
            if eq_str(k.as_str(), "as-set") {
                if !eq_str(v.as_str(), obj.as_set.as_str()) {
                    proof {
                        lemma_as_set_bad(ps, name@, i as int);
                    }
                    return Err(ParseError::IdentityMismatch {
                        expected: obj.as_set,
                        found: v.clone(),
                    });
                }
            } else if eq_str(k.as_str(), "descr") {
                obj.descr = combine_option(&obj.descr, v.clone());
            } else if eq_str(k.as_str(), "mnt-by") {
                push_value(&mut obj.mnt_by, v);
            } else if eq_str(k.as_str(), "members") {
                push_value(&mut obj.members, v);
            } else if eq_str(k.as_str(), "mbrs-by-ref") {
                push_value(&mut obj.mbrs_by_ref, v);
            } else if eq_str(k.as_str(), "admin-c") {
                push_value(&mut obj.admin_c, v);
            } else if eq_str(k.as_str(), "tech-c") {
                push_value(&mut obj.tech_c, v);
            } else if eq_str(k.as_str(), "remarks") {
                push_value(&mut obj.remarks, v);
            } else if eq_str(k.as_str(), "source") {
                obj.source = v.clone();
            } else {
                proof {
                    lemma_as_set_bad(ps, name@, i as int);
                }
                return Err(ParseError::UnknownKey {
                    ident: obj.as_set,
                    key: k.clone(),
                    value: v.clone(),
                });
            }
            assert(as_set_matches(obj, ps.subrange(0, i + 1), name@));
            i = i + 1;
        }
        assert(ps.subrange(0, ps.len() as int) =~= ps);
        Ok(obj)
    }
}

// ---------------------------------------------------------------------------
// as-block records
// ---------------------------------------------------------------------------
/// An AS-block record.
#[derive(Debug)]
pub struct RegistryAsBlock {
    pub as_block: String,
    pub descr: Option<String>,
    pub policy: String,
    pub mnt_by: Vec<String>,
    pub admin_c: Vec<String>,
    pub tech_c: Vec<String>,
    pub remarks: Vec<String>,
    pub source: String,
}

/// The non-identity keys a as-block record recognizes.
pub open spec fn as_block_plain_key(k: Seq<char>) -> bool {
    ||| k == "descr"@
    ||| k == "policy"@
    ||| k == "mnt-by"@
    ||| k == "admin-c"@
    ||| k == "tech-c"@
    ||| k == "remarks"@
    ||| k == "source"@
}

pub open spec fn as_block_key_ok(p: (Seq<char>, Seq<char>), name: Seq<char>) -> bool {
    if p.0 == "as-block"@ {
        p.1 == name
    } else {
        as_block_plain_key(p.0)
    }
}

pub open spec fn as_block_ok(ps: Seq<(Seq<char>, Seq<char>)>, name: Seq<char>) -> bool {
    forall|i: int| 0 <= i < ps.len() ==> as_block_key_ok(#[trigger] ps[i], name)
}

/// The first pair a as-block record rejects.
pub open spec fn as_block_bad(ps: Seq<(Seq<char>, Seq<char>)>, name: Seq<char>) -> (Seq<char>, Seq<char>)
    decreases ps.len(),
{
    if ps.len() == 0 {
        (Seq::empty(), Seq::empty())
    } else if !as_block_key_ok(ps.first(), name) {
        ps.first()
    } else {
        as_block_bad(ps.drop_first(), name)
    }
}

proof fn lemma_as_block_bad(ps: Seq<(Seq<char>, Seq<char>)>, name: Seq<char>, i: int)
    requires
        0 <= i < ps.len(),
        forall|j: int| 0 <= j < i ==> as_block_key_ok(#[trigger] ps[j], name),
        !as_block_key_ok(ps[i], name),
    ensures
        as_block_bad(ps, name) == ps[i],
    decreases i,
{
    if i > 0 {
        lemma_as_block_bad(ps.drop_first(), name, i - 1);
    }
}

/// How a as-block record's fields relate to the pairs that built it.
pub open spec fn as_block_matches(r: RegistryAsBlock, ps: Seq<(Seq<char>, Seq<char>)>, name: Seq<char>) -> bool {
    &&& r.as_block@ == name
    &&& r.descr.deep_view() == combined_opt(values_of(ps, "descr"@))
    &&& r.policy@ == last_or_empty(values_of(ps, "policy"@))
    &&& r.mnt_by.deep_view() == values_of(ps, "mnt-by"@)
    &&& r.admin_c.deep_view() == values_of(ps, "admin-c"@)
    &&& r.tech_c.deep_view() == values_of(ps, "tech-c"@)
    &&& r.remarks.deep_view() == values_of(ps, "remarks"@)
    &&& r.source@ == last_or_empty(values_of(ps, "source"@))
}

/// The error a as-block record reports for its first rejected pair.
pub open spec fn as_block_err_matches(e: ParseError, ps: Seq<(Seq<char>, Seq<char>)>, name: Seq<char>) -> bool {
    let bad = as_block_bad(ps, name);
    if bad.0 == "as-block"@ {
        e matches ParseError::IdentityMismatch { expected, found } && expected@ == name
            && found@ == bad.1
    } else {
        e matches ParseError::UnknownKey { ident, key, value } && ident@ == name
            && key@ == bad.0 && value@ == bad.1
    }
}

impl RegistryAsBlock {
    /// An empty record for the given name.
    pub fn new(name: &str) -> (r: RegistryAsBlock)
        ensures
            as_block_matches(r, Seq::empty(), name@),
    {
        let r = RegistryAsBlock {
            as_block: String::from_str(name),
            descr: None,
            policy: String::new(),
            mnt_by: Vec::new(),
            admin_c: Vec::new(),
            tech_c: Vec::new(),
            remarks: Vec::new(),
            source: String::new(),
        };
        proof {
            assert(r.mnt_by.deep_view() =~= Seq::<Seq<char>>::empty());
            assert(r.admin_c.deep_view() =~= Seq::<Seq<char>>::empty());
            assert(r.tech_c.deep_view() =~= Seq::<Seq<char>>::empty());
            assert(r.remarks.deep_view() =~= Seq::<Seq<char>>::empty());
        }
        r
    }

    /// Folds a record file's lines into a as-block record for the name its
    /// filename carries, or reports the first failure.
    pub fn from(lines: &Vec<String>, name: &str) -> (r: Result<RegistryAsBlock, ParseError>)
        ensures
            r is Ok <==> pairs_ok(lines.deep_view()) && as_block_ok(pairs_of(lines.deep_view()), name@),
            r matches Ok(rec) ==> as_block_matches(rec, pairs_of(lines.deep_view()), name@),
            r matches Err(e) ==> if pairs_ok(lines.deep_view()) {
                as_block_err_matches(e, pairs_of(lines.deep_view()), name@)
            } else {
                grammar_err_matches(e, lines.deep_view())
            },
    {
        let pairs = match record_pairs(lines) {
            Ok(ps) => ps,
            Err(e) => { return Err(e) },
        };
        let ghost ps = pairs.deep_view();
        let mut obj = RegistryAsBlock::new(name);
        let mut i: usize = 0;
        while i < pairs.len()
            invariant
                0 <= i <= pairs.len(),
                ps.len() == pairs.len(),
                ps == pairs.deep_view(),
                obj.as_block@ == name@,
                forall|j: int| 0 <= j < i ==> as_block_key_ok(#[trigger] ps[j], name@),
                as_block_matches(obj, ps.subrange(0, i as int), name@),
            decreases pairs.len() - i,
        {
            proof {
                lemma_key_facts();
                let prefix = ps.subrange(0, i as int);
                let p = ps[i as int];
                assert(p == (pairs@[i as int].0@, pairs@[i as int].1@));
                assert(ps.subrange(0, i + 1) =~= prefix.push(p));
                lemma_values_push(prefix, p, "as-block"@);
                lemma_values_push(prefix, p, "descr"@);
                lemma_combined_opt_push(values_of(prefix, "descr"@), p.1);
                lemma_values_push(prefix, p, "policy"@);
                lemma_values_push(prefix, p, "mnt-by"@);
                lemma_values_push(prefix, p, "admin-c"@);
                lemma_values_push(prefix, p, "tech-c"@);
                lemma_values_push(prefix, p, "remarks"@);
                lemma_values_push(prefix, p, "source"@);
            }
            let k = &pairs[i].0;
            let v = &pairs[i].1;
            if eq_str(k.as_str(), "as-block") {
                if !eq_str(v.as_str(), obj.as_block.as_str()) {
                    proof {
                        lemma_as_block_bad(ps, name@, i as int);
                    }
                    return Err(ParseError::IdentityMismatch {
                        expected: obj.as_block,
                        found: v.clone(),
                    });
                }
            } else if eq_str(k.as_str(), "descr") {
                obj.descr = combine_option(&obj.descr, v.clone());
            } else if eq_str(k.as_str(), "policy") {
                obj.policy = v.clone();
            } else if eq_str(k.as_str(), "mnt-by") {
                push_value(&mut obj.mnt_by, v);
            } else if eq_str(k.as_str(), "admin-c") {
                push_value(&mut obj.admin_c, v);
            } else if eq_str(k.as_str(), "tech-c") {
                push_value(&mut obj.tech_c, v);
            } else if eq_str(k.as_str(), "remarks") {
                push_value(&mut obj.remarks, v);
            } else if eq_str(k.as_str(), "source") {
                obj.source = v.clone();
            } else {
                proof {
                    lemma_as_block_bad(ps, name@, i as int);
                }
                return Err(ParseError::UnknownKey {
                    ident: obj.as_block,
                    key: k.clone(),
                    value: v.clone(),
                });
            }
            assert(as_block_matches(obj, ps.subrange(0, i + 1), name@));
            i = i + 1;
        }
        assert(ps.subrange(0, ps.len() as int) =~= ps);
        Ok(obj)
    }
}

// ---------------------------------------------------------------------------
// domain records
// ---------------------------------------------------------------------------
/// A domain record.
#[derive(Debug)]
pub struct RegistryDns {
    pub domain: String,
    pub nserver: Vec<String>,
    pub status: String,
    pub descr: Option<String>,
    pub mnt_by: Vec<String>,
    pub admin_c: Vec<String>,
    pub tech_c: Vec<String>,
    pub org: Vec<String>,
    pub country: Option<String>,
    pub remarks: Vec<String>,
    pub source: String,
}

/// The non-identity keys a domain record recognizes.
pub open spec fn dns_plain_key(k: Seq<char>) -> bool {
    ||| k == "nserver"@
    ||| k == "status"@
    ||| k == "descr"@
    ||| k == "mnt-by"@
    ||| k == "admin-c"@
    ||| k == "tech-c"@
    ||| k == "org"@
    ||| k == "country"@
    ||| k == "remarks"@
    ||| k == "source"@
}

pub open spec fn dns_key_ok(p: (Seq<char>, Seq<char>), name: Seq<char>) -> bool {
    if p.0 == "domain"@ {
        p.1 == name
    } else {
        dns_plain_key(p.0)
    }
}

pub open spec fn dns_ok(ps: Seq<(Seq<char>, Seq<char>)>, name: Seq<char>) -> bool {
    forall|i: int| 0 <= i < ps.len() ==> dns_key_ok(#[trigger] ps[i], name)
}

/// The first pair a domain record rejects.
pub open spec fn dns_bad(ps: Seq<(Seq<char>, Seq<char>)>, name: Seq<char>) -> (Seq<char>, Seq<char>)
    decreases ps.len(),
{
    if ps.len() == 0 {
        (Seq::empty(), Seq::empty())
    } else if !dns_key_ok(ps.first(), name) {
        ps.first()
    } else {
        dns_bad(ps.drop_first(), name)
    }
}

proof fn lemma_dns_bad(ps: Seq<(Seq<char>, Seq<char>)>, name: Seq<char>, i: int)
    requires
        0 <= i < ps.len(),
        forall|j: int| 0 <= j < i ==> dns_key_ok(#[trigger] ps[j], name),
        !dns_key_ok(ps[i], name),
    ensures
        dns_bad(ps, name) == ps[i],
    decreases i,
{
    if i > 0 {
        lemma_dns_bad(ps.drop_first(), name, i - 1);
    }
}

/// How a domain record's fields relate to the pairs that built it.
pub open spec fn dns_matches(r: RegistryDns, ps: Seq<(Seq<char>, Seq<char>)>, name: Seq<char>) -> bool {
    &&& r.domain@ == name
    &&& r.nserver.deep_view() == values_of(ps, "nserver"@)
    &&& r.status@ == last_or_empty(values_of(ps, "status"@))
    &&& r.descr.deep_view() == combined_opt(values_of(ps, "descr"@))
    &&& r.mnt_by.deep_view() == values_of(ps, "mnt-by"@)
    &&& r.admin_c.deep_view() == values_of(ps, "admin-c"@)
    &&& r.tech_c.deep_view() == values_of(ps, "tech-c"@)
    &&& r.org.deep_view() == values_of(ps, "org"@)
    &&& r.country.deep_view() == combined_opt(values_of(ps, "country"@))
    &&& r.remarks.deep_view() == values_of(ps, "remarks"@)
    &&& r.source@ == last_or_empty(values_of(ps, "source"@))
}

/// The error a domain record reports for its first rejected pair.
pub open spec fn dns_err_matches(e: ParseError, ps: Seq<(Seq<char>, Seq<char>)>, name: Seq<char>) -> bool {
    let bad = dns_bad(ps, name);
    if bad.0 == "domain"@ {
        e matches ParseError::IdentityMismatch { expected, found } && expected@ == name
            && found@ == bad.1
    } else {
        e matches ParseError::UnknownKey { ident, key, value } && ident@ == name
            && key@ == bad.0 && value@ == bad.1
    }
}

impl RegistryDns {
    /// An empty record for the given name.
    pub fn new(name: &str) -> (r: RegistryDns)
        ensures
            dns_matches(r, Seq::empty(), name@),
    {
        let r = RegistryDns {
            domain: String::from_str(name),
            nserver: Vec::new(),
            status: String::new(),
            descr: None,
            mnt_by: Vec::new(),
            admin_c: Vec::new(),
            tech_c: Vec::new(),
            org: Vec::new(),
            country: None,
            remarks: Vec::new(),
            source: String::new(),
        };
        proof {
            assert(r.nserver.deep_view() =~= Seq::<Seq<char>>::empty());
            assert(r.mnt_by.deep_view() =~= Seq::<Seq<char>>::empty());
            assert(r.admin_c.deep_view() =~= Seq::<Seq<char>>::empty());
            assert(r.tech_c.deep_view() =~= Seq::<Seq<char>>::empty());
            assert(r.org.deep_view() =~= Seq::<Seq<char>>::empty());
            assert(r.remarks.deep_view() =~= Seq::<Seq<char>>::empty());
        }
        r
    }

    /// Folds a record file's lines into a domain record for the name its
    /// filename carries, or reports the first failure.
    pub fn from(lines: &Vec<String>, name: &str) -> (r: Result<RegistryDns, ParseError>)
        ensures
            r is Ok <==> pairs_ok(lines.deep_view()) && dns_ok(pairs_of(lines.deep_view()), name@),
            r matches Ok(rec) ==> dns_matches(rec, pairs_of(lines.deep_view()), name@),
            r matches Err(e) ==> if pairs_ok(lines.deep_view()) {
                dns_err_matches(e, pairs_of(lines.deep_view()), name@)
            } else {
                grammar_err_matches(e, lines.deep_view())
            },
    {
        let pairs = match record_pairs(lines) {
            Ok(ps) => ps,
            Err(e) => { return Err(e) },
        };
        let ghost ps = pairs.deep_view();
        let mut obj = RegistryDns::new(name);
        let mut i: usize = 0;
        while i < pairs.len()
            invariant
                0 <= i <= pairs.len(),
                ps.len() == pairs.len(),
                ps == pairs.deep_view(),
                obj.domain@ == name@,
                forall|j: int| 0 <= j < i ==> dns_key_ok(#[trigger] ps[j], name@),
                dns_matches(obj, ps.subrange(0, i as int), name@),
            decreases pairs.len() - i,
        {
            proof {
                lemma_key_facts();
                let prefix = ps.subrange(0, i as int);
                let p = ps[i as int];
                assert(p == (pairs@[i as int].0@, pairs@[i as int].1@));
                assert(ps.subrange(0, i + 1) =~= prefix.push(p));
                lemma_values_push(prefix, p, "domain"@);
                lemma_values_push(prefix, p, "nserver"@);
                lemma_values_push(prefix, p, "status"@);
                lemma_values_push(prefix, p, "descr"@);
                lemma_combined_opt_push(values_of(prefix, "descr"@), p.1);
                lemma_values_push(prefix, p, "mnt-by"@);
                lemma_values_push(prefix, p, "admin-c"@);
                lemma_values_push(prefix, p, "tech-c"@);
                lemma_values_push(prefix, p, "org"@);
                lemma_values_push(prefix, p, "country"@);
                lemma_combined_opt_push(values_of(prefix, "country"@), p.1);
                lemma_values_push(prefix, p, "remarks"@);
                lemma_values_push(prefix, p, "source"@);
            }
            let k = &pairs[i].0;
            let v = &pairs[i].1;
            if eq_str(k.as_str(), "domain") {
                if !eq_str(v.as_str(), obj.domain.as_str()) {
                    proof {
                        lemma_dns_bad(ps, name@, i as int);
                    }
                    return Err(ParseError::IdentityMismatch {
                        expected: obj.domain,
                        found: v.clone(),
                    });
                }
            } else if eq_str(k.as_str(), "nserver") {
                push_value(&mut obj.nserver, v);
            } else if eq_str(k.as_str(), "status") {
                obj.status = v.clone();
            } else if eq_str(k.as_str(), "descr") {
                obj.descr = combine_option(&obj.descr, v.clone());
            } else if eq_str(k.as_str(), "mnt-by") {
                push_value(&mut obj.mnt_by, v);
            } else if eq_str(k.as_str(), "admin-c") {
                push_value(&mut obj.admin_c, v);
            } else if eq_str(k.as_str(), "tech-c") {
                push_value(&mut obj.tech_c, v);
            } else if eq_str(k.as_str(), "org") {
                push_value(&mut obj.org, v);
            } else if eq_str(k.as_str(), "country") {
                obj.country = combine_option(&obj.country, v.clone());
            } else if eq_str(k.as_str(), "remarks") {
                push_value(&mut obj.remarks, v);
            } else if eq_str(k.as_str(), "source") {
                obj.source = v.clone();
            } else {
                proof {
                    lemma_dns_bad(ps, name@, i as int);
                }
                return Err(ParseError::UnknownKey {
                    ident: obj.domain,
                    key: k.clone(),
                    value: v.clone(),
                });
            }
            assert(dns_matches(obj, ps.subrange(0, i + 1), name@));
            i = i + 1;
        }
        assert(ps.subrange(0, ps.len() as int) =~= ps);
        Ok(obj)
    }
}

// ---------------------------------------------------------------------------
// route-set records
// ---------------------------------------------------------------------------
/// A route-set record.
#[derive(Debug)]
pub struct RegistryRouteSet {
    pub route_set: String,
    pub descr: Option<String>,
    pub mnt_by: Vec<String>,
    pub members: Vec<String>,
    pub mp_members: Vec<String>,
    pub mbrs_by_ref: Vec<String>,
    pub admin_c: Vec<String>,
    pub tech_c: Vec<String>,
    pub remarks: Vec<String>,
    pub source: String,
}

/// The non-identity keys a route-set record recognizes.
pub open spec fn route_set_plain_key(k: Seq<char>) -> bool {
    ||| k == "descr"@
    ||| k == "mnt-by"@
    ||| k == "members"@
    ||| k == "mp-members"@
    ||| k == "mbrs-by-ref"@
    ||| k == "admin-c"@
    ||| k == "tech-c"@
    ||| k == "remarks"@
    ||| k == "source"@
}

pub open spec fn route_set_key_ok(p: (Seq<char>, Seq<char>), name: Seq<char>) -> bool {
    if p.0 == "route-set"@ {
        p.1 == name
    } else {
        route_set_plain_key(p.0)
    }
}

pub open spec fn route_set_ok(ps: Seq<(Seq<char>, Seq<char>)>, name: Seq<char>) -> bool {
    forall|i: int| 0 <= i < ps.len() ==> route_set_key_ok(#[trigger] ps[i], name)
}

/// The first pair a route-set record rejects.
pub open spec fn route_set_bad(ps: Seq<(Seq<char>, Seq<char>)>, name: Seq<char>) -> (Seq<char>, Seq<char>)
    decreases ps.len(),
{
    if ps.len() == 0 {
        (Seq::empty(), Seq::empty())
    } else if !route_set_key_ok(ps.first(), name) {
        ps.first()
    } else {
        route_set_bad(ps.drop_first(), name)
    }
}

proof fn lemma_route_set_bad(ps: Seq<(Seq<char>, Seq<char>)>, name: Seq<char>, i: int)
    requires
        0 <= i < ps.len(),
        forall|j: int| 0 <= j < i ==> route_set_key_ok(#[trigger] ps[j], name),
        !route_set_key_ok(ps[i], name),
    ensures
        route_set_bad(ps, name) == ps[i],
    decreases i,
{
    if i > 0 {
        lemma_route_set_bad(ps.drop_first(), name, i - 1);
    }
}

/// How a route-set record's fields relate to the pairs that built it.
pub open spec fn route_set_matches(r: RegistryRouteSet, ps: Seq<(Seq<char>, Seq<char>)>, name: Seq<char>) -> bool {
    &&& r.route_set@ == name
    &&& r.descr.deep_view() == combined_opt(values_of(ps, "descr"@))
    &&& r.mnt_by.deep_view() == values_of(ps, "mnt-by"@)
    &&& r.members.deep_view() == values_of(ps, "members"@)
    &&& r.mp_members.deep_view() == values_of(ps, "mp-members"@)
    &&& r.mbrs_by_ref.deep_view() == values_of(ps, "mbrs-by-ref"@)
    &&& r.admin_c.deep_view() == values_of(ps, "admin-c"@)
    &&& r.tech_c.deep_view() == values_of(ps, "tech-c"@)
    &&& r.remarks.deep_view() == values_of(ps, "remarks"@)
    &&& r.source@ == last_or_empty(values_of(ps, "source"@))
}

/// The error a route-set record reports for its first rejected pair.
pub open spec fn route_set_err_matches(e: ParseError, ps: Seq<(Seq<char>, Seq<char>)>, name: Seq<char>) -> bool {
    let bad = route_set_bad(ps, name);
    if bad.0 == "route-set"@ {
        e matches ParseError::IdentityMismatch { expected, found } && expected@ == name
            && found@ == bad.1
    } else {
        e matches ParseError::UnknownKey { ident, key, value } && ident@ == name
            && key@ == bad.0 && value@ == bad.1
    }
}

impl RegistryRouteSet {
    /// An empty record for the given name.
    pub fn new(name: String) -> (r: RegistryRouteSet)
        ensures
            route_set_matches(r, Seq::empty(), name@),
    {
        let r = RegistryRouteSet {
            route_set: name,
            descr: None,
            mnt_by: Vec::new(),
            members: Vec::new(),
            mp_members: Vec::new(),
            mbrs_by_ref: Vec::new(),
            admin_c: Vec::new(),
            tech_c: Vec::new(),
            remarks: Vec::new(),
            source: String::new(),
        };
        proof {
            assert(r.mnt_by.deep_view() =~= Seq::<Seq<char>>::empty());
            assert(r.members.deep_view() =~= Seq::<Seq<char>>::empty());
            assert(r.mp_members.deep_view() =~= Seq::<Seq<char>>::empty());
            assert(r.mbrs_by_ref.deep_view() =~= Seq::<Seq<char>>::empty());
            assert(r.admin_c.deep_view() =~= Seq::<Seq<char>>::empty());
            assert(r.tech_c.deep_view() =~= Seq::<Seq<char>>::empty());
            assert(r.remarks.deep_view() =~= Seq::<Seq<char>>::empty());
        }
        r
    }

    /// Folds a record file's lines into a route-set record for the name its
    /// filename carries, or reports the first failure.
    pub fn from(lines: &Vec<String>, name: String) -> (r: Result<RegistryRouteSet, ParseError>)
        ensures
            r is Ok <==> pairs_ok(lines.deep_view()) && route_set_ok(pairs_of(lines.deep_view()), name@),
            r matches Ok(rec) ==> route_set_matches(rec, pairs_of(lines.deep_view()), name@),
            r matches Err(e) ==> if pairs_ok(lines.deep_view()) {
                route_set_err_matches(e, pairs_of(lines.deep_view()), name@)
            } else {
                grammar_err_matches(e, lines.deep_view())
            },
    {
        let pairs = match record_pairs(lines) {
            Ok(ps) => ps,
            Err(e) => { return Err(e) },
        };
        let ghost ps = pairs.deep_view();
        let mut obj = RegistryRouteSet::new(name);
        let mut i: usize = 0;
        while i < pairs.len()
            invariant
                0 <= i <= pairs.len(),
                ps.len() == pairs.len(),
                ps == pairs.deep_view(),
                obj.route_set@ == name@,
                forall|j: int| 0 <= j < i ==> route_set_key_ok(#[trigger] ps[j], name@),
                route_set_matches(obj, ps.subrange(0, i as int), name@),
            decreases pairs.len() - i,
        {
            proof {
                lemma_key_facts();
                let prefix = ps.subrange(0, i as int);
                let p = ps[i as int];
                assert(p == (pairs@[i as int].0@, pairs@[i as int].1@));
                assert(ps.subrange(0, i + 1) =~= prefix.push(p));
                lemma_values_push(prefix, p, "route-set"@);
                lemma_values_push(prefix, p, "descr"@);
                lemma_combined_opt_push(values_of(prefix, "descr"@), p.1);
                lemma_values_push(prefix, p, "mnt-by"@);
                lemma_values_push(prefix, p, "members"@);
                lemma_values_push(prefix, p, "mp-members"@);
                lemma_values_push(prefix, p, "mbrs-by-ref"@);
                lemma_values_push(prefix, p, "admin-c"@);
                lemma_values_push(prefix, p, "tech-c"@);
                lemma_values_push(prefix, p, "remarks"@);
                lemma_values_push(prefix, p, "source"@);
            }
            let k = &pairs[i].0;
            let v = &pairs[i].1;
            if eq_str(k.as_str(), "route-set") {
                if !eq_str(v.as_str(), obj.route_set.as_str()) {
                    proof {
                        lemma_route_set_bad(ps, name@, i as int);
                    }
                    return Err(ParseError::IdentityMismatch {
                        expected: obj.route_set,
                        found: v.clone(),
                    });
                }
            } else if eq_str(k.as_str(), "descr") {
                obj.descr = combine_option(&obj.descr, v.clone());
            } else if eq_str(k.as_str(), "mnt-by") {
                push_value(&mut obj.mnt_by, v);
            } else if eq_str(k.as_str(), "members") {
                push_value(&mut obj.members, v);
            } else if eq_str(k.as_str(), "mp-members") {
                push_value(&mut obj.mp_members, v);
            } else if eq_str(k.as_str(), "mbrs-by-ref") {
                push_value(&mut obj.mbrs_by_ref, v);
            } else if eq_str(k.as_str(), "admin-c") {
                push_value(&mut obj.admin_c, v);
            } else if eq_str(k.as_str(), "tech-c") {
                push_value(&mut obj.tech_c, v);
            } else if eq_str(k.as_str(), "remarks") {
                push_value(&mut obj.remarks, v);
            } else if eq_str(k.as_str(), "source") {
                obj.source = v.clone();
            } else {
                proof {
                    lemma_route_set_bad(ps, name@, i as int);
                }
                return Err(ParseError::UnknownKey {
                    ident: obj.route_set,
                    key: k.clone(),
                    value: v.clone(),
                });
            }
            assert(route_set_matches(obj, ps.subrange(0, i + 1), name@));
            i = i + 1;
        }
        assert(ps.subrange(0, ps.len() as int) =~= ps);
        Ok(obj)
    }
}


// ---------------------------------------------------------------------------
// inetnum / inet6num records
// ---------------------------------------------------------------------------
/// The attributes shared by inetnum and inet6num records.
#[derive(Debug)]
pub struct RegistryInetNumCommon {
    pub netname: String,
    pub nserver: Vec<String>,
    pub country: Vec<String>,
    pub descr: Option<String>,
    pub status: Option<String>,
    pub bgp_status: Option<String>,
    pub policy: Option<String>,
    pub admin_c: Vec<String>,
    pub tech_c: Vec<String>,
    pub zone_c: Vec<String>,
    pub ds_rdata: Vec<String>,
    pub mnt_by: Vec<String>,
    pub mnt_lower: Vec<String>,
    pub mnt_routes: Vec<String>,
    pub org: Option<String>,
    pub remarks: Vec<String>,
    pub source: String,
}

/// The keys the shared attribute set recognizes.
pub open spec fn common_key_ok(k: Seq<char>) -> bool {
    ||| k == "netname"@
    ||| k == "nserver"@
    ||| k == "country"@
    ||| k == "descr"@
    ||| k == "status"@
    ||| k == "bgp-status"@
    ||| k == "policy"@
    ||| k == "admin-c"@
    ||| k == "tech-c"@
    ||| k == "zone-c"@
    ||| k == "ds-rdata"@
    ||| k == "mnt-by"@
    ||| k == "mnt-lower"@
    ||| k == "mnt-routes"@
    ||| k == "org"@
    ||| k == "remarks"@
    ||| k == "source"@
}

/// How the shared attributes relate to the pairs folded so far.
pub open spec fn common_matches(c: RegistryInetNumCommon, ps: Seq<(Seq<char>, Seq<char>)>) -> bool {
    &&& c.netname@ == last_or_empty(values_of(ps, "netname"@))
    &&& c.nserver.deep_view() == values_of(ps, "nserver"@)
    &&& c.country.deep_view() == values_of(ps, "country"@)
    &&& c.descr.deep_view() == combined_opt(values_of(ps, "descr"@))
    &&& c.status.deep_view() == combined_opt(values_of(ps, "status"@))
    &&& c.bgp_status.deep_view() == combined_opt(values_of(ps, "bgp-status"@))
    &&& c.policy.deep_view() == combined_opt(values_of(ps, "policy"@))
    &&& c.admin_c.deep_view() == values_of(ps, "admin-c"@)
    &&& c.tech_c.deep_view() == values_of(ps, "tech-c"@)
    &&& c.zone_c.deep_view() == values_of(ps, "zone-c"@)
    &&& c.ds_rdata.deep_view() == values_of(ps, "ds-rdata"@)
    &&& c.mnt_by.deep_view() == values_of(ps, "mnt-by"@)
    &&& c.mnt_lower.deep_view() == values_of(ps, "mnt-lower"@)
    &&& c.mnt_routes.deep_view() == values_of(ps, "mnt-routes"@)
    &&& c.org.deep_view() == combined_opt(values_of(ps, "org"@))
    &&& c.remarks.deep_view() == values_of(ps, "remarks"@)
    &&& c.source@ == last_or_empty(values_of(ps, "source"@))
}

/// How one accepted pair changes the shared attributes.
pub open spec fn common_step(
    a: RegistryInetNumCommon,
    b: RegistryInetNumCommon,
    k: Seq<char>,
    v: Seq<char>,
) -> bool {
    &&& b.netname@ == (if k == "netname"@ { v } else { a.netname@ })
    &&& b.nserver.deep_view() == (if k == "nserver"@ { a.nserver.deep_view().push(v) } else { a.nserver.deep_view() })
    &&& b.country.deep_view() == (if k == "country"@ { a.country.deep_view().push(v) } else { a.country.deep_view() })
    &&& b.descr.deep_view() == (if k == "descr"@ { opt_joined(a.descr.deep_view(), v) } else { a.descr.deep_view() })
    &&& b.status.deep_view() == (if k == "status"@ { opt_joined(a.status.deep_view(), v) } else { a.status.deep_view() })
    &&& b.bgp_status.deep_view() == (if k == "bgp-status"@ { opt_joined(a.bgp_status.deep_view(), v) } else { a.bgp_status.deep_view() })
    &&& b.policy.deep_view() == (if k == "policy"@ { opt_joined(a.policy.deep_view(), v) } else { a.policy.deep_view() })
    &&& b.admin_c.deep_view() == (if k == "admin-c"@ { a.admin_c.deep_view().push(v) } else { a.admin_c.deep_view() })
    &&& b.tech_c.deep_view() == (if k == "tech-c"@ { a.tech_c.deep_view().push(v) } else { a.tech_c.deep_view() })
    &&& b.zone_c.deep_view() == (if k == "zone-c"@ { a.zone_c.deep_view().push(v) } else { a.zone_c.deep_view() })
    &&& b.ds_rdata.deep_view() == (if k == "ds-rdata"@ { a.ds_rdata.deep_view().push(v) } else { a.ds_rdata.deep_view() })
    &&& b.mnt_by.deep_view() == (if k == "mnt-by"@ { a.mnt_by.deep_view().push(v) } else { a.mnt_by.deep_view() })
    &&& b.mnt_lower.deep_view() == (if k == "mnt-lower"@ { a.mnt_lower.deep_view().push(v) } else { a.mnt_lower.deep_view() })
    &&& b.mnt_routes.deep_view() == (if k == "mnt-routes"@ { a.mnt_routes.deep_view().push(v) } else { a.mnt_routes.deep_view() })
    &&& b.org.deep_view() == (if k == "org"@ { opt_joined(a.org.deep_view(), v) } else { a.org.deep_view() })
    &&& b.remarks.deep_view() == (if k == "remarks"@ { a.remarks.deep_view().push(v) } else { a.remarks.deep_view() })
    &&& b.source@ == (if k == "source"@ { v } else { a.source@ })
}

/// Joining one more occurrence onto a combinable optional value.
pub open spec fn opt_joined(a: Option<Seq<char>>, v: Seq<char>) -> Option<Seq<char>> {
    match a {
        None => Some(v),
        Some(x) => Some(x + "\n"@ + v),
    }
}

/// An accepted step keeps the shared attributes in correspondence with the
/// extended pair sequence.
proof fn lemma_common_step(
    a: RegistryInetNumCommon,
    b: RegistryInetNumCommon,
    ps: Seq<(Seq<char>, Seq<char>)>,
    k: Seq<char>,
    v: Seq<char>,
)
    requires
        common_matches(a, ps),
        common_step(a, b, k, v),
        common_key_ok(k),
    ensures
        common_matches(b, ps.push((k, v))),
{
    lemma_key_facts();
    let p = (k, v);
    lemma_values_push(ps, p, "netname"@);
    lemma_values_push(ps, p, "nserver"@);
    lemma_values_push(ps, p, "country"@);
    lemma_values_push(ps, p, "descr"@);
    lemma_values_push(ps, p, "status"@);
    lemma_values_push(ps, p, "bgp-status"@);
    lemma_values_push(ps, p, "policy"@);
    lemma_values_push(ps, p, "admin-c"@);
    lemma_values_push(ps, p, "tech-c"@);
    lemma_values_push(ps, p, "zone-c"@);
    lemma_values_push(ps, p, "ds-rdata"@);
    lemma_values_push(ps, p, "mnt-by"@);
    lemma_values_push(ps, p, "mnt-lower"@);
    lemma_values_push(ps, p, "mnt-routes"@);
    lemma_values_push(ps, p, "org"@);
    lemma_values_push(ps, p, "remarks"@);
    lemma_values_push(ps, p, "source"@);
    lemma_combined_opt_push(values_of(ps, "descr"@), v);
    lemma_combined_opt_push(values_of(ps, "status"@), v);
    lemma_combined_opt_push(values_of(ps, "bgp-status"@), v);
    lemma_combined_opt_push(values_of(ps, "policy"@), v);
    lemma_combined_opt_push(values_of(ps, "org"@), v);
}

/// A pair under a foreign key leaves the shared attributes alone.
proof fn lemma_common_unchanged(
    c: RegistryInetNumCommon,
    ps: Seq<(Seq<char>, Seq<char>)>,
    p: (Seq<char>, Seq<char>),
)
    requires
        common_matches(c, ps),
        !common_key_ok(p.0),
    ensures
        common_matches(c, ps.push(p)),
{
    lemma_values_push(ps, p, "netname"@);
    lemma_values_push(ps, p, "nserver"@);
    lemma_values_push(ps, p, "country"@);
    lemma_values_push(ps, p, "descr"@);
    lemma_values_push(ps, p, "status"@);
    lemma_values_push(ps, p, "bgp-status"@);
    lemma_values_push(ps, p, "policy"@);
    lemma_values_push(ps, p, "admin-c"@);
    lemma_values_push(ps, p, "tech-c"@);
    lemma_values_push(ps, p, "zone-c"@);
    lemma_values_push(ps, p, "ds-rdata"@);
    lemma_values_push(ps, p, "mnt-by"@);
    lemma_values_push(ps, p, "mnt-lower"@);
    lemma_values_push(ps, p, "mnt-routes"@);
    lemma_values_push(ps, p, "org"@);
    lemma_values_push(ps, p, "remarks"@);
    lemma_values_push(ps, p, "source"@);
}

impl RegistryInetNumCommon {
    /// The empty shared attribute set.
    pub fn new() -> (r: RegistryInetNumCommon)
        ensures
            common_matches(r, Seq::empty()),
    {
        let r = RegistryInetNumCommon {
            netname: String::new(),
            nserver: Vec::new(),
            country: Vec::new(),
            descr: None,
            status: None,
            bgp_status: None,
            policy: None,
            admin_c: Vec::new(),
            tech_c: Vec::new(),
            zone_c: Vec::new(),
            ds_rdata: Vec::new(),
            mnt_by: Vec::new(),
            mnt_lower: Vec::new(),
            mnt_routes: Vec::new(),
            org: None,
            remarks: Vec::new(),
            source: String::new(),
        };
        proof {
            assert(r.nserver.deep_view() =~= Seq::<Seq<char>>::empty());
            assert(r.country.deep_view() =~= Seq::<Seq<char>>::empty());
            assert(r.admin_c.deep_view() =~= Seq::<Seq<char>>::empty());
            assert(r.tech_c.deep_view() =~= Seq::<Seq<char>>::empty());
            assert(r.zone_c.deep_view() =~= Seq::<Seq<char>>::empty());
            assert(r.ds_rdata.deep_view() =~= Seq::<Seq<char>>::empty());
            assert(r.mnt_by.deep_view() =~= Seq::<Seq<char>>::empty());
            assert(r.mnt_lower.deep_view() =~= Seq::<Seq<char>>::empty());
            assert(r.mnt_routes.deep_view() =~= Seq::<Seq<char>>::empty());
            assert(r.remarks.deep_view() =~= Seq::<Seq<char>>::empty());
        }
        r
    }

    /// Applies one key/value pair, or rejects an unrecognized key.
    pub fn parse(&mut self, kv: (&str, String)) -> (r: Result<(), ParseError>)
        ensures
            r is Ok <==> common_key_ok(kv.0@),
            r is Ok ==> common_step(*old(self), *final(self), kv.0@, kv.1@),
            r is Err ==> *final(self) == *old(self) && (r->Err_0 matches ParseError::UnknownKey {
                ident,
                key,
                value,
            } && ident@ == Seq::<char>::empty() && key@ == kv.0@ && value@ == kv.1@),
    {
        proof {
            lemma_key_facts();
        }
        let (key, value) = kv;
        if eq_str(key, "netname") {
            self.netname = value;
        } else if eq_str(key, "nserver") {
            push_value(&mut self.nserver, &value);
        } else if eq_str(key, "country") {
            push_value(&mut self.country, &value);
        } else if eq_str(key, "descr") {
            self.descr = combine_option(&self.descr, value);
        } else if eq_str(key, "status") {
            self.status = combine_option(&self.status, value);
        } else if eq_str(key, "bgp-status") {
            self.bgp_status = combine_option(&self.bgp_status, value);
        } else if eq_str(key, "policy") {
            self.policy = combine_option(&self.policy, value);
        } else if eq_str(key, "admin-c") {
            push_value(&mut self.admin_c, &value);
        } else if eq_str(key, "tech-c") {
            push_value(&mut self.tech_c, &value);
        } else if eq_str(key, "zone-c") {
            push_value(&mut self.zone_c, &value);
        } else if eq_str(key, "ds-rdata") {
            push_value(&mut self.ds_rdata, &value);
        } else if eq_str(key, "mnt-by") {
            push_value(&mut self.mnt_by, &value);
        } else if eq_str(key, "mnt-lower") {
            push_value(&mut self.mnt_lower, &value);
        } else if eq_str(key, "mnt-routes") {
            push_value(&mut self.mnt_routes, &value);
        } else if eq_str(key, "org") {
            self.org = combine_option(&self.org, value);
        } else if eq_str(key, "remarks") {
            push_value(&mut self.remarks, &value);
        } else if eq_str(key, "source") {
            self.source = value;
        } else {
            return Err(ParseError::UnknownKey {
                ident: String::new(),
                key: String::from_str(key),
                value,
            });
        }
        Ok(())
    }
}


/// An IPv4 address-block record.
#[derive(Debug)]
pub struct RegistryInetNum {
    pub inetnum: String,
    pub cidr: InetCidr,
    pub common: RegistryInetNumCommon,
}

pub open spec fn inetnum_rec_key_ok(p: (Seq<char>, Seq<char>), cidr: InetCidr) -> bool {
    if p.0 == "cidr"@ {
        p.1 == inet_cidr_text(cidr)
    } else if p.0 == "inetnum"@ {
        true
    } else {
        common_key_ok(p.0)
    }
}

pub open spec fn inetnum_rec_ok(ps: Seq<(Seq<char>, Seq<char>)>, cidr: InetCidr) -> bool {
    forall|i: int| 0 <= i < ps.len() ==> inetnum_rec_key_ok(#[trigger] ps[i], cidr)
}

/// The first pair an inetnum record rejects.
pub open spec fn inetnum_rec_bad(ps: Seq<(Seq<char>, Seq<char>)>, cidr: InetCidr) -> (Seq<char>, Seq<char>)
    decreases ps.len(),
{
    if ps.len() == 0 {
        (Seq::empty(), Seq::empty())
    } else if !inetnum_rec_key_ok(ps.first(), cidr) {
        ps.first()
    } else {
        inetnum_rec_bad(ps.drop_first(), cidr)
    }
}

proof fn lemma_inetnum_rec_bad(ps: Seq<(Seq<char>, Seq<char>)>, cidr: InetCidr, i: int)
    requires
        0 <= i < ps.len(),
        forall|j: int| 0 <= j < i ==> inetnum_rec_key_ok(#[trigger] ps[j], cidr),
        !inetnum_rec_key_ok(ps[i], cidr),
    ensures
        inetnum_rec_bad(ps, cidr) == ps[i],
    decreases i,
{
    if i > 0 {
        lemma_inetnum_rec_bad(ps.drop_first(), cidr, i - 1);
    }
}

/// How an inetnum record's fields relate to the pairs that built it.
pub open spec fn inetnum_rec_matches(r: RegistryInetNum, ps: Seq<(Seq<char>, Seq<char>)>, cidr: InetCidr) -> bool {
    &&& r.cidr == cidr
    &&& r.inetnum@ == last_or_empty(values_of(ps, "inetnum"@))
    &&& common_matches(r.common, ps)
}

/// The error an inetnum record reports for its first rejected pair.
pub open spec fn inetnum_rec_err_matches(e: ParseError, ps: Seq<(Seq<char>, Seq<char>)>, cidr: InetCidr) -> bool {
    let bad = inetnum_rec_bad(ps, cidr);
    if bad.0 == "cidr"@ {
        e matches ParseError::IdentityMismatch { expected, found } && expected@ == inet_cidr_text(cidr)
            && found@ == bad.1
    } else {
        e matches ParseError::UnknownKey { ident, key, value } && ident@ == Seq::<char>::empty()
            && key@ == bad.0 && value@ == bad.1
    }
}

impl RegistryInetNum {
    /// An empty record for the given block.
    pub fn new(net: InetCidr) -> (r: RegistryInetNum)
        ensures
            inetnum_rec_matches(r, Seq::empty(), net),
    {
        RegistryInetNum { cidr: net, inetnum: String::new(), common: RegistryInetNumCommon::new() }
    }

    /// Folds a record file's lines into an inetnum record for the block its
    /// filename encodes, or reports the first failure.
    pub fn from(lines: &Vec<String>, cidr: InetCidr) -> (r: Result<RegistryInetNum, ParseError>)
        ensures
            r is Ok <==> pairs_ok(lines.deep_view()) && inetnum_rec_ok(pairs_of(lines.deep_view()), cidr),
            r matches Ok(rec) ==> inetnum_rec_matches(rec, pairs_of(lines.deep_view()), cidr),
            r matches Err(e) ==> if pairs_ok(lines.deep_view()) {
                inetnum_rec_err_matches(e, pairs_of(lines.deep_view()), cidr)
            } else {
                grammar_err_matches(e, lines.deep_view())
            },
    {
        let ghost gcidr = cidr;
        let pairs = match record_pairs(lines) {
            Ok(ps) => ps,
            Err(e) => { return Err(e) },
        };
        let ghost ps = pairs.deep_view();
        let expected = cidr.to_string();
        let mut obj = RegistryInetNum::new(cidr);
        let mut i: usize = 0;
        while i < pairs.len()
            invariant
                0 <= i <= pairs.len(),
                ps.len() == pairs.len(),
                ps == pairs.deep_view(),
                expected@ == inet_cidr_text(gcidr),
                forall|j: int| 0 <= j < i ==> inetnum_rec_key_ok(#[trigger] ps[j], gcidr),
                inetnum_rec_matches(obj, ps.subrange(0, i as int), gcidr),
            decreases pairs.len() - i,
        {
            proof {
                lemma_key_facts();
                let prefix = ps.subrange(0, i as int);
                let p = ps[i as int];
                assert(p == (pairs@[i as int].0@, pairs@[i as int].1@));
                assert(ps.subrange(0, i + 1) =~= prefix.push(p));
                lemma_values_push(prefix, p, "inetnum"@);
            }
            let k = &pairs[i].0;
            let v = &pairs[i].1;
            if eq_str(k.as_str(), "cidr") {
                if !eq_str(v.as_str(), expected.as_str()) {
                    proof {
                        lemma_inetnum_rec_bad(ps, gcidr, i as int);
                    }
                    return Err(ParseError::IdentityMismatch {
                        expected,
                        found: v.clone(),
                    });
                }
                proof {
                    lemma_common_unchanged(
                        obj.common,
                        ps.subrange(0, i as int),
                        ps[i as int],
                    );
                }
            } else if eq_str(k.as_str(), "inetnum") {
                obj.inetnum = v.clone();
                proof {
                    lemma_common_unchanged(
                        obj.common,
                        ps.subrange(0, i as int),
                        ps[i as int],
                    );
                }
            } else {
                let ghost before = obj.common;
                match obj.common.parse((k.as_str(), v.clone())) {
                    Ok(()) => {
                        proof {
                            lemma_common_step(
                                before,
                                obj.common,
                                ps.subrange(0, i as int),
                                k@,
                                v@,
                            );
                        }
                    },
                    Err(e) => {
                        proof {
                            lemma_inetnum_rec_bad(ps, gcidr, i as int);
                        }
                        return Err(e);
                    },
                }
            }
            assert(inetnum_rec_matches(obj, ps.subrange(0, i + 1), gcidr));
            i = i + 1;
        }
        assert(ps.subrange(0, ps.len() as int) =~= ps);
        Ok(obj)
    }
}

/// An IPv6 address-block record.
#[derive(Debug)]
pub struct RegistryInet6Num {
    pub inet6num: String,
    pub cidr: Inet6Cidr,
    pub common: RegistryInetNumCommon,
}

pub open spec fn inet6num_rec_key_ok_text(p: (Seq<char>, Seq<char>), ctext: Seq<char>) -> bool {
    if p.0 == "cidr"@ {
        p.1 == ctext
    } else if p.0 == "inet6num"@ {
        true
    } else {
        common_key_ok(p.0)
    }
}

pub open spec fn inet6num_rec_key_ok(p: (Seq<char>, Seq<char>), cidr: Inet6Cidr) -> bool {
    inet6num_rec_key_ok_text(p, inet6_cidr_text(cidr))
}

pub open spec fn inet6num_rec_ok_text(ps: Seq<(Seq<char>, Seq<char>)>, ctext: Seq<char>) -> bool {
    forall|i: int| 0 <= i < ps.len() ==> inet6num_rec_key_ok_text(#[trigger] ps[i], ctext)
}

pub open spec fn inet6num_rec_ok(ps: Seq<(Seq<char>, Seq<char>)>, cidr: Inet6Cidr) -> bool {
    forall|i: int| 0 <= i < ps.len() ==> inet6num_rec_key_ok(#[trigger] ps[i], cidr)
}

/// The first pair an inet6num record rejects.
pub open spec fn inet6num_rec_bad(ps: Seq<(Seq<char>, Seq<char>)>, cidr: Inet6Cidr) -> (Seq<char>, Seq<char>)
    decreases ps.len(),
{
    if ps.len() == 0 {
        (Seq::empty(), Seq::empty())
    } else if !inet6num_rec_key_ok(ps.first(), cidr) {
        ps.first()
    } else {
        inet6num_rec_bad(ps.drop_first(), cidr)
    }
}

proof fn lemma_inet6num_rec_bad(ps: Seq<(Seq<char>, Seq<char>)>, cidr: Inet6Cidr, i: int)
    requires
        0 <= i < ps.len(),
        forall|j: int| 0 <= j < i ==> inet6num_rec_key_ok(#[trigger] ps[j], cidr),
        !inet6num_rec_key_ok(ps[i], cidr),
    ensures
        inet6num_rec_bad(ps, cidr) == ps[i],
    decreases i,
{
    if i > 0 {
        lemma_inet6num_rec_bad(ps.drop_first(), cidr, i - 1);
    }
}

/// How an inet6num record's fields relate to the pairs that built it.
pub open spec fn inet6num_rec_matches(r: RegistryInet6Num, ps: Seq<(Seq<char>, Seq<char>)>, cidr: Inet6Cidr) -> bool {
    &&& r.cidr == cidr
    &&& r.inet6num@ == last_or_empty(values_of(ps, "inet6num"@))
    &&& common_matches(r.common, ps)
}

/// The error an inet6num record reports for its first rejected pair.
pub open spec fn inet6num_rec_err_matches(e: ParseError, ps: Seq<(Seq<char>, Seq<char>)>, cidr: Inet6Cidr) -> bool {
    let bad = inet6num_rec_bad(ps, cidr);
    if bad.0 == "cidr"@ {
        e matches ParseError::IdentityMismatch { expected, found } && expected@ == inet6_cidr_text(cidr)
            && found@ == bad.1
    } else {
        e matches ParseError::UnknownKey { ident, key, value } && ident@ == Seq::<char>::empty()
            && key@ == bad.0 && value@ == bad.1
    }
}

impl RegistryInet6Num {
    /// An empty record for the given block.
    pub fn new(net: Inet6Cidr) -> (r: RegistryInet6Num)
        ensures
            inet6num_rec_matches(r, Seq::empty(), net),
    {
        RegistryInet6Num { cidr: net, inet6num: String::new(), common: RegistryInetNumCommon::new() }
    }

    /// Folds a record file's lines into an inet6num record for the block its
    /// filename encodes, or reports the first failure.
    pub fn from(lines: &Vec<String>, cidr: Inet6Cidr) -> (r: Result<RegistryInet6Num, ParseError>)
        ensures
            r is Ok <==> pairs_ok(lines.deep_view()) && inet6num_rec_ok(pairs_of(lines.deep_view()), cidr),
            r matches Ok(rec) ==> inet6num_rec_matches(rec, pairs_of(lines.deep_view()), cidr),
            r matches Err(e) ==> if pairs_ok(lines.deep_view()) {
                inet6num_rec_err_matches(e, pairs_of(lines.deep_view()), cidr)
            } else {
                grammar_err_matches(e, lines.deep_view())
            },
    {
        let ghost gcidr = cidr;
        let pairs = match record_pairs(lines) {
            Ok(ps) => ps,
            Err(e) => { return Err(e) },
        };
        let ghost ps = pairs.deep_view();
        let expected = cidr.to_string();
        let mut obj = RegistryInet6Num::new(cidr);
        let mut i: usize = 0;
        while i < pairs.len()
            invariant
                0 <= i <= pairs.len(),
                ps.len() == pairs.len(),
                ps == pairs.deep_view(),
                expected@ == inet6_cidr_text(gcidr),
                forall|j: int| 0 <= j < i ==> inet6num_rec_key_ok(#[trigger] ps[j], gcidr),
                inet6num_rec_matches(obj, ps.subrange(0, i as int), gcidr),
            decreases pairs.len() - i,
        {
            proof {
                lemma_key_facts();
                let prefix = ps.subrange(0, i as int);
                let p = ps[i as int];
                assert(p == (pairs@[i as int].0@, pairs@[i as int].1@));
                assert(ps.subrange(0, i + 1) =~= prefix.push(p));
                lemma_values_push(prefix, p, "inet6num"@);
            }
            let k = &pairs[i].0;
            let v = &pairs[i].1;
            if eq_str(k.as_str(), "cidr") {
                if !eq_str(v.as_str(), expected.as_str()) {
                    proof {
                        lemma_inet6num_rec_bad(ps, gcidr, i as int);
                    }
                    return Err(ParseError::IdentityMismatch {
                        expected,
                        found: v.clone(),
                    });
                }
                proof {
                    lemma_common_unchanged(
                        obj.common,
                        ps.subrange(0, i as int),
                        ps[i as int],
                    );
                }
            } else if eq_str(k.as_str(), "inet6num") {
                obj.inet6num = v.clone();
                proof {
                    lemma_common_unchanged(
                        obj.common,
                        ps.subrange(0, i as int),
                        ps[i as int],
                    );
                }
            } else {
                let ghost before = obj.common;
                match obj.common.parse((k.as_str(), v.clone())) {
                    Ok(()) => {
                        proof {
                            lemma_common_step(
                                before,
                                obj.common,
                                ps.subrange(0, i as int),
                                k@,
                                v@,
                            );
                        }
                    },
                    Err(e) => {
                        proof {
                            lemma_inet6num_rec_bad(ps, gcidr, i as int);
                        }
                        return Err(e);
                    },
                }
            }
            assert(inet6num_rec_matches(obj, ps.subrange(0, i + 1), gcidr));
            i = i + 1;
        }
        assert(ps.subrange(0, ps.len() as int) =~= ps);
        Ok(obj)
    }
}


// ---------------------------------------------------------------------------
// route / route6 records
// ---------------------------------------------------------------------------
/// Origin values with their two-character `AS` prefix stripped.
pub open spec fn origins_of(vs: Seq<Seq<char>>) -> Seq<Seq<char>> {
    vs.map_values(|v: Seq<char>| v.skip(2))
}

proof fn lemma_origins_push(vs: Seq<Seq<char>>, x: Seq<char>)
    ensures
        origins_of(vs.push(x)) == origins_of(vs).push(x.skip(2)),
{
    assert(origins_of(vs.push(x)) =~= origins_of(vs).push(x.skip(2)));
}

/// Pingable values decoded as IPv4 addresses.
pub open spec fn quads_of(vs: Seq<Seq<char>>) -> Seq<InetNum> {
    vs.map_values(|v: Seq<char>| v4_addr_of(v))
}

proof fn lemma_quads_push(vs: Seq<Seq<char>>, x: Seq<char>)
    ensures
        quads_of(vs.push(x)) == quads_of(vs).push(v4_addr_of(x)),
{
    assert(quads_of(vs.push(x)) =~= quads_of(vs).push(v4_addr_of(x)));
}

/// Pingable values kept as IPv6 address values.
pub open spec fn pingable6_matches(xs: Seq<Inet6Num>, vs: Seq<Seq<char>>) -> bool {
    xs.len() == vs.len() && forall|i: int|
        0 <= i < xs.len() ==> (#[trigger] xs[i]).text@ == vs[i] && Some(xs[i].groups@)
            == crate::net::ipv6_groups(vs[i])
}

/// An IPv4 route authorization record.
#[derive(Debug)]
pub struct RegistryRoute {
    pub route: InetCidr,
    pub max_length: Option<u8>,
    pub mnt_by: Vec<String>,
    pub origin: Vec<String>,
    pub member_of: Vec<String>,
    pub admin_c: Vec<String>,
    pub tech_c: Vec<String>,
    pub descr: Option<String>,
    pub remarks: Vec<String>,
    pub source: String,
    pub pingable: Vec<InetNum>,
}

pub open spec fn route_key_ok(p: (Seq<char>, Seq<char>), cidr: InetCidr) -> bool {
    if p.0 == "route"@ {
        p.1 == inet_cidr_text(cidr)
    } else if p.0 == "max-length"@ {
        max_len_ok(p.1)
    } else if p.0 == "origin"@ {
        is_as_value(p.1)
    } else if p.0 == "pingable"@ {
        is_v4_addr(p.1)
    } else {
        ||| p.0 == "mnt-by"@
        ||| p.0 == "member-of"@
        ||| p.0 == "admin-c"@
        ||| p.0 == "tech-c"@
        ||| p.0 == "descr"@
        ||| p.0 == "remarks"@
        ||| p.0 == "source"@
    }
}

pub open spec fn route_ok(ps: Seq<(Seq<char>, Seq<char>)>, cidr: InetCidr) -> bool {
    forall|i: int| 0 <= i < ps.len() ==> route_key_ok(#[trigger] ps[i], cidr)
}

/// The first pair a route record rejects.
pub open spec fn route_bad(ps: Seq<(Seq<char>, Seq<char>)>, cidr: InetCidr) -> (Seq<char>, Seq<char>)
    decreases ps.len(),
{
    if ps.len() == 0 {
        (Seq::empty(), Seq::empty())
    } else if !route_key_ok(ps.first(), cidr) {
        ps.first()
    } else {
        route_bad(ps.drop_first(), cidr)
    }
}

proof fn lemma_route_bad(ps: Seq<(Seq<char>, Seq<char>)>, cidr: InetCidr, i: int)
    requires
        0 <= i < ps.len(),
        forall|j: int| 0 <= j < i ==> route_key_ok(#[trigger] ps[j], cidr),
        !route_key_ok(ps[i], cidr),
    ensures
        route_bad(ps, cidr) == ps[i],
    decreases i,
{
    if i > 0 {
        lemma_route_bad(ps.drop_first(), cidr, i - 1);
    }
}

/// How a route record's fields relate to the pairs that built it.
pub open spec fn route_matches(r: RegistryRoute, ps: Seq<(Seq<char>, Seq<char>)>, cidr: InetCidr) -> bool {
    &&& r.route == cidr
    &&& r.max_length == opt_last_dec(values_of(ps, "max-length"@))
    &&& r.origin.deep_view() == origins_of(values_of(ps, "origin"@))
    &&& r.mnt_by.deep_view() == values_of(ps, "mnt-by"@)
    &&& r.member_of.deep_view() == values_of(ps, "member-of"@)
    &&& r.admin_c.deep_view() == values_of(ps, "admin-c"@)
    &&& r.tech_c.deep_view() == values_of(ps, "tech-c"@)
    &&& r.descr.deep_view() == combined_opt(values_of(ps, "descr"@))
    &&& r.remarks.deep_view() == values_of(ps, "remarks"@)
    &&& r.source@ == last_or_empty(values_of(ps, "source"@))
    &&& r.pingable@ == quads_of(values_of(ps, "pingable"@))
}

/// The error a route record reports for its first rejected pair.
pub open spec fn route_err_matches(e: ParseError, ps: Seq<(Seq<char>, Seq<char>)>, cidr: InetCidr) -> bool {
    let bad = route_bad(ps, cidr);
    if bad.0 == "route"@ {
        e matches ParseError::IdentityMismatch { expected, found } && expected@
            == inet_cidr_text(cidr) && found@ == bad.1
    } else if bad.0 == "max-length"@ || bad.0 == "origin"@ || bad.0 == "pingable"@ {
        e matches ParseError::BadNumber { value } && value@ == bad.1
    } else {
        e matches ParseError::UnknownKey { ident, key, value } && ident@ == inet_cidr_text(cidr)
            && key@ == bad.0 && value@ == bad.1
    }
}

impl RegistryRoute {
    /// An empty record for the given block.
    pub fn new(cidr: InetCidr) -> (r: RegistryRoute)
        ensures
            route_matches(r, Seq::empty(), cidr),
    {
        let r = RegistryRoute {
            route: cidr,
            max_length: None,
            mnt_by: Vec::new(),
            origin: Vec::new(),
            member_of: Vec::new(),
            admin_c: Vec::new(),
            tech_c: Vec::new(),
            descr: None,
            remarks: Vec::new(),
            source: String::new(),
            pingable: Vec::new(),
        };
        proof {
            assert(r.mnt_by.deep_view() =~= Seq::<Seq<char>>::empty());
            assert(r.origin.deep_view() =~= Seq::<Seq<char>>::empty());
            assert(r.member_of.deep_view() =~= Seq::<Seq<char>>::empty());
            assert(r.admin_c.deep_view() =~= Seq::<Seq<char>>::empty());
            assert(r.tech_c.deep_view() =~= Seq::<Seq<char>>::empty());
            assert(r.remarks.deep_view() =~= Seq::<Seq<char>>::empty());
            assert(origins_of(values_of(Seq::empty(), "origin"@)) =~= Seq::<Seq<char>>::empty());
            assert(quads_of(values_of(Seq::empty(), "pingable"@)) =~= Seq::<InetNum>::empty());
        }
        r
    }

    /// Folds a record file's lines into a route record for the block its
    /// filename encodes, or reports the first failure.
    pub fn from(lines: &Vec<String>, cidr: InetCidr) -> (r: Result<RegistryRoute, ParseError>)
        ensures
            r is Ok <==> pairs_ok(lines.deep_view()) && route_ok(pairs_of(lines.deep_view()), cidr),
            r matches Ok(rec) ==> route_matches(rec, pairs_of(lines.deep_view()), cidr),
            r matches Err(e) ==> if pairs_ok(lines.deep_view()) {
                route_err_matches(e, pairs_of(lines.deep_view()), cidr)
            } else {
                grammar_err_matches(e, lines.deep_view())
            },
    {
        let pairs = match record_pairs(lines) {
            Ok(ps) => ps,
            Err(e) => { return Err(e) },
        };
        let ghost ps = pairs.deep_view();
        let expected = cidr.to_string();
        let mut obj = RegistryRoute::new(cidr);
        let mut i: usize = 0;
        while i < pairs.len()
            invariant
                0 <= i <= pairs.len(),
                ps.len() == pairs.len(),
                ps == pairs.deep_view(),
                expected@ == inet_cidr_text(cidr),
                forall|j: int| 0 <= j < i ==> route_key_ok(#[trigger] ps[j], cidr),
                route_matches(obj, ps.subrange(0, i as int), cidr),
            decreases pairs.len() - i,
        {
            proof {
                lemma_key_facts();
                let prefix = ps.subrange(0, i as int);
                let p = ps[i as int];
                assert(p == (pairs@[i as int].0@, pairs@[i as int].1@));
                assert(ps.subrange(0, i + 1) =~= prefix.push(p));
                lemma_values_push(prefix, p, "route"@);
                lemma_values_push(prefix, p, "max-length"@);
                lemma_values_push(prefix, p, "origin"@);
                lemma_values_push(prefix, p, "mnt-by"@);
                lemma_values_push(prefix, p, "member-of"@);
                lemma_values_push(prefix, p, "admin-c"@);
                lemma_values_push(prefix, p, "tech-c"@);
                lemma_values_push(prefix, p, "descr"@);
                lemma_values_push(prefix, p, "remarks"@);
                lemma_values_push(prefix, p, "source"@);
                lemma_values_push(prefix, p, "pingable"@);
                lemma_combined_opt_push(values_of(prefix, "descr"@), p.1);
                lemma_origins_push(values_of(prefix, "origin"@), p.1);
                lemma_quads_push(values_of(prefix, "pingable"@), p.1);
            }
            let k = &pairs[i].0;
            let v = &pairs[i].1;
            if eq_str(k.as_str(), "route") {
                if !eq_str(v.as_str(), expected.as_str()) {
                    proof {
                        lemma_route_bad(ps, cidr, i as int);
                    }
                    return Err(ParseError::IdentityMismatch {
                        expected,
                        found: v.clone(),
                    });
                }
            } else if eq_str(k.as_str(), "max-length") {
                match parse_dec_u8(v.as_str()) {
                    Some(l) => {
                        obj.max_length = Some(l);
                    },
                    None => {
                        proof {
                            lemma_route_bad(ps, cidr, i as int);
                        }
                        return Err(ParseError::BadNumber { value: v.clone() });
                    },
                }
            } else if eq_str(k.as_str(), "origin") {
                match parse_origin(v.as_str()) {
                    Some(o) => {
                        push_value(&mut obj.origin, &o);
                    },
                    None => {
                        proof {
                            lemma_route_bad(ps, cidr, i as int);
                        }
                        return Err(ParseError::BadNumber { value: v.clone() });
                    },
                }
            } else if eq_str(k.as_str(), "pingable") {
                match InetNum::from(v.as_str()) {
                    Ok(a) => {
                        let ghost before = obj.pingable@;
                        obj.pingable.push(a);
                        assert(obj.pingable@ =~= before.push(v4_addr_of(v@)));
                    },
                    Err(_) => {
                        proof {
                            lemma_route_bad(ps, cidr, i as int);
                        }
                        return Err(ParseError::BadNumber { value: v.clone() });
                    },
                }
            } else if eq_str(k.as_str(), "mnt-by") {
                push_value(&mut obj.mnt_by, v);
            } else if eq_str(k.as_str(), "member-of") {
                push_value(&mut obj.member_of, v);
            } else if eq_str(k.as_str(), "admin-c") {
                push_value(&mut obj.admin_c, v);
            } else if eq_str(k.as_str(), "tech-c") {
                push_value(&mut obj.tech_c, v);
            } else if eq_str(k.as_str(), "descr") {
                obj.descr = combine_option(&obj.descr, v.clone());
            } else if eq_str(k.as_str(), "remarks") {
                push_value(&mut obj.remarks, v);
            } else if eq_str(k.as_str(), "source") {
                obj.source = v.clone();
            } else {
                proof {
                    lemma_route_bad(ps, cidr, i as int);
                }
                return Err(ParseError::UnknownKey {
                    ident: expected,
                    key: k.clone(),
                    value: v.clone(),
                });
            }
            assert(route_matches(obj, ps.subrange(0, i + 1), cidr));
            i = i + 1;
        }
        assert(ps.subrange(0, ps.len() as int) =~= ps);
        Ok(obj)
    }
}


/// An IPv6 route authorization record.
#[derive(Debug)]
pub struct RegistryRoute6 {
    pub route6: Inet6Cidr,
    pub max_length: Option<u8>,
    pub mnt_by: Vec<String>,
    pub origin: Vec<String>,
    pub member_of: Vec<String>,
    pub admin_c: Vec<String>,
    pub tech_c: Vec<String>,
    pub descr: Vec<String>,
    pub remarks: Vec<String>,
    pub source: String,
    pub pingable: Vec<Inet6Num>,
}

pub open spec fn route6_key_ok_text(p: (Seq<char>, Seq<char>), ctext: Seq<char>) -> bool {
    if p.0 == "route6"@ {
        p.1 == ctext
    } else if p.0 == "max-length"@ {
        max_len_ok(p.1)
    } else if p.0 == "origin"@ {
        is_as_value(p.1)
    } else if p.0 == "pingable"@ {
        crate::net::ipv6_groups(p.1) is Some
    } else {
        ||| p.0 == "mnt-by"@
        ||| p.0 == "member-of"@
        ||| p.0 == "admin-c"@
        ||| p.0 == "tech-c"@
        ||| p.0 == "descr"@
        ||| p.0 == "remarks"@
        ||| p.0 == "source"@
    }
}

pub open spec fn route6_key_ok(p: (Seq<char>, Seq<char>), cidr: Inet6Cidr) -> bool {
    route6_key_ok_text(p, inet6_cidr_text(cidr))
}

pub open spec fn route6_ok_text(ps: Seq<(Seq<char>, Seq<char>)>, ctext: Seq<char>) -> bool {
    forall|i: int| 0 <= i < ps.len() ==> route6_key_ok_text(#[trigger] ps[i], ctext)
}

pub open spec fn route6_ok(ps: Seq<(Seq<char>, Seq<char>)>, cidr: Inet6Cidr) -> bool {
    forall|i: int| 0 <= i < ps.len() ==> route6_key_ok(#[trigger] ps[i], cidr)
}

/// The first pair a route6 record rejects.
pub open spec fn route6_bad(ps: Seq<(Seq<char>, Seq<char>)>, cidr: Inet6Cidr) -> (Seq<char>, Seq<char>)
    decreases ps.len(),
{
    if ps.len() == 0 {
        (Seq::empty(), Seq::empty())
    } else if !route6_key_ok(ps.first(), cidr) {
        ps.first()
    } else {
        route6_bad(ps.drop_first(), cidr)
    }
}

proof fn lemma_route6_bad(ps: Seq<(Seq<char>, Seq<char>)>, cidr: Inet6Cidr, i: int)
    requires
        0 <= i < ps.len(),
        forall|j: int| 0 <= j < i ==> route6_key_ok(#[trigger] ps[j], cidr),
        !route6_key_ok(ps[i], cidr),
    ensures
        route6_bad(ps, cidr) == ps[i],
    decreases i,
{
    if i > 0 {
        lemma_route6_bad(ps.drop_first(), cidr, i - 1);
    }
}

/// How a route6 record's fields relate to the pairs that built it.
pub open spec fn route6_matches(r: RegistryRoute6, ps: Seq<(Seq<char>, Seq<char>)>, cidr: Inet6Cidr) -> bool {
    &&& r.route6 == cidr
    &&& r.max_length == opt_last_dec(values_of(ps, "max-length"@))
    &&& r.origin.deep_view() == origins_of(values_of(ps, "origin"@))
    &&& r.mnt_by.deep_view() == values_of(ps, "mnt-by"@)
    &&& r.member_of.deep_view() == values_of(ps, "member-of"@)
    &&& r.admin_c.deep_view() == values_of(ps, "admin-c"@)
    &&& r.tech_c.deep_view() == values_of(ps, "tech-c"@)
    &&& r.descr.deep_view() == values_of(ps, "descr"@)
    &&& r.remarks.deep_view() == values_of(ps, "remarks"@)
    &&& r.source@ == last_or_empty(values_of(ps, "source"@))
    &&& pingable6_matches(r.pingable@, values_of(ps, "pingable"@))
}

/// The error a route6 record reports for its first rejected pair.
pub open spec fn route6_err_matches(e: ParseError, ps: Seq<(Seq<char>, Seq<char>)>, cidr: Inet6Cidr) -> bool {
    let bad = route6_bad(ps, cidr);
    if bad.0 == "route6"@ {
        e matches ParseError::IdentityMismatch { expected, found } && expected@
            == inet6_cidr_text(cidr) && found@ == bad.1
    } else if bad.0 == "max-length"@ || bad.0 == "origin"@ || bad.0 == "pingable"@ {
        e matches ParseError::BadNumber { value } && value@ == bad.1
    } else {
        e matches ParseError::UnknownKey { ident, key, value } && ident@ == inet6_cidr_text(cidr)
            && key@ == bad.0 && value@ == bad.1
    }
}

impl RegistryRoute6 {
    /// An empty record for the given block.
    pub fn new(cidr: Inet6Cidr) -> (r: RegistryRoute6)
        ensures
            route6_matches(r, Seq::empty(), cidr),
    {
        let r = RegistryRoute6 {
            route6: cidr,
            max_length: None,
            mnt_by: Vec::new(),
            origin: Vec::new(),
            member_of: Vec::new(),
            admin_c: Vec::new(),
            tech_c: Vec::new(),
            descr: Vec::new(),
            remarks: Vec::new(),
            source: String::new(),
            pingable: Vec::new(),
        };
        proof {
            assert(r.mnt_by.deep_view() =~= Seq::<Seq<char>>::empty());
            assert(r.origin.deep_view() =~= Seq::<Seq<char>>::empty());
            assert(r.member_of.deep_view() =~= Seq::<Seq<char>>::empty());
            assert(r.admin_c.deep_view() =~= Seq::<Seq<char>>::empty());
            assert(r.tech_c.deep_view() =~= Seq::<Seq<char>>::empty());
            assert(r.descr.deep_view() =~= Seq::<Seq<char>>::empty());
            assert(r.remarks.deep_view() =~= Seq::<Seq<char>>::empty());
            assert(origins_of(values_of(Seq::empty(), "origin"@)) =~= Seq::<Seq<char>>::empty());
        }
        r
    }

    /// Folds a record file's lines into a route6 record for the block its
    /// filename encodes, or reports the first failure.
    pub fn from(lines: &Vec<String>, cidr: Inet6Cidr) -> (r: Result<RegistryRoute6, ParseError>)
        ensures
            r is Ok <==> pairs_ok(lines.deep_view()) && route6_ok(pairs_of(lines.deep_view()), cidr),
            r matches Ok(rec) ==> route6_matches(rec, pairs_of(lines.deep_view()), cidr),
            r matches Err(e) ==> if pairs_ok(lines.deep_view()) {
                route6_err_matches(e, pairs_of(lines.deep_view()), cidr)
            } else {
                grammar_err_matches(e, lines.deep_view())
            },
    {
        let ghost gcidr = cidr;
        let pairs = match record_pairs(lines) {
            Ok(ps) => ps,
            Err(e) => { return Err(e) },
        };
        let ghost ps = pairs.deep_view();
        let expected = cidr.to_string();
        let mut obj = RegistryRoute6::new(cidr);
        let mut i: usize = 0;
        while i < pairs.len()
            invariant
                0 <= i <= pairs.len(),
                ps.len() == pairs.len(),
                ps == pairs.deep_view(),
                expected@ == inet6_cidr_text(gcidr),
                forall|j: int| 0 <= j < i ==> route6_key_ok(#[trigger] ps[j], gcidr),
                route6_matches(obj, ps.subrange(0, i as int), gcidr),
            decreases pairs.len() - i,
        {
            proof {
                lemma_key_facts();
                let prefix = ps.subrange(0, i as int);
                let p = ps[i as int];
                assert(p == (pairs@[i as int].0@, pairs@[i as int].1@));
                assert(ps.subrange(0, i + 1) =~= prefix.push(p));
                lemma_values_push(prefix, p, "route6"@);
                lemma_values_push(prefix, p, "max-length"@);
                lemma_values_push(prefix, p, "origin"@);
                lemma_values_push(prefix, p, "mnt-by"@);
                lemma_values_push(prefix, p, "member-of"@);
                lemma_values_push(prefix, p, "admin-c"@);
                lemma_values_push(prefix, p, "tech-c"@);
                lemma_values_push(prefix, p, "descr"@);
                lemma_values_push(prefix, p, "remarks"@);
                lemma_values_push(prefix, p, "source"@);
                lemma_values_push(prefix, p, "pingable"@);
                lemma_origins_push(values_of(prefix, "origin"@), p.1);
            }
            let k = &pairs[i].0;
            let v = &pairs[i].1;
            if eq_str(k.as_str(), "route6") {
                if !eq_str(v.as_str(), expected.as_str()) {
                    proof {
                        lemma_route6_bad(ps, gcidr, i as int);
                    }
                    return Err(ParseError::IdentityMismatch {
                        expected,
                        found: v.clone(),
                    });
                }
            } else if eq_str(k.as_str(), "max-length") {
                match parse_dec_u8(v.as_str()) {
                    Some(l) => {
                        obj.max_length = Some(l);
                    },
                    None => {
                        proof {
                            lemma_route6_bad(ps, gcidr, i as int);
                        }
                        return Err(ParseError::BadNumber { value: v.clone() });
                    },
                }
            } else if eq_str(k.as_str(), "origin") {
                match parse_origin(v.as_str()) {
                    Some(o) => {
                        push_value(&mut obj.origin, &o);
                    },
                    None => {
                        proof {
                            lemma_route6_bad(ps, gcidr, i as int);
                        }
                        return Err(ParseError::BadNumber { value: v.clone() });
                    },
                }
            } else if eq_str(k.as_str(), "pingable") {
                match Inet6Num::from(v.as_str()) {
                    Ok(a) => {
                        let ghost before = obj.pingable@;
                        obj.pingable.push(a);
                        assert(pingable6_matches(
                            obj.pingable@,
                            values_of(ps.subrange(0, i + 1), "pingable"@),
                        ));
                    },
                    Err(_) => {
                        proof {
                            lemma_route6_bad(ps, gcidr, i as int);
                        }
                        return Err(ParseError::BadNumber { value: v.clone() });
                    },
                }
            } else if eq_str(k.as_str(), "mnt-by") {
                push_value(&mut obj.mnt_by, v);
            } else if eq_str(k.as_str(), "member-of") {
                push_value(&mut obj.member_of, v);
            } else if eq_str(k.as_str(), "admin-c") {
                push_value(&mut obj.admin_c, v);
            } else if eq_str(k.as_str(), "tech-c") {
                push_value(&mut obj.tech_c, v);
            } else if eq_str(k.as_str(), "descr") {
                push_value(&mut obj.descr, v);
            } else if eq_str(k.as_str(), "remarks") {
                push_value(&mut obj.remarks, v);
            } else if eq_str(k.as_str(), "source") {
                obj.source = v.clone();
            } else {
                proof {
                    lemma_route6_bad(ps, gcidr, i as int);
                }
                return Err(ParseError::UnknownKey {
                    ident: expected,
                    key: k.clone(),
                    value: v.clone(),
                });
            }
            assert(route6_matches(obj, ps.subrange(0, i + 1), gcidr));
            i = i + 1;
        }
        assert(ps.subrange(0, ps.len() as int) =~= ps);
        Ok(obj)
    }
}

// ---------------------------------------------------------------------------
// The aggregate store
// ---------------------------------------------------------------------------
/// The policy stance of an AS block.
#[derive(Debug)]
pub enum RegistryAsBlockPolicy {
    Open,
    Ask,
    Closed,
}

/// The signing method of a key-cert record.
pub enum RegistryKeyCertMethod {
    PGP,
    X509,
    MTN,
}

/// One ordered collection per record category, rebuilt wholesale by each
/// parse run.
pub struct RegistryData {
    pub aut_nums: Vec<RegistryAutNum>,
    pub as_sets: Vec<RegistryAsSet>,
    pub as_blocks: Vec<RegistryAsBlock>,
    pub dns: Vec<RegistryDns>,
    pub inet_nums: Vec<RegistryInetNum>,
    pub inet6_nums: Vec<RegistryInet6Num>,
    pub routes: Vec<RegistryRoute>,
    pub routes6: Vec<RegistryRoute6>,
    pub route_sets: Vec<RegistryRouteSet>,
}

/// Every category is empty.
pub open spec fn registry_data_empty(d: RegistryData) -> bool {
    &&& d.aut_nums@.len() == 0
    &&& d.as_sets@.len() == 0
    &&& d.as_blocks@.len() == 0
    &&& d.dns@.len() == 0
    &&& d.inet_nums@.len() == 0
    &&& d.inet6_nums@.len() == 0
    &&& d.routes@.len() == 0
    &&& d.routes6@.len() == 0
    &&& d.route_sets@.len() == 0
}

impl RegistryData {
    /// An empty store.
    pub fn new() -> (r: RegistryData)
        ensures
            registry_data_empty(r),
    {
        RegistryData {
            aut_nums: Vec::new(),
            as_sets: Vec::new(),
            as_blocks: Vec::new(),
            dns: Vec::new(),
            inet_nums: Vec::new(),
            inet6_nums: Vec::new(),
            routes: Vec::new(),
            routes6: Vec::new(),
            route_sets: Vec::new(),
        }
    }

    /// Discards every record, ahead of a fresh parse run.
    pub fn clear(&mut self)
        ensures
            registry_data_empty(*final(self)),
    {
        self.aut_nums.clear();
        self.as_sets.clear();
        self.as_blocks.clear();
        self.dns.clear();
        self.inet_nums.clear();
        self.inet6_nums.clear();
        self.routes.clear();
        self.routes6.clear();
        self.route_sets.clear();
    }
}

} // verus!
