//! Address values: dotted-quad IPv4, textual IPv6, and CIDR pairs.
//!
//! A CIDR's canonical text form `address/length` doubles as the record key,
//! and `address_length` as the filename encoding; both directions live here.
use vstd::prelude::*;

use crate::error::ParseError;
use crate::text::{
    append_dec_u32, copy_range, dec_digits, dec_value, hex_value, is_dec, is_hex_run,
    parse_dec_u8, parse_hex_group, rfind, rfind_char, split_by, split_char,
};

verus! {

use vstd::arithmetic::power2::{pow2, lemma2_to64, lemma_pow2_unfold, lemma_pow2_strictly_increases};

/// An IPv4 address as four octets.
#[derive(Clone, Copy, Debug)]
pub struct InetNum(pub u8, pub u8, pub u8, pub u8);

/// An IPv6 address: the literal as written, plus its eight decoded groups.
#[derive(Clone, Debug)]
pub struct Inet6Num {
    pub text: String,
    pub groups: Vec<u16>,
}

/// An IPv4 address block: address and prefix length.
#[derive(Clone, Copy, Debug)]
pub struct InetCidr(pub InetNum, pub u8);

/// An IPv6 address block: address and prefix length.
#[derive(Clone, Debug)]
pub struct Inet6Cidr(pub Inet6Num, pub u8);

// ---------------------------------------------------------------------------
// IPv4 literals
// ---------------------------------------------------------------------------
/// One octet of a dotted quad: one to three digits, value at most 255.
pub open spec fn is_v4_part(p: Seq<char>) -> bool {
    is_dec(p) && p.len() <= 3 && dec_value(p) <= 255
}

/// A dotted-quad address literal.
pub open spec fn is_v4_addr(s: Seq<char>) -> bool {
    let ps = split_by(s, '.');
    &&& ps.len() == 4
    &&& is_v4_part(ps[0])
    &&& is_v4_part(ps[1])
    &&& is_v4_part(ps[2])
    &&& is_v4_part(ps[3])
}

/// The address a dotted-quad literal denotes.
pub open spec fn v4_addr_of(s: Seq<char>) -> InetNum {
    let ps = split_by(s, '.');
    InetNum(
        dec_value(ps[0]) as u8,
        dec_value(ps[1]) as u8,
        dec_value(ps[2]) as u8,
        dec_value(ps[3]) as u8,
    )
}

impl InetNum {
    /// Parses a dotted-quad literal, whole.
    pub fn from(input: &str) -> (r: Result<InetNum, ParseError>)
        ensures
            r is Ok <==> is_v4_addr(input@),
            r matches Ok(n) ==> n == v4_addr_of(input@),
            r matches Err(e) ==> e matches ParseError::BadNumber { value } && value@ == input@,
    {
        let parts = split_char(input, '.');
        if parts.len() != 4 {
            return Err(ParseError::BadNumber { value: String::from_str(input) });
        }
        assert(forall|k: int|
            0 <= k < 4 ==> #[trigger] parts.deep_view()[k] == parts@[k]@);
        let a = match parse_dec_u8(parts[0].as_str()) {
            Some(v) if parts[0].as_str().unicode_len() <= 3 => v,
            _ => { return Err(ParseError::BadNumber { value: String::from_str(input) }) },
        };
        let b = match parse_dec_u8(parts[1].as_str()) {
            Some(v) if parts[1].as_str().unicode_len() <= 3 => v,
            _ => { return Err(ParseError::BadNumber { value: String::from_str(input) }) },
        };
        let c = match parse_dec_u8(parts[2].as_str()) {
            Some(v) if parts[2].as_str().unicode_len() <= 3 => v,
            _ => { return Err(ParseError::BadNumber { value: String::from_str(input) }) },
        };
        let d = match parse_dec_u8(parts[3].as_str()) {
            Some(v) if parts[3].as_str().unicode_len() <= 3 => v,
            _ => { return Err(ParseError::BadNumber { value: String::from_str(input) }) },
        };
        Ok(InetNum(a, b, c, d))
    }
}

// ---------------------------------------------------------------------------
// IPv6 literals
// ---------------------------------------------------------------------------
/// One group of an IPv6 literal: one to four lower-case hex digits.
pub open spec fn is_v6_group(p: Seq<char>) -> bool {
    is_hex_run(p) && p.len() <= 4
}

pub open spec fn all_v6_groups(ps: Seq<Seq<char>>) -> bool {
    forall|i: int| 0 <= i < ps.len() ==> is_v6_group(#[trigger] ps[i])
}

pub open spec fn group_vals(ps: Seq<Seq<char>>) -> Seq<u16> {
    ps.map_values(|p: Seq<char>| hex_value(p) as u16)
}

pub open spec fn zeros16(n: nat) -> Seq<u16> {
    Seq::new(n, |i: int| 0u16)
}

/// The first position of a `::` pair at or after `from`.
pub open spec fn find_dcolon_from(s: Seq<char>, from: int) -> Option<int>
    decreases s.len() - from,
{
    if from < 0 || from + 1 >= s.len() {
        None
    } else if s[from] == ':' && s[from + 1] == ':' {
        Some(from)
    } else {
        find_dcolon_from(s, from + 1)
    }
}

/// The eight groups an IPv6 literal denotes, if it is well formed:
/// either eight `:`-separated groups, or a single `::` standing for one or
/// more zero groups, with plain group runs on either side.
pub open spec fn ipv6_groups(s: Seq<char>) -> Option<Seq<u16>> {
    match find_dcolon_from(s, 0) {
        None => {
            let ps = split_by(s, ':');
            if ps.len() == 8 && all_v6_groups(ps) {
                Some(group_vals(ps))
            } else {
                None
            }
        },
        Some(i) => {
            if 0 <= i && i + 2 <= s.len() {
                let pre = s.subrange(0, i);
                let post = s.subrange(i + 2, s.len() as int);
                let pres = if pre.len() == 0 { Seq::<Seq<char>>::empty() } else { split_by(pre, ':') };
                let posts = if post.len() == 0 { Seq::<Seq<char>>::empty() } else { split_by(post, ':') };
                if all_v6_groups(pres) && all_v6_groups(posts) && pres.len() + posts.len() <= 7 {
                    Some(
                        group_vals(pres) + zeros16((8 - pres.len() - posts.len()) as nat)
                            + group_vals(posts),
                    )
                } else {
                    None
                }
            } else {
                None
            }
        },
    }
}

/// Scans for the first `::` pair.
fn find_dcolon(s: &str) -> (r: Option<usize>)
    ensures
        r is Some <==> find_dcolon_from(s@, 0) is Some,
        r matches Some(i) ==> Some(i as int) == find_dcolon_from(s@, 0) && i + 2 <= s@.len(),
{
    let n = s.unicode_len();
    if n < 2 {
        return None;
    }
    let mut i: usize = 0;
    while i + 1 < n
        invariant
            0 <= i,
            i + 1 <= n,
            n == s@.len(),
            find_dcolon_from(s@, 0) == find_dcolon_from(s@, i as int),
        decreases n - i,
    {
        let a = s.get_char(i);
        let b = s.get_char(i + 1);
        if a as u32 == ':' as u32 && b as u32 == ':' as u32 {
            proof {
                vstd::utf8::char_is_scalar(a);
                vstd::utf8::char_is_scalar(b);
                vstd::utf8::char_is_scalar(':');
            }
            return Some(i);
        }
        proof {
            vstd::utf8::char_is_scalar(a);
            vstd::utf8::char_is_scalar(b);
            vstd::utf8::char_is_scalar(':');
        }
        i = i + 1;
    }
    None
}

/// Parses every piece of `parts` as a hex group.
fn parse_group_list(parts: &Vec<String>) -> (r: Option<Vec<u16>>)
    ensures
        r is Some <==> all_v6_groups(parts.deep_view()),
        r matches Some(v) ==> v@ == group_vals(parts.deep_view()),
{
    let mut out: Vec<u16> = Vec::new();
    let mut i: usize = 0;
    while i < parts.len()
        invariant
            0 <= i <= parts.len(),
            parts.deep_view().len() == parts.len(),
            forall|k: int| 0 <= k < i ==> is_v6_group(#[trigger] parts.deep_view()[k]),
            out@ == group_vals(parts.deep_view().subrange(0, i as int)),
        decreases parts.len() - i,
    {
        assert(parts.deep_view()[i as int] == parts@[i as int]@);
        match parse_hex_group(parts[i].as_str()) {
            Some(g) => {
                out.push(g);
                assert(out@ =~= group_vals(parts.deep_view().subrange(0, i + 1)));
            },
            None => {
                return None;
            },
        }
        i = i + 1;
    }
    assert(parts.deep_view().subrange(0, parts.deep_view().len() as int) =~= parts.deep_view());
    Some(out)
}

/// Parses an IPv6 literal into its eight groups.
pub fn parse_ipv6(s: &str) -> (r: Option<Vec<u16>>)
    ensures
        r is Some <==> ipv6_groups(s@) is Some,
        r matches Some(v) ==> Some(v@) == ipv6_groups(s@),
{
    let n = s.unicode_len();
    match find_dcolon(s) {
        None => {
            let parts = split_char(s, ':');
            if parts.len() != 8 {
                return None;
            }
            parse_group_list(&parts)
        },
        Some(i) => {
            let pre = copy_range(s, 0, i);
            let post = copy_range(s, i + 2, n);
            let pres: Vec<String> = if pre.as_str().unicode_len() == 0 {
                Vec::new()
            } else {
                split_char(pre.as_str(), ':')
            };
            let posts: Vec<String> = if post.as_str().unicode_len() == 0 {
                Vec::new()
            } else {
                split_char(post.as_str(), ':')
            };
            if pres.len() > 7 {
                return None;
            }
            if posts.len() > 7 - pres.len() {
                return None;
            }
            let mut gs = match parse_group_list(&pres) {
                Some(v) => v,
                None => { return None },
            };
            let fill = 8 - pres.len() - posts.len();
            let mut k: usize = 0;
            while k < fill
                invariant
                    0 <= k <= fill,
                    gs@ == group_vals(pres.deep_view()) + zeros16(k as nat),
                decreases fill - k,
            {
                gs.push(0u16);
                assert(gs@ =~= group_vals(pres.deep_view()) + zeros16((k + 1) as nat));
                k = k + 1;
            }
            let tail = match parse_group_list(&posts) {
                Some(v) => v,
                None => { return None },
            };
            let mut j: usize = 0;
            while j < tail.len()
                invariant
                    0 <= j <= tail.len(),
                    gs@ == group_vals(pres.deep_view()) + zeros16(fill as nat) + tail@.subrange(
                        0,
                        j as int,
                    ),
                decreases tail.len() - j,
            {
                gs.push(tail[j]);
                assert(gs@ =~= group_vals(pres.deep_view()) + zeros16(fill as nat) + tail@.subrange(
                    0,
                    j + 1,
                ));
                j = j + 1;
            }
            assert(tail@.subrange(0, tail@.len() as int) =~= tail@);
            Some(gs)
        },
    }
}

// ---------------------------------------------------------------------------
// Canonical text forms
// ---------------------------------------------------------------------------
/// The dotted-quad text of an IPv4 address.
pub open spec fn v4_text(n: InetNum) -> Seq<char> {
    dec_digits(n.0 as nat) + "."@ + dec_digits(n.1 as nat) + "."@ + dec_digits(n.2 as nat) + "."@
        + dec_digits(n.3 as nat)
}

/// The canonical `address/length` form of an IPv4 block.
pub open spec fn inet_cidr_text(c: InetCidr) -> Seq<char> {
    v4_text(c.0) + "/"@ + dec_digits(c.1 as nat)
}

/// The canonical `address/length` form of an IPv6 block from its parts; the
/// address is the literal as it was written.
pub open spec fn cidr6_text(text: Seq<char>, len: u8) -> Seq<char> {
    text + "/"@ + dec_digits(len as nat)
}

/// The canonical `address/length` form of an IPv6 block.
pub open spec fn inet6_cidr_text(c: Inet6Cidr) -> Seq<char> {
    cidr6_text(c.0.text@, c.1)
}

/// A well-formed IPv6 value: the stored groups decode the stored literal.
pub open spec fn inet6_num_wf(n: Inet6Num) -> bool {
    ipv6_groups(n.text@) == Some(n.groups@)
}

pub open spec fn inet6_cidr_wf(c: Inet6Cidr) -> bool {
    inet6_num_wf(c.0)
}

// ---------------------------------------------------------------------------
// Filename codec: `<address>_<prefix-length>`
// ---------------------------------------------------------------------------
/// Decodes an IPv4 block from a filename: the part before the last `_` is a
/// dotted quad, the part after it a prefix length of at most 32.
pub open spec fn v4_filename(s: Seq<char>) -> Option<InetCidr> {
    match rfind(s, '_') {
        None => None,
        Some(i) => {
            if 0 <= i < s.len() {
                let a = s.subrange(0, i);
                let l = s.subrange(i + 1, s.len() as int);
                if is_v4_addr(a) && is_dec(l) && dec_value(l) <= 32 {
                    Some(InetCidr(v4_addr_of(a), dec_value(l) as u8))
                } else {
                    None
                }
            } else {
                None
            }
        },
    }
}

/// The analogous decoding for an IPv6 block, with the ceiling at 128.
pub open spec fn v6_filename_ok(s: Seq<char>) -> bool {
    match rfind(s, '_') {
        None => false,
        Some(i) => {
            &&& 0 <= i < s.len()
            &&& ipv6_groups(s.subrange(0, i)) is Some
            &&& is_dec(s.subrange(i + 1, s.len() as int))
            &&& dec_value(s.subrange(i + 1, s.len() as int)) <= 128
        },
    }
}

pub open spec fn v6_filename_addr(s: Seq<char>) -> Seq<char> {
    s.subrange(0, rfind(s, '_')->0)
}

pub open spec fn v6_filename_len(s: Seq<char>) -> u8 {
    dec_value(s.subrange(rfind(s, '_')->0 + 1, s.len() as int)) as u8
}

impl InetCidr {
    /// Builds a block from four octets and a length.
    pub fn new(quad: (u8, u8, u8, u8), length: u8) -> (r: InetCidr)
        ensures
            r == InetCidr(InetNum(quad.0, quad.1, quad.2, quad.3), length),
    {
        InetCidr(InetNum(quad.0, quad.1, quad.2, quad.3), length)
    }

    /// Parses the address part from its dotted-quad literal.
    pub fn from(i: &str, length: u8) -> (r: Result<InetCidr, ParseError>)
        ensures
            r is Ok <==> is_v4_addr(i@),
            r matches Ok(c) ==> c == InetCidr(v4_addr_of(i@), length),
            r matches Err(e) ==> e matches ParseError::BadNumber { value } && value@ == i@,
    {
        match InetNum::from(i) {
            Ok(n) => Ok(InetCidr(n, length)),
            Err(e) => Err(e),
        }
    }

    /// Decodes a block from its `address_length` filename.
    pub fn from_filename(name: &str) -> (r: Result<InetCidr, ParseError>)
        ensures
            r is Ok <==> v4_filename(name@) is Some,
            r matches Ok(c) ==> Some(c) == v4_filename(name@),
            r matches Err(e) ==> e matches ParseError::BadFilename { name: n } && n@ == name@,
    {
        let n = name.unicode_len();
        match rfind_char(name, '_') {
            Some(i) => {
                let addr = copy_range(name, 0, i);
                let tail = copy_range(name, i + 1, n);
                match (InetNum::from(addr.as_str()), parse_dec_u8(tail.as_str())) {
                    (Ok(a), Some(l)) if l <= 32 => Ok(InetCidr(a, l)),
                    _ => Err(ParseError::BadFilename { name: String::from_str(name) }),
                }
            },
            None => Err(ParseError::BadFilename { name: String::from_str(name) }),
        }
    }

    /// The prefix length.
    pub fn len(&self) -> (r: u8)
        ensures
            r == self.1,
    {
        self.1
    }

    /// The canonical `address/length` text.
    pub fn to_string(&self) -> (r: String)
        ensures
            r@ == inet_cidr_text(*self),
    {
        let mut s = String::new();
        append_dec_u32(&mut s, self.0.0 as u32);
        s.append(".");
        append_dec_u32(&mut s, self.0.1 as u32);
        s.append(".");
        append_dec_u32(&mut s, self.0.2 as u32);
        s.append(".");
        append_dec_u32(&mut s, self.0.3 as u32);
        s.append("/");
        append_dec_u32(&mut s, self.1 as u32);
        assert(s@ =~= inet_cidr_text(*self));
        s
    }
}

impl Inet6Num {
    /// Parses an IPv6 literal.
    pub fn from(input: &str) -> (r: Result<Inet6Num, ParseError>)
        ensures
            r is Ok <==> ipv6_groups(input@) is Some,
            r matches Ok(x) ==> x.text@ == input@ && Some(x.groups@) == ipv6_groups(input@)
                && inet6_num_wf(x),
            r matches Err(e) ==> e matches ParseError::BadNumber { value } && value@ == input@,
    {
        match parse_ipv6(input) {
            Some(gs) => Ok(Inet6Num { text: String::from_str(input), groups: gs }),
            None => Err(ParseError::BadNumber { value: String::from_str(input) }),
        }
    }
}

impl Inet6Cidr {
    /// Parses the address part from its literal.
    pub fn new(input: &str, len: u8) -> (r: Result<Inet6Cidr, ParseError>)
        ensures
            r is Ok <==> ipv6_groups(input@) is Some,
            r matches Ok(c) ==> c.0.text@ == input@ && Some(c.0.groups@) == ipv6_groups(input@)
                && c.1 == len && inet6_cidr_wf(c),
            r matches Err(e) ==> e matches ParseError::BadNumber { value } && value@ == input@,
    {
        match Inet6Num::from(input) {
            Ok(a) => Ok(Inet6Cidr(a, len)),
            Err(e) => Err(e),
        }
    }

    /// Decodes a block from its `address_length` filename.
    pub fn from_filename(name: &str) -> (r: Result<Inet6Cidr, ParseError>)
        ensures
            r is Ok <==> v6_filename_ok(name@),
            r matches Ok(c) ==> c.0.text@ == v6_filename_addr(name@) && Some(c.0.groups@)
                == ipv6_groups(v6_filename_addr(name@)) && c.1 == v6_filename_len(name@)
                && inet6_cidr_wf(c),
            r matches Err(e) ==> e matches ParseError::BadFilename { name: n } && n@ == name@,
    {
        let n = name.unicode_len();
        match rfind_char(name, '_') {
            Some(i) => {
                let addr = copy_range(name, 0, i);
                let tail = copy_range(name, i + 1, n);
                match (parse_ipv6(addr.as_str()), parse_dec_u8(tail.as_str())) {
                    (Some(gs), Some(l)) if l <= 128 => Ok(
                        Inet6Cidr(Inet6Num { text: addr, groups: gs }, l),
                    ),
                    _ => Err(ParseError::BadFilename { name: String::from_str(name) }),
                }
            },
            None => Err(ParseError::BadFilename { name: String::from_str(name) }),
        }
    }

    /// The prefix length.
    pub fn len(&self) -> (r: u8)
        ensures
            r == self.1,
    {
        self.1
    }

    /// The canonical `address/length` text, with the address as written.
    pub fn to_string(&self) -> (r: String)
        ensures
            r@ == inet6_cidr_text(*self),
    {
        let mut s = self.0.text.clone();
        s.append("/");
        append_dec_u32(&mut s, self.1 as u32);
        assert(s@ =~= inet6_cidr_text(*self));
        s
    }
}

// ---------------------------------------------------------------------------
// Prefix containment
// ---------------------------------------------------------------------------
/// The 32-bit value of an IPv4 address.
pub open spec fn v4_val(n: InetNum) -> int {
    n.0 as int * 0x1000000 + n.1 as int * 0x10000 + n.2 as int * 0x100 + n.3 as int
}

/// Whether `addr` lies in the block of the first `len` bits of `net`.
pub open spec fn v4_in_prefix(addr: InetNum, net: InetNum, len: nat) -> bool {
    v4_val(addr) / (pow2((32 - len) as nat) as int) == v4_val(net) / (pow2((32 - len) as nat) as int)
}

/// Two to the power `k`, executably.
fn pow2_u64(k: u8) -> (r: u64)
    requires
        k <= 32,
    ensures
        r == pow2(k as nat),
{
    proof {
        lemma2_to64();
    }
    let mut p: u64 = 1;
    let mut j: u8 = 0;
    while j < k
        invariant
            0 <= j <= k <= 32,
            p == pow2(j as nat),
        decreases k - j,
    {
        proof {
            if (j as nat) < 32 {
                lemma_pow2_strictly_increases(j as nat, 32);
            }
            lemma_pow2_unfold((j + 1) as nat);
        }
        p = p * 2;
        j = j + 1;
    }
    p
}

fn v4_val_exec(n: &InetNum) -> (r: u32)
    ensures
        r == v4_val(*n),
{
    n.0 as u32 * 0x1000000 + n.1 as u32 * 0x10000 + n.2 as u32 * 0x100 + n.3 as u32
}

/// Decides prefix containment for IPv4.
pub fn v4_contains(addr: &InetNum, net: &InetNum, len: u8) -> (r: bool)
    requires
        len <= 32,
    ensures
        r == v4_in_prefix(*addr, *net, len as nat),
{
    let p = pow2_u64(32 - len);
    assert(p > 0) by {
        vstd::arithmetic::power2::lemma_pow2_pos((32 - len) as nat);
    }
    (v4_val_exec(addr) as u64) / p == (v4_val_exec(net) as u64) / p
}

/// Whether the first byte of an IPv6 address (given as eight groups) is `b`.
pub open spec fn v6_first_byte_is(groups: Seq<u16>, b: u16) -> bool {
    groups.len() == 8 && groups[0] / 256 == b
}

/// Decides whether an IPv6 address lies in a block with an 8-bit prefix
/// whose first byte is `b`.
pub fn v6_in_byte_prefix(addr: &Inet6Num, b: u16) -> (r: bool)
    ensures
        r == v6_first_byte_is(addr.groups@, b),
{
    addr.groups.len() == 8 && addr.groups[0] / 256 == b
}

} // verus!
