//! Character classes, decimal and hexadecimal numerals, and small string
//! helpers shared by the record grammar, the filename codec and the emitter.
use vstd::prelude::*;

verus! {

/// Decimal digit, as the grammar and the numeric record fields use it.
pub open spec fn is_digit(c: char) -> bool {
    '0' <= c && c <= '9'
}

pub open spec fn digit_val(c: char) -> nat {
    (c as nat - '0' as nat) as nat
}

/// The digit character for a value below ten.
pub open spec fn digit_char(d: nat) -> char {
    if d == 0 { '0' }
    else if d == 1 { '1' }
    else if d == 2 { '2' }
    else if d == 3 { '3' }
    else if d == 4 { '4' }
    else if d == 5 { '5' }
    else if d == 6 { '6' }
    else if d == 7 { '7' }
    else if d == 8 { '8' }
    else { '9' }
}

/// A non-empty run of decimal digits.
pub open spec fn is_dec(s: Seq<char>) -> bool {
    s.len() > 0 && forall|i: int| 0 <= i < s.len() ==> is_digit(#[trigger] s[i])
}

/// The value of a digit run, most significant digit first.
pub open spec fn dec_value(s: Seq<char>) -> nat
    decreases s.len(),
{
    if s.len() == 0 {
        0
    } else {
        dec_value(s.drop_last()) * 10 + digit_val(s.last())
    }
}

/// The canonical decimal numeral of a number (no leading zeros).
pub open spec fn dec_digits(n: nat) -> Seq<char>
    decreases n,
{
    if n < 10 {
        seq![digit_char(n)]
    } else {
        dec_digits(n / 10).push(digit_char(n % 10))
    }
}

/// Lower-case hexadecimal digit, the only form the address grammar accepts.
pub open spec fn is_hex(c: char) -> bool {
    is_digit(c) || ('a' <= c && c <= 'f')
}

pub open spec fn hex_val(c: char) -> nat {
    if is_digit(c) {
        digit_val(c)
    } else {
        (c as nat - 'a' as nat + 10) as nat
    }
}

pub open spec fn is_hex_run(s: Seq<char>) -> bool {
    s.len() > 0 && forall|i: int| 0 <= i < s.len() ==> is_hex(#[trigger] s[i])
}

pub open spec fn hex_value(s: Seq<char>) -> nat
    decreases s.len(),
{
    if s.len() == 0 {
        0
    } else {
        hex_value(s.drop_last()) * 16 + hex_val(s.last())
    }
}

/// An upper bound for the value of a hexadecimal run of `i` digits.
spec fn hex_bound(i: int) -> int {
    if i <= 0 { 1 }
    else if i == 1 { 0x10 }
    else if i == 2 { 0x100 }
    else if i == 3 { 0x1000 }
    else { 0x10000 }
}

/// Appending digits never decreases the value of a run.
proof fn lemma_dec_value_take_grows(s: Seq<char>, i: int, j: int)
    requires
        0 <= i <= j <= s.len(),
    ensures
        dec_value(s.subrange(0, i)) <= dec_value(s.subrange(0, j)),
    decreases j - i,
{
    if i < j {
        lemma_dec_value_take_grows(s, i, j - 1);
        assert(s.subrange(0, j).drop_last() =~= s.subrange(0, j - 1));
    }
}

/// Parses a whole string as a decimal numeral.
/// Returns the value exactly when the string is a digit run whose value fits
/// in `u32`.
pub fn parse_dec_u32(s: &str) -> (r: Option<u32>)
    ensures
        r is Some <==> is_dec(s@) && dec_value(s@) <= u32::MAX,
        r is Some ==> r->0 == dec_value(s@),
{
    let n = s.unicode_len();
    if n == 0 {
        return None;
    }
    let mut acc: u64 = 0;
    let mut i: usize = 0;
    while i < n
        invariant
            0 <= i <= n,
            n == s@.len(),
            forall|k: int| 0 <= k < i ==> is_digit(#[trigger] s@[k]),
            acc == dec_value(s@.subrange(0, i as int)),
            acc <= u32::MAX,
        decreases n - i,
    {
        let c = s.get_char(i);
        let u = c as u32;
        if u < '0' as u32 || u > '9' as u32 {
            return None;
        }
        let d = (u - '0' as u32) as u64;
        acc = acc * 10 + d;
        assert(s@.subrange(0, i + 1).drop_last() =~= s@.subrange(0, i as int));
        i = i + 1;
        if acc > u32::MAX as u64 {
            proof {
                lemma_dec_value_take_grows(s@, i as int, s@.len() as int);
                assert(s@.subrange(0, s@.len() as int) =~= s@);
            }
            return None;
        }
    }
    assert(s@.subrange(0, n as int) =~= s@);
    Some(acc as u32)
}

/// Parses a whole string as a decimal numeral with a small bound.
pub fn parse_dec_u8(s: &str) -> (r: Option<u8>)
    ensures
        r is Some <==> is_dec(s@) && dec_value(s@) <= u8::MAX,
        r is Some ==> r->0 == dec_value(s@),
{
    match parse_dec_u32(s) {
        Some(v) if v <= u8::MAX as u32 => Some(v as u8),
        _ => None,
    }
}

/// Parses a whole string as a lower-case hexadecimal numeral of at most four
/// digits, as one group of an address literal.
pub fn parse_hex_group(s: &str) -> (r: Option<u16>)
    ensures
        r is Some <==> is_hex_run(s@) && s@.len() <= 4,
        r is Some ==> r->0 == hex_value(s@),
{
    let n = s.unicode_len();
    if n == 0 || n > 4 {
        return None;
    }
    let mut acc: u32 = 0;
    let mut i: usize = 0;
    while i < n
        invariant
            0 <= i <= n,
            n == s@.len() <= 4,
            forall|k: int| 0 <= k < i ==> is_hex(#[trigger] s@[k]),
            acc == hex_value(s@.subrange(0, i as int)),
            acc < hex_bound(i as int),
        decreases n - i,
    {
        let c = s.get_char(i);
        let u = c as u32;
        let d: u32 = if u >= '0' as u32 && u <= '9' as u32 {
            u - '0' as u32
        } else if u >= 'a' as u32 && u <= 'f' as u32 {
            u - 'a' as u32 + 10
        } else {
            return None;
        };
        assert(s@.subrange(0, i + 1).drop_last() =~= s@.subrange(0, i as int));
        acc = acc * 16 + d;
        i = i + 1;
    }
    assert(s@.subrange(0, n as int) =~= s@);
    Some(acc as u16)
}

/// The numeral string of a digit below ten.
fn digit_str(d: u32) -> (r: &'static str)
    requires
        d < 10,
    ensures
        r@ =~= seq![digit_char(d as nat)],
{
    proof {
        reveal_strlit("0");
        reveal_strlit("1");
        reveal_strlit("2");
        reveal_strlit("3");
        reveal_strlit("4");
        reveal_strlit("5");
        reveal_strlit("6");
        reveal_strlit("7");
        reveal_strlit("8");
        reveal_strlit("9");
    }
    match d {
        0 => "0",
        1 => "1",
        2 => "2",
        3 => "3",
        4 => "4",
        5 => "5",
        6 => "6",
        7 => "7",
        8 => "8",
        _ => "9",
    }
}

/// Appends the canonical decimal numeral of `n` to `out`.
pub fn append_dec_u32(out: &mut String, n: u32)
    ensures
        final(out)@ == old(out)@ + dec_digits(n as nat),
    decreases n,
{
    if n < 10 {
        out.append(digit_str(n));
    } else {
        append_dec_u32(out, n / 10);
        out.append(digit_str(n % 10));
    }
}

/// Character-wise string equality; equivalent to equality of the views.
pub fn eq_str(a: &str, b: &str) -> (r: bool)
    ensures
        r == (a@ == b@),
{
    let n = a.unicode_len();
    if n != b.unicode_len() {
        assert(a@ != b@);
        return false;
    }
    let mut i: usize = 0;
    while i < n
        invariant
            0 <= i <= n,
            n == a@.len() == b@.len(),
            forall|k: int| 0 <= k < i ==> a@[k] == b@[k],
        decreases n - i,
    {
        if a.get_char(i) as u32 != b.get_char(i) as u32 {
            assert(a@[i as int] != b@[i as int]) by {
                vstd::utf8::char_is_scalar(a@[i as int]);
                vstd::utf8::char_is_scalar(b@[i as int]);
            }
            return false;
        }
        assert(a@[i as int] == b@[i as int]) by {
            vstd::utf8::char_is_scalar(a@[i as int]);
            vstd::utf8::char_is_scalar(b@[i as int]);
        }
        i = i + 1;
    }
    assert(a@ =~= b@);
    true
}

/// The first position at or after `from` where `c` occurs, if any.
pub open spec fn find_from(s: Seq<char>, c: char, from: int) -> Option<int>
    decreases s.len() - from,
{
    if from < 0 || from >= s.len() {
        None
    } else if s[from] == c {
        Some(from)
    } else {
        find_from(s, c, from + 1)
    }
}

/// Scans for the first occurrence of `c` at or after `from`.
pub fn find_char_from(s: &str, c: char, from: usize) -> (r: Option<usize>)
    requires
        from <= s@.len(),
    ensures
        r is Some <==> find_from(s@, c, from as int) is Some,
        r matches Some(i) ==> Some(i as int) == find_from(s@, c, from as int) && from <= i
            < s@.len() && s@[i as int] == c,
{
    let n = s.unicode_len();
    let mut i: usize = from;
    while i < n
        invariant
            from <= i <= n,
            n == s@.len(),
            find_from(s@, c, from as int) == find_from(s@, c, i as int),
        decreases n - i,
    {
        let x = s.get_char(i);
        if x as u32 == c as u32 {
            assert(x == c) by {
                vstd::utf8::char_is_scalar(x);
                vstd::utf8::char_is_scalar(c);
            }
            return Some(i);
        }
        assert(x != c);
        i = i + 1;
    }
    None
}

/// Copies a character range of a slice into an owned string.
pub fn copy_range(s: &str, from: usize, to: usize) -> (r: String)
    requires
        from <= to <= s@.len(),
    ensures
        r@ == s@.subrange(from as int, to as int),
{
    String::from_str(s.substring_char(from, to))
}

/// Whether `p` is a prefix of `s`.
pub open spec fn has_prefix(s: Seq<char>, p: Seq<char>) -> bool {
    s.len() >= p.len() && s.subrange(0, p.len() as int) == p
}

pub fn starts_with_str(s: &str, p: &str) -> (r: bool)
    ensures
        r == has_prefix(s@, p@),
{
    let n = s.unicode_len();
    let m = p.unicode_len();
    if n < m {
        return false;
    }
    let mut i: usize = 0;
    while i < m
        invariant
            0 <= i <= m <= n,
            n == s@.len(),
            m == p@.len(),
            forall|k: int| 0 <= k < i ==> s@[k] == p@[k],
        decreases m - i,
    {
        let a = s.get_char(i);
        let b = p.get_char(i);
        if a as u32 != b as u32 {
            assert(a != b) by {
                vstd::utf8::char_is_scalar(a);
                vstd::utf8::char_is_scalar(b);
            }
            assert(s@.subrange(0, m as int)[i as int] != p@[i as int]);
            return false;
        }
        assert(a == b) by {
            vstd::utf8::char_is_scalar(a);
            vstd::utf8::char_is_scalar(b);
        }
        i = i + 1;
    }
    assert(s@.subrange(0, m as int) =~= p@);
    true
}

/// The pieces of `s` after `from`, split at every occurrence of `sep`
/// (empty pieces kept, as the address grammar needs them).
pub open spec fn split_from(s: Seq<char>, sep: char, from: int) -> Seq<Seq<char>>
    decreases s.len() - from,
{
    match find_from(s, sep, from) {
        None => seq![s.subrange(if 0 <= from <= s.len() { from } else { 0 }, s.len() as int)],
        Some(i) => if from <= i < s.len() {
            seq![s.subrange(from, i)] + split_from(s, sep, i + 1)
        } else {
            seq![]
        },
    }
}

pub open spec fn split_by(s: Seq<char>, sep: char) -> Seq<Seq<char>> {
    split_from(s, sep, 0)
}

/// Splits a string at every occurrence of `sep`, keeping empty pieces.
pub fn split_char(s: &str, sep: char) -> (r: Vec<String>)
    ensures
        r.deep_view() == split_by(s@, sep),
{
    let n = s.unicode_len();
    let mut parts: Vec<String> = Vec::new();
    let mut pos: usize = 0;
    loop
        invariant
            0 <= pos <= n,
            n == s@.len(),
            split_by(s@, sep) == parts.deep_view() + split_from(s@, sep, pos as int),
        decreases n - pos,
    {
        match find_char_from(s, sep, pos) {
            Some(i) => {
                parts.push(copy_range(s, pos, i));
                assert(parts.deep_view() =~= parts.deep_view().drop_last().push(
                    s@.subrange(pos as int, i as int),
                ));
                assert(split_by(s@, sep) =~= parts.deep_view() + split_from(s@, sep, i + 1));
                pos = i + 1;
            },
            None => {
                parts.push(copy_range(s, pos, n));
                assert(parts.deep_view() =~= parts.deep_view().drop_last().push(
                    s@.subrange(pos as int, n as int),
                ));
                assert(split_by(s@, sep) =~= parts.deep_view());
                return parts;
            },
        }
    }
}

/// The position of the last occurrence of `c`, if any.
pub open spec fn rfind(s: Seq<char>, c: char) -> Option<int>
    decreases s.len(),
{
    if s.len() == 0 {
        None
    } else if s.last() == c {
        Some(s.len() - 1)
    } else {
        rfind(s.drop_last(), c)
    }
}

/// Scans for the last occurrence of `c`.
pub fn rfind_char(s: &str, c: char) -> (r: Option<usize>)
    ensures
        r is Some <==> rfind(s@, c) is Some,
        r matches Some(i) ==> Some(i as int) == rfind(s@, c) && i < s@.len() && s@[i as int] == c,
{
    let n = s.unicode_len();
    assert(s@.subrange(0, n as int) =~= s@);
    let mut i: usize = n;
    while i > 0
        invariant
            0 <= i <= n,
            n == s@.len(),
            rfind(s@, c) == rfind(s@.subrange(0, i as int), c),
        decreases i,
    {
        let x = s.get_char(i - 1);
        proof {
            assert(s@.subrange(0, i as int).last() == s@[i - 1]);
            assert(s@.subrange(0, i as int).drop_last() =~= s@.subrange(0, i - 1));
        }
        if x as u32 == c as u32 {
            assert(x == c) by {
                vstd::utf8::char_is_scalar(x);
                vstd::utf8::char_is_scalar(c);
            }
            return Some(i - 1);
        }
        assert(x != c);
        i = i - 1;
    }
    assert(s@.subrange(0, 0) =~= Seq::<char>::empty());
    None
}

} // verus!

