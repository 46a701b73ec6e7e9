//! The line grammar of a record file.
//!
//! Each non-empty, non-comment line is either `key:` + whitespace + value, or
//! whitespace + value continuing the previous key. Keys prefixed `x-` are
//! recognized but dropped. Anything else is a grammar error naming the line.
use vstd::prelude::*;

use crate::error::ParseError;
use crate::text::{copy_range, eq_str, has_prefix, starts_with_str};

verus! {

/// A key character: lower-case letter, digit, or hyphen.
pub open spec fn is_key_char(c: char) -> bool {
    ('a' <= c && c <= 'z') || ('0' <= c && c <= '9') || c == '-'
}

/// Horizontal whitespace, as the grammar's separator.
pub open spec fn is_space(c: char) -> bool {
    c == ' ' || c == '\t' || c == '\r' || c == '\u{000b}' || c == '\u{000c}'
}

/// The length of the run of key characters starting at `from`.
pub open spec fn key_run(s: Seq<char>, from: int) -> int
    decreases s.len() - from,
{
    if from < 0 || from >= s.len() || !is_key_char(s[from]) {
        0
    } else {
        1 + key_run(s, from + 1)
    }
}

/// The length of the run of whitespace starting at `from`.
pub open spec fn ws_run(s: Seq<char>, from: int) -> int
    decreases s.len() - from,
{
    if from < 0 || from >= s.len() || !is_space(s[from]) {
        0
    } else {
        1 + ws_run(s, from + 1)
    }
}

/// Comment and blank lines are skipped without touching the parse state.
pub open spec fn line_skip(s: Seq<char>) -> bool {
    s.len() == 0 || s[0] == '%'
}

/// Whether the line carries its own key: a non-empty key run followed by a
/// colon.
pub open spec fn line_has_key(s: Seq<char>) -> bool {
    let k = key_run(s, 0);
    k > 0 && k < s.len() && s[k] == ':'
}

/// Where the whitespace-then-value body of the line begins.
pub open spec fn line_body_start(s: Seq<char>) -> int {
    if line_has_key(s) {
        key_run(s, 0) + 1
    } else {
        0
    }
}

/// A non-skipped line is well formed exactly when at least one whitespace
/// character follows the key (or starts the continuation line).
pub open spec fn line_ok(s: Seq<char>) -> bool {
    ws_run(s, line_body_start(s)) > 0
}

pub open spec fn line_key(s: Seq<char>) -> Seq<char> {
    s.subrange(0, key_run(s, 0))
}

/// The value: everything after the whitespace run, to the end of the line.
pub open spec fn line_value(s: Seq<char>) -> Seq<char> {
    s.subrange(line_body_start(s) + ws_run(s, line_body_start(s)), s.len() as int)
}

/// A vendor-extension key, recognized but discarded.
pub open spec fn is_x_key(k: Seq<char>) -> bool {
    has_prefix(k, "x-"@)
}

/// The accumulated key/value pairs and the pending key after the given lines,
/// or the first offending line.
pub open spec fn pairs_state(lines: Seq<Seq<char>>) -> Result<
    (Seq<(Seq<char>, Seq<char>)>, Option<Seq<char>>),
    Seq<char>,
>
    decreases lines.len(),
{
    if lines.len() == 0 {
        Ok((seq![], None))
    } else {
        match pairs_state(lines.drop_last()) {
            Err(l) => Err(l),
            Ok((ps, last)) => pairs_step(ps, last, lines.last()),
        }
    }
}

/// One line's effect on the pair stream.
pub open spec fn pairs_step(
    ps: Seq<(Seq<char>, Seq<char>)>,
    last: Option<Seq<char>>,
    line: Seq<char>,
) -> Result<(Seq<(Seq<char>, Seq<char>)>, Option<Seq<char>>), Seq<char>> {
    if line_skip(line) {
        Ok((ps, last))
    } else if !line_ok(line) {
        Err(line)
    } else if line_has_key(line) {
        let k = line_key(line);
        Ok((if is_x_key(k) { ps } else { ps.push((k, line_value(line))) }, Some(k)))
    } else {
        match last {
            None => Err(line),
            Some(k) => Ok((if is_x_key(k) { ps } else { ps.push((k, line_value(line))) }, Some(k))),
        }
    }
}

/// Whether the whole file obeys the grammar.
pub open spec fn pairs_ok(lines: Seq<Seq<char>>) -> bool {
    pairs_state(lines) is Ok
}

/// The key/value pairs of a well-formed file.
pub open spec fn pairs_of(lines: Seq<Seq<char>>) -> Seq<(Seq<char>, Seq<char>)> {
    pairs_state(lines)->Ok_0.0
}

/// The first offending line of an ill-formed file.
pub open spec fn pairs_badline(lines: Seq<Seq<char>>) -> Seq<char> {
    pairs_state(lines)->Err_0
}

/// A grammar failure reported for the right line.
pub open spec fn grammar_err_matches(e: ParseError, lines: Seq<Seq<char>>) -> bool {
    e matches ParseError::Grammar { line } && line@ == pairs_badline(lines)
}

/// A failing line makes the whole file's pair stream fail with it.
proof fn lemma_pairs_err_propagates(lines: Seq<Seq<char>>, i: int)
    requires
        0 <= i < lines.len(),
        pairs_state(lines.subrange(0, i)) is Ok,
        pairs_step(
            pairs_state(lines.subrange(0, i))->Ok_0.0,
            pairs_state(lines.subrange(0, i))->Ok_0.1,
            lines[i],
        ) is Err,
    ensures
        pairs_state(lines) == pairs_step(
            pairs_state(lines.subrange(0, i))->Ok_0.0,
            pairs_state(lines.subrange(0, i))->Ok_0.1,
            lines[i],
        ),
    decreases lines.len(),
{
    if lines.len() == i + 1 {
        assert(lines.drop_last() =~= lines.subrange(0, i));
    } else {
        assert(lines.drop_last().subrange(0, i) =~= lines.subrange(0, i));
        lemma_pairs_err_propagates(lines.drop_last(), i);
    }
}

/// Scans the key run at the start of the line.
fn scan_key_run(s: &str) -> (r: usize)
    ensures
        r == key_run(s@, 0),
        r <= s@.len(),
{
    let n = s.unicode_len();
    let mut i: usize = 0;
    while i < n
        invariant
            0 <= i <= n,
            n == s@.len(),
            key_run(s@, 0) == i + key_run(s@, i as int),
        decreases n - i,
    {
        let c = s.get_char(i);
        let u = c as u32;
        let is_k = (u >= 'a' as u32 && u <= 'z' as u32) || (u >= '0' as u32 && u <= '9' as u32)
            || u == '-' as u32;
        proof {
            vstd::utf8::char_is_scalar(c);
            vstd::utf8::char_is_scalar('-');
        }
        if !is_k {
            assert(!is_key_char(s@[i as int]));
            return i;
        }
        assert(is_key_char(s@[i as int]));
        i = i + 1;
    }
    i
}

/// Scans the whitespace run starting at `from`.
fn scan_ws_run(s: &str, from: usize) -> (r: usize)
    requires
        from <= s@.len(),
    ensures
        r == ws_run(s@, from as int),
        from + r <= s@.len(),
{
    let n = s.unicode_len();
    let mut i: usize = from;
    while i < n
        invariant
            from <= i <= n,
            n == s@.len(),
            ws_run(s@, from as int) == i - from + ws_run(s@, i as int),
        decreases n - i,
    {
        let c = s.get_char(i);
        let u = c as u32;
        let is_s = u == ' ' as u32 || u == '\t' as u32 || u == '\r' as u32 || u == 0x0b || u
            == 0x0c;
        proof {
            vstd::utf8::char_is_scalar(c);
            vstd::utf8::char_is_scalar(' ');
            vstd::utf8::char_is_scalar('\t');
            vstd::utf8::char_is_scalar('\r');
            vstd::utf8::char_is_scalar('\u{000b}');
            vstd::utf8::char_is_scalar('\u{000c}');
        }
        if !is_s {
            assert(!is_space(s@[i as int]));
            return i - from;
        }
        assert(is_space(s@[i as int]));
        i = i + 1;
    }
    i - from
}

/// One parsed line.
pub enum LineForm {
    /// Comment or blank line.
    Skip,
    /// `key:` + whitespace + value.
    Keyed(String, String),
    /// Whitespace + value, continuing the previous key.
    Cont(String),
}

/// Splits one line into its form, or rejects it.
fn parse_line(s: &str) -> (r: Option<LineForm>)
    ensures
        line_skip(s@) ==> (r matches Some(f) && f is Skip),
        !line_skip(s@) && !line_ok(s@) ==> r is None,
        !line_skip(s@) && line_ok(s@) && line_has_key(s@) ==> (r matches Some(f) && f matches
            LineForm::Keyed(k, v) && k@ == line_key(s@) && v@ == line_value(s@)),
        !line_skip(s@) && line_ok(s@) && !line_has_key(s@) ==> (r matches Some(f) && f matches
            LineForm::Cont(v) && v@ == line_value(s@)),
{
    let n = s.unicode_len();
    if n == 0 {
        return Some(LineForm::Skip);
    }
    let c0 = s.get_char(0);
    proof {
        vstd::utf8::char_is_scalar(c0);
        vstd::utf8::char_is_scalar('%');
    }
    if c0 as u32 == '%' as u32 {
        return Some(LineForm::Skip);
    }
    let k = scan_key_run(s);
    let has_key = if k > 0 && k < n {
        let ck = s.get_char(k);
        proof {
            vstd::utf8::char_is_scalar(ck);
            vstd::utf8::char_is_scalar(':');
        }
        ck as u32 == ':' as u32
    } else {
        false
    };
    let body = if has_key { k + 1 } else { 0 };
    let w = scan_ws_run(s, body);
    if w == 0 {
        return None;
    }
    let value = copy_range(s, body + w, n);
    if has_key {
        Some(LineForm::Keyed(copy_range(s, 0, k), value))
    } else {
        Some(LineForm::Cont(value))
    }
}

/// Turns a record file's lines into its key/value pairs, resolving
/// continuations and dropping vendor-extension keys.
pub fn record_pairs(lines: &Vec<String>) -> (r: Result<Vec<(String, String)>, ParseError>)
    ensures
        r is Ok <==> pairs_ok(lines.deep_view()),
        r matches Ok(ps) ==> ps.deep_view() == pairs_of(lines.deep_view()),
        r matches Err(e) ==> grammar_err_matches(e, lines.deep_view()),
{
    let mut out: Vec<(String, String)> = Vec::new();
    let mut last: Option<String> = None;
    let mut i: usize = 0;
    proof {
        assert(lines.deep_view().subrange(0, 0) =~= Seq::<Seq<char>>::empty());
        assert(out.deep_view() =~= Seq::<(Seq<char>, Seq<char>)>::empty());
    }
    while i < lines.len()
        invariant
            0 <= i <= lines.len(),
            lines.deep_view().len() == lines.len(),
            pairs_state(lines.deep_view().subrange(0, i as int)) == Ok::<_, Seq<char>>(
                (out.deep_view(), last.deep_view()),
            ),
        decreases lines.len() - i,
    {
        proof {
            assert(lines.deep_view()[i as int] == lines@[i as int]@);
            assert(lines.deep_view().subrange(0, i + 1).drop_last() =~= lines.deep_view().subrange(
                0,
                i as int,
            ));
        }
        let ghost old_out = out.deep_view();
        let ghost old_last = last.deep_view();
        let line = &lines[i];
        match parse_line(line.as_str()) {
            None => {
                proof {
                    lemma_pairs_err_propagates(lines.deep_view(), i as int);
                }
                return Err(ParseError::Grammar { line: line.clone() });
            },
            Some(LineForm::Skip) => {},
            Some(LineForm::Keyed(k, v)) => {
                if !starts_with_str(k.as_str(), "x-") {
                    out.push((k.clone(), v));
                    assert(out.deep_view() =~= old_out.push((k@, v@)));
                } else {
                    assert(is_x_key(k@));
                }
                last = Some(k);
            },
            Some(LineForm::Cont(v)) => {
                match &last {
                    None => {
                        proof {
                            lemma_pairs_err_propagates(lines.deep_view(), i as int);
                        }
                        return Err(ParseError::Grammar { line: line.clone() });
                    },
                    Some(k) => {
                        if !starts_with_str(k.as_str(), "x-") {
                            let kc = k.clone();
                            out.push((kc, v));
                            assert(out.deep_view() =~= old_out.push((k@, v@)));
                        } else {
                            assert(is_x_key(k@));
                        }
                    },
                }
            },
        }
        assert(pairs_state(lines.deep_view().subrange(0, i + 1)) == Ok::<_, Seq<char>>(
            (out.deep_view(), last.deep_view()),
        ));
        i = i + 1;
    }
    proof {
        assert(lines.deep_view().subrange(0, lines.deep_view().len() as int)
            =~= lines.deep_view());
    }
    Ok(out)
}

} // verus!
