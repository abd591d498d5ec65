//! `key = value` parsing for the line-oriented DST ini files.
//!
//! Blank lines, `#` comments and `[SECTION]` headers are skipped; every other
//! line with an `=` contributes a trimmed key and a trimmed value. When a key
//! repeats, the last occurrence wins, as when the pairs are collected into a
//! map in file order.
use vstd::prelude::*;
use crate::text::{is_ws, lemma_trim_end_take, lemma_trim_start_skip, trim_end, trim_start,
    strip_cr, lemma_lines_push_line, lemma_lines_empty, line, push_char, push_chars, push_str, chars_of, find_char, first_index_of, line_ranges, lines, ranges_view, split_once,
    string_from_range, trim, trim_range, chars_eq, ranges_within};
use crate::numbers::{bool_text, decimal, lemma_decimal_digits, lemma_parse_u64_decimal,
    parse_bool_range, parse_bool_spec, parse_u64_range, parse_u64_spec};

verus! {

broadcast use vstd::string::group_string_axioms;

/// The trimmed key and value that one line contributes, if any.
pub open spec fn ini_line_pair(line: Seq<char>) -> Option<(Seq<char>, Seq<char>)> {
    let t = trim(line);
    if t.len() == 0 || t[0] == '#' || t[0] == '[' {
        None
    } else {
        match split_once(t, '=') {
            Some((k, v)) => Some((trim(k), trim(v))),
            None => None,
        }
    }
}

/// The pairs of a sequence of lines, in order.
pub open spec fn ini_pairs_of(ls: Seq<Seq<char>>) -> Seq<(Seq<char>, Seq<char>)>
    decreases ls.len(),
{
    if ls.len() == 0 {
        Seq::empty()
    } else {
        let prev = ini_pairs_of(ls.drop_last());
        match ini_line_pair(ls.last()) {
            Some(p) => prev.push(p),
            None => prev,
        }
    }
}

/// The pairs of an ini text, in file order.
#[verifier::opaque]
pub open spec fn ini_pairs(contents: Seq<char>) -> Seq<(Seq<char>, Seq<char>)> {
    ini_pairs_of(lines(contents))
}

/// The value of the last pair with `key`.
pub open spec fn ini_lookup(pairs: Seq<(Seq<char>, Seq<char>)>, key: Seq<char>) -> Option<Seq<char>>
    decreases pairs.len(),
{
    if pairs.len() == 0 {
        None
    } else if pairs.last().0 == key {
        Some(pairs.last().1)
    } else {
        ini_lookup(pairs.drop_last(), key)
    }
}

/// A trimmed value parsed as `u64`, or `default`.
pub open spec fn u64_or(value: Option<Seq<char>>, default: u64) -> u64 {
    match value {
        Some(v) => match parse_u64_spec(trim(v)) {
            Some(n) => n,
            None => default,
        },
        None => default,
    }
}

/// A trimmed value parsed as `bool`, or `default`.
pub open spec fn bool_or(value: Option<Seq<char>>, default: bool) -> bool {
    match value {
        Some(v) => match parse_bool_spec(trim(v)) {
            Some(b) => b,
            None => default,
        },
        None => default,
    }
}

/// The value, or `default` when the key is missing.
pub open spec fn text_or(value: Option<Seq<char>>, default: Seq<char>) -> Seq<char> {
    match value {
        Some(v) => v,
        None => default,
    }
}

/// The text of one `key = value` line, without its line break.
pub open spec fn kv_text(key: Seq<char>, value: Seq<char>) -> Seq<char> {
    key + " = "@ + value
}

/// Appends `key = value` as one terminated line.
pub fn push_kv_line(s: &mut String, key: &str, value: &Vec<char>)
    ensures
        final(s)@ == old(s)@ + line(kv_text(key@, value@)),
{
    push_str(s, key);
    push_str(s, " = ");
    push_chars(s, value);
    push_char(s, '\n');
    assert(s@ =~= old(s)@ + line(kv_text(key@, value@)));
}

/// A text whose first and last characters are not whitespace.
pub open spec fn no_surrounding_ws(s: Seq<char>) -> bool {
    s.len() == 0 || (!is_ws(s[0]) && !is_ws(s.last()))
}

pub proof fn lemma_trim_no_surrounding_ws(s: Seq<char>)
    requires
        no_surrounding_ws(s),
    ensures
        trim(s) == s,
{
    lemma_trim_start_skip(s, 0);
    assert(s.skip(0) =~= s);
    lemma_trim_end_take(s, s.len() as int);
    assert(s.take(s.len() as int) =~= s);
}

/// A rendered `key = value` line parses back to its key and value.
pub proof fn lemma_kv_line_pair(key: Seq<char>, value: Seq<char>)
    requires
        key.len() > 0,
        no_surrounding_ws(key),
        key[0] != '#',
        key[0] != '[',
        !key.contains('='),
        no_surrounding_ws(value),
    ensures
        ini_line_pair(kv_text(key, value)) == Some((key, value)),
{
    reveal_strlit(" = ");
    let k = key.len() as int;
    let t = kv_text(key, value);
    assert(t.len() == k + 3 + value.len());
    assert(t[0] == key[0]);
    assert(t[k] == ' ' && t[k + 1] == '=' && t[k + 2] == ' ');
    lemma_trim_start_skip(t, 0);
    assert(t.skip(0) =~= t);
    let u = if value.len() == 0 { t.take(k + 2) } else { t };
    if value.len() == 0 {
        assert(is_ws(t[k + 2]));
        lemma_trim_end_take(t, k + 2);
    } else {
        assert(t[t.len() - 1] == value.last());
        lemma_trim_end_take(t, t.len() as int);
        assert(t.take(t.len() as int) =~= t);
    }
    assert(trim(t) == u);
    assert(u.len() > 0 && u[0] == key[0]);
    assert(u[k + 1] == '=');
    assert forall|j: int| 0 <= j < k + 1 implies u[j] != '=' by {
        if j < k {
            assert(u[j] == key[j]);
            if key[j] == '=' {
                assert(key.contains('='));
            }
        }
    }
    assert(u.contains('='));
    let w = choose|i: int| 0 <= i < u.len() && u[i] == '=' && forall|j: int| 0 <= j < i ==> u[j] != '=';
    assert(w == k + 1) by {
        if w > k + 1 {
            assert(u[k + 1] != '=');
        }
    }
    assert(split_once(u, '=') == Some((u.take(k + 1), u.skip(k + 2))));
    let kp = u.take(k + 1);
    assert(kp.len() == k + 1 && kp[0] == key[0] && kp[k] == ' ');
    lemma_trim_start_skip(kp, 0);
    assert(kp.skip(0) =~= kp);
    assert(kp[k - 1] == key.last());
    lemma_trim_end_take(kp, k);
    assert(kp.take(k) =~= key);
    let vp = u.skip(k + 2);
    if value.len() == 0 {
        assert(vp.len() == 0);
        lemma_trim_no_surrounding_ws(vp);
        assert(vp =~= value);
    } else {
        assert(vp.len() == value.len() + 1 && vp[0] == ' ');
        assert(vp.len() == 1 || !is_ws(vp[1])) by {
            assert(vp[1] == value[0]);
        }
        lemma_trim_start_skip(vp, 1);
        assert(vp.skip(1) =~= value);
        lemma_trim_no_surrounding_ws(value);
    }
}

/// `key=value` as written without spaces around the `=`.
pub open spec fn eq_text(key: Seq<char>, value: Seq<char>) -> Seq<char> {
    key + "="@ + value
}

/// A `key=value` line gives back its key and value.
pub proof fn lemma_eq_line_pair(key: Seq<char>, value: Seq<char>)
    requires
        key.len() > 0,
        ini_safe_value(key),
        key[0] != '#',
        key[0] != '[',
        !key.contains('='),
        ini_safe_value(value),
    ensures
        ini_line_pair(eq_text(key, value)) == Some((key, value)),
        !eq_text(key, value).contains('\n'),
        eq_text(key, value).last() != '\r',
{
    reveal_strlit("=");
    let k = key.len() as int;
    let t = eq_text(key, value);
    assert(t.len() == k + 1 + value.len());
    assert(t[0] == key[0]);
    assert(t[k] == '=');
    lemma_trim_start_skip(t, 0);
    assert(t.skip(0) =~= t);
    if value.len() == 0 {
        assert(t[t.len() - 1] == '=');
    } else {
        assert(t[t.len() - 1] == value.last());
    }
    assert(!is_ws(t[t.len() - 1]));
    lemma_trim_end_take(t, t.len() as int);
    assert(t.take(t.len() as int) =~= t);
    assert(trim(t) == t);
    assert forall|j: int| 0 <= j < k implies t[j] != '=' by {
        assert(t[j] == key[j]);
        if key[j] == '=' {
            assert(key.contains('='));
        }
    }
    assert(t.contains('='));
    let w = choose|i: int| 0 <= i < t.len() && t[i] == '=' && forall|j: int| 0 <= j < i ==> t[j] != '=';
    assert(w == k) by {
        if w > k {
            assert(t[k] != '=');
        }
    }
    assert(split_once(t, '=') == Some((t.take(k), t.skip(k + 1))));
    assert(t.take(k) =~= key);
    assert(t.skip(k + 1) =~= value);
    lemma_trim_no_surrounding_ws(key);
    lemma_trim_no_surrounding_ws(value);
    if t.contains('\n') {
        let i = choose|i: int| 0 <= i < t.len() && t[i] == '\n';
        if i < k {
            assert(key[i] == t[i]);
            assert(key.contains('\n'));
        } else if i > k {
            assert(value[i - k - 1] == t[i]);
            assert(value.contains('\n'));
        }
    }
    assert(crate::text::is_ws('\r'));
}

/// A section header or blank line contributes no pair.
pub proof fn lemma_header_line_pair(h: Seq<char>)
    requires
        h.len() == 0 || (h[0] == '[' && no_surrounding_ws(h)),
    ensures
        ini_line_pair(h) is None,
{
    if h.len() > 0 {
        lemma_trim_no_surrounding_ws(h);
    } else {
        lemma_trim_no_surrounding_ws(h);
    }
}

pub proof fn lemma_ini_pairs_empty()
    ensures
        ini_pairs(Seq::<char>::empty()) == Seq::<(Seq<char>, Seq<char>)>::empty(),
{
    reveal(ini_pairs);
    lemma_lines_empty();
}

pub proof fn lemma_ini_pairs_push(ls: Seq<Seq<char>>, l: Seq<char>)
    ensures
        ini_pairs_of(ls.push(l)) == match ini_line_pair(l) {
            Some(p) => ini_pairs_of(ls).push(p),
            None => ini_pairs_of(ls),
        },
{
    assert(ls.push(l).drop_last() =~= ls);
}

/// Appending one rendered line to a text that ends at a line boundary adds
/// what that line contributes to the text's pairs.
pub proof fn lemma_ini_pairs_push_line(p: Seq<char>, l: Seq<char>)
    requires
        p.len() == 0 || p.last() == '\n',
        !l.contains('\n'),
        l.len() == 0 || l.last() != '\r',
    ensures
        ini_pairs(p + line(l)) == match ini_line_pair(l) {
            Some(q) => ini_pairs(p).push(q),
            None => ini_pairs(p),
        },
{
    reveal(ini_pairs);
    lemma_lines_push_line(p, l);
    assert(strip_cr(l) == l);
    lemma_ini_pairs_push(lines(p), l);
}

/// A value that renders on one line and parses back unchanged after trimming.
pub open spec fn ini_safe_value(s: Seq<char>) -> bool {
    no_surrounding_ws(s) && !s.contains('\n')
}

pub proof fn lemma_decimal_ini_safe(n: nat)
    ensures
        ini_safe_value(decimal(n)),
        decimal(n).len() > 0,
{
    lemma_decimal_digits(n);
    let d = decimal(n);
    assert(crate::text::is_ascii_digit(d[0]));
    assert(crate::text::is_ascii_digit(d[d.len() - 1]));
    if d.contains('\n') {
        let i = choose|i: int| 0 <= i < d.len() && d[i] == '\n';
        assert(crate::text::is_ascii_digit(d[i]));
    }
}

pub proof fn lemma_bool_ini_safe(b: bool)
    ensures
        ini_safe_value(bool_text(b)),
        bool_text(b).len() > 0,
        parse_bool_spec(bool_text(b)) == Some(b),
{
    reveal_strlit("true");
    reveal_strlit("false");
    let t = bool_text(b);
    if t.contains('\n') {
        let i = choose|i: int| 0 <= i < t.len() && t[i] == '\n';
        assert(false);
    }
}

/// A key that renders and parses back as the key of its line.
pub open spec fn ini_key_ok(k: Seq<char>) -> bool {
    &&& k.len() > 0
    &&& ini_safe_value(k)
    &&& k[0] != '#'
    &&& k[0] != '['
    &&& !k.contains('=')
}

/// A section header that renders on one line and contributes no pair.
pub open spec fn ini_header_ok(h: Seq<char>) -> bool {
    h.len() > 0 && h[0] == '[' && ini_safe_value(h)
}

/// The value of a key is that of its last occurrence.
pub proof fn lemma_lookup_at(ps: Seq<(Seq<char>, Seq<char>)>, j: int)
    requires
        0 <= j < ps.len(),
        forall|i: int| j < i < ps.len() ==> (#[trigger] ps[i]).0 != ps[j].0,
    ensures
        ini_lookup(ps, ps[j].0) == Some(ps[j].1),
    decreases ps.len(),
{
    if j < ps.len() - 1 {
        let d = ps.drop_last();
        assert(ps.last() == ps[ps.len() - 1]);
        assert forall|i: int| j < i < d.len() implies (#[trigger] d[i]).0 != d[j].0 by {
            assert(d[i] == ps[i]);
        }
        lemma_lookup_at(d, j);
    }
}

/// A `u64` value renders and parses back.
pub proof fn lemma_u64_value_roundtrip(n: u64, default: u64)
    ensures
        u64_or(Some(decimal(n as nat)), default) == n,
{
    lemma_decimal_ini_safe(n as nat);
    lemma_trim_no_surrounding_ws(decimal(n as nat));
    lemma_parse_u64_decimal(n);
}

/// A `bool` value renders and parses back.
pub proof fn lemma_bool_value_roundtrip(b: bool, default: bool)
    ensures
        bool_or(Some(bool_text(b)), default) == b,
{
    lemma_bool_ini_safe(b);
    lemma_trim_no_surrounding_ws(bool_text(b));
}

/// A rendered `key = value` line is one line that parses back.
pub proof fn lemma_kv_line(key: Seq<char>, value: Seq<char>)
    requires
        key.len() > 0,
        ini_safe_value(key),
        key[0] != '#',
        key[0] != '[',
        !key.contains('='),
        ini_safe_value(value),
    ensures
        ini_line_pair(kv_text(key, value)) == Some((key, value)),
        !kv_text(key, value).contains('\n'),
        kv_text(key, value).last() != '\r',
{
    reveal_strlit(" = ");
    lemma_kv_line_pair(key, value);
    let t = kv_text(key, value);
    let k = key.len() as int;
    if t.contains('\n') {
        let i = choose|i: int| 0 <= i < t.len() && t[i] == '\n';
        if i < k {
            assert(key[i] == t[i]);
            assert(key.contains('\n'));
        } else if i >= k + 3 {
            assert(value[i - k - 3] == t[i]);
            assert(value.contains('\n'));
        }
    }
    if value.len() > 0 {
        assert(t.last() == value.last());
        assert(crate::text::is_ws('\r'));
    }
}

/// A header or blank line is one line that contributes no pair.
pub proof fn lemma_header_line(h: Seq<char>)
    requires
        h.len() == 0 || (h[0] == '[' && ini_safe_value(h)),
    ensures
        ini_line_pair(h) is None,
        !h.contains('\n'),
        h.len() == 0 || h.last() != '\r',
{
    lemma_header_line_pair(h);
    if h.len() > 0 {
        assert(crate::text::is_ws('\r'));
    }
}

pub open spec fn pair_views(v: Seq<(String, String)>) -> Seq<(Seq<char>, Seq<char>)> {
    Seq::new(v.len(), |i: int| (v[i].0@, v[i].1@))
}

/// The pair that the line `v[from..to]` contributes.
#[verifier::rlimit(60)]
fn line_pair(v: &Vec<char>, from: usize, to: usize) -> (r: Option<(String, String)>)
    requires
        from <= to <= v.len(),
    ensures
        match ini_line_pair(v@.subrange(from as int, to as int)) {
            Some(p) => r matches Some(q) && q.0@ == p.0 && q.1@ == p.1,
            None => r is None,
        },
{
    let ghost line = v@.subrange(from as int, to as int);
    let (lo, hi) = trim_range(v, from, to);
    let ghost t = v@.subrange(lo as int, hi as int);
    assert(trim(line) == t);
    if lo == hi {
        return None;
    }
    assert(t[0] == v@[lo as int]);
    if v[lo] == '#' || v[lo] == '[' {
        return None;
    }
    match find_char(v, lo, hi, '=') {
        None => {
            assert(split_once(t, '=') is None);
            None
        },
        Some(e) => {
            assert(first_index_of(t, '=') == Some(e - lo));
            let (klo, khi) = trim_range(v, lo, e);
            let (vlo, vhi) = trim_range(v, e + 1, hi);
            proof {
                assert(t.take(e - lo) =~= v@.subrange(lo as int, e as int));
                assert(t.skip(e - lo + 1) =~= v@.subrange(e + 1, hi as int));
                assert(split_once(t, '=') == Some((t.take(e - lo), t.skip(e - lo + 1))));
            }
            Some((string_from_range(v, klo, khi), string_from_range(v, vlo, vhi)))
        },
    }
}

/// Parses `contents` into its key/value pairs, in file order.
pub fn parse_ini_values(contents: &str) -> (pairs: Vec<(String, String)>)
    ensures
        pair_views(pairs@) == ini_pairs(contents@),
{
    reveal(ini_pairs);
    let v = chars_of(contents);
    let rs = line_ranges(&v);
    let ghost ls = lines(v@);
    let mut out: Vec<(String, String)> = Vec::new();
    let mut k: usize = 0;
    while k < rs.len()
        invariant
            v@ == contents@,
            ls == lines(v@),
            ranges_within(rs@, 0, v.len() as int),
            ranges_view(v@, rs@) == ls,
            k <= rs.len(),
            pair_views(out@) == ini_pairs_of(ls.take(k as int)),
        decreases rs.len() - k,
    {
        let (lo, hi) = rs[k];
        assert(0 <= rs@[k as int].0 <= rs@[k as int].1 <= v.len());
        let p = line_pair(&v, lo, hi);
        proof {
            assert(ls.take(k + 1).drop_last() =~= ls.take(k as int));
            assert(ls.take(k + 1).last() == ls[k as int]);
            assert(ls[k as int] == v@.subrange(lo as int, hi as int));
        }
        let ghost before = out@;
        match p {
            Some(q) => {
                out.push(q);
                assert(pair_views(out@) =~= pair_views(before).push((q.0@, q.1@)));
            },
            None => {},
        }
        k = k + 1;
    }
    assert(ls.take(rs.len() as int) =~= ls);
    out
}

/// The value of the last pair whose key is `key`.
pub fn ini_get<'a>(pairs: &'a Vec<(String, String)>, key: &str) -> (r: Option<&'a String>)
    ensures
        match ini_lookup(pair_views(pairs@), key@) {
            Some(value) => r matches Some(s) && s@ == value,
            None => r is None,
        },
{
    let kv = chars_of(key);
    let ghost ps = pair_views(pairs@);
    let mut i = pairs.len();
    assert(ps.take(i as int) =~= ps);
    while i > 0
        invariant
            i <= pairs.len(),
            kv@ == key@,
            ps == pair_views(pairs@),
            ini_lookup(ps, key@) == ini_lookup(ps.take(i as int), key@),
        decreases i,
    {
        let ghost pre = ps.take(i as int);
        assert(pre.drop_last() =~= ps.take(i - 1));
        assert(pre.last() == ps[i - 1]);
        if chars_eq(&chars_of(pairs[i - 1].0.as_str()), &kv) {
            return Some(&pairs[i - 1].1);
        }
        i = i - 1;
    }
    None
}

/// The trimmed value parsed as `u64`, or `default`.
pub fn value_u64_or(value: Option<&String>, default: u64) -> (n: u64)
    ensures
        n == u64_or(
            match value {
                Some(s) => Some(s@),
                None => None,
            },
            default,
        ),
{
    match value {
        None => default,
        Some(s) => {
            let v = chars_of(s.as_str());
            let (lo, hi) = trim_range(&v, 0, v.len());
            assert(v@.subrange(0, v.len() as int) =~= v@);
            match parse_u64_range(&v, lo, hi) {
                Some(n) => n,
                None => default,
            }
        },
    }
}

/// The trimmed value parsed as `bool`, or `default`.
pub fn value_bool_or(value: Option<&String>, default: bool) -> (b: bool)
    ensures
        b == bool_or(
            match value {
                Some(s) => Some(s@),
                None => None,
            },
            default,
        ),
{
    match value {
        None => default,
        Some(s) => {
            let v = chars_of(s.as_str());
            let (lo, hi) = trim_range(&v, 0, v.len());
            assert(v@.subrange(0, v.len() as int) =~= v@);
            match parse_bool_range(&v, lo, hi) {
                Some(b) => b,
                None => default,
            }
        },
    }
}

/// The value, or `default` when it is missing.
pub fn value_text_or(value: Option<&String>, default: &str) -> (s: String)
    ensures
        s@ == text_or(
            match value {
                Some(v) => Some(v@),
                None => None,
            },
            default@,
        ),
{
    match value {
        Some(v) => v.clone(),
        None => default.to_string(),
    }
}

} // verus!
