//! Character-sequence helpers shared by the parsers of this crate.
//!
//! Text is handled as `Seq<char>` in specifications and as `Vec<char>` in
//! executable code; `String` values are converted at the edges.
use vstd::prelude::*;

verus! {

broadcast use vstd::string::group_string_axioms;

/// Unicode `White_Space`, as used by `char::is_whitespace`.
pub open spec fn is_ws(c: char) -> bool {
    let u = c as u32;
    ||| u == 0x20
    ||| (0x09 <= u && u <= 0x0d)
    ||| u == 0x85
    ||| u == 0xa0
    ||| u == 0x1680
    ||| (0x2000 <= u && u <= 0x200a)
    ||| u == 0x2028
    ||| u == 0x2029
    ||| u == 0x202f
    ||| u == 0x205f
    ||| u == 0x3000
}

/// Unicode general category `Cc`, as used by `char::is_control`.
pub open spec fn is_control(c: char) -> bool {
    let u = c as u32;
    u <= 0x1f || (0x7f <= u && u <= 0x9f)
}

pub open spec fn is_ascii_digit(c: char) -> bool {
    '0' <= c && c <= '9'
}

pub open spec fn is_ascii_upper(c: char) -> bool {
    'A' <= c && c <= 'Z'
}

pub open spec fn is_ascii_lower(c: char) -> bool {
    'a' <= c && c <= 'z'
}

pub open spec fn is_ascii_alphanumeric(c: char) -> bool {
    is_ascii_digit(c) || is_ascii_upper(c) || is_ascii_lower(c)
}

/// ASCII upper-casing of one character, as `char::to_ascii_uppercase`.
pub open spec fn ascii_upper(c: char) -> char {
    if is_ascii_lower(c) {
        ((c as u32) - 32) as char
    } else {
        c
    }
}

/// ASCII case-insensitive equality, as `str::eq_ignore_ascii_case`.
pub open spec fn eq_ignore_ascii_case(a: Seq<char>, b: Seq<char>) -> bool {
    a.len() == b.len() && forall|i: int| 0 <= i < a.len() ==> ascii_upper(a[i]) == ascii_upper(b[i])
}

/// The text with leading whitespace removed.
pub open spec fn trim_start(s: Seq<char>) -> Seq<char>
    decreases s.len(),
{
    if s.len() > 0 && is_ws(s[0]) {
        trim_start(s.drop_first())
    } else {
        s
    }
}

/// The text with trailing whitespace removed.
pub open spec fn trim_end(s: Seq<char>) -> Seq<char>
    decreases s.len(),
{
    if s.len() > 0 && is_ws(s.last()) {
        trim_end(s.drop_last())
    } else {
        s
    }
}

/// The text with surrounding whitespace removed, as `str::trim`.
pub open spec fn trim(s: Seq<char>) -> Seq<char> {
    trim_end(trim_start(s))
}

pub open spec fn starts_with(s: Seq<char>, prefix: Seq<char>) -> bool {
    prefix.len() <= s.len() && s.take(prefix.len() as int) == prefix
}

pub open spec fn ends_with(s: Seq<char>, suffix: Seq<char>) -> bool {
    suffix.len() <= s.len() && s.skip(s.len() - suffix.len()) == suffix
}

/// `needle` occurs in `s` starting at index `i`.
pub open spec fn occurs_at(s: Seq<char>, needle: Seq<char>, i: int) -> bool {
    0 <= i && i + needle.len() <= s.len() && s.subrange(i, i + needle.len()) == needle
}

pub open spec fn contains_seq(s: Seq<char>, needle: Seq<char>) -> bool {
    exists|i: int| occurs_at(s, needle, i)
}

/// Index of the first occurrence of `needle` in `s`, as `str::find`.
pub open spec fn find_seq(s: Seq<char>, needle: Seq<char>) -> Option<int> {
    if contains_seq(s, needle) {
        Some(choose|i: int| occurs_at(s, needle, i) && forall|j: int| 0 <= j < i ==> !occurs_at(s, needle, j))
    } else {
        None
    }
}

/// Index of the first occurrence of `c` in `s`.
pub open spec fn first_index_of(s: Seq<char>, c: char) -> Option<int> {
    if s.contains(c) {
        Some(choose|i: int| 0 <= i < s.len() && s[i] == c && forall|j: int| 0 <= j < i ==> s[j] != c)
    } else {
        None
    }
}

/// Splits `s` around the first `sep`, as `str::split_once` with a char pattern.
pub open spec fn split_once(s: Seq<char>, sep: char) -> Option<(Seq<char>, Seq<char>)> {
    match first_index_of(s, sep) {
        Some(i) => Some((s.take(i), s.skip(i + 1))),
        None => None,
    }
}

/// The pieces of `s` between occurrences of `sep`, as `str::split` with a char pattern.
pub open spec fn split_char(s: Seq<char>, sep: char) -> Seq<Seq<char>>
    decreases s.len(),
{
    if s.len() == 0 {
        seq![Seq::<char>::empty()]
    } else {
        let prev = split_char(s.drop_last(), sep);
        if s.last() == sep {
            prev.push(Seq::<char>::empty())
        } else {
            prev.update(prev.len() - 1, prev.last().push(s.last()))
        }
    }
}

/// A line piece with one trailing `\r` removed.
pub open spec fn strip_cr(line: Seq<char>) -> Seq<char> {
    if line.len() > 0 && line.last() == '\r' {
        line.drop_last()
    } else {
        line
    }
}

/// The lines of `s`, as `str::lines`: pieces between `\n`, a `\r` before a
/// `\n` removed, and no final empty piece.
pub open spec fn lines(s: Seq<char>) -> Seq<Seq<char>> {
    let parts = split_char(s, '\n');
    let n = parts.len() as int;
    let body = Seq::new((n - 1) as nat, |i: int| strip_cr(parts[i]));
    if parts[n - 1].len() == 0 {
        body
    } else {
        body.push(parts[n - 1])
    }
}

pub proof fn lemma_add_assoc<A>(a: Seq<A>, b: Seq<A>, c: Seq<A>)
    ensures
        a + (b + c) == (a + b) + c,
{
    assert(a + (b + c) =~= (a + b) + c);
}

pub proof fn lemma_add_push<A>(a: Seq<A>, b: Seq<A>, x: A)
    ensures
        a + b.push(x) == (a + b).push(x),
        a + Seq::<A>::empty() == a,
{
    assert(a + b.push(x) =~= (a + b).push(x));
    assert(a + Seq::<A>::empty() =~= a);
}

/// An occurrence of `c` at `k` means there is a first one.
proof fn lemma_first_char_exists(s: Seq<char>, c: char, k: int)
    requires
        0 <= k < s.len(),
        s[k] == c,
    ensures
        exists|i: int| 0 <= i < s.len() && s[i] == c && forall|j: int| 0 <= j < i ==> s[j] != c,
    decreases k,
{
    if exists|j: int| 0 <= j < k && s[j] == c {
        let j = choose|j: int| 0 <= j < k && s[j] == c;
        lemma_first_char_exists(s, c, j);
    }
}

pub proof fn lemma_first_index_of(s: Seq<char>, c: char)
    ensures
        match first_index_of(s, c) {
            Some(i) => 0 <= i < s.len() && s[i] == c && forall|j: int| 0 <= j < i ==> s[j] != c,
            None => !s.contains(c),
        },
{
    if s.contains(c) {
        let k = choose|k: int| 0 <= k < s.len() && s[k] == c;
        lemma_first_char_exists(s, c, k);
    }
}

/// An occurrence of `pat` at `k` means there is a first one.
proof fn lemma_first_occurrence_exists(s: Seq<char>, pat: Seq<char>, k: int)
    requires
        occurs_at(s, pat, k),
    ensures
        exists|i: int| occurs_at(s, pat, i) && forall|j: int| 0 <= j < i ==> !occurs_at(s, pat, j),
    decreases k,
{
    if exists|j: int| 0 <= j < k && occurs_at(s, pat, j) {
        let j = choose|j: int| 0 <= j < k && occurs_at(s, pat, j);
        lemma_first_occurrence_exists(s, pat, j);
    }
}

pub proof fn lemma_find_seq(s: Seq<char>, pat: Seq<char>)
    ensures
        match find_seq(s, pat) {
            Some(i) => occurs_at(s, pat, i) && forall|j: int| 0 <= j < i ==> !occurs_at(s, pat, j),
            None => !contains_seq(s, pat),
        },
{
    if contains_seq(s, pat) {
        let k = choose|k: int| occurs_at(s, pat, k);
        lemma_first_occurrence_exists(s, pat, k);
    }
}

/// One line of text terminated by `\n`.
pub open spec fn line(s: Seq<char>) -> Seq<char> {
    s.push('\n')
}

/// Splitting text extended by a piece without separators extends the last piece.
pub proof fn lemma_split_char_append(p: Seq<char>, t: Seq<char>, sep: char)
    requires
        !t.contains(sep),
    ensures
        split_char(p + t, sep) == ({
            let sp = split_char(p, sep);
            sp.update(sp.len() - 1, sp.last() + t)
        }),
    decreases t.len(),
{
    lemma_split_char_nonempty(p, sep);
    if t.len() == 0 {
        assert(p + t =~= p);
        let sp = split_char(p, sep);
        assert(sp.last() + t =~= sp.last());
        assert(sp.update(sp.len() - 1, sp.last() + t) =~= sp);
    } else {
        let td = t.drop_last();
        assert(!td.contains(sep)) by {
            if td.contains(sep) {
                let i = choose|i: int| 0 <= i < td.len() && td[i] == sep;
                assert(t[i] == sep);
            }
        }
        lemma_split_char_append(p, td, sep);
        assert((p + t).drop_last() =~= p + td);
        assert((p + t).last() == t.last());
        assert(t[t.len() - 1] == t.last());
        let sp = split_char(p, sep);
        let prev = split_char(p + td, sep);
        assert(prev == sp.update(sp.len() - 1, sp.last() + td));
        assert((sp.last() + td).push(t.last()) =~= sp.last() + t);
        assert(prev.update(prev.len() - 1, prev.last().push((p + t).last())) =~= sp.update(
            sp.len() - 1,
            sp.last() + t,
        ));
    }
}

/// Appending a terminated line to text that ends at a line boundary adds
/// exactly that line to its `str::lines`.
pub proof fn lemma_lines_push_line(p: Seq<char>, l: Seq<char>)
    requires
        p.len() == 0 || p.last() == '\n',
        !l.contains('\n'),
    ensures
        lines(p + line(l)) == lines(p).push(strip_cr(l)),
{
    lemma_split_char_nonempty(p, '\n');
    let sp = split_char(p, '\n');
    assert(sp.last().len() == 0) by {
        if p.len() > 0 {
            assert(sp == split_char(p.drop_last(), '\n').push(Seq::<char>::empty()));
        }
    }
    lemma_split_char_append(p, l, '\n');
    let q = p + l;
    let sq = split_char(q, '\n');
    assert(sq == sp.update(sp.len() - 1, sp.last() + l));
    assert(p + line(l) =~= q.push('\n'));
    assert(q.push('\n').drop_last() =~= q);
    let parts = split_char(q.push('\n'), '\n');
    assert(parts == sq.push(Seq::<char>::empty()));
    assert(sp.last() + l =~= l);
    let n = parts.len() as int;
    let m = sp.len() as int;
    assert(n == m + 1);
    let body = Seq::new((n - 1) as nat, |i: int| strip_cr(parts[i]));
    let body_p = Seq::new((m - 1) as nat, |i: int| strip_cr(sp[i]));
    assert(lines(p) == body_p);
    assert(lines(p + line(l)) == body);
    assert(body =~= body_p.push(strip_cr(l)));
}

/// The text with no lines.
pub proof fn lemma_lines_empty()
    ensures
        lines(Seq::<char>::empty()) == Seq::<Seq<char>>::empty(),
{
    let parts = split_char(Seq::<char>::empty(), '\n');
    assert(parts.len() == 1);
    assert(Seq::new(0nat, |i: int| strip_cr(parts[i])) =~= Seq::<Seq<char>>::empty());
}

pub proof fn lemma_split_char_nonempty(s: Seq<char>, sep: char)
    ensures
        split_char(s, sep).len() >= 1,
    decreases s.len(),
{
    if s.len() > 0 {
        lemma_split_char_nonempty(s.drop_last(), sep);
    }
}

pub proof fn lemma_trim_start_skip(s: Seq<char>, k: int)
    requires
        0 <= k <= s.len(),
        forall|i: int| 0 <= i < k ==> is_ws(s[i]),
        k == s.len() || !is_ws(s[k]),
    ensures
        trim_start(s) == s.skip(k),
    decreases k,
{
    if k > 0 {
        assert(is_ws(s[0]));
        let t = s.drop_first();
        assert forall|i: int| 0 <= i < k - 1 implies is_ws(t[i]) by {
            assert(t[i] == s[i + 1]);
        }
        lemma_trim_start_skip(t, k - 1);
        assert(t.skip(k - 1) =~= s.skip(k));
    } else {
        assert(s.skip(0) =~= s);
    }
}

pub proof fn lemma_trim_end_take(s: Seq<char>, k: int)
    requires
        0 <= k <= s.len(),
        forall|i: int| k <= i < s.len() ==> is_ws(s[i]),
        k == 0 || !is_ws(s[k - 1]),
    ensures
        trim_end(s) == s.take(k),
    decreases s.len() - k,
{
    if k < s.len() {
        assert(is_ws(s.last()));
        let t = s.drop_last();
        assert forall|i: int| k <= i < t.len() implies is_ws(t[i]) by {
            assert(t[i] == s[i]);
        }
        lemma_trim_end_take(t, k);
        assert(t.take(k) =~= s.take(k));
    } else {
        assert(s.take(k) =~= s);
    }
}

/// Collects the characters of `s` in order.
pub fn chars_of(s: &str) -> (out: Vec<char>)
    ensures
        out@ == s@,
{
    let mut out: Vec<char> = Vec::new();
    for c in it: s.chars()
        invariant
            it.seq() == s@,
            out@ == it.seq().take(it.index() as int),
    {
        out.push(c);
    }
    out
}

/// Appends one character; wraps `String::push`.
#[verifier::external_body]
pub fn push_char(s: &mut String, c: char)
    ensures
        final(s)@ == old(s)@.push(c),
{
    s.push(c);
}

/// Appends a string slice.
pub fn push_str(s: &mut String, t: &str)
    ensures
        final(s)@ == old(s)@ + t@,
{
    s.append(t);
}

/// Appends the characters of `v`.
pub fn push_chars(s: &mut String, v: &Vec<char>)
    ensures
        final(s)@ == old(s)@ + v@,
{
    let ghost start = s@;
    let mut i: usize = 0;
    while i < v.len()
        invariant
            i <= v.len(),
            s@ == start + v@.take(i as int),
        decreases v.len() - i,
    {
        push_char(s, v[i]);
        assert(v@.take(i + 1) =~= v@.take(i as int).push(v@[i as int]));
        assert(s@ =~= start + v@.take(i + 1));
        i = i + 1;
    }
    assert(v@.take(v.len() as int) =~= v@);
}

/// Appends `text` as one terminated line.
pub fn push_text_line(s: &mut String, text: &str)
    ensures
        final(s)@ == old(s)@ + line(text@),
{
    push_str(s, text);
    push_char(s, '\n');
    assert(s@ =~= old(s)@ + line(text@));
}

/// Builds a `String` holding exactly the characters `v[from..to]`.
pub fn string_from_range(v: &Vec<char>, from: usize, to: usize) -> (out: String)
    requires
        from <= to <= v.len(),
    ensures
        out@ == v@.subrange(from as int, to as int),
{
    let mut out = String::new();
    let mut i = from;
    while i < to
        invariant
            from <= i <= to <= v.len(),
            out@ == v@.subrange(from as int, i as int),
        decreases to - i,
    {
        push_char(&mut out, v[i]);
        assert(v@.subrange(from as int, i + 1) =~= v@.subrange(from as int, i as int).push(v@[i as int]));
        i = i + 1;
    }
    out
}

/// Builds a `String` holding the characters of `v`.
pub fn string_from_chars(v: &Vec<char>) -> (out: String)
    ensures
        out@ == v@,
{
    let out = string_from_range(v, 0, v.len());
    assert(v@.subrange(0, v@.len() as int) =~= v@);
    out
}

/// Copies `v[from..to]` into a new vector.
pub fn sub_chars(v: &Vec<char>, from: usize, to: usize) -> (out: Vec<char>)
    requires
        from <= to <= v.len(),
    ensures
        out@ == v@.subrange(from as int, to as int),
{
    let mut out: Vec<char> = Vec::new();
    let mut i = from;
    while i < to
        invariant
            from <= i <= to <= v.len(),
            out@ == v@.subrange(from as int, i as int),
        decreases to - i,
    {
        out.push(v[i]);
        assert(v@.subrange(from as int, i + 1) =~= v@.subrange(from as int, i as int).push(v@[i as int]));
        i = i + 1;
    }
    out
}

/// Whether `c` is whitespace, as `char::is_whitespace`.
pub fn is_whitespace(c: char) -> (b: bool)
    ensures
        b == is_ws(c),
{
    let u = c as u32;
    u == 0x20 || (0x09 <= u && u <= 0x0d) || u == 0x85 || u == 0xa0 || u == 0x1680 || (0x2000
        <= u && u <= 0x200a) || u == 0x2028 || u == 0x2029 || u == 0x202f || u == 0x205f || u
        == 0x3000
}

/// Whether `c` is a control character, as `char::is_control`.
pub fn is_control_char(c: char) -> (b: bool)
    ensures
        b == is_control(c),
{
    let u = c as u32;
    u <= 0x1f || (0x7f <= u && u <= 0x9f)
}

pub fn is_digit(c: char) -> (b: bool)
    ensures
        b == is_ascii_digit(c),
{
    '0' <= c && c <= '9'
}

pub fn is_alphanumeric(c: char) -> (b: bool)
    ensures
        b == is_ascii_alphanumeric(c),
{
    ('0' <= c && c <= '9') || ('A' <= c && c <= 'Z') || ('a' <= c && c <= 'z')
}

pub fn to_ascii_upper(c: char) -> (u: char)
    ensures
        u == ascii_upper(c),
{
    if 'a' <= c && c <= 'z' {
        let b = (c as u8) - 32;
        b as char
    } else {
        c
    }
}


/// Whether `a` and `b` are equal ignoring ASCII case.
pub fn eq_ignore_case_exec(a: &str, b: &str) -> (r: bool)
    ensures
        r == eq_ignore_ascii_case(a@, b@),
{
    let x = chars_of(a);
    let y = chars_of(b);
    if x.len() != y.len() {
        return false;
    }
    let mut i: usize = 0;
    while i < x.len()
        invariant
            x@ == a@,
            y@ == b@,
            x.len() == y.len(),
            i <= x.len(),
            forall|j: int| 0 <= j < i ==> ascii_upper(x@[j]) == ascii_upper(y@[j]),
        decreases x.len() - i,
    {
        if to_ascii_upper(x[i]) != to_ascii_upper(y[i]) {
            return false;
        }
        i = i + 1;
    }
    true
}

/// The pieces of `v` that the index ranges in `r` select.
pub open spec fn ranges_view(v: Seq<char>, r: Seq<(usize, usize)>) -> Seq<Seq<char>> {
    Seq::new(r.len(), |i: int| v.subrange(r[i].0 as int, r[i].1 as int))
}

pub open spec fn ranges_within(r: Seq<(usize, usize)>, from: int, to: int) -> bool {
    forall|i: int| 0 <= i < r.len() ==> from <= #[trigger] r[i].0 <= r[i].1 <= to
}

/// Bounds of `trim(v[from..to])` inside `v`.
pub fn trim_range(v: &Vec<char>, from: usize, to: usize) -> (r: (usize, usize))
    requires
        from <= to <= v.len(),
    ensures
        from <= r.0 <= r.1 <= to,
        v@.subrange(r.0 as int, r.1 as int) == trim(v@.subrange(from as int, to as int)),
{
    let ghost s = v@.subrange(from as int, to as int);
    let mut lo = from;
    while lo < to && is_whitespace(v[lo])
        invariant
            from <= lo <= to <= v.len(),
            forall|i: int| from <= i < lo ==> is_ws(v@[i]),
        decreases to - lo,
    {
        lo = lo + 1;
    }
    proof {
        assert forall|i: int| 0 <= i < lo - from implies is_ws(s[i]) by {
            assert(s[i] == v@[from + i]);
        }
        lemma_trim_start_skip(s, lo - from);
        assert(s.skip(lo - from) =~= v@.subrange(lo as int, to as int));
    }
    let mut hi = to;
    while hi > lo && is_whitespace(v[hi - 1])
        invariant
            from <= lo <= hi <= to <= v.len(),
            forall|i: int| hi <= i < to ==> is_ws(v@[i]),
        decreases hi - lo,
    {
        hi = hi - 1;
    }
    proof {
        let t = v@.subrange(lo as int, to as int);
        assert forall|i: int| hi - lo <= i < t.len() implies is_ws(t[i]) by {
            assert(t[i] == v@[lo + i]);
        }
        lemma_trim_end_take(t, hi - lo);
        assert(t.take(hi - lo) =~= v@.subrange(lo as int, hi as int));
    }
    (lo, hi)
}

/// Index of the first `c` in `v[from..to]`, if any.
pub fn find_char(v: &Vec<char>, from: usize, to: usize, c: char) -> (r: Option<usize>)
    requires
        from <= to <= v.len(),
    ensures
        match r {
            Some(i) => from <= i < to && first_index_of(v@.subrange(from as int, to as int), c)
                == Some(i - from),
            None => first_index_of(v@.subrange(from as int, to as int), c) is None,
        },
{
    let ghost s = v@.subrange(from as int, to as int);
    let mut i = from;
    while i < to
        invariant
            from <= i <= to <= v.len(),
            s == v@.subrange(from as int, to as int),
            forall|j: int| from <= j < i ==> v@[j] != c,
        decreases to - i,
    {
        if v[i] == c {
            proof {
                let k = i - from;
                assert(s[k] == c);
                assert(exists|j: int| 0 <= j < s.len() && s[j] == c);
                assert forall|j: int| 0 <= j < k implies s[j] != c by {
                    assert(s[j] == v@[from + j]);
                }
                let w = choose|w: int| 0 <= w < s.len() && s[w] == c && forall|j: int| 0 <= j < w ==> s[j] != c;
                assert(w == k) by {
                    if w < k { assert(s[w] == v@[from + w]); }
                    if w > k { assert(s[k] != c); }
                }
            }
            return Some(i);
        }
        i = i + 1;
    }
    proof {
        assert forall|j: int| 0 <= j < s.len() implies s[j] != c by {
            assert(s[j] == v@[from + j]);
        }
    }
    None
}

pub proof fn lemma_split_char_step(s: Seq<char>, i: int, sep: char)
    requires
        0 <= i < s.len(),
    ensures
        s.take(i + 1).drop_last() == s.take(i),
        s.take(i + 1).last() == s[i],
{
    assert(s.take(i + 1).drop_last() =~= s.take(i));
}

/// Ranges of the pieces of `v[from..to]` between occurrences of `sep`.
pub fn split_ranges(v: &Vec<char>, from: usize, to: usize, sep: char) -> (r: Vec<(usize, usize)>)
    requires
        from <= to <= v.len(),
    ensures
        ranges_within(r@, from as int, to as int),
        ranges_view(v@, r@) == split_char(v@.subrange(from as int, to as int), sep),
{
    let ghost s = v@.subrange(from as int, to as int);
    let mut done: Vec<(usize, usize)> = Vec::new();
    let mut start = from;
    let mut i = from;
    proof {
        assert(s.take(0) =~= Seq::<char>::empty());
        assert(ranges_view(v@, done@).push(v@.subrange(start as int, i as int)) =~~= seq![Seq::<char>::empty()]);
    }
    while i < to
        invariant
            from <= start <= i <= to <= v.len(),
            s == v@.subrange(from as int, to as int),
            ranges_within(done@, from as int, start as int),
            ranges_view(v@, done@).push(v@.subrange(start as int, i as int)) == split_char(
                s.take(i - from),
                sep,
            ),
        decreases to - i,
    {
        proof {
            lemma_split_char_step(s, i - from, sep);
            assert(s[i - from] == v@[i as int]);
        }
        let ghost prev = split_char(s.take(i - from), sep);
        if v[i] == sep {
            let ghost old_done = done@;
            done.push((start, i));
            start = i + 1;
            proof {
                assert forall|j: int| 0 <= j < done@.len() implies from <= #[trigger] done@[j].0 <= done@[j].1 <= start by {
                    if j < old_done.len() { assert(done@[j] == old_done[j]); }
                }
                assert(ranges_view(v@, done@).push(v@.subrange(start as int, (i + 1) as int)) =~~= prev.push(Seq::<char>::empty()));
            }
        } else {
            proof {
                assert(v@.subrange(start as int, (i + 1) as int) =~= v@.subrange(start as int, i as int).push(v@[i as int]));
                assert(ranges_view(v@, done@).push(v@.subrange(start as int, (i + 1) as int)) =~= prev.update(prev.len() - 1, prev.last().push(v@[i as int])));
            }
        }
        i = i + 1;
    }
    proof {
        assert(s.take(to - from) =~= s);
    }
    let ghost before = done@;
    done.push((start, to));
    proof {
        assert(ranges_view(v@, done@) =~= ranges_view(v@, before).push(v@.subrange(start as int, to as int)));
    }
    done
}

/// Ranges of the lines of `v`, as `str::lines`.
pub fn line_ranges(v: &Vec<char>) -> (r: Vec<(usize, usize)>)
    ensures
        ranges_within(r@, 0, v.len() as int),
        ranges_view(v@, r@) == lines(v@),
{
    let parts = split_ranges(v, 0, v.len(), '\n');
    proof {
        assert(v@.subrange(0, v.len() as int) =~= v@);
        lemma_split_char_nonempty(v@, '\n');
    }
    let ghost ps = split_char(v@, '\n');
    let n = parts.len();
    let mut out: Vec<(usize, usize)> = Vec::new();
    let mut k: usize = 0;
    while k + 1 < n
        invariant
            n == parts.len() >= 1,
            k < n,
            ranges_within(parts@, 0, v.len() as int),
            ranges_view(v@, parts@) == ps,
            out@.len() == k,
            ranges_within(out@, 0, v.len() as int),
            forall|j: int| 0 <= j < k ==> v@.subrange(#[trigger] out@[j].0 as int, out@[j].1 as int)
                == strip_cr(ps[j]),
        decreases n - k,
    {
        let (lo, hi) = parts[k];
        assert(ps[k as int] == v@.subrange(lo as int, hi as int));
        if hi > lo && v[hi - 1] == '\r' {
            out.push((lo, hi - 1));
            assert(v@.subrange(lo as int, (hi - 1) as int) =~= v@.subrange(lo as int, hi as int).drop_last());
        } else {
            out.push((lo, hi));
        }
        k = k + 1;
    }
    let (lo, hi) = parts[n - 1];
    assert(ps[n - 1] == v@.subrange(lo as int, hi as int));
    let ghost body = out@;
    if hi > lo {
        out.push((lo, hi));
    }
    proof {
        let body_spec = Seq::new((n - 1) as nat, |i: int| strip_cr(ps[i]));
        assert(ranges_view(v@, body) =~= body_spec);
        if hi > lo {
            assert(ranges_view(v@, out@) =~= body_spec.push(ps[n - 1]));
        } else {
            assert(ranges_view(v@, out@) =~= body_spec);
        }
    }
    out
}

/// Whether `pat` occurs in `v` at index `at`.
pub fn occurs_at_exec(v: &Vec<char>, at: usize, pat: &Vec<char>) -> (b: bool)
    ensures
        b == occurs_at(v@, pat@, at as int),
{
    if at > v.len() || pat.len() > v.len() - at {
        return false;
    }
    let mut k: usize = 0;
    while k < pat.len()
        invariant
            at + pat.len() <= v.len(),
            k <= pat.len(),
            forall|j: int| 0 <= j < k ==> v@[at + j] == pat@[j],
        decreases pat.len() - k,
    {
        if v[at + k] != pat[k] {
            assert(v@.subrange(at as int, at + pat.len())[k as int] != pat@[k as int]);
            return false;
        }
        k = k + 1;
    }
    assert(v@.subrange(at as int, at + pat.len()) =~= pat@);
    true
}

pub proof fn lemma_find_seq_is(s: Seq<char>, pat: Seq<char>, k: int)
    requires
        occurs_at(s, pat, k),
        forall|j: int| 0 <= j < k ==> !occurs_at(s, pat, j),
    ensures
        find_seq(s, pat) == Some(k),
{
    let w = choose|w: int| occurs_at(s, pat, w) && forall|j: int| 0 <= j < w ==> !occurs_at(s, pat, j);
    assert(occurs_at(s, pat, w));
    if w > k {
        assert(!occurs_at(s, pat, k));
    }
    if w < k {
        assert(!occurs_at(s, pat, w));
    }
}

pub proof fn lemma_occurs_at_skip(v: Seq<char>, pat: Seq<char>, from: int, k: int)
    requires
        0 <= from <= v.len(),
        0 <= k,
    ensures
        occurs_at(v.skip(from), pat, k) == occurs_at(v, pat, from + k),
{
    if k + pat.len() <= v.len() - from {
        assert(v.skip(from).subrange(k, k + pat.len()) =~= v.subrange(from + k, from + k + pat.len()));
    }
}

/// Index of the first occurrence of `pat` in `v` at or after `from`.
pub fn find_from(v: &Vec<char>, from: usize, pat: &Vec<char>) -> (r: Option<usize>)
    requires
        from <= v.len(),
    ensures
        match r {
            Some(i) => from <= i && find_seq(v@.skip(from as int), pat@) == Some(i - from),
            None => find_seq(v@.skip(from as int), pat@) is None,
        },
{
    let mut i = from;
    loop
        invariant
            from <= i <= v.len(),
            forall|j: int| 0 <= j < i - from ==> !occurs_at(v@.skip(from as int), pat@, j),
        decreases v.len() - i,
    {
        let hit = occurs_at_exec(v, i, pat);
        proof {
            lemma_occurs_at_skip(v@, pat@, from as int, i - from);
        }
        if hit {
            proof {
                lemma_find_seq_is(v@.skip(from as int), pat@, i - from);
            }
            return Some(i);
        }
        if i == v.len() {
            proof {
                let s = v@.skip(from as int);
                assert forall|j: int| !occurs_at(s, pat@, j) by {
                    if 0 <= j && j + pat@.len() <= s.len() {
                        assert(j < i - from + 1);
                    }
                }
            }
            return None;
        }
        i = i + 1;
    }
}

/// Whether `v` starts with `pat`.
pub fn starts_with_exec(v: &Vec<char>, pat: &Vec<char>) -> (b: bool)
    ensures
        b == starts_with(v@, pat@),
{
    let b = occurs_at_exec(v, 0, pat);
    proof {
        if pat@.len() <= v@.len() {
            assert(v@.take(pat@.len() as int) =~= v@.subrange(0, pat@.len() as int));
        }
    }
    b
}

/// Whether `v[from..to]` equals `pat`.
pub fn range_eq(v: &Vec<char>, from: usize, to: usize, pat: &Vec<char>) -> (b: bool)
    requires
        from <= to <= v.len(),
    ensures
        b == (v@.subrange(from as int, to as int) == pat@),
{
    if to - from != pat.len() {
        return false;
    }
    occurs_at_exec(v, from, pat)
}

/// Whether `a` and `b` hold the same characters.
pub fn chars_eq(a: &Vec<char>, b: &Vec<char>) -> (r: bool)
    ensures
        r == (a@ == b@),
{
    let r = range_eq(a, 0, a.len(), b);
    assert(a@.subrange(0, a@.len() as int) =~= a@);
    r
}

/// `a` sorts no later than `b`: characters compared in turn, a prefix first
/// (the order of `str`).
pub open spec fn text_le(a: Seq<char>, b: Seq<char>) -> bool
    decreases a.len(),
{
    if a.len() == 0 {
        true
    } else if b.len() == 0 {
        false
    } else if a[0] != b[0] {
        a[0] < b[0]
    } else {
        text_le(a.drop_first(), b.drop_first())
    }
}

pub proof fn lemma_text_le_refl(a: Seq<char>)
    ensures
        text_le(a, a),
    decreases a.len(),
{
    if a.len() > 0 {
        lemma_text_le_refl(a.drop_first());
    }
}

pub proof fn lemma_text_le_total(a: Seq<char>, b: Seq<char>)
    ensures
        text_le(a, b) || text_le(b, a),
    decreases a.len(),
{
    if a.len() > 0 && b.len() > 0 && a[0] == b[0] {
        lemma_text_le_total(a.drop_first(), b.drop_first());
    }
}

pub proof fn lemma_text_le_trans(a: Seq<char>, b: Seq<char>, c: Seq<char>)
    requires
        text_le(a, b),
        text_le(b, c),
    ensures
        text_le(a, c),
    decreases a.len(),
{
    if a.len() > 0 && b.len() > 0 && c.len() > 0 && a[0] == b[0] && b[0] == c[0] {
        lemma_text_le_trans(a.drop_first(), b.drop_first(), c.drop_first());
    }
}

/// Whether `a` sorts no later than `b`.
pub fn text_le_exec(a: &Vec<char>, b: &Vec<char>) -> (r: bool)
    ensures
        r == text_le(a@, b@),
{
    let mut i: usize = 0;
    assert(a@.skip(0) =~= a@);
    assert(b@.skip(0) =~= b@);
    loop
        invariant
            i <= a.len(),
            i <= b.len(),
            text_le(a@.skip(i as int), b@.skip(i as int)) == text_le(a@, b@),
        decreases a.len() - i,
    {
        if i == a.len() {
            return true;
        }
        if i == b.len() {
            return false;
        }
        if a[i] != b[i] {
            return a[i] < b[i];
        }
        assert(a@.skip(i as int).drop_first() =~= a@.skip(i + 1));
        assert(b@.skip(i as int).drop_first() =~= b@.skip(i + 1));
        i = i + 1;
    }
}

} // verus!
