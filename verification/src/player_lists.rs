//! Line-oriented admin, white and block lists of Klei user ids.
//!
//! A list file holds one id per line; blank lines are ignored. Ids written to
//! a list are validated first, and the file is rendered with one id per line.
use vstd::prelude::*;
use crate::text::{chars_of, line_ranges, lines, push_char, push_str, ranges_view, ranges_within,
    string_from_range, trim, trim_range};
use crate::process::{join, string_views};
use crate::validation::{ku_id_problem, validate_ku_id, ValidationError, ValidationReason};

verus! {

broadcast use vstd::string::group_string_axioms;

/// Body of a request that replaces the admin list.
pub struct AdminListRequest {
    pub admin_list: Vec<String>,
}

/// Body of a request that changes the block list.
pub struct BlacklistRequest {
    pub blacklist: Vec<String>,
}

/// Body of a request that changes the white list.
pub struct WhitelistRequest {
    pub whitelist: Vec<String>,
}

/// The lines that are not blank, in order.
pub open spec fn nonblank_lines(ls: Seq<Seq<char>>) -> Seq<Seq<char>>
    decreases ls.len(),
{
    if ls.len() == 0 {
        Seq::empty()
    } else {
        let prev = nonblank_lines(ls.drop_last());
        if trim(ls.last()).len() > 0 {
            prev.push(ls.last())
        } else {
            prev
        }
    }
}

/// The trimmed pieces that are not blank, in order.
pub open spec fn nonblank_trimmed(ps: Seq<Seq<char>>) -> Seq<Seq<char>>
    decreases ps.len(),
{
    if ps.len() == 0 {
        Seq::empty()
    } else {
        let prev = nonblank_trimmed(ps.drop_last());
        let t = trim(ps.last());
        if t.len() > 0 {
            prev.push(t)
        } else {
            prev
        }
    }
}

/// The entries of a list file.
pub open spec fn list_entries(contents: Seq<char>) -> Seq<Seq<char>> {
    nonblank_lines(lines(contents))
}

/// The file text of a list: entries joined by line breaks, with a final line
/// break unless the text is empty.
pub open spec fn list_text(entries: Seq<Seq<char>>) -> Seq<char> {
    let j = join(entries, "\n"@);
    if j.len() > 0 {
        j.push('\n')
    } else {
        j
    }
}

/// The index of the first value that is not a valid Klei user id.
pub open spec fn first_invalid_ku_id(values: Seq<Seq<char>>) -> Option<int>
    decreases values.len(),
{
    if values.len() == 0 {
        None
    } else {
        match first_invalid_ku_id(values.drop_last()) {
            Some(i) => Some(i),
            None => if ku_id_problem(values.last()) is Some {
                Some(values.len() - 1)
            } else {
                None
            },
        }
    }
}

/// `current` followed by each value not already present, in order.
pub open spec fn append_unique_spec(current: Seq<Seq<char>>, values: Seq<Seq<char>>) -> Seq<Seq<char>>
    decreases values.len(),
{
    if values.len() == 0 {
        current
    } else {
        let prev = append_unique_spec(current, values.drop_last());
        if prev.contains(values.last()) {
            prev
        } else {
            prev.push(values.last())
        }
    }
}

/// `current` without the entries that occur in `values`.
pub open spec fn remove_values_spec(current: Seq<Seq<char>>, values: Seq<Seq<char>>) -> Seq<Seq<char>>
    decreases current.len(),
{
    if current.len() == 0 {
        Seq::empty()
    } else {
        let prev = remove_values_spec(current.drop_last(), values);
        if values.contains(current.last()) {
            prev
        } else {
            prev.push(current.last())
        }
    }
}

/// The entries of a list file's contents.
pub fn parse_lines(contents: &str) -> (entries: Vec<String>)
    ensures
        string_views(entries@) == list_entries(contents@),
{
    let v = chars_of(contents);
    let rs = line_ranges(&v);
    let ghost ls = lines(v@);
    let mut out: Vec<String> = Vec::new();
    let mut k: usize = 0;
    while k < rs.len()
        invariant
            v@ == contents@,
            ls == lines(v@),
            ranges_within(rs@, 0, v.len() as int),
            ranges_view(v@, rs@) == ls,
            k <= rs.len(),
            string_views(out@) == nonblank_lines(ls.take(k as int)),
        decreases rs.len() - k,
    {
        let (lo, hi) = rs[k];
        assert(0 <= rs@[k as int].0 <= rs@[k as int].1 <= v.len());
        proof {
            assert(ls.take(k + 1).drop_last() =~= ls.take(k as int));
            assert(ls.take(k + 1).last() == ls[k as int]);
            assert(ls[k as int] == v@.subrange(lo as int, hi as int));
        }
        let (tlo, thi) = trim_range(&v, lo, hi);
        if tlo < thi {
            let ghost before = out@;
            out.push(string_from_range(&v, lo, hi));
            assert(string_views(out@) =~= string_views(before).push(v@.subrange(lo as int, hi as int)));
        }
        k = k + 1;
    }
    assert(ls.take(rs.len() as int) =~= ls);
    out
}

/// The file text of a list.
pub fn render_lines(entries: &Vec<String>) -> (text: String)
    ensures
        text@ == list_text(string_views(entries@)),
{
    let ghost es = string_views(entries@);
    let mut out = String::new();
    let mut k: usize = 0;
    proof {
        assert(es.take(0) =~= Seq::<Seq<char>>::empty());
    }
    while k < entries.len()
        invariant
            es == string_views(entries@),
            k <= entries.len(),
            out@ == join(es.take(k as int), "\n"@),
        decreases entries.len() - k,
    {
        let ghost prev = es.take(k as int);
        proof {
            reveal_strlit("\n");
            assert(es.take(k + 1).drop_last() =~= prev);
            assert(es.take(k + 1).last() == entries@[k as int]@);
        }
        if k > 0 {
            push_char(&mut out, '\n');
        }
        push_str(&mut out, entries[k].as_str());
        proof {
            if k > 0 {
                assert(out@ =~= join(prev, "\n"@) + "\n"@ + entries@[k as int]@);
            } else {
                assert(out@ =~= entries@[k as int]@);
            }
        }
        k = k + 1;
    }
    assert(es.take(entries.len() as int) =~= es);
    if !out.as_str().is_empty() {
        push_char(&mut out, '\n');
    }
    out
}

/// The values as validated Klei user ids, or the error of the first invalid one.
pub fn validated_values(values: &Vec<String>) -> (r: Result<Vec<String>, ValidationError>)
    ensures
        match first_invalid_ku_id(string_views(values@)) {
            None => r is Ok && string_views(r->Ok_0@) == string_views(values@),
            Some(i) => r is Err && r->Err_0.field == "KU id" && Some(r->Err_0.reason) == ku_id_problem(
                values@[i]@,
            ),
        },
{
    let ghost vs = string_views(values@);
    let mut out: Vec<String> = Vec::new();
    let mut k: usize = 0;
    while k < values.len()
        invariant
            vs == string_views(values@),
            k <= values.len(),
            first_invalid_ku_id(vs.take(k as int)) is None,
            string_views(out@) == vs.take(k as int),
        decreases values.len() - k,
    {
        proof {
            assert(vs.take(k + 1).drop_last() =~= vs.take(k as int));
            assert(vs.take(k + 1).last() == values@[k as int]@);
        }
        match validate_ku_id(values[k].as_str()) {
            Ok(id) => {
                let ghost before = out@;
                out.push(id.into_string());
                assert(string_views(out@) =~= vs.take(k + 1));
            },
            Err(e) => {
                proof {
                    assert(ku_id_problem(values@[k as int]@) is Some);
                    assert(first_invalid_ku_id(vs.take(k + 1)) == Some(k as int));
                    lemma_first_invalid_prefix(vs, k + 1);
                }
                return Err(e);
            },
        }
        k = k + 1;
    }
    assert(vs.take(values.len() as int) =~= vs);
    Ok(out)
}

/// The first invalid index of a prefix is that of the whole sequence.
pub proof fn lemma_first_invalid_prefix(vs: Seq<Seq<char>>, k: int)
    requires
        0 <= k <= vs.len(),
        first_invalid_ku_id(vs.take(k)) is Some,
    ensures
        first_invalid_ku_id(vs) == first_invalid_ku_id(vs.take(k)),
    decreases vs.len() - k,
{
    if k < vs.len() {
        assert(vs.take(k + 1).drop_last() =~= vs.take(k));
        lemma_first_invalid_prefix(vs, k + 1);
    } else {
        assert(vs.take(k) =~= vs);
    }
}

/// Whether `v` occurs in `list`.
fn contains_string(list: &Vec<String>, v: &String) -> (b: bool)
    ensures
        b == string_views(list@).contains(v@),
{
    let mut i: usize = 0;
    while i < list.len()
        invariant
            i <= list.len(),
            forall|j: int| 0 <= j < i ==> list@[j]@ != v@,
        decreases list.len() - i,
    {
        if list[i] == *v {
            assert(string_views(list@)[i as int] == v@);
            return true;
        }
        i = i + 1;
    }
    proof {
        if string_views(list@).contains(v@) {
            let j = choose|j: int| 0 <= j < string_views(list@).len() && string_views(list@)[j] == v@;
            assert(list@[j]@ == v@);
        }
    }
    false
}

/// The list after appending each validated value that it does not hold yet.
pub fn append_unique(current: Vec<String>, values: &Vec<String>) -> (r: Result<Vec<String>, ValidationError>)
    ensures
        match first_invalid_ku_id(string_views(values@)) {
            None => r is Ok && string_views(r->Ok_0@) == append_unique_spec(
                string_views(current@),
                string_views(values@),
            ),
            Some(i) => r is Err && r->Err_0.field == "KU id" && Some(r->Err_0.reason) == ku_id_problem(
                values@[i]@,
            ),
        },
{
    let valid = validated_values(values)?;
    let ghost vs = string_views(valid@);
    let ghost cur = string_views(current@);
    let mut out = current;
    let mut k: usize = 0;
    proof {
        assert(vs.take(0) =~= Seq::<Seq<char>>::empty());
    }
    while k < valid.len()
        invariant
            vs == string_views(valid@),
            k <= valid.len(),
            string_views(out@) == append_unique_spec(cur, vs.take(k as int)),
        decreases valid.len() - k,
    {
        proof {
            assert(vs.take(k + 1).drop_last() =~= vs.take(k as int));
            assert(vs.take(k + 1).last() == valid@[k as int]@);
        }
        if !contains_string(&out, &valid[k]) {
            let ghost before = out@;
            out.push(valid[k].clone());
            assert(string_views(out@) =~= string_views(before).push(valid@[k as int]@));
        }
        k = k + 1;
    }
    assert(vs.take(valid.len() as int) =~= vs);
    Ok(out)
}

/// The list without the validated values.
pub fn remove_values(current: &Vec<String>, values: &Vec<String>) -> (r: Result<Vec<String>, ValidationError>)
    ensures
        match first_invalid_ku_id(string_views(values@)) {
            None => r is Ok && string_views(r->Ok_0@) == remove_values_spec(
                string_views(current@),
                string_views(values@),
            ),
            Some(i) => r is Err && r->Err_0.field == "KU id" && Some(r->Err_0.reason) == ku_id_problem(
                values@[i]@,
            ),
        },
{
    let remove = validated_values(values)?;
    let ghost cur = string_views(current@);
    let mut out: Vec<String> = Vec::new();
    let mut k: usize = 0;
    proof {
        assert(cur.take(0) =~= Seq::<Seq<char>>::empty());
    }
    while k < current.len()
        invariant
            cur == string_views(current@),
            string_views(remove@) == string_views(values@),
            k <= current.len(),
            string_views(out@) == remove_values_spec(cur.take(k as int), string_views(values@)),
        decreases current.len() - k,
    {
        proof {
            assert(cur.take(k + 1).drop_last() =~= cur.take(k as int));
            assert(cur.take(k + 1).last() == current@[k as int]@);
        }
        if !contains_string(&remove, &current[k]) {
            let ghost before = out@;
            out.push(current[k].clone());
            assert(string_views(out@) =~= string_views(before).push(current@[k as int]@));
        }
        k = k + 1;
    }
    assert(cur.take(current.len() as int) =~= cur);
    Ok(out)
}

/// An entry that a list file keeps as written: not blank, no line break,
/// and no carriage return at its end.
pub open spec fn plain_entry(e: Seq<char>) -> bool {
    trim(e).len() > 0 && !e.contains('\n') && !(e.len() > 0 && e.last() == '\r')
}

proof fn lemma_join_nonempty(es: Seq<Seq<char>>)
    requires
        es.len() > 0,
        forall|i: int| 0 <= i < es.len() ==> plain_entry(#[trigger] es[i]),
    ensures
        join(es, "\n"@).len() > 0,
    decreases es.len(),
{
    assert(plain_entry(es[es.len() - 1]));
    if es.len() == 1 {
        assert(trim(es[0]).len() > 0);
        assert(es[0].len() > 0) by {
            if es[0].len() == 0 {
                assert(es[0] =~= Seq::<char>::empty());
                crate::ini::lemma_trim_no_surrounding_ws(es[0]);
            }
        }
    }
}

proof fn lemma_list_text_push(es: Seq<Seq<char>>, e: Seq<char>)
    requires
        forall|i: int| 0 <= i < es.len() ==> plain_entry(#[trigger] es[i]),
        plain_entry(e),
    ensures
        list_text(es.push(e)) == list_text(es) + crate::text::line(e),
{
    reveal_strlit("\n");
    let all = es.push(e);
    assert(all.drop_last() =~= es);
    assert(forall|i: int| 0 <= i < all.len() ==> plain_entry(#[trigger] all[i]));
    lemma_join_nonempty(all);
    if es.len() == 0 {
        assert(join(all, "\n"@) == e);
        assert(join(es, "\n"@).len() == 0);
    } else {
        lemma_join_nonempty(es);
        assert(join(all, "\n"@) == join(es, "\n"@) + "\n"@ + e);
        assert((join(es, "\n"@) + "\n"@ + e).push('\n') =~= join(es, "\n"@).push('\n') + e.push('\n'));
    }
}

/// Reading back a written list gives the same entries, for entries that
/// are not blank and hold no line breaks.
pub proof fn lemma_list_roundtrip(es: Seq<Seq<char>>)
    requires
        forall|i: int| 0 <= i < es.len() ==> plain_entry(#[trigger] es[i]),
    ensures
        list_entries(list_text(es)) == es,
    decreases es.len(),
{
    if es.len() == 0 {
        crate::text::lemma_lines_empty();
        assert(list_text(es) =~= Seq::<char>::empty());
    } else {
        let d = es.drop_last();
        let e = es.last();
        assert(es == d.push(e));
        assert(forall|i: int| 0 <= i < d.len() ==> plain_entry(#[trigger] d[i])) by {
            assert forall|i: int| 0 <= i < d.len() implies plain_entry(#[trigger] d[i]) by {
                assert(d[i] == es[i]);
            }
        }
        assert(plain_entry(es[es.len() - 1]));
        lemma_list_roundtrip(d);
        lemma_list_text_push(d, e);
        let p = list_text(d);
        assert(p.len() == 0 || p.last() == '\n');
        crate::text::lemma_lines_push_line(p, e);
        assert(crate::text::strip_cr(e) == e);
        assert(lines(p + crate::text::line(e)).drop_last() =~= lines(p));
    }
}

/// Every value appended is in the list afterwards.
pub proof fn lemma_append_unique_contains(current: Seq<Seq<char>>, values: Seq<Seq<char>>, k: int)
    requires
        0 <= k < values.len(),
    ensures
        append_unique_spec(current, values).contains(values[k]),
    decreases values.len(),
{
    let prev = append_unique_spec(current, values.drop_last());
    if k < values.len() - 1 {
        assert(values.drop_last()[k] == values[k]);
        lemma_append_unique_contains(current, values.drop_last(), k);
        if !prev.contains(values.last()) {
            let j = choose|j: int| 0 <= j < prev.len() && prev[j] == values[k];
            assert(prev.push(values.last())[j] == values[k]);
        }
    } else if !prev.contains(values.last()) {
        assert(prev.push(values.last())[prev.len() as int] == values.last());
    }
}

/// Appending values that are all there already changes nothing.
proof fn lemma_append_present(current: Seq<Seq<char>>, values: Seq<Seq<char>>)
    requires
        forall|i: int| 0 <= i < values.len() ==> current.contains(#[trigger] values[i]),
    ensures
        append_unique_spec(current, values) == current,
    decreases values.len(),
{
    if values.len() > 0 {
        assert forall|i: int| 0 <= i < values.drop_last().len() implies current.contains(#[trigger] values.drop_last()[i]) by {
            assert(values.drop_last()[i] == values[i]);
        }
        lemma_append_present(current, values.drop_last());
        assert(current.contains(values[values.len() - 1]));
    }
}

/// Appending the same values twice is appending them once.
pub proof fn lemma_append_unique_idempotent(current: Seq<Seq<char>>, values: Seq<Seq<char>>)
    ensures
        append_unique_spec(append_unique_spec(current, values), values) == append_unique_spec(current, values),
{
    let once = append_unique_spec(current, values);
    assert forall|i: int| 0 <= i < values.len() implies once.contains(#[trigger] values[i]) by {
        lemma_append_unique_contains(current, values, i);
    }
    lemma_append_present(once, values);
}

/// No removed value is left in the list, and every other entry stays.
pub proof fn lemma_remove_values(current: Seq<Seq<char>>, values: Seq<Seq<char>>, x: Seq<char>)
    ensures
        values.contains(x) ==> !remove_values_spec(current, values).contains(x),
        !values.contains(x) ==> (remove_values_spec(current, values).contains(x) <==> current.contains(x)),
    decreases current.len(),
{
    if current.len() > 0 {
        let d = current.drop_last();
        let prev = remove_values_spec(d, values);
        lemma_remove_values(d, values, x);
        let r = remove_values_spec(current, values);
        if !values.contains(current.last()) {
            assert(r == prev.push(current.last()));
            assert(r.contains(x) <==> (prev.contains(x) || current.last() == x)) by {
                if r.contains(x) {
                    let j = choose|j: int| 0 <= j < r.len() && r[j] == x;
                    if j < prev.len() { assert(prev[j] == x); }
                }
                if prev.contains(x) {
                    let j = choose|j: int| 0 <= j < prev.len() && prev[j] == x;
                    assert(r[j] == x);
                }
                if current.last() == x { assert(r[prev.len() as int] == x); }
            }
        }
        assert(current.contains(x) <==> (d.contains(x) || current.last() == x)) by {
            if current.contains(x) {
                let j = choose|j: int| 0 <= j < current.len() && current[j] == x;
                if j < d.len() { assert(d[j] == x); }
            }
            if d.contains(x) {
                let j = choose|j: int| 0 <= j < d.len() && d[j] == x;
                assert(current[j] == x);
            }
            if current.last() == x { assert(current[current.len() - 1] == x); }
        }
    }
}

} // verus!
