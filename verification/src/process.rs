//! Process snapshot rows and literal matching of DST shard processes.
//!
//! Process listings are collected with fixed command arguments by the
//! caller; user-controlled cluster and level names are only ever compared
//! here, never interpolated into a shell.
use vstd::prelude::*;
use crate::numbers::{parse_u32_range, parse_u32_spec, parse_u64_range, parse_u64_spec, u64_to_chars, decimal};
use crate::validation::{char_utf8_len, utf8_len, utf8_len_range};
use crate::text::{trim, trim_range};
use crate::text::{
    ascii_upper, chars_eq, chars_of, eq_ignore_ascii_case, is_whitespace, is_ws, line_ranges,
    lines, ranges_view, ranges_within, string_from_chars, string_from_range, to_ascii_upper,
};

verus! {

/// A single OS process row with the fields used by the dashboard.
#[derive(Debug, Clone, PartialEq, Eq)]
pub struct ProcessSnapshot {
    /// OS process id, when the row carried a parsable one.
    pub pid: Option<u32>,
    /// Percent CPU column, kept as text.
    pub cpu_usage: String,
    /// Percent memory column, kept as text.
    pub mem_usage: String,
    /// Virtual memory size column.
    pub virtual_size: String,
    /// Resident set size column.
    pub resident_set_size: String,
    /// Full command line used only for literal matching.
    pub command: String,
}

/// The state of the command-line tokenizer after some prefix: finished
/// tokens, the token being built, and whether a quote is open.
pub open spec fn token_state(s: Seq<char>) -> (Seq<Seq<char>>, Seq<char>, bool)
    decreases s.len(),
{
    if s.len() == 0 {
        (Seq::empty(), Seq::empty(), false)
    } else {
        let (done, cur, q) = token_state(s.drop_last());
        let ch = s.last();
        if ch == '"' {
            (done, cur, !q)
        } else if is_ws(ch) && !q {
            if cur.len() > 0 {
                (done.push(cur), Seq::empty(), q)
            } else {
                (done, cur, q)
            }
        } else {
            (done, cur.push(ch), q)
        }
    }
}

/// Whitespace-separated tokens of a command line; double quotes group
/// whitespace into a token and are themselves dropped.
pub open spec fn command_tokens_spec(s: Seq<char>) -> Seq<Seq<char>> {
    let (done, cur, _q) = token_state(s);
    if cur.len() > 0 {
        done.push(cur)
    } else {
        done
    }
}

pub open spec fn is_path_sep(c: char) -> bool {
    c == '/' || c == '\\'
}

/// The part of a token after its last `/` or `\`.
pub open spec fn path_leaf(s: Seq<char>) -> Seq<char>
    decreases s.len(),
{
    if s.len() == 0 {
        s
    } else if is_path_sep(s.last()) {
        Seq::empty()
    } else {
        path_leaf(s.drop_last()).push(s.last())
    }
}

pub open spec fn is_helper_token(t: Seq<char>) -> bool {
    eq_ignore_ascii_case(path_leaf(t), "screen"@) || eq_ignore_ascii_case(path_leaf(t), "tail"@)
}

pub open spec fn is_dst_server(t: Seq<char>) -> bool {
    let leaf = path_leaf(t);
    ||| leaf == "dontstarve_dedicated_server_nullrenderer"@
    ||| leaf == "dontstarve_dedicated_server_nullrenderer_x64"@
    ||| leaf == "dontstarve_dedicated_server_nullrenderer_x64_luajit"@
    ||| leaf == "dontstarve_dedicated_server_nullrenderer.exe"@
    ||| leaf == "dontstarve_dedicated_server_nullrenderer_x64.exe"@
    ||| leaf == "dontstarve_dedicated_server_nullrenderer_x64_luajit.exe"@
}

pub open spec fn is_box_wrapper(t: Seq<char>) -> bool {
    eq_ignore_ascii_case(path_leaf(t), "box86"@) || eq_ignore_ascii_case(path_leaf(t), "box64"@)
}

pub open spec fn starts_like_dst_server(tokens: Seq<Seq<char>>) -> bool {
    tokens.len() > 0 && (is_dst_server(tokens[0]) || (is_box_wrapper(tokens[0]) && tokens.len() > 1
        && is_dst_server(tokens[1])))
}

pub open spec fn flag_value(tokens: Seq<Seq<char>>, flag: Seq<char>, expected: Seq<char>) -> bool {
    exists|i: int| 0 <= i < tokens.len() - 1 && #[trigger] tokens[i] == flag && tokens[i + 1] == expected
}

/// Whether a command line looks like the DST server binary running the
/// given cluster and shard: no `screen`/`tail` token, the server binary
/// first (optionally behind `box86`/`box64`), and `-cluster`/`-shard`
/// followed by exactly the given names.
pub open spec fn command_matches_level(command: Seq<char>, cluster: Seq<char>, level: Seq<char>) -> bool {
    let t = command_tokens_spec(command);
    &&& !(exists|i: int| 0 <= i < t.len() && is_helper_token(#[trigger] t[i]))
    &&& starts_like_dst_server(t)
    &&& flag_value(t, "-cluster"@, cluster)
    &&& flag_value(t, "-shard"@, level)
}

pub open spec fn token_views(v: Seq<Vec<char>>) -> Seq<Seq<char>> {
    v.map_values(|t: Vec<char>| t@)
}

/// Splits a command line into tokens.
pub fn command_tokens(command: &str) -> (tokens: Vec<Vec<char>>)
    ensures
        token_views(tokens@) == command_tokens_spec(command@),
{
    let v = chars_of(command);
    let mut done: Vec<Vec<char>> = Vec::new();
    let mut cur: Vec<char> = Vec::new();
    let mut q = false;
    let mut i: usize = 0;
    while i < v.len()
        invariant
            i <= v.len(),
            v@ == command@,
            token_state(v@.take(i as int)) == (token_views(done@), cur@, q),
        decreases v.len() - i,
    {
        let ch = v[i];
        proof {
            assert(v@.take(i + 1).drop_last() =~= v@.take(i as int));
            assert(v@.take(i + 1).last() == ch);
        }
        if ch == '"' {
            q = !q;
        } else if is_whitespace(ch) && !q {
            if cur.len() > 0 {
                let ghost before = done@;
                done.push(cur);
                cur = Vec::new();
                proof {
                    assert(token_views(done@) =~= token_views(before).push(token_state(v@.take(i as int)).1));
                    assert(cur@ =~= Seq::<char>::empty());
                }
            }
        } else {
            cur.push(ch);
        }
        i = i + 1;
    }
    proof {
        assert(v@.take(v.len() as int) =~= v@);
    }
    if cur.len() > 0 {
        let ghost before = done@;
        done.push(cur);
        proof {
            assert(token_views(done@) =~= token_views(before).push(token_state(v@).1));
        }
    }
    done
}

/// Bounds of the part of `t` after its last `/` or `\`.
fn path_leaf_start(t: &Vec<char>) -> (k: usize)
    ensures
        k <= t.len(),
        t@.skip(k as int) == path_leaf(t@),
{
    let mut k: usize = 0;
    let mut i: usize = 0;
    while i < t.len()
        invariant
            k <= i <= t.len(),
            t@.subrange(k as int, i as int) == path_leaf(t@.take(i as int)),
        decreases t.len() - i,
    {
        proof {
            assert(t@.take(i + 1).drop_last() =~= t@.take(i as int));
            assert(t@.take(i + 1).last() == t@[i as int]);
        }
        if t[i] == '/' || t[i] == '\\' {
            k = i + 1;
            proof {
                assert(t@.subrange(k as int, (i + 1) as int) =~= Seq::<char>::empty());
            }
        } else {
            proof {
                assert(t@.subrange(k as int, (i + 1) as int) =~= t@.subrange(k as int, i as int).push(t@[i as int]));
            }
        }
        i = i + 1;
    }
    proof {
        assert(t@.take(t.len() as int) =~= t@);
        assert(t@.subrange(k as int, t.len() as int) =~= t@.skip(k as int));
    }
    k
}

/// Whether `t[from..]` equals `pat` ignoring ASCII case.
fn tail_eq_ignore_case(t: &Vec<char>, from: usize, pat: &str) -> (b: bool)
    requires
        from <= t.len(),
    ensures
        b == eq_ignore_ascii_case(t@.skip(from as int), pat@),
{
    let p = chars_of(pat);
    if t.len() - from != p.len() {
        return false;
    }
    let mut i: usize = 0;
    while i < p.len()
        invariant
            t.len() - from == p.len(),
            from <= t.len(),
            p@ == pat@,
            i <= p.len(),
            forall|j: int| 0 <= j < i ==> ascii_upper(t@[from + j]) == ascii_upper(p@[j]),
        decreases p.len() - i,
    {
        if to_ascii_upper(t[from + i]) != to_ascii_upper(p[i]) {
            assert(ascii_upper(t@.skip(from as int)[i as int]) != ascii_upper(p@[i as int]));
            return false;
        }
        i = i + 1;
    }
    proof {
        let s = t@.skip(from as int);
        assert forall|j: int| 0 <= j < s.len() implies ascii_upper(s[j]) == ascii_upper(pat@[j]) by {
            assert(s[j] == t@[from + j]);
        }
    }
    true
}

/// Whether `t[from..]` equals `pat` exactly.
fn tail_eq(t: &Vec<char>, from: usize, pat: &str) -> (b: bool)
    requires
        from <= t.len(),
    ensures
        b == (t@.skip(from as int) == pat@),
{
    let p = chars_of(pat);
    let b = crate::text::range_eq(t, from, t.len(), &p);
    assert(t@.subrange(from as int, t.len() as int) =~= t@.skip(from as int));
    b
}

fn helper_process_token(t: &Vec<char>) -> (b: bool)
    ensures
        b == is_helper_token(t@),
{
    let k = path_leaf_start(t);
    tail_eq_ignore_case(t, k, "screen") || tail_eq_ignore_case(t, k, "tail")
}

fn is_dst_server_token(t: &Vec<char>) -> (b: bool)
    ensures
        b == is_dst_server(t@),
{
    let k = path_leaf_start(t);
    tail_eq(t, k, "dontstarve_dedicated_server_nullrenderer") || tail_eq(
        t,
        k,
        "dontstarve_dedicated_server_nullrenderer_x64",
    ) || tail_eq(t, k, "dontstarve_dedicated_server_nullrenderer_x64_luajit") || tail_eq(
        t,
        k,
        "dontstarve_dedicated_server_nullrenderer.exe",
    ) || tail_eq(t, k, "dontstarve_dedicated_server_nullrenderer_x64.exe") || tail_eq(
        t,
        k,
        "dontstarve_dedicated_server_nullrenderer_x64_luajit.exe",
    )
}

fn is_box_wrapper_token(t: &Vec<char>) -> (b: bool)
    ensures
        b == is_box_wrapper(t@),
{
    let k = path_leaf_start(t);
    tail_eq_ignore_case(t, k, "box86") || tail_eq_ignore_case(t, k, "box64")
}

fn command_starts_like_dst_server(tokens: &Vec<Vec<char>>) -> (b: bool)
    ensures
        b == starts_like_dst_server(token_views(tokens@)),
{
    if tokens.len() == 0 {
        return false;
    }
    if is_dst_server_token(&tokens[0]) {
        return true;
    }
    if is_box_wrapper_token(&tokens[0]) {
        return tokens.len() > 1 && is_dst_server_token(&tokens[1]);
    }
    false
}

fn flag_value_equals(tokens: &Vec<Vec<char>>, flag: &str, expected: &str) -> (b: bool)
    ensures
        b == flag_value(token_views(tokens@), flag@, expected@),
{
    let f = chars_of(flag);
    let e = chars_of(expected);
    let ghost tv = token_views(tokens@);
    let mut i: usize = 0;
    while i < tokens.len() && i + 1 < tokens.len()
        invariant
            tv == token_views(tokens@),
            f@ == flag@,
            e@ == expected@,
            i <= tokens.len(),
            forall|j: int| 0 <= j < i && j < tokens.len() - 1 ==> !(#[trigger] tv[j] == flag@ && tv[j + 1] == expected@),
        decreases tokens.len() - i,
    {
        if chars_eq(&tokens[i], &f) && chars_eq(&tokens[i + 1], &e) {
            assert(tv[i as int] == flag@ && tv[i + 1] == expected@);
            return true;
        }
        i = i + 1;
    }
    false
}

/// Whether any token names a `screen` or `tail` helper.
fn any_helper_token(tokens: &Vec<Vec<char>>) -> (b: bool)
    ensures
        b == exists|i: int| 0 <= i < tokens@.len() && is_helper_token(#[trigger] token_views(tokens@)[i]),
{
    let ghost tv = token_views(tokens@);
    let mut i: usize = 0;
    while i < tokens.len()
        invariant
            tv == token_views(tokens@),
            i <= tokens.len(),
            forall|j: int| 0 <= j < i ==> !is_helper_token(#[trigger] tv[j]),
        decreases tokens.len() - i,
    {
        if helper_process_token(&tokens[i]) {
            assert(is_helper_token(tv[i as int]));
            return true;
        }
        i = i + 1;
    }
    false
}

impl ProcessSnapshot {
    /// Returns true when a snapshot appears to belong to one DST shard.
    ///
    /// The launcher starts `dontstarve_dedicated_server... -cluster <cluster>
    /// -shard <level>`; requiring that shape avoids reporting `screen`,
    /// `tail`, or other helper processes as live shards.
    pub fn matches_level(&self, cluster_name: &str, level_name: &str) -> (b: bool)
        ensures
            b == command_matches_level(self.command@, cluster_name@, level_name@),
    {
        let tokens = command_tokens(self.command.as_str());
        if any_helper_token(&tokens) {
            return false;
        }
        command_starts_like_dst_server(&tokens) && flag_value_equals(&tokens, "-cluster", cluster_name)
            && flag_value_equals(&tokens, "-shard", level_name)
    }
}

/// Index of the first snapshot whose command matches the shard.
pub open spec fn first_match(snapshots: Seq<ProcessSnapshot>, cluster: Seq<char>, level: Seq<char>) -> Option<int> {
    if exists|i: int| 0 <= i < snapshots.len() && command_matches_level(#[trigger] snapshots[i].command@, cluster, level) {
        Some(choose|i: int| 0 <= i < snapshots.len() && command_matches_level(snapshots[i].command@, cluster, level)
            && forall|j: int| 0 <= j < i ==> !command_matches_level(#[trigger] snapshots[j].command@, cluster, level))
    } else {
        None
    }
}

/// Finds the first process matching a cluster and level.
pub fn first_level_process<'a>(
    snapshots: &'a [ProcessSnapshot],
    cluster_name: &str,
    level_name: &str,
) -> (r: Option<&'a ProcessSnapshot>)
    ensures
        match first_match(snapshots@, cluster_name@, level_name@) {
            Some(i) => r == Some(&snapshots@[i]),
            None => r is None,
        },
{
    let mut i: usize = 0;
    while i < snapshots.len()
        invariant
            i <= snapshots.len(),
            forall|j: int| 0 <= j < i ==> !command_matches_level(#[trigger] snapshots@[j].command@, cluster_name@, level_name@),
        decreases snapshots.len() - i,
    {
        if snapshots[i].matches_level(cluster_name, level_name) {
            proof {
                let s = snapshots@;
                let w = choose|w: int| 0 <= w < s.len() && command_matches_level(s[w].command@, cluster_name@, level_name@)
                    && forall|j: int| 0 <= j < w ==> !command_matches_level(#[trigger] s[j].command@, cluster_name@, level_name@);
                assert(command_matches_level(s[i as int].command@, cluster_name@, level_name@));
                assert(w == i) by {
                    if w < i {
                        assert(!command_matches_level(s[w].command@, cluster_name@, level_name@));
                    }
                    if w > i {
                        assert(!command_matches_level(s[i as int].command@, cluster_name@, level_name@));
                    }
                }
            }
            return Some(&snapshots[i]);
        }
        i = i + 1;
    }
    None
}


/// The values of a snapshot row, as text.
pub struct SnapshotView {
    pub pid: Option<u32>,
    pub cpu_usage: Seq<char>,
    pub mem_usage: Seq<char>,
    pub virtual_size: Seq<char>,
    pub resident_set_size: Seq<char>,
    pub command: Seq<char>,
}

impl View for ProcessSnapshot {
    type V = SnapshotView;

    open spec fn view(&self) -> SnapshotView {
        SnapshotView {
            pid: self.pid,
            cpu_usage: self.cpu_usage@,
            mem_usage: self.mem_usage@,
            virtual_size: self.virtual_size@,
            resident_set_size: self.resident_set_size@,
            command: self.command@,
        }
    }
}

pub open spec fn snapshot_views(v: Seq<ProcessSnapshot>) -> Seq<SnapshotView> {
    v.map_values(|p: ProcessSnapshot| p@)
}

/// The splitter state after a prefix: finished words and the current word.
pub open spec fn word_state(s: Seq<char>) -> (Seq<Seq<char>>, Seq<char>)
    decreases s.len(),
{
    if s.len() == 0 {
        (Seq::empty(), Seq::empty())
    } else {
        let (done, cur) = word_state(s.drop_last());
        if is_ws(s.last()) {
            if cur.len() > 0 {
                (done.push(cur), Seq::empty())
            } else {
                (done, cur)
            }
        } else {
            (done, cur.push(s.last()))
        }
    }
}

/// The maximal runs of non-whitespace, as `str::split_whitespace`.
pub open spec fn words(s: Seq<char>) -> Seq<Seq<char>> {
    let (done, cur) = word_state(s);
    if cur.len() > 0 {
        done.push(cur)
    } else {
        done
    }
}

/// The pieces joined with `sep` between them, as `[T]::join`.
pub open spec fn join(ws: Seq<Seq<char>>, sep: Seq<char>) -> Seq<char>
    decreases ws.len(),
{
    if ws.len() == 0 {
        Seq::empty()
    } else if ws.len() == 1 {
        ws[0]
    } else {
        join(ws.drop_last(), sep) + sep + ws.last()
    }
}

/// The snapshot that one `ps -axo pid=,pcpu=,pmem=,vsz=,rss=,command=` line
/// describes: five columns and a non-empty command made of the remaining
/// words joined by single spaces.
pub open spec fn ps_row(line: Seq<char>) -> Option<SnapshotView> {
    let w = words(line);
    if w.len() < 6 {
        None
    } else {
        Some(SnapshotView {
            pid: parse_u32_spec(w[0]),
            cpu_usage: w[1],
            mem_usage: w[2],
            virtual_size: w[3],
            resident_set_size: w[4],
            command: join(w.skip(5), " "@),
        })
    }
}

pub open spec fn ps_rows(ls: Seq<Seq<char>>) -> Seq<SnapshotView>
    decreases ls.len(),
{
    if ls.len() == 0 {
        Seq::empty()
    } else {
        match ps_row(ls.last()) {
            Some(r) => ps_rows(ls.drop_last()).push(r),
            None => ps_rows(ls.drop_last()),
        }
    }
}

/// Ranges of the whitespace-separated words of `v[from..to]`.
pub fn word_ranges(v: &Vec<char>, from: usize, to: usize) -> (r: Vec<(usize, usize)>)
    requires
        from <= to <= v.len(),
    ensures
        ranges_within(r@, from as int, to as int),
        ranges_view(v@, r@) == words(v@.subrange(from as int, to as int)),
        forall|k: int| 0 <= k < r@.len() ==> (#[trigger] r@[k]).0 < r@[k].1,
{
    let mut done: Vec<(usize, usize)> = Vec::new();
    let mut start = from;
    let mut i = from;
    while i < to
        invariant
            from <= start <= i <= to <= v.len(),
            ranges_within(done@, from as int, start as int),
            forall|k: int| 0 <= k < done@.len() ==> (#[trigger] done@[k]).0 < done@[k].1,
            word_state(v@.subrange(from as int, i as int)) == (ranges_view(v@, done@), v@.subrange(
                start as int,
                i as int,
            )),
        decreases to - i,
    {
        let ghost pre = v@.subrange(from as int, i as int);
        proof {
            let next = v@.subrange(from as int, i + 1);
            assert(next.drop_last() =~= pre);
            assert(next.last() == v@[i as int]);
        }
        if is_whitespace(v[i]) {
            if start < i {
                let ghost before = done@;
                done.push((start, i));
                proof {
                    assert(ranges_view(v@, done@) =~= ranges_view(v@, before).push(v@.subrange(start as int, i as int)));
                    assert forall|k: int| 0 <= k < done@.len() implies from <= #[trigger] done@[k].0 <= done@[k].1 <= i + 1 && done@[k].0 < done@[k].1 by {
                        if k < before.len() { assert(done@[k] == before[k]); }
                    }
                }
            }
            start = i + 1;
            proof {
                assert(v@.subrange(start as int, (i + 1) as int) =~= Seq::<char>::empty());
            }
        } else {
            proof {
                assert(v@.subrange(start as int, (i + 1) as int) =~= v@.subrange(start as int, i as int).push(v@[i as int]));
            }
        }
        i = i + 1;
    }
    if start < to {
        let ghost before = done@;
        done.push((start, to));
        proof {
            assert(ranges_view(v@, done@) =~= ranges_view(v@, before).push(v@.subrange(start as int, to as int)));
            assert forall|k: int| 0 <= k < done@.len() implies from <= #[trigger] done@[k].0 <= done@[k].1 <= to && done@[k].0 < done@[k].1 by {
                if k < before.len() { assert(done@[k] == before[k]); }
            }
        }
    }
    done
}

/// Joins the words `r[first..]` of `v` with single spaces.
fn join_words(v: &Vec<char>, r: &Vec<(usize, usize)>, first: usize) -> (out: Vec<char>)
    requires
        first <= r.len(),
        ranges_within(r@, 0, v.len() as int),
    ensures
        out@ == join(ranges_view(v@, r@).skip(first as int), " "@),
{
    let ghost ws = ranges_view(v@, r@);
    let mut out: Vec<char> = Vec::new();
    let mut k = first;
    proof {
        reveal_strlit(" ");
        assert(ws.skip(first as int).take(0) =~= Seq::<Seq<char>>::empty());
    }
    while k < r.len()
        invariant
            first <= k <= r.len(),
            ws == ranges_view(v@, r@),
            ranges_within(r@, 0, v.len() as int),
            out@ == join(ws.skip(first as int).take(k - first), " "@),
        decreases r.len() - k,
    {
        let (lo, hi) = r[k];
        let ghost prev = ws.skip(first as int).take(k - first);
        let ghost next = ws.skip(first as int).take(k + 1 - first);
        proof {
            reveal_strlit(" ");
            assert(next.drop_last() =~= prev);
            assert(next.last() == v@.subrange(lo as int, hi as int));
        }
        if k > first {
            out.push(' ');
        }
        let ghost mid = out@;
        let mut j = lo;
        while j < hi
            invariant
                lo <= j <= hi <= v.len(),
                out@ == mid + v@.subrange(lo as int, j as int),
            decreases hi - j,
        {
            out.push(v[j]);
            proof {
                assert(v@.subrange(lo as int, j + 1) =~= v@.subrange(lo as int, j as int).push(v@[j as int]));
                assert(out@ =~= mid + v@.subrange(lo as int, j + 1));
            }
            j = j + 1;
        }
        proof {
            if k > first {
                assert(out@ =~= join(prev, " "@) + " "@ + next.last());
            } else {
                assert(next.len() == 1);
                assert(out@ =~= next[0]);
            }
        }
        k = k + 1;
    }
    proof {
        assert(ws.skip(first as int).take(r.len() - first) =~= ws.skip(first as int));
    }
    out
}

/// Builds the snapshot for one `ps` output line, if the line describes one.
fn ps_row_exec(v: &Vec<char>, from: usize, to: usize) -> (r: Option<ProcessSnapshot>)
    requires
        from <= to <= v.len(),
    ensures
        match ps_row(v@.subrange(from as int, to as int)) {
            Some(row) => r is Some && r->Some_0@ == row,
            None => r is None,
        },
{
    let w = word_ranges(v, from, to);
    let ghost ws = ranges_view(v@, w@);
    if w.len() < 6 {
        return None;
    }
    let command = join_words(v, &w, 5);
    proof {
        assert(ranges_within(w@, 0, v.len() as int));
    }
    let pid = parse_u32_range(v, w[0].0, w[0].1);
    assert(ws[0] == v@.subrange(w@[0].0 as int, w@[0].1 as int));
    assert(ws[1] == v@.subrange(w@[1].0 as int, w@[1].1 as int));
    assert(ws[2] == v@.subrange(w@[2].0 as int, w@[2].1 as int));
    assert(ws[3] == v@.subrange(w@[3].0 as int, w@[3].1 as int));
    assert(ws[4] == v@.subrange(w@[4].0 as int, w@[4].1 as int));
    Some(ProcessSnapshot {
        pid,
        cpu_usage: string_from_range(v, w[1].0, w[1].1),
        mem_usage: string_from_range(v, w[2].0, w[2].1),
        virtual_size: string_from_range(v, w[3].0, w[3].1),
        resident_set_size: string_from_range(v, w[4].0, w[4].1),
        command: string_from_chars(&command),
    })
}

/// Parses `ps -axo pid=,pcpu=,pmem=,vsz=,rss=,command=` output.
pub fn parse_ps_output(stdout: &str) -> (rows: Vec<ProcessSnapshot>)
    ensures
        snapshot_views(rows@) == ps_rows(lines(stdout@)),
{
    let v = chars_of(stdout);
    let ls = line_ranges(&v);
    let ghost lv = lines(v@);
    let mut rows: Vec<ProcessSnapshot> = Vec::new();
    let mut k: usize = 0;
    while k < ls.len()
        invariant
            k <= ls.len(),
            ranges_within(ls@, 0, v.len() as int),
            ranges_view(v@, ls@) == lv,
            snapshot_views(rows@) == ps_rows(lv.take(k as int)),
        decreases ls.len() - k,
    {
        let (lo, hi) = ls[k];
        proof {
            assert(lv.take(k + 1).drop_last() =~= lv.take(k as int));
            assert(lv.take(k + 1).last() == v@.subrange(lo as int, hi as int));
        }
        match ps_row_exec(&v, lo, hi) {
            Some(row) => {
                let ghost before = rows@;
                rows.push(row);
                proof {
                    assert(snapshot_views(rows@) =~= snapshot_views(before).push(row@));
                }
            },
            None => {},
        }
        k = k + 1;
    }
    proof {
        assert(lv.take(ls.len() as int) =~= lv);
    }
    rows
}


/// Largest PowerShell CSV input accepted, in bytes.
pub const MAX_POWERSHELL_CSV_BYTES: usize = 2097152;

/// Largest CSV field kept, in bytes; a longer field drops its record.
pub const MAX_POWERSHELL_CSV_FIELD_BYTES: usize = 16384;

/// Most data records kept after the header.
pub const MAX_POWERSHELL_CSV_RECORDS: usize = 1024;

/// CSV reader state: finished records, the record and field being read,
/// whether a quote is open, whether the record holds any data, and whether
/// the record was dropped for an oversized field.
pub struct CsvState {
    pub records: Seq<Seq<Seq<char>>>,
    pub record: Seq<Seq<char>>,
    pub field: Seq<char>,
    pub in_quotes: bool,
    pub has_record_data: bool,
    pub record_invalid: bool,
}

pub open spec fn csv_initial() -> CsvState {
    CsvState {
        records: Seq::empty(),
        record: Seq::empty(),
        field: Seq::empty(),
        in_quotes: false,
        has_record_data: false,
        record_invalid: false,
    }
}

/// Adds one character to the field; a field that would outgrow the limit
/// empties the record and marks it dropped.
pub open spec fn csv_push_char(st: CsvState, ch: char) -> CsvState {
    if st.record_invalid {
        st
    } else if utf8_len(st.field) + char_utf8_len(ch) > MAX_POWERSHELL_CSV_FIELD_BYTES {
        CsvState { field: Seq::empty(), record: Seq::empty(), record_invalid: true, ..st }
    } else {
        CsvState { field: st.field.push(ch), ..st }
    }
}

/// Ends the current record: a dropped record is discarded, an empty line is
/// skipped, and otherwise the record is kept while fewer than the limit
/// plus one (the header) records are held.
pub open spec fn csv_finish_record(st: CsvState) -> CsvState {
    if st.record_invalid {
        CsvState {
            record: Seq::empty(),
            field: Seq::empty(),
            has_record_data: false,
            record_invalid: false,
            ..st
        }
    } else if !st.has_record_data && st.record.len() == 0 && st.field.len() == 0 {
        st
    } else {
        let rec = st.record.push(st.field);
        CsvState {
            records: if st.records.len() < MAX_POWERSHELL_CSV_RECORDS + 1 {
                st.records.push(rec)
            } else {
                st.records
            },
            record: Seq::empty(),
            field: Seq::empty(),
            has_record_data: false,
            ..st
        }
    }
}

pub open spec fn with_data(st: CsvState) -> CsvState {
    CsvState { has_record_data: true, ..st }
}

/// One step of the reader on the non-empty input `s`: how many characters
/// it consumes and the state after them.
pub open spec fn csv_step(s: Seq<char>, st: CsvState) -> (int, CsvState) {
    let ch = s[0];
    if st.in_quotes {
        if ch == '"' && s.len() > 1 && s[1] == '"' {
            (2, with_data(csv_push_char(st, '"')))
        } else if ch == '"' {
            (1, CsvState { in_quotes: false, has_record_data: true, ..st })
        } else {
            (1, with_data(csv_push_char(st, ch)))
        }
    } else if ch == '"' && st.field.len() == 0 {
        (1, CsvState { in_quotes: true, has_record_data: true, ..st })
    } else if ch == ',' {
        if st.record_invalid {
            (1, with_data(st))
        } else {
            (1, CsvState { record: st.record.push(st.field), field: Seq::empty(), has_record_data: true, ..st })
        }
    } else if ch == '\r' {
        (if s.len() > 1 && s[1] == '\n' { 2int } else { 1int }, csv_finish_record(st))
    } else if ch == '\n' {
        (1, csv_finish_record(st))
    } else {
        (1, with_data(csv_push_char(st, ch)))
    }
}

/// The records read from `s` starting in state `st`.
#[verifier::opaque]
pub open spec fn csv_run(s: Seq<char>, st: CsvState) -> Seq<Seq<Seq<char>>>
    decreases s.len(),
{
    if s.len() == 0 {
        csv_finish_record(st).records
    } else {
        let (n, next) = csv_step(s, st);
        if 1 <= n <= s.len() {
            csv_run(s.skip(n), next)
        } else {
            Seq::empty()
        }
    }
}

/// The records of a CSV text.
pub open spec fn csv_records(s: Seq<char>) -> Seq<Seq<Seq<char>>> {
    csv_run(s, csv_initial())
}

pub open spec fn string_views(v: Seq<String>) -> Seq<Seq<char>> {
    v.map_values(|f: String| f@)
}

pub open spec fn record_views(v: Seq<Vec<String>>) -> Seq<Seq<Seq<char>>> {
    v.map_values(|r: Vec<String>| string_views(r@))
}

struct CsvReader {
    records: Vec<Vec<String>>,
    record: Vec<String>,
    field: Vec<char>,
    field_bytes: usize,
    in_quotes: bool,
    has_record_data: bool,
    record_invalid: bool,
}

impl CsvReader {
    spec fn state(&self) -> CsvState {
        CsvState {
            records: record_views(self.records@),
            record: string_views(self.record@),
            field: self.field@,
            in_quotes: self.in_quotes,
            has_record_data: self.has_record_data,
            record_invalid: self.record_invalid,
        }
    }

    spec fn wf(&self) -> bool {
        self.field_bytes as nat == utf8_len(self.field@) && self.field_bytes <= MAX_POWERSHELL_CSV_FIELD_BYTES
    }

    fn push_char(&mut self, ch: char)
        requires
            old(self).wf(),
        ensures
            final(self).wf(),
            final(self).state() == csv_push_char(old(self).state(), ch),
    {
        if self.record_invalid {
            return;
        }
        let u = ch as u32;
        let w: usize = if u < 0x80 {
            1
        } else if u < 0x800 {
            2
        } else if u < 0x10000 {
            3
        } else {
            4
        };
        if self.field_bytes + w > MAX_POWERSHELL_CSV_FIELD_BYTES {
            self.field = Vec::new();
            self.field_bytes = 0;
            self.record = Vec::new();
            self.record_invalid = true;
            proof {
                assert(string_views(self.record@) =~= Seq::<Seq<char>>::empty());
                assert(utf8_len(self.field@) == 0) by {
                    assert(self.field@ =~= Seq::<char>::empty());
                }
                assert(self.state() =~= csv_push_char(old(self).state(), ch));
            }
            return;
        }
        self.field.push(ch);
        self.field_bytes = self.field_bytes + w;
        proof {
            assert(self.field@.drop_last() =~= old(self).field@);
        }
    }

    fn finish_record(&mut self)
        requires
            old(self).wf(),
        ensures
            final(self).wf(),
            final(self).state() == csv_finish_record(old(self).state()),
    {
        if self.record_invalid {
            self.record = Vec::new();
            self.field = Vec::new();
            self.field_bytes = 0;
            self.has_record_data = false;
            self.record_invalid = false;
            proof {
                assert(string_views(self.record@) =~= Seq::<Seq<char>>::empty());
                assert(utf8_len(self.field@) == 0) by {
                    assert(self.field@ =~= Seq::<char>::empty());
                }
                assert(self.state() =~= csv_finish_record(old(self).state()));
            }
            return;
        }
        if !self.has_record_data && self.record.len() == 0 && self.field.len() == 0 {
            return;
        }
        let f = string_from_chars(&self.field);
        let ghost rec_before = self.record@;
        self.record.push(f);
        self.field = Vec::new();
        self.field_bytes = 0;
        proof {
            assert(string_views(self.record@) =~= string_views(rec_before).push(old(self).field@));
        }
        let ghost recs_before = self.records@;
        if self.records.len() < MAX_POWERSHELL_CSV_RECORDS + 1 {
            let mut rec: Vec<String> = Vec::new();
            std::mem::swap(&mut rec, &mut self.record);
            self.records.push(rec);
            proof {
                assert(record_views(self.records@) =~= record_views(recs_before).push(string_views(rec@)));
            }
        } else {
            self.record = Vec::new();
        }
        self.has_record_data = false;
        proof {
            assert(string_views(self.record@) =~= Seq::<Seq<char>>::empty());
            assert(utf8_len(self.field@) == 0) by {
                assert(self.field@ =~= Seq::<char>::empty());
            }
            assert(self.state() =~= csv_finish_record(old(self).state()));
        }
    }

    fn end_field(&mut self)
        requires
            old(self).wf(),
            !old(self).record_invalid,
        ensures
            final(self).wf(),
            final(self).state() == (CsvState {
                record: old(self).state().record.push(old(self).state().field),
                field: Seq::empty(),
                ..old(self).state()
            }),
    {
        let f = string_from_chars(&self.field);
        let ghost rec_before = self.record@;
        self.record.push(f);
        self.field = Vec::new();
        self.field_bytes = 0;
        proof {
            assert(string_views(self.record@) =~= string_views(rec_before).push(old(self).field@));
            assert(utf8_len(self.field@) == 0) by {
                assert(self.field@ =~= Seq::<char>::empty());
            }
        }
    }
}

pub proof fn lemma_csv_run_step(s: Seq<char>, st: CsvState)
    requires
        s.len() > 0,
        1 <= csv_step(s, st).0 <= s.len(),
    ensures
        csv_run(s, st) == csv_run(s.skip(csv_step(s, st).0), csv_step(s, st).1),
{
    reveal(csv_run);
}

pub proof fn lemma_csv_run_empty(s: Seq<char>, st: CsvState)
    requires
        s.len() == 0,
    ensures
        csv_run(s, st) == csv_finish_record(st).records,
{
    reveal(csv_run);
}

/// Splits CSV text into records of fields; quoted fields may hold commas,
/// line breaks and doubled quotes. Oversized fields drop their record, and at
/// most the header plus the record limit are kept.
pub fn parse_csv_records(input: &str) -> (records: Vec<Vec<String>>)
    ensures
        record_views(records@) == csv_records(input@),
{
    let v = chars_of(input);
    let mut rd = CsvReader {
        records: Vec::new(),
        record: Vec::new(),
        field: Vec::new(),
        field_bytes: 0,
        in_quotes: false,
        has_record_data: false,
        record_invalid: false,
    };
    proof {
        assert(utf8_len(rd.field@) == 0) by {
            assert(rd.field@ =~= Seq::<char>::empty());
        }
        assert(record_views(rd.records@) =~= Seq::<Seq<Seq<char>>>::empty());
        assert(string_views(rd.record@) =~= Seq::<Seq<char>>::empty());
        assert(rd.field@ =~= Seq::<char>::empty());
        assert(rd.state() == csv_initial());
        assert(v@.skip(0) =~= v@);
    }
    let mut i: usize = 0;
    while i < v.len()
        invariant
            i <= v.len(),
            v@ == input@,
            rd.wf(),
            csv_run(v@.skip(i as int), rd.state()) == csv_records(input@),
        decreases v.len() - i,
    {
        let ghost rest = v@.skip(i as int);
        let ghost st = rd.state();
        let ch = v[i];
        let has_next = i + 1 < v.len();
        let next_ch = if has_next { v[i + 1] } else { ' ' };
        proof {
            assert(rest[0] == ch);
            if has_next {
                assert(rest[1] == next_ch);
            }
        }
        let mut n: usize = 1;
        if rd.in_quotes {
            if ch == '"' && has_next && next_ch == '"' {
                rd.push_char('"');
                rd.has_record_data = true;
                n = 2;
            } else if ch == '"' {
                rd.in_quotes = false;
                rd.has_record_data = true;
            } else {
                rd.push_char(ch);
                rd.has_record_data = true;
            }
        } else if ch == '"' && rd.field.len() == 0 {
            rd.in_quotes = true;
            rd.has_record_data = true;
        } else if ch == ',' {
            if !rd.record_invalid {
                rd.end_field();
            }
            rd.has_record_data = true;
        } else if ch == '\r' {
            if has_next && next_ch == '\n' {
                n = 2;
            }
            rd.finish_record();
        } else if ch == '\n' {
            rd.finish_record();
        } else {
            rd.push_char(ch);
            rd.has_record_data = true;
        }
        proof {
            assert(csv_step(rest, st).0 == n);
            assert(rd.state() =~= csv_step(rest, st).1);
            lemma_csv_run_step(rest, st);
            assert(rest.skip(n as int) =~= v@.skip(i + n));
        }
        i = i + n;
    }
    proof {
        assert(v@.skip(i as int) =~= Seq::<char>::empty());
        lemma_csv_run_empty(v@.skip(i as int), rd.state());
    }
    rd.finish_record();
    rd.records
}


/// Index of the first header field equal to `name`.
pub open spec fn header_position(header: Seq<Seq<char>>, name: Seq<char>) -> Option<int>
    decreases header.len(),
{
    if header.len() == 0 {
        None
    } else {
        match header_position(header.drop_last(), name) {
            Some(i) => Some(i),
            None => if header.last() == name {
                Some(header.len() - 1)
            } else {
                None
            },
        }
    }
}

pub proof fn lemma_header_position_bound(header: Seq<Seq<char>>, name: Seq<char>)
    ensures
        header_position(header, name) matches Some(i) ==> 0 <= i < header.len(),
    decreases header.len(),
{
    if header.len() > 0 {
        lemma_header_position_bound(header.drop_last(), name);
    }
}

/// The snapshot that one PowerShell CSV record describes: a non-blank
/// command line, the pid when it parses, and the working set converted from
/// bytes to whole KiB when it parses.
pub open spec fn csv_snapshot(record: Seq<Seq<char>>, pid_i: int, cmd_i: int, ws_i: int) -> Option<SnapshotView> {
    if cmd_i >= record.len() || trim(record[cmd_i]).len() == 0 {
        None
    } else {
        Some(SnapshotView {
            pid: if pid_i < record.len() { parse_u32_spec(record[pid_i]) } else { None },
            cpu_usage: Seq::empty(),
            mem_usage: Seq::empty(),
            virtual_size: Seq::empty(),
            resident_set_size: if ws_i < record.len() && parse_u64_spec(record[ws_i]) is Some {
                decimal((parse_u64_spec(record[ws_i])->Some_0 / 1024) as nat)
            } else {
                Seq::empty()
            },
            command: record[cmd_i],
        })
    }
}

pub open spec fn csv_snapshots(records: Seq<Seq<Seq<char>>>, pid_i: int, cmd_i: int, ws_i: int) -> Seq<SnapshotView>
    decreases records.len(),
{
    if records.len() == 0 {
        Seq::empty()
    } else {
        let prev = csv_snapshots(records.drop_last(), pid_i, cmd_i, ws_i);
        match csv_snapshot(records.last(), pid_i, cmd_i, ws_i) {
            Some(r) => prev.push(r),
            None => prev,
        }
    }
}

/// The snapshots that CSV records with a header row describe; empty when
/// the header lacks a needed column.
pub open spec fn records_snapshots(rs: Seq<Seq<Seq<char>>>) -> Seq<SnapshotView> {
    if rs.len() == 0 {
        Seq::empty()
    } else {
        let h = rs[0];
        match (header_position(h, "ProcessId"@), header_position(h, "CommandLine"@), header_position(h, "WorkingSetSize"@)) {
            (Some(p), Some(c), Some(w)) => csv_snapshots(rs.skip(1), p, c, w),
            _ => Seq::empty(),
        }
    }
}

/// The snapshots that a `Get-CimInstance Win32_Process | ConvertTo-Csv`
/// output describes; empty when the text is too large.
pub open spec fn powershell_snapshots(s: Seq<char>) -> Seq<SnapshotView> {
    if utf8_len(s) > MAX_POWERSHELL_CSV_BYTES {
        Seq::empty()
    } else {
        records_snapshots(csv_records(s))
    }
}

fn header_index(header: &Vec<String>, name: &str) -> (r: Option<usize>)
    ensures
        match r {
            Some(k) => header_position(string_views(header@), name@) == Some(k as int),
            None => header_position(string_views(header@), name@) is None,
        },
{
    let ghost hv = string_views(header@);
    let nv = chars_of(name);
    let mut i: usize = 0;
    while i < header.len()
        invariant
            hv == string_views(header@),
            nv@ == name@,
            i <= header.len(),
            header_position(hv.take(i as int), name@) is None,
        decreases header.len() - i,
    {
        proof {
            assert(hv.take(i + 1).drop_last() =~= hv.take(i as int));
            assert(hv.take(i + 1).last() == header@[i as int]@);
        }
        if chars_eq(&chars_of(header[i].as_str()), &nv) {
            proof {
                lemma_header_position_prefix(hv, name@, i + 1);
            }
            return Some(i);
        }
        i = i + 1;
    }
    proof {
        assert(hv.take(header.len() as int) =~= hv);
    }
    None
}

pub proof fn lemma_header_position_prefix(h: Seq<Seq<char>>, name: Seq<char>, k: int)
    requires
        0 <= k <= h.len(),
        header_position(h.take(k), name) is Some,
    ensures
        header_position(h, name) == header_position(h.take(k), name),
    decreases h.len() - k,
{
    if k < h.len() {
        assert(h.drop_last().take(k) =~= h.take(k));
        lemma_header_position_prefix(h.drop_last(), name, k);
    } else {
        assert(h.take(k) =~= h);
    }
}

fn csv_snapshot_exec(record: &Vec<String>, pid_i: usize, cmd_i: usize, ws_i: usize) -> (r: Option<ProcessSnapshot>)
    ensures
        match csv_snapshot(string_views(record@), pid_i as int, cmd_i as int, ws_i as int) {
            Some(row) => r is Some && r->Some_0@ == row,
            None => r is None,
        },
{
    let ghost rv = string_views(record@);
    if cmd_i >= record.len() {
        return None;
    }
    let command = record[cmd_i].clone();
    let cv = chars_of(command.as_str());
    let (lo, hi) = trim_range(&cv, 0, cv.len());
    proof {
        assert(cv@.subrange(0, cv.len() as int) =~= cv@);
        assert(rv[cmd_i as int] == command@);
    }
    if lo == hi {
        return None;
    }
    let pid = if pid_i < record.len() {
        let pv = chars_of(record[pid_i].as_str());
        proof {
            assert(pv@.subrange(0, pv.len() as int) =~= pv@);
            assert(rv[pid_i as int] == record@[pid_i as int]@);
        }
        parse_u32_range(&pv, 0, pv.len())
    } else {
        None
    };
    let resident_set_size = if ws_i < record.len() {
        let wv = chars_of(record[ws_i].as_str());
        proof {
            assert(wv@.subrange(0, wv.len() as int) =~= wv@);
            assert(rv[ws_i as int] == record@[ws_i as int]@);
        }
        match parse_u64_range(&wv, 0, wv.len()) {
            Some(bytes) => string_from_chars(&u64_to_chars(bytes / 1024)),
            None => String::new(),
        }
    } else {
        String::new()
    };
    Some(ProcessSnapshot {
        pid,
        cpu_usage: String::new(),
        mem_usage: String::new(),
        virtual_size: String::new(),
        resident_set_size,
        command,
    })
}

fn csv_snapshot_rows(records: &Vec<Vec<String>>, p: usize, c: usize, w: usize) -> (rows: Vec<ProcessSnapshot>)
    requires
        records.len() >= 1,
    ensures
        snapshot_views(rows@) == csv_snapshots(record_views(records@).skip(1), p as int, c as int, w as int),
{
    let ghost rs = record_views(records@);
    let mut rows: Vec<ProcessSnapshot> = Vec::new();
    let mut k: usize = 1;
    proof {
        assert(rs.skip(1).take(0) =~= Seq::<Seq<Seq<char>>>::empty());
    }
    while k < records.len()
        invariant
            1 <= k <= records.len(),
            rs == record_views(records@),
            snapshot_views(rows@) == csv_snapshots(rs.skip(1).take(k - 1), p as int, c as int, w as int),
        decreases records.len() - k,
    {
        proof {
            let t = rs.skip(1).take(k as int);
            assert(t.drop_last() =~= rs.skip(1).take(k - 1));
            assert(t.last() == string_views(records@[k as int]@));
        }
        match csv_snapshot_exec(&records[k], p, c, w) {
            Some(row) => {
                let ghost before = rows@;
                rows.push(row);
                proof {
                    assert(snapshot_views(rows@) =~= snapshot_views(before).push(row@));
                }
            },
            None => {},
        }
        k = k + 1;
    }
    proof {
        assert(rs.skip(1).take(records.len() - 1) =~= rs.skip(1));
    }
    rows
}

fn snapshots_from_records(records: &Vec<Vec<String>>) -> (rows: Vec<ProcessSnapshot>)
    ensures
        snapshot_views(rows@) == records_snapshots(record_views(records@)),
{
    let empty: Vec<ProcessSnapshot> = Vec::new();
    proof {
        assert(snapshot_views(empty@) =~= Seq::<SnapshotView>::empty());
    }
    let ghost rs = record_views(records@);
    if records.len() == 0 {
        return empty;
    }
    proof {
        assert(rs[0] == string_views(records@[0]@));
        lemma_header_position_bound(rs[0], "ProcessId"@);
        lemma_header_position_bound(rs[0], "CommandLine"@);
        lemma_header_position_bound(rs[0], "WorkingSetSize"@);
    }
    let p = match header_index(&records[0], "ProcessId") {
        Some(p) => p,
        None => return empty,
    };
    let c = match header_index(&records[0], "CommandLine") {
        Some(c) => c,
        None => return empty,
    };
    let w = match header_index(&records[0], "WorkingSetSize") {
        Some(w) => w,
        None => return empty,
    };
    let rows = csv_snapshot_rows(records, p, c, w);
    proof {
        assert(records_snapshots(rs) == csv_snapshots(rs.skip(1), p as int, c as int, w as int));
    }
    rows
}

/// Parses `Get-CimInstance Win32_Process | Select-Object
/// ProcessId,CommandLine,WorkingSetSize | ConvertTo-Csv` output.
pub fn parse_powershell_process_csv(stdout: &str) -> (rows: Vec<ProcessSnapshot>)
    ensures
        snapshot_views(rows@) == powershell_snapshots(stdout@),
{
    let v = chars_of(stdout);
    proof {
        assert(v@.subrange(0, v.len() as int) =~= v@);
    }
    if utf8_len_range(&v, 0, v.len()) > MAX_POWERSHELL_CSV_BYTES {
        let empty: Vec<ProcessSnapshot> = Vec::new();
        proof {
            assert(snapshot_views(empty@) =~= Seq::<SnapshotView>::empty());
        }
        return empty;
    }
    let records = parse_csv_records(stdout);
    snapshots_from_records(&records)
}

} // verus!
