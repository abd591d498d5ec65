//! The dedicated server's `dedicated_server_mods_setup.lua`: one
//! `ServerModSetup("<id>")` line per workshop mod that a level's
//! `modoverrides.lua` names.
use vstd::prelude::*;
use crate::text::{chars_of, find_char, find_from, find_seq, first_index_of, lemma_find_seq,
    lemma_first_index_of, line_ranges, lines, occurs_at, push_char, push_str, ranges_view,
    ranges_within, string_from_range, trim, trim_range};
use crate::validation::{mod_id_problem, validate_mod_id, ValidationError};
use crate::dst_config::{path_join, path_join_exec};

verus! {

broadcast use vstd::string::group_string_axioms;

pub open spec fn workshop_marker() -> Seq<char> {
    "\"workshop-"@
}

/// The text before the first `-`, as `str::split('-').next()`.
pub open spec fn before_dash(s: Seq<char>) -> Seq<char> {
    match first_index_of(s, '-') {
        Some(i) => s.take(i),
        None => s,
    }
}

/// The next workshop id quoted as `"workshop-<id>..."` in `s` from index
/// `from` on: the quoted name after the marker up to its first `-`,
/// trimmed, and the index after its closing quote.
#[verifier::opaque]
pub open spec fn ids_step(s: Seq<char>, from: int) -> Option<(Seq<char>, int)> {
    match find_seq(s.skip(from), workshop_marker()) {
        None => None,
        Some(st) => {
            let a = from + st + 10;
            match first_index_of(s.skip(a), '"') {
                None => None,
                Some(e) => Some((trim(before_dash(s.subrange(a, a + e))), a + e + 1)),
            }
        },
    }
}

/// The workshop ids quoted in `s` from index `from` on, in order; empty ids
/// are skipped.
#[verifier::opaque]
pub open spec fn ids_from(s: Seq<char>, from: int) -> Seq<Seq<char>>
    decreases s.len() - from,
{
    if from < 0 || from > s.len() {
        Seq::empty()
    } else {
        match ids_step(s, from) {
            None => Seq::empty(),
            Some((id, next)) => if from < next <= s.len() {
                let tail = ids_from(s, next);
                if id.len() > 0 { seq![id] + tail } else { tail }
            } else {
                Seq::empty()
            },
        }
    }
}

pub open spec fn texts(v: Seq<String>) -> Seq<Seq<char>> {
    v.map_values(|s: String| s@)
}

proof fn lemma_ids_from_unfold(s: Seq<char>, from: int)
    requires
        0 <= from <= s.len(),
    ensures
        ids_from(s, from) == match ids_step(s, from) {
            None => Seq::<Seq<char>>::empty(),
            Some((id, next)) => if from < next <= s.len() {
                if id.len() > 0 { seq![id] + ids_from(s, next) } else { ids_from(s, next) }
            } else {
                Seq::<Seq<char>>::empty()
            },
        },
{
    reveal(ids_from);
}

/// One step of the id scan from `pos`: the bounds of the next id (empty
/// when that quoted name yields none) and where the scan goes on, or `None`
/// when no further quoted workshop name follows.
#[verifier::rlimit(80)]
fn scan_one(v: &Vec<char>, pat: &Vec<char>, pos: usize) -> (r: Option<(usize, usize, usize)>)
    requires
        pos <= v.len(),
        pat@ == workshop_marker(),
        pat@.len() == 10,
    ensures
        match r {
            None => ids_step(v@, pos as int) is None,
            Some((t0, t1, next)) => pos < next <= v.len() && t0 <= t1 <= v.len()
                && ids_step(v@, pos as int) == Some((v@.subrange(t0 as int, t1 as int), next as int)),
        },
{
    let n = v.len();
    proof {
        lemma_find_seq(v@.skip(pos as int), pat@);
        reveal(ids_step);
    }
    let st = match find_from(v, pos, pat) {
        None => return None,
        Some(i) => i,
    };
    assert(occurs_at(v@.skip(pos as int), pat@, st - pos));
    let a = st + 10;
    assert(v@.subrange(a as int, n as int) =~= v@.skip(a as int));
    let e = match find_char(v, a, n, '"') {
        None => return None,
        Some(e) => e,
    };
    let ghost cand = v@.subrange(a as int, e as int);
    assert(v@.skip(a as int).take(e - a) =~= cand);
    let end_id = match find_char(v, a, e, '-') {
        Some(d) => d,
        None => e,
    };
    assert(before_dash(cand) == v@.subrange(a as int, end_id as int)) by {
        lemma_first_index_of(cand, '-');
        if end_id < e {
            assert(cand.take(end_id - a) =~= v@.subrange(a as int, end_id as int));
        }
    }
    let (t0, t1) = trim_range(v, a, end_id);
    Some((t0, t1, e + 1))
}

/// The workshop ids that `modoverrides.lua` text names, in order.
pub fn workshop_ids(mod_data: &str) -> (ids: Vec<String>)
    ensures
        texts(ids@) == ids_from(mod_data@, 0),
{
    let v = chars_of(mod_data);
    let pat = chars_of("\"workshop-");
    proof {
        reveal_strlit("\"workshop-");
    }
    let n = v.len();
    let mut ids: Vec<String> = Vec::new();
    let mut pos: usize = 0;
    assert(texts(ids@) + ids_from(v@, 0) =~= ids_from(v@, 0));
    loop
        invariant
            n == v.len(),
            v@ == mod_data@,
            pat@ == workshop_marker(),
            pat@.len() == 10,
            pos <= n,
            ids_from(v@, 0) == texts(ids@) + ids_from(v@, pos as int),
        ensures
            ids_from(v@, 0) == texts(ids@),
        decreases n - pos,
    {
        proof {
            lemma_ids_from_unfold(v@, pos as int);
        }
        match scan_one(&v, &pat, pos) {
            None => {
                assert(ids_from(v@, pos as int) == Seq::<Seq<char>>::empty());
                assert(texts(ids@) + Seq::<Seq<char>>::empty() =~= texts(ids@));
                break;
            },
            Some((t0, t1, next)) => {
                let ghost tail = ids_from(v@, next as int);
                assert(ids_from(v@, pos as int) == (if t0 < t1 { seq![v@.subrange(t0 as int, t1 as int)] } else { Seq::<Seq<char>>::empty() }) + tail) by {
                    if t0 >= t1 {
                        assert(Seq::<Seq<char>>::empty() + tail =~= tail);
                    }
                }
                let ghost before = ids@;
                if t0 < t1 {
                    let id = string_from_range(&v, t0, t1);
                    ids.push(id);
                    proof {
                        assert(texts(ids@) =~= texts(before).push(id@));
                        assert(texts(before) + (seq![id@] + tail) =~= texts(ids@) + tail);
                    }
                } else {
                    assert(Seq::<Seq<char>>::empty() + tail =~= tail);
                }
                pos = next;
            },
        }
    }
    ids
}

pub open spec fn setup_line(id: Seq<char>) -> Seq<char> {
    "ServerModSetup(\""@ + id + "\")"@
}

/// The first id that is not a valid mod id, if any.
pub open spec fn first_bad_id(ids: Seq<Seq<char>>) -> Option<int> {
    if exists|i: int| 0 <= i < ids.len() && (#[trigger] mod_id_problem(ids[i])) is Some {
        Some(choose|i: int| 0 <= i < ids.len() && (#[trigger] mod_id_problem(ids[i])) is Some
            && forall|j: int| 0 <= j < i ==> mod_id_problem(ids[j]) is None)
    } else {
        None
    }
}

proof fn lemma_first_bad(ids: Seq<Seq<char>>, i: int)
    requires
        0 <= i < ids.len(),
        mod_id_problem(ids[i]) is Some,
        forall|j: int| 0 <= j < i ==> mod_id_problem(#[trigger] ids[j]) is None,
    ensures
        first_bad_id(ids) == Some(i),
{
    assert(mod_id_problem(ids[i]) is Some);
    let c = choose|c: int| 0 <= c < ids.len() && (#[trigger] mod_id_problem(ids[c])) is Some
        && forall|j: int| 0 <= j < c ==> mod_id_problem(ids[j]) is None;
    if c < i {
        assert(mod_id_problem(ids[c]) is None);
    }
    if c > i {
        assert(mod_id_problem(ids[i]) is None);
    }
}

/// The `ServerModSetup` lines for the workshop mods `mod_data` names, or
/// the error of the first id that is not a valid mod id.
pub fn server_mod_setup_lines(mod_data: &str) -> (r: Result<Vec<String>, ValidationError>)
    ensures
        match first_bad_id(ids_from(mod_data@, 0)) {
            Some(i) => r matches Err(e) && e.field == "mod id" && Some(e.reason) == mod_id_problem(ids_from(mod_data@, 0)[i]),
            None => r matches Ok(ls) && texts(ls@) == ids_from(mod_data@, 0).map_values(|id: Seq<char>| setup_line(id)),
        },
{
    let ids = workshop_ids(mod_data);
    let ghost all = texts(ids@);
    let mut out: Vec<String> = Vec::new();
    let mut i: usize = 0;
    while i < ids.len()
        invariant
            i <= ids.len(),
            all == texts(ids@),
            all == ids_from(mod_data@, 0),
            forall|j: int| 0 <= j < i ==> mod_id_problem(#[trigger] all[j]) is None,
            texts(out@) == all.take(i as int).map_values(|id: Seq<char>| setup_line(id)),
        decreases ids.len() - i,
    {
        match validate_mod_id(ids[i].as_str()) {
            Err(e) => {
                proof {
                    lemma_first_bad(all, i as int);
                }
                return Err(e);
            },
            Ok(id) => {
                let mut line = "ServerModSetup(\"".to_string();
                push_str(&mut line, id.as_str());
                push_str(&mut line, "\")");
                let ghost before = out@;
                out.push(line);
                proof {
                    assert(texts(out@) =~= texts(before).push(setup_line(all[i as int])));
                    assert(all.take(i + 1) =~= all.take(i as int).push(all[i as int]));
                    assert(all.take(i + 1).map_values(|id: Seq<char>| setup_line(id))
                        =~= all.take(i as int).map_values(|id: Seq<char>| setup_line(id)).push(setup_line(all[i as int])));
                }
            },
        }
        i = i + 1;
    }
    assert(all.take(ids.len() as int) =~= all);
    assert(first_bad_id(all) is None);
    Ok(out)
}

/// Lines joined by newlines with one after the last; empty for no lines.
pub open spec fn file_of_lines(ls: Seq<Seq<char>>) -> Seq<char>
    decreases ls.len(),
{
    if ls.len() == 0 {
        Seq::empty()
    } else {
        file_of_lines(ls.drop_last()) + ls.last() + "\n"@
    }
}

/// The text of a file with these lines.
pub fn render_lines(ls: &Vec<String>) -> (s: String)
    ensures
        s@ == file_of_lines(texts(ls@)),
{
    let mut s = String::new();
    let mut i: usize = 0;
    while i < ls.len()
        invariant
            i <= ls.len(),
            s@ == file_of_lines(texts(ls@.take(i as int))),
        decreases ls.len() - i,
    {
        let ghost before = s@;
        push_str(&mut s, ls[i].as_str());
        push_char(&mut s, '\n');
        proof {
            reveal_strlit("\n");
            let t = texts(ls@.take(i + 1));
            assert(ls@.take(i + 1).drop_last() =~= ls@.take(i as int));
            assert(t.drop_last() =~= texts(ls@.take(i as int)));
            assert(s@ =~= before + ls@[i as int]@ + "\n"@);
        }
        i = i + 1;
    }
    assert(ls@.take(ls.len() as int) =~= ls@);
    s
}

/// The new file text for the mods `mod_data` names, or the error of the
/// first invalid id.
pub fn render_dedicated_server_mods_setup(mod_data: &str) -> (r: Result<String, ValidationError>)
    ensures
        match first_bad_id(ids_from(mod_data@, 0)) {
            Some(i) => r matches Err(e) && e.field == "mod id" && Some(e.reason) == mod_id_problem(ids_from(mod_data@, 0)[i]),
            None => r matches Ok(s) && s@ == file_of_lines(ids_from(mod_data@, 0).map_values(|id: Seq<char>| setup_line(id))),
        },
{
    match server_mod_setup_lines(mod_data) {
        Err(e) => Err(e),
        Ok(ls) => Ok(render_lines(&ls)),
    }
}

/// The trimmed, non-empty lines of an existing setup file.
pub open spec fn kept_lines(ls: Seq<Seq<char>>) -> Seq<Seq<char>>
    decreases ls.len(),
{
    if ls.len() == 0 {
        Seq::empty()
    } else if trim(ls.last()).len() == 0 {
        kept_lines(ls.drop_last())
    } else {
        kept_lines(ls.drop_last()).push(trim(ls.last()))
    }
}

/// The new lines that the existing ones lack, then the existing ones.
pub open spec fn merged_lines(new_lines: Seq<Seq<char>>, existing: Seq<Seq<char>>) -> Seq<Seq<char>> {
    new_lines.filter(|l: Seq<char>| !existing.contains(l)) + existing
}

/// Merges new setup lines into an existing file's text: new lines the file
/// lacks come first, then the file's own non-empty lines, trimmed.
pub fn merge_setup_contents(new_lines: &Vec<String>, existing: &str) -> (s: String)
    ensures
        s@ == file_of_lines(merged_lines(texts(new_lines@), kept_lines(lines(existing@)))),
{
    let v = chars_of(existing);
    let rs = line_ranges(&v);
    let ghost ls = lines(existing@);
    let mut kept: Vec<String> = Vec::new();
    let mut k: usize = 0;
    assert(ls.take(0) =~= Seq::<Seq<char>>::empty());
    while k < rs.len()
        invariant
            k <= rs.len(),
            v@ == existing@,
            ls == lines(existing@),
            ranges_within(rs@, 0, v.len() as int),
            ranges_view(v@, rs@) == ls,
            texts(kept@) == kept_lines(ls.take(k as int)),
        decreases rs.len() - k,
    {
        let (a, b) = rs[k];
        assert(0 <= rs@[k as int].0 <= rs@[k as int].1 <= v.len());
        assert(ls[k as int] == v@.subrange(a as int, b as int));
        assert(ls.take(k + 1).drop_last() =~= ls.take(k as int));
        let (t0, t1) = trim_range(&v, a, b);
        if t0 < t1 {
            let ghost before = kept@;
            let t = string_from_range(&v, t0, t1);
            kept.push(t);
            assert(texts(kept@) =~= texts(before).push(t@));
        }
        k = k + 1;
    }
    assert(ls.take(rs.len() as int) =~= ls);
    let ghost ex = texts(kept@);
    let ghost nl = texts(new_lines@);
    let mut merged: Vec<String> = Vec::new();
    let mut i: usize = 0;
    assert(nl.take(0).filter(|l: Seq<char>| !ex.contains(l)) =~= Seq::<Seq<char>>::empty());
    while i < new_lines.len()
        invariant
            i <= new_lines.len(),
            ex == texts(kept@),
            nl == texts(new_lines@),
            texts(merged@) == nl.take(i as int).filter(|l: Seq<char>| !ex.contains(l)),
        decreases new_lines.len() - i,
    {
        let line = &new_lines[i];
        let mut found = false;
        let mut j: usize = 0;
        while j < kept.len()
            invariant
                j <= kept.len(),
                ex == texts(kept@),
                found == exists|q: int| 0 <= q < j && ex[q] == line@,
            decreases kept.len() - j,
        {
            let x = chars_of(kept[j].as_str());
            let y = chars_of(line.as_str());
            if crate::text::chars_eq(&x, &y) {
                assert(ex[j as int] == line@);
                found = true;
            }
            j = j + 1;
        }
        proof {
            assert(found == ex.contains(line@));
            assert(nl.take(i + 1).drop_last() =~= nl.take(i as int));
            assert(nl[i as int] == line@);
            reveal(Seq::filter);
            assert(nl.take(i + 1).last() == line@);
        }
        if !found {
            let ghost before = merged@;
            merged.push(line.clone());
            assert(texts(merged@) =~= texts(before).push(line@));
        }
        i = i + 1;
    }
    assert(nl.take(new_lines.len() as int) =~= nl);
    let mut j: usize = 0;
    let ghost head = texts(merged@);
    while j < kept.len()
        invariant
            j <= kept.len(),
            ex == texts(kept@),
            texts(merged@) == head + ex.take(j as int),
        decreases kept.len() - j,
    {
        let ghost before = merged@;
        merged.push(kept[j].clone());
        assert(texts(merged@) =~= texts(before).push(ex[j as int]));
        assert(ex.take(j + 1) =~= ex.take(j as int).push(ex[j as int]));
        j = j + 1;
    }
    assert(ex.take(kept.len() as int) =~= ex);
    render_lines(&merged)
}

/// The directory the setup file lives in: `mods` under the install
/// directory, or under the install directory with `-beta` appended on the
/// beta branch.
pub open spec fn mods_dir_spec(force_install_dir: Seq<char>, beta: i64) -> Seq<char> {
    let install = if beta == 1 { force_install_dir + "-beta"@ } else { force_install_dir };
    path_join(install, "mods"@)
}

pub fn mods_dir_for_config(force_install_dir: &str, beta: i64) -> (p: String)
    ensures
        p@ == mods_dir_spec(force_install_dir@, beta),
{
    let mut install = force_install_dir.to_string();
    if beta == 1 {
        push_str(&mut install, "-beta");
    }
    path_join_exec(install.as_str(), "mods")
}

/// The setup file after merging the mods of `mod_data` into the existing
/// file (`None` when there is none): nothing is written (`Ok(None)`) when
/// `mod_data` is empty; a bad mod id fails; otherwise the merged text.
pub fn merged_setup_file(mod_data: &str, existing: Option<&str>) -> (r: Result<Option<String>, ValidationError>)
    ensures
        mod_data@.len() == 0 ==> r == Ok::<Option<String>, ValidationError>(None),
        mod_data@.len() > 0 ==> match first_bad_id(ids_from(mod_data@, 0)) {
            Some(i) => r matches Err(e) && e.field == "mod id" && Some(e.reason) == mod_id_problem(ids_from(mod_data@, 0)[i]),
            None => r matches Ok(Some(f)) && f@ == file_of_lines(
                merged_lines(
                    ids_from(mod_data@, 0).map_values(|id: Seq<char>| setup_line(id)),
                    kept_lines(lines(match existing {
                        Some(e) => e@,
                        None => Seq::<char>::empty(),
                    })),
                ),
            ),
        },
{
    if mod_data.is_empty() {
        return Ok(None);
    }
    let new_lines = match server_mod_setup_lines(mod_data) {
        Ok(ls) => ls,
        Err(e) => return Err(e),
    };
    let text = match existing {
        Some(e) => e,
        None => "",
    };
    proof {
        reveal_strlit("");
    }
    Ok(Some(merge_setup_contents(&new_lines, text)))
}

} // verus!
