//! Checks on user-supplied paths before they are resolved under a trusted base.
//!
//! A relative path must be a plain list of `/`-separated names: no empty
//! names, no `.` or `..`, no backslashes and no control characters. An
//! absolute path must start with `/` and follow the same rules after it.
//! Opening, creating and removing the checked paths is the caller's I/O.
use vstd::prelude::*;
use crate::text::{chars_of, find_char, push_str, first_index_of, is_control, is_control_char, lemma_first_index_of,
    ranges_view, ranges_within, split_char, split_ranges, string_from_range, trim, trim_range};

verus! {

broadcast use vstd::string::group_string_axioms;

/// Why a path was refused.
pub struct FsPathError {
    reason: String,
}

pub open spec fn path_empty() -> Seq<char> { "path cannot be empty"@ }
pub open spec fn backslash_separators() -> Seq<char> { "backslash path separators are not allowed"@ }
pub open spec fn current_dir_component() -> Seq<char> { "current-directory components are not allowed"@ }
pub open spec fn parent_dir_component() -> Seq<char> { "parent-directory traversal is not allowed"@ }
pub open spec fn empty_component() -> Seq<char> { "path components cannot be empty"@ }
pub open spec fn reserved_component() -> Seq<char> { "reserved path component"@ }
pub open spec fn unsafe_characters() -> Seq<char> { "path contains unsafe characters"@ }
pub open spec fn not_absolute() -> Seq<char> { "directory path must be absolute"@ }

impl FsPathError {
    pub closed spec fn reason_spec(&self) -> Seq<char> {
        self.reason@
    }

    fn new(reason: &str) -> (e: Self)
        ensures
            e.reason_spec() == reason@,
    {
        FsPathError { reason: reason.to_string() }
    }

    /// Why the path was refused.
    pub fn reason(&self) -> (r: &str)
        ensures
            r@ == self.reason_spec(),
    {
        self.reason.as_str()
    }

    /// The error's display text: `invalid path: ` and the reason.
    pub fn message(&self) -> (m: String)
        ensures
            m@ == "invalid path: "@ + self.reason_spec(),
    {
        let mut m = "invalid path: ".to_string();
        push_str(&mut m, self.reason.as_str());
        m
    }
}

pub open spec fn unsafe_char(c: char) -> bool {
    c == '/' || c == '\\' || is_control(c)
}

/// What is wrong with one path name, if anything.
pub open spec fn component_problem(v: Seq<char>) -> Option<Seq<char>> {
    if trim(v).len() == 0 {
        Some(empty_component())
    } else if v == "."@ || v == ".."@ {
        Some(reserved_component())
    } else if exists|i: int| 0 <= i < v.len() && unsafe_char(#[trigger] v[i]) {
        Some(unsafe_characters())
    } else {
        None
    }
}

/// What is wrong with a raw relative path before it is split into names:
/// emptiness, a backslash, a `.` name, or an empty name.
pub open spec fn relative_text_problem(raw: Seq<char>) -> Option<Seq<char>> {
    let pieces = split_char(raw, '/');
    if raw.len() == 0 {
        Some(path_empty())
    } else if raw.contains('\\') {
        Some(backslash_separators())
    } else if exists|i: int| 0 <= i < pieces.len() && #[trigger] pieces[i] == "."@ {
        Some(current_dir_component())
    } else if exists|i: int| 0 <= i < pieces.len() && (#[trigger] pieces[i]).len() == 0 {
        Some(empty_component())
    } else {
        None
    }
}

/// The first problem among path names, taken in order: `..`, or what
/// `component_problem` finds.
pub open spec fn names_problem(names: Seq<Seq<char>>) -> Option<Seq<char>>
    decreases names.len(),
{
    if names.len() == 0 {
        None
    } else if names[0] == ".."@ {
        Some(parent_dir_component())
    } else {
        match component_problem(names[0]) {
            Some(e) => Some(e),
            None => names_problem(names.drop_first()),
        }
    }
}

/// The names of a relative path, or why it is refused.
pub open spec fn relative_components(raw: Seq<char>) -> Result<Seq<Seq<char>>, Seq<char>> {
    match relative_text_problem(raw) {
        Some(e) => Err(e),
        None => match names_problem(split_char(raw, '/')) {
            Some(e) => Err(e),
            None => Ok(split_char(raw, '/')),
        },
    }
}

/// The first problem among the raw pieces after the leading `/`: an empty
/// piece, `.`, or `..`.
pub open spec fn absolute_pieces_problem(pieces: Seq<Seq<char>>) -> Option<Seq<char>>
    decreases pieces.len(),
{
    if pieces.len() == 0 {
        None
    } else if pieces[0].len() == 0 {
        Some(empty_component())
    } else if pieces[0] == "."@ {
        Some(current_dir_component())
    } else if pieces[0] == ".."@ {
        Some(parent_dir_component())
    } else {
        absolute_pieces_problem(pieces.drop_first())
    }
}

/// The first name problem after the raw pieces passed.
pub open spec fn first_component_problem(names: Seq<Seq<char>>) -> Option<Seq<char>>
    decreases names.len(),
{
    if names.len() == 0 {
        None
    } else {
        match component_problem(names[0]) {
            Some(e) => Some(e),
            None => first_component_problem(names.drop_first()),
        }
    }
}

/// The names after the leading `/` of an absolute path, or why they are
/// refused.
pub open spec fn absolute_names(names: Seq<Seq<char>>) -> Result<Seq<Seq<char>>, Seq<char>> {
    match absolute_pieces_problem(names) {
        Some(e) => Err(e),
        None => match first_component_problem(names) {
            Some(e) => Err(e),
            None => if names.len() == 0 { Err(path_empty()) } else { Ok(names) },
        },
    }
}

/// The names of an absolute path, or why it is refused.
pub open spec fn absolute_components(raw: Seq<char>) -> Result<Seq<Seq<char>>, Seq<char>> {
    if raw.len() == 0 || raw[0] != '/' {
        Err(not_absolute())
    } else if raw.contains('\\') {
        Err(backslash_separators())
    } else {
        absolute_names(split_char(raw, '/').drop_first())
    }
}

pub open spec fn string_views(v: Seq<String>) -> Seq<Seq<char>> {
    v.map_values(|s: String| s@)
}

/// Checks one path name `v[lo..hi]`.
fn check_component(v: &Vec<char>, lo: usize, hi: usize) -> (r: Result<(), FsPathError>)
    requires
        lo <= hi <= v.len(),
    ensures
        match r {
            Ok(()) => component_problem(v@.subrange(lo as int, hi as int)) is None,
            Err(e) => component_problem(v@.subrange(lo as int, hi as int)) == Some(e.reason_spec()),
        },
{
    let ghost s = v@.subrange(lo as int, hi as int);
    proof {
        reveal_strlit(".");
        reveal_strlit("..");
    }
    let (a, b) = trim_range(v, lo, hi);
    if a == b {
        return Err(FsPathError::new("path components cannot be empty"));
    }
    let dot = hi - lo == 1 && v[lo] == '.';
    let dotdot = hi - lo == 2 && v[lo] == '.' && v[lo + 1] == '.';
    proof {
        if hi - lo == 1 && v@[lo as int] == '.' {
            assert(s =~= "."@);
        }
        if hi - lo == 2 && v@[lo as int] == '.' && v@[lo + 1] == '.' {
            assert(s =~= ".."@);
        }
        if s == "."@ {
            assert(s.len() == 1 && s[0] == v@[lo as int]);
        }
        if s == ".."@ {
            assert(s.len() == 2 && s[0] == v@[lo as int] && s[1] == v@[lo + 1]);
        }
    }
    if dot || dotdot {
        return Err(FsPathError::new("reserved path component"));
    }
    let mut i: usize = lo;
    while i < hi
        invariant
            lo <= i <= hi <= v.len(),
            s == v@.subrange(lo as int, hi as int),
            trim(s).len() != 0,
            s != "."@,
            s != ".."@,
            forall|j: int| 0 <= j < i - lo ==> !unsafe_char(#[trigger] s[j]),
        decreases hi - i,
    {
        let c = v[i];
        if c == '/' || c == '\\' || is_control_char(c) {
            assert(unsafe_char(s[i - lo]));
            return Err(FsPathError::new("path contains unsafe characters"));
        }
        i = i + 1;
    }
    Ok(())
}

/// Checks a path name.
pub fn validate_component(value: &str) -> (r: Result<(), FsPathError>)
    ensures
        match r {
            Ok(()) => component_problem(value@) is None,
            Err(e) => component_problem(value@) == Some(e.reason_spec()),
        },
{
    let v = chars_of(value);
    assert(v@.subrange(0, v.len() as int) =~= v@);
    check_component(&v, 0, v.len())
}

/// Whether some piece `v[r.0..r.1]` in `rs` equals `.`.
fn some_piece_is_dot(v: &Vec<char>, rs: &Vec<(usize, usize)>, hi: usize) -> (b: bool)
    requires
        ranges_within(rs@, 0, hi as int),
        hi <= v.len(),
    ensures
        b == exists|i: int| 0 <= i < rs@.len() && #[trigger] ranges_view(v@, rs@)[i] == "."@,
{
    proof {
        reveal_strlit(".");
    }
    let ghost pv = ranges_view(v@, rs@);
    let mut k: usize = 0;
    while k < rs.len()
        invariant
            k <= rs@.len(),
            pv == ranges_view(v@, rs@),
            ranges_within(rs@, 0, hi as int),
            hi <= v.len(),
            forall|j: int| 0 <= j < k ==> #[trigger] pv[j] != "."@,
        decreases rs.len() - k,
    {
        proof {
            reveal_strlit(".");
        }
        let (a, b) = rs[k];
        assert(0 <= rs@[k as int].0 <= rs@[k as int].1 <= hi);
        let is_dot = b - a == 1 && v[a] == '.';
        proof {
            let p = pv[k as int];
            assert(p == v@.subrange(a as int, b as int));
            if b - a == 1 && v@[a as int] == '.' {
                assert(p =~= "."@);
            }
            if p == "."@ {
                assert(p.len() == 1 && p[0] == v@[a as int]);
            }
        }
        if is_dot {
            return true;
        }
        k = k + 1;
    }
    false
}

/// Whether some piece in `rs` is empty.
fn some_piece_is_empty(rs: &Vec<(usize, usize)>, text: &Vec<char>) -> (b: bool)
    requires
        forall|i: int| 0 <= i < rs@.len() ==> #[trigger] rs@[i].0 <= rs@[i].1 <= text@.len(),
    ensures
        b == exists|i: int| 0 <= i < rs@.len() && (#[trigger] ranges_view(text@, rs@)[i]).len() == 0,
{
    let ghost v = text@;
    let ghost pv = ranges_view(v, rs@);
    let mut k: usize = 0;
    while k < rs.len()
        invariant
            k <= rs@.len(),
            pv == ranges_view(v, rs@),
            v == text@,
            forall|i: int| 0 <= i < rs@.len() ==> #[trigger] rs@[i].0 <= rs@[i].1 <= v.len(),
            forall|j: int| 0 <= j < k ==> (#[trigger] pv[j]).len() != 0,
        decreases rs.len() - k,
    {
        let (a, b) = rs[k];
        assert(rs@[k as int].0 <= rs@[k as int].1 <= v.len());
        assert(pv[k as int].len() == b - a);
        if a == b {
            assert(ranges_view(text@, rs@)[k as int].len() == 0);
            return true;
        }
        k = k + 1;
    }
    false
}

/// Splits a user-supplied relative path into its names, or says why it is
/// refused.
pub fn safe_relative_components(path: &str) -> (r: Result<Vec<String>, FsPathError>)
    ensures
        match r {
            Ok(parts) => relative_components(path@) == Ok::<Seq<Seq<char>>, Seq<char>>(string_views(parts@)),
            Err(e) => relative_components(path@) == Err::<Seq<Seq<char>>, Seq<char>>(e.reason_spec()),
        },
{
    proof {
        reveal_strlit("..");
    }
    let v = chars_of(path);
    let n = v.len();
    assert(v@.subrange(0, n as int) =~= v@);
    if n == 0 {
        return Err(FsPathError::new("path cannot be empty"));
    }
    proof { lemma_first_index_of(v@, '\\'); }
    if find_char(&v, 0, n, '\\').is_some() {
        return Err(FsPathError::new("backslash path separators are not allowed"));
    }
    let rs = split_ranges(&v, 0, n, '/');
    let ghost pieces = split_char(path@, '/');
    assert(ranges_view(v@, rs@) == pieces);
    if some_piece_is_dot(&v, &rs, n) {
        return Err(FsPathError::new("current-directory components are not allowed"));
    }
    if some_piece_is_empty(&rs, &v) {
        return Err(FsPathError::new("path components cannot be empty"));
    }
    assert(relative_text_problem(path@) is None);
    let mut parts: Vec<String> = Vec::new();
    let mut k: usize = 0;
    assert(pieces.skip(0) =~= pieces);
    while k < rs.len()
        invariant
            k <= rs@.len(),
            n == v.len(),
            v@ == path@,
            ranges_within(rs@, 0, n as int),
            ranges_view(v@, rs@) == pieces,
            pieces == split_char(path@, '/'),
            relative_text_problem(path@) is None,
            names_problem(pieces) == names_problem(pieces.skip(k as int)),
            string_views(parts@) == pieces.take(k as int),
        decreases rs.len() - k,
    {
        proof {
            reveal_strlit("..");
        }
        let (a, b) = rs[k];
        assert(0 <= rs@[k as int].0 <= rs@[k as int].1 <= n);
        let ghost p = pieces[k as int];
        assert(p == v@.subrange(a as int, b as int));
        assert(pieces.skip(k as int)[0] == p);
        assert(pieces.skip(k as int).drop_first() =~= pieces.skip(k + 1));
        let is_dotdot = b - a == 2 && v[a] == '.' && v[a + 1] == '.';
        proof {
            if b - a == 2 && v@[a as int] == '.' && v@[a + 1] == '.' {
                assert(p =~= ".."@);
            }
            if p == ".."@ {
                assert(p.len() == 2 && p[0] == v@[a as int] && p[1] == v@[a + 1]);
            }
        }
        if is_dotdot {
            return Err(FsPathError::new("parent-directory traversal is not allowed"));
        }
        match check_component(&v, a, b) {
            Err(e) => return Err(e),
            Ok(()) => {},
        }
        let ghost before = parts@;
        let s = string_from_range(&v, a, b);
        parts.push(s);
        proof {
            assert(string_views(parts@) =~= string_views(before).push(s@));
            assert(pieces.take(k + 1) =~= pieces.take(k as int).push(p));
        }
        k = k + 1;
    }
    assert(pieces.skip(rs@.len() as int) =~= Seq::<Seq<char>>::empty());
    assert(pieces.take(rs@.len() as int) =~= pieces);
    Ok(parts)
}

/// Splits a user-supplied absolute path into the names after its leading
/// `/`, or says why it is refused.
pub fn absolute_normal_components(path: &str) -> (r: Result<Vec<String>, FsPathError>)
    ensures
        match r {
            Ok(parts) => absolute_components(path@) == Ok::<Seq<Seq<char>>, Seq<char>>(string_views(parts@)),
            Err(e) => absolute_components(path@) == Err::<Seq<Seq<char>>, Seq<char>>(e.reason_spec()),
        },
{
    let v = chars_of(path);
    let n = v.len();
    assert(v@.subrange(0, n as int) =~= v@);
    if n == 0 || v[0] != '/' {
        return Err(FsPathError::new("directory path must be absolute"));
    }
    proof { lemma_first_index_of(v@, '\\'); }
    if find_char(&v, 0, n, '\\').is_some() {
        return Err(FsPathError::new("backslash path separators are not allowed"));
    }
    let rs = split_ranges(&v, 0, n, '/');
    proof {
        crate::text::lemma_split_char_nonempty(path@, '/');
    }
    let ghost pieces = split_char(path@, '/');
    let ghost names = pieces.drop_first();
    assert(ranges_view(v@, rs@) == pieces);
    assert(pieces.len() >= 1);
    let mut k: usize = 1;
    assert(names.skip(0) =~= names);
    while k < rs.len()
        invariant
            1 <= k <= rs@.len(),
            n == v.len(),
            v@ == path@,
            ranges_within(rs@, 0, n as int),
            ranges_view(v@, rs@) == pieces,
            names == pieces.drop_first(),
            absolute_components(path@) == absolute_names(names),
            absolute_pieces_problem(names) == absolute_pieces_problem(names.skip(k - 1)),
        decreases rs.len() - k,
    {
        proof {
            reveal_strlit(".");
            reveal_strlit("..");
        }
        let (a, b) = rs[k];
        assert(0 <= rs@[k as int].0 <= rs@[k as int].1 <= n);
        let ghost p = pieces[k as int];
        assert(p == v@.subrange(a as int, b as int));
        assert(names.skip(k - 1)[0] == p);
        assert(names.skip(k - 1).drop_first() =~= names.skip(k as int));
        if a == b {
            assert(absolute_pieces_problem(names) == Some(empty_component()));
            return Err(FsPathError::new("path components cannot be empty"));
        }
        let is_dot = b - a == 1 && v[a] == '.';
        let is_dotdot = b - a == 2 && v[a] == '.' && v[a + 1] == '.';
        proof {
            if b - a == 1 && v@[a as int] == '.' {
                assert(p =~= "."@);
            }
            if p == "."@ {
                assert(p.len() == 1 && p[0] == v@[a as int]);
            }
            if b - a == 2 && v@[a as int] == '.' && v@[a + 1] == '.' {
                assert(p =~= ".."@);
            }
            if p == ".."@ {
                assert(p.len() == 2 && p[0] == v@[a as int] && p[1] == v@[a + 1]);
            }
        }
        if is_dot {
            assert(absolute_pieces_problem(names) == Some(current_dir_component()));
            return Err(FsPathError::new("current-directory components are not allowed"));
        }
        if is_dotdot {
            return Err(FsPathError::new("parent-directory traversal is not allowed"));
        }
        k = k + 1;
    }
    assert(names.skip(rs@.len() - 1) =~= Seq::<Seq<char>>::empty());
    let mut parts: Vec<String> = Vec::new();
    let mut k: usize = 1;
    while k < rs.len()
        invariant
            1 <= k <= rs@.len(),
            n == v.len(),
            v@ == path@,
            ranges_within(rs@, 0, n as int),
            ranges_view(v@, rs@) == pieces,
            names == pieces.drop_first(),
            absolute_pieces_problem(names) is None,
            absolute_components(path@) == absolute_names(names),
            first_component_problem(names) == first_component_problem(names.skip(k - 1)),
            string_views(parts@) == names.take(k - 1),
        decreases rs.len() - k,
    {
        let (a, b) = rs[k];
        assert(0 <= rs@[k as int].0 <= rs@[k as int].1 <= n);
        let ghost p = pieces[k as int];
        assert(p == v@.subrange(a as int, b as int));
        assert(names.skip(k - 1)[0] == p);
        assert(names.skip(k - 1).drop_first() =~= names.skip(k as int));
        match check_component(&v, a, b) {
            Err(e) => {
                assert(first_component_problem(names) == Some(e.reason_spec()));
                return Err(e);
            },
            Ok(()) => {},
        }
        let ghost before = parts@;
        let s = string_from_range(&v, a, b);
        parts.push(s);
        proof {
            assert(string_views(parts@) =~= string_views(before).push(s@));
            assert(names.take(k as int) =~= names.take(k - 1).push(p));
        }
        k = k + 1;
    }
    assert(names.skip(rs@.len() - 1) =~= Seq::<Seq<char>>::empty());
    assert(names.take(rs@.len() - 1) =~= names);
    if parts.len() == 0 {
        return Err(FsPathError::new("path cannot be empty"));
    }
    Ok(parts)
}

/// Checks a user-supplied absolute path.
pub fn validate_absolute_path(path: &str) -> (r: Result<(), FsPathError>)
    ensures
        match r {
            Ok(()) => absolute_components(path@) is Ok,
            Err(e) => absolute_components(path@) == Err::<Seq<Seq<char>>, Seq<char>>(e.reason_spec()),
        },
{
    match absolute_normal_components(path) {
        Ok(_) => Ok(()),
        Err(e) => Err(e),
    }
}

/// A name that passed the checks: not blank, not `.` or `..`, and without
/// separators or control characters.
pub open spec fn safe_name(v: Seq<char>) -> bool {
    &&& trim(v).len() > 0
    &&& v != "."@
    &&& v != ".."@
    &&& forall|i: int| 0 <= i < v.len() ==> !unsafe_char(#[trigger] v[i])
}

proof fn lemma_names_problem_none(names: Seq<Seq<char>>)
    requires
        names_problem(names) is None,
    ensures
        forall|i: int| 0 <= i < names.len() ==> safe_name(#[trigger] names[i]),
    decreases names.len(),
{
    if names.len() > 0 {
        lemma_names_problem_none(names.drop_first());
        assert forall|i: int| 0 <= i < names.len() implies safe_name(#[trigger] names[i]) by {
            if i > 0 {
                assert(names[i] == names.drop_first()[i - 1]);
            }
        }
    }
}

/// Every name of an accepted relative path is a safe name, so joining the
/// names under a base directory cannot climb out of it.
pub proof fn lemma_relative_components_safe(raw: Seq<char>)
    ensures
        relative_components(raw) matches Ok(names) ==> names.len() > 0
            && forall|i: int| 0 <= i < names.len() ==> safe_name(#[trigger] names[i]),
{
    if relative_components(raw) is Ok {
        lemma_names_problem_none(split_char(raw, '/'));
        crate::text::lemma_split_char_nonempty(raw, '/');
    }
}

} // verus!
