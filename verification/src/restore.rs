//! Checks on an uploaded cluster backup before it is restored: the zip end
//! record, the entry paths, and the plan of files to extract; then the steps
//! that put the restored cluster in place, and the hidden names used on the way.
//!
//! The archive is read by the application; this module sees each entry as
//! plain values (its name, whether it is a directory or a symlink, its
//! declared size) and decides what is extracted where, or why not.
use vstd::prelude::*;
use crate::text::{chars_eq, chars_of, ranges_view, ranges_within, split_char, split_ranges, string_from_range,
    sub_chars};
use crate::validation::{path_atom_check, path_atom_problem, validate_backup_archive_name, ValidationError, ValidationReason};
use crate::text::{ends_with, push_chars, push_str};
use crate::numbers::{decimal, i64_to_chars, signed_decimal, u64_to_chars};

verus! {

broadcast use vstd::string::group_string_axioms;

/// Most entries a backup zip may have.
pub const MAX_RESTORE_ENTRIES: usize = 10000;
/// Most bytes the files of a backup may hold once extracted.
pub const MAX_RESTORE_UNCOMPRESSED_BYTES: u64 = 134217728;
/// Length of a zip end-of-central-directory record without its comment.
pub const ZIP_EOCD_MIN_LEN: usize = 22;
/// Longest comment a zip end record can declare.
pub const ZIP_MAX_COMMENT_LEN: usize = 65535;

/// Why a backup cannot be restored.
#[derive(Debug, PartialEq, Eq, Structural)]
pub enum RestoreError {
    InvalidZip,
    TooManyEntries,
    UnsafePath,
    Symlink,
    InvalidName(ValidationReason),
    EmptyPath,
    MissingClusterIni,
    EscapesClusterRoot,
    DuplicatePath,
    TooLarge,
}

impl RestoreError {
    pub open spec fn message_spec(&self) -> Seq<char> {
        match self {
            RestoreError::InvalidZip => "invalid backup zip"@,
            RestoreError::TooManyEntries => "backup zip contains too many entries"@,
            RestoreError::UnsafePath => "backup zip contains unsafe path"@,
            RestoreError::Symlink => "backup zip contains symlink"@,
            RestoreError::InvalidName(r) => "invalid filename: "@ + r.text_spec(),
            RestoreError::EmptyPath => "backup zip path cannot be empty"@,
            RestoreError::MissingClusterIni => "backup zip missing cluster.ini"@,
            RestoreError::EscapesClusterRoot => "backup zip entry escapes cluster root"@,
            RestoreError::DuplicatePath => "backup zip contains duplicate path"@,
            RestoreError::TooLarge => "backup zip uncompressed data is too large"@,
        }
    }

    /// Whether the error answers "payload too large" rather than "bad request".
    pub open spec fn too_large_spec(&self) -> bool {
        self is TooManyEntries || self is TooLarge
    }

    /// The error's display text.
    pub fn message(&self) -> (m: String)
        ensures
            m@ == self.message_spec(),
    {
        match self {
            RestoreError::InvalidZip => "invalid backup zip".to_string(),
            RestoreError::TooManyEntries => "backup zip contains too many entries".to_string(),
            RestoreError::UnsafePath => "backup zip contains unsafe path".to_string(),
            RestoreError::Symlink => "backup zip contains symlink".to_string(),
            RestoreError::InvalidName(r) => {
                let mut m = "invalid filename: ".to_string();
                crate::text::push_str(&mut m, r.text());
                m
            },
            RestoreError::EmptyPath => "backup zip path cannot be empty".to_string(),
            RestoreError::MissingClusterIni => "backup zip missing cluster.ini".to_string(),
            RestoreError::EscapesClusterRoot => "backup zip entry escapes cluster root".to_string(),
            RestoreError::DuplicatePath => "backup zip contains duplicate path".to_string(),
            RestoreError::TooLarge => "backup zip uncompressed data is too large".to_string(),
        }
    }

    /// Whether the error answers "payload too large" rather than "bad request".
    pub fn too_large(&self) -> (b: bool)
        ensures
            b == self.too_large_spec(),
    {
        match self {
            RestoreError::TooManyEntries | RestoreError::TooLarge => true,
            _ => false,
        }
    }
}

/// A little-endian `u16` at `at`.
pub open spec fn le_u16(b: Seq<u8>, at: int) -> int {
    b[at] as int + 256 * (b[at + 1] as int)
}

/// Whether an end record starts at `at` of the tail: its signature, and a
/// comment that reaches exactly to the end of the tail.
pub open spec fn eocd_at(tail: Seq<u8>, at: int) -> bool {
    &&& 0 <= at && at + 22 <= tail.len()
    &&& tail[at] == 0x50u8 && tail[at + 1] == 0x4bu8 && tail[at + 2] == 0x05u8 && tail[at + 3] == 0x06u8
    &&& at + 22 + le_u16(tail, at + 20) == tail.len()
}

/// The entry count an end record at `at` declares: the larger of its two counts.
pub open spec fn eocd_entries(tail: Seq<u8>, at: int) -> int {
    let a = le_u16(tail, at + 8);
    let b = le_u16(tail, at + 10);
    if a >= b { a } else { b }
}

/// The verdict on the last bytes of a zip file: the last end record decides;
/// none at all makes the file invalid.
pub open spec fn eocd_verdict(tail: Seq<u8>) -> Result<(), RestoreError> {
    if exists|at: int| eocd_at(tail, at) {
        let at = choose|at: int| eocd_at(tail, at) && forall|j: int| at < j ==> !eocd_at(tail, j);
        if eocd_entries(tail, at) > MAX_RESTORE_ENTRIES { Err(RestoreError::TooManyEntries) } else { Ok(()) }
    } else {
        Err(RestoreError::InvalidZip)
    }
}

/// How many bytes at the end of a zip file of `file_len` bytes hold its end
/// record: at most a record and the longest comment. `None` when the file is
/// too short to hold one.
pub fn eocd_search_len(file_len: u64) -> (n: Option<usize>)
    ensures
        file_len < ZIP_EOCD_MIN_LEN ==> n is None,
        file_len >= ZIP_EOCD_MIN_LEN ==> n == Some(
            if file_len < ZIP_EOCD_MIN_LEN + ZIP_MAX_COMMENT_LEN { file_len as usize } else { (ZIP_EOCD_MIN_LEN + ZIP_MAX_COMMENT_LEN) as usize }),
{
    if file_len < 22 {
        None
    } else if file_len < 65557 {
        Some(file_len as usize)
    } else {
        Some(65557)
    }
}

/// Where the last end record of the tail starts, if it has one.
fn last_eocd(tail: &[u8]) -> (r: Option<usize>)
    ensures
        match r {
            Some(at) => eocd_at(tail@, at as int) && forall|j: int| (at as int) < j ==> !#[trigger] eocd_at(tail@, j),
            None => forall|j: int| !#[trigger] eocd_at(tail@, j),
        },
{
    if tail.len() < 22 {
        return None;
    }
    let mut k: usize = tail.len() - 21;
    while k > 0
        invariant
            k <= tail@.len() - 21,
            tail@.len() >= 22,
            forall|j: int| k <= j ==> !#[trigger] eocd_at(tail@, j),
        decreases k,
    {
        k = k - 1;
        if tail[k] == 0x50 && tail[k + 1] == 0x4b && tail[k + 2] == 0x05 && tail[k + 3] == 0x06 {
            let comment_len = tail[k + 20] as usize + 256 * (tail[k + 21] as usize);
            if comment_len == tail.len() - k - 22 {
                return Some(k);
            }
        }
    }
    None
}

/// Checks the end record among the last bytes of an uploaded zip before the
/// archive is opened: the file must have one, and it must not declare more
/// than `MAX_RESTORE_ENTRIES` entries.
pub fn preflight_eocd(tail: &[u8]) -> (r: Result<(), RestoreError>)
    ensures
        r == eocd_verdict(tail@),
{
    match last_eocd(tail) {
        None => Err(RestoreError::InvalidZip),
        Some(at) => {
            assert(eocd_at(tail@, at as int));
            let n = tail.len();
            assert(at + 22 <= n);
            let on_disk = tail[at + 8] as usize + 256 * (tail[at + 9] as usize);
            let total = tail[at + 10] as usize + 256 * (tail[at + 11] as usize);
            let declared = if on_disk >= total { on_disk } else { total };
            proof {
                let c = choose|c: int| eocd_at(tail@, c) && forall|j: int| c < j ==> !eocd_at(tail@, j);
                assert(eocd_at(tail@, c));
                if c < at as int {
                    assert(!eocd_at(tail@, at as int));
                }
                if c > at as int {
                    assert(!eocd_at(tail@, c));
                }
                assert(c == at as int);
            }
            if declared > 10000 {
                Err(RestoreError::TooManyEntries)
            } else {
                Ok(())
            }
        },
    }
}

/// The names that the pieces of a zip entry path contribute, in order, as
/// `Path::components` reads them: empty and `.` pieces drop out, `..` is
/// refused, and each name must be a safe file name.
pub open spec fn zip_normals(ps: Seq<Seq<char>>) -> Result<Seq<Seq<char>>, RestoreError>
    decreases ps.len(),
{
    if ps.len() == 0 {
        Ok(Seq::empty())
    } else {
        let p = ps[0];
        if p.len() == 0 || p == "."@ {
            zip_normals(ps.drop_first())
        } else if p == ".."@ {
            Err(RestoreError::UnsafePath)
        } else {
            match path_atom_problem(p) {
                Some(r) => Err(RestoreError::InvalidName(r)),
                None => match zip_normals(ps.drop_first()) {
                    Ok(t) => Ok(seq![p] + t),
                    Err(e) => Err(e),
                },
            }
        }
    }
}

/// The names of a zip entry path, or why it is refused: a leading `/` or
/// `.` is unsafe, and a path without names is empty.
pub open spec fn zip_components(name: Seq<char>) -> Result<Seq<Seq<char>>, RestoreError> {
    let ps = split_char(name, '/');
    if name.len() > 0 && name[0] == '/' {
        Err(RestoreError::UnsafePath)
    } else if ps[0] == "."@ {
        Err(RestoreError::UnsafePath)
    } else {
        match zip_normals(ps) {
            Ok(cs) => if cs.len() == 0 { Err(RestoreError::EmptyPath) } else { Ok(cs) },
            Err(e) => Err(e),
        }
    }
}

pub open spec fn prepend_names(pre: Seq<Seq<char>>, r: Result<Seq<Seq<char>>, RestoreError>) -> Result<Seq<Seq<char>>, RestoreError> {
    match r {
        Ok(t) => Ok(pre + t),
        Err(e) => Err(e),
    }
}

pub open spec fn names_of(v: Seq<String>) -> Seq<Seq<char>> {
    v.map_values(|s: String| s@)
}

fn piece_is(v: &Vec<char>, a: usize, b: usize, dots: usize) -> (r: bool)
    requires
        a <= b <= v.len(),
        1 <= dots <= 2,
    ensures
        r == (dots == 1 && v@.subrange(a as int, b as int) == "."@ || dots == 2 && v@.subrange(a as int, b as int) == ".."@),
{
    proof {
        reveal_strlit(".");
        reveal_strlit("..");
    }
    let ghost p = v@.subrange(a as int, b as int);
    let r = b - a == dots && v[a] == '.' && (dots == 1 || v[a + 1] == '.');
    assert("."@.len() == 1);
    proof {
        if r {
            if dots == 1 { assert(p =~= "."@); } else { assert(p =~= ".."@); }
        }
        if dots == 1 && p == "."@ {
            assert(p.len() == 1);
            assert(p[0] == v@[a as int]);
        }
        assert(".."@.len() == 2);
        if dots == 2 && p == ".."@ {
            assert(p.len() == 2);
            assert(p[0] == v@[a as int]);
            assert(p[1] == v@[a + 1]);
        }
    }
    r
}

/// The names of a zip entry path, or why it is refused.
pub fn safe_zip_components(name: &str) -> (r: Result<Vec<String>, RestoreError>)
    ensures
        match r {
            Ok(cs) => zip_components(name@) == Ok::<Seq<Seq<char>>, RestoreError>(names_of(cs@)),
            Err(e) => zip_components(name@) == Err::<Seq<Seq<char>>, RestoreError>(e),
        },
{
    let v = chars_of(name);
    let n = v.len();
    assert(v@.subrange(0, n as int) =~= v@);
    if n > 0 && v[0] == '/' {
        return Err(RestoreError::UnsafePath);
    }
    let rs = split_ranges(&v, 0, n, '/');
    let ghost ps = split_char(name@, '/');
    proof {
        crate::text::lemma_split_char_nonempty(name@, '/');
    }
    assert(ranges_view(v@, rs@) == ps);
    let (a0, b0) = rs[0];
    assert(0 <= rs@[0].0 <= rs@[0].1 <= n);
    assert(ps[0] == v@.subrange(a0 as int, b0 as int));
    if piece_is(&v, a0, b0, 1) {
        return Err(RestoreError::UnsafePath);
    }
    let mut out: Vec<String> = Vec::new();
    let mut k: usize = 0;
    assert(ps.skip(0) =~= ps);
    proof {
        match zip_normals(ps) {
            Ok(t) => { assert(Seq::<Seq<char>>::empty() + t =~= t); },
            Err(e) => {},
        }
    }
    assert(names_of(out@) =~= Seq::<Seq<char>>::empty());
    assert(prepend_names(Seq::empty(), zip_normals(ps)) == zip_normals(ps));
    while k < rs.len()
        invariant
            k <= rs@.len(),
            n == v.len(),
            v@ == name@,
            ranges_within(rs@, 0, n as int),
            ranges_view(v@, rs@) == ps,
            ps == split_char(name@, '/'),
            !(name@.len() > 0 && name@[0] == '/'),
            ps[0] != "."@,
            zip_normals(ps) == prepend_names(names_of(out@), zip_normals(ps.skip(k as int))),
        decreases rs.len() - k,
    {
        let (a, b) = rs[k];
        assert(0 <= rs@[k as int].0 <= rs@[k as int].1 <= n);
        let ghost p = ps[k as int];
        assert(p == v@.subrange(a as int, b as int));
        assert(ps.skip(k as int)[0] == p);
        assert(ps.skip(k as int).drop_first() =~= ps.skip(k + 1));
        if a == b || piece_is(&v, a, b, 1) {
            k = k + 1;
            continue;
        }
        if piece_is(&v, a, b, 2) {
            return Err(RestoreError::UnsafePath);
        }
        let piece = sub_chars(&v, a, b);
        assert(piece@ == p);
        match path_atom_check(&piece) {
            Some(reason) => return Err(RestoreError::InvalidName(reason)),
            None => {},
        }
        let ghost before = out@;
        let s = string_from_range(&v, a, b);
        out.push(s);
        proof {
            assert(names_of(out@) =~= names_of(before).push(p));
            match zip_normals(ps.skip(k + 1)) {
                Ok(t) => {
                    assert(names_of(before) + (seq![p] + t) =~= names_of(before).push(p) + t);
                },
                Err(e) => {},
            }
        }
        k = k + 1;
    }
    assert(ps.skip(rs@.len() as int) =~= Seq::<Seq<char>>::empty());
    assert(names_of(out@) + Seq::<Seq<char>>::empty() =~= names_of(out@));
    if out.len() == 0 {
        return Err(RestoreError::EmptyPath);
    }
    Ok(out)
}

/// What the application read of one zip entry.
pub struct ZipEntryInfo {
    /// The entry's stored name.
    pub name: String,
    /// Whether the zip library found the name to stay inside the archive root.
    pub enclosed: bool,
    pub is_symlink: bool,
    pub is_dir: bool,
    /// Declared uncompressed size.
    pub size: u64,
}

/// One entry to extract: its index in the archive, its path below the
/// cluster directory, and what it is.
pub struct RestoreEntry {
    pub index: usize,
    pub relative: Vec<String>,
    pub is_dir: bool,
    pub size: u64,
}

/// The directory names above the first `cluster.ini`: the first entry whose
/// path ends in `cluster.ini` decides, and a refused path met before it
/// refuses the archive.
pub open spec fn cluster_prefix(es: Seq<ZipEntryInfo>) -> Result<Seq<Seq<char>>, RestoreError>
    decreases es.len(),
{
    if es.len() == 0 {
        Err(RestoreError::MissingClusterIni)
    } else {
        match zip_components(es[0].name@) {
            Err(e) => Err(e),
            Ok(cs) => if cs.last() == "cluster.ini"@ {
                Ok(cs.drop_last())
            } else {
                cluster_prefix(es.drop_first())
            },
        }
    }
}

/// The path of an entry below the cluster directory: `None` for the cluster
/// directory itself; refused when it is unsafe, a symlink, or outside the
/// cluster directory.
pub open spec fn entry_relative(e: ZipEntryInfo, prefix: Seq<Seq<char>>) -> Result<Option<Seq<Seq<char>>>, RestoreError> {
    if !e.enclosed {
        Err(RestoreError::UnsafePath)
    } else if e.is_symlink {
        Err(RestoreError::Symlink)
    } else {
        match zip_components(e.name@) {
            Err(x) => Err(x),
            Ok(cs) => if cs.len() < prefix.len() || cs.take(prefix.len() as int) != prefix {
                Err(RestoreError::EscapesClusterRoot)
            } else if cs.len() == prefix.len() {
                Ok(None)
            } else {
                Ok(Some(cs.skip(prefix.len() as int)))
            },
        }
    }
}

/// The plan after the first `k` entries, with the bytes its files hold:
/// a path may appear once, and the files may hold at most
/// `MAX_RESTORE_UNCOMPRESSED_BYTES`.
pub open spec fn plan_upto(es: Seq<ZipEntryInfo>, prefix: Seq<Seq<char>>, k: nat)
    -> Result<(Seq<(int, Seq<Seq<char>>, bool, u64)>, int), RestoreError>
    decreases k,
{
    if k == 0 || k > es.len() {
        Ok((Seq::empty(), 0))
    } else {
        match plan_upto(es, prefix, (k - 1) as nat) {
            Err(e) => Err(e),
            Ok((items, total)) => {
                let e = es[k - 1];
                match entry_relative(e, prefix) {
                    Err(x) => Err(x),
                    Ok(None) => Ok((items, total)),
                    Ok(Some(rel)) => if exists|j: int| 0 <= j < items.len() && (#[trigger] items[j]).1 == rel {
                        Err(RestoreError::DuplicatePath)
                    } else if !e.is_dir && total + e.size > MAX_RESTORE_UNCOMPRESSED_BYTES {
                        Err(RestoreError::TooLarge)
                    } else {
                        Ok((items.push((k - 1, rel, e.is_dir, e.size)), if e.is_dir { total } else { total + e.size }))
                    },
                }
            },
        }
    }
}

/// The extraction plan of a backup archive, or why it is refused.
pub open spec fn restore_plan_spec(es: Seq<ZipEntryInfo>) -> Result<Seq<(int, Seq<Seq<char>>, bool, u64)>, RestoreError> {
    if es.len() > MAX_RESTORE_ENTRIES {
        Err(RestoreError::TooManyEntries)
    } else {
        match cluster_prefix(es) {
            Err(e) => Err(e),
            Ok(p) => match plan_upto(es, p, es.len()) {
                Err(e) => Err(e),
                Ok((items, _)) => Ok(items),
            },
        }
    }
}

pub open spec fn plan_view(v: Seq<RestoreEntry>) -> Seq<(int, Seq<Seq<char>>, bool, u64)> {
    v.map_values(|x: RestoreEntry| (x.index as int, names_of(x.relative@), x.is_dir, x.size))
}

fn last_is_cluster_ini(cs: &Vec<String>) -> (b: bool)
    requires
        cs.len() > 0,
    ensures
        b == (names_of(cs@).last() == "cluster.ini"@),
{
    let a = chars_of(cs[cs.len() - 1].as_str());
    let b = chars_of("cluster.ini");
    chars_eq(&a, &b)
}

fn find_cluster_prefix(entries: &Vec<ZipEntryInfo>) -> (r: Result<Vec<String>, RestoreError>)
    ensures
        match r {
            Ok(p) => cluster_prefix(entries@) == Ok::<Seq<Seq<char>>, RestoreError>(names_of(p@)),
            Err(e) => cluster_prefix(entries@) == Err::<Seq<Seq<char>>, RestoreError>(e),
        },
{
    let mut k: usize = 0;
    assert(entries@.skip(0) =~= entries@);
    while k < entries.len()
        invariant
            k <= entries.len(),
            cluster_prefix(entries@) == cluster_prefix(entries@.skip(k as int)),
        decreases entries.len() - k,
    {
        assert(entries@.skip(k as int)[0] == entries@[k as int]);
        assert(entries@.skip(k as int).drop_first() =~= entries@.skip(k + 1));
        let mut cs = match safe_zip_components(entries[k].name.as_str()) {
            Ok(cs) => cs,
            Err(e) => return Err(e),
        };
        if last_is_cluster_ini(&cs) {
            let ghost all = cs@;
            cs.pop();
            assert(names_of(cs@) =~= names_of(all).drop_last());
            return Ok(cs);
        }
        k = k + 1;
    }
    Err(RestoreError::MissingClusterIni)
}

/// Whether `a` and `b` hold the same names.
fn same_names(a: &Vec<String>, b: &Vec<String>) -> (r: bool)
    ensures
        r == (names_of(a@) == names_of(b@)),
{
    if a.len() != b.len() {
        assert(names_of(a@).len() != names_of(b@).len());
        return false;
    }
    let mut i: usize = 0;
    while i < a.len()
        invariant
            a.len() == b.len(),
            i <= a.len(),
            forall|j: int| 0 <= j < i ==> a@[j]@ == b@[j]@,
        decreases a.len() - i,
    {
        let x = chars_of(a[i].as_str());
        let y = chars_of(b[i].as_str());
        if !chars_eq(&x, &y) {
            assert(names_of(a@)[i as int] != names_of(b@)[i as int]);
            return false;
        }
        i = i + 1;
    }
    assert(names_of(a@) =~= names_of(b@));
    true
}

/// The path of entry `e` below the cluster directory, or why it is refused.
fn entry_relative_exec(e: &ZipEntryInfo, prefix: &Vec<String>) -> (r: Result<Option<Vec<String>>, RestoreError>)
    ensures
        match r {
            Ok(Some(rel)) => entry_relative(*e, names_of(prefix@)) == Ok::<Option<Seq<Seq<char>>>, RestoreError>(Some(names_of(rel@))),
            Ok(None) => entry_relative(*e, names_of(prefix@)) == Ok::<Option<Seq<Seq<char>>>, RestoreError>(None),
            Err(x) => entry_relative(*e, names_of(prefix@)) == Err::<Option<Seq<Seq<char>>>, RestoreError>(x),
        },
{
    if !e.enclosed {
        return Err(RestoreError::UnsafePath);
    }
    if e.is_symlink {
        return Err(RestoreError::Symlink);
    }
    let cs = match safe_zip_components(e.name.as_str()) {
        Ok(cs) => cs,
        Err(x) => return Err(x),
    };
    let ghost pv = names_of(prefix@);
    let ghost cv = names_of(cs@);
    if cs.len() < prefix.len() {
        return Err(RestoreError::EscapesClusterRoot);
    }
    let mut i: usize = 0;
    while i < prefix.len()
        invariant
            i <= prefix.len() <= cs.len(),
            pv == names_of(prefix@),
            cv == names_of(cs@),
            e.enclosed && !e.is_symlink,
            zip_components(e.name@) == Ok::<Seq<Seq<char>>, RestoreError>(cv),
            forall|j: int| 0 <= j < i ==> cv[j] == pv[j],
        decreases prefix.len() - i,
    {
        let x = chars_of(cs[i].as_str());
        let y = chars_of(prefix[i].as_str());
        if !chars_eq(&x, &y) {
            assert(cv.take(pv.len() as int)[i as int] != pv[i as int]);
            return Err(RestoreError::EscapesClusterRoot);
        }
        i = i + 1;
    }
    assert(cv.take(pv.len() as int) =~= pv);
    if cs.len() == prefix.len() {
        return Ok(None);
    }
    let mut rel: Vec<String> = Vec::new();
    let mut k: usize = prefix.len();
    while k < cs.len()
        invariant
            prefix.len() <= k <= cs.len(),
            cv == names_of(cs@),
            names_of(rel@) == cv.subrange(prefix.len() as int, k as int),
        decreases cs.len() - k,
    {
        let ghost before = rel@;
        let s = cs[k].clone();
        rel.push(s);
        assert(names_of(rel@) =~= names_of(before).push(s@));
        assert(cv.subrange(prefix.len() as int, k + 1) =~= cv.subrange(prefix.len() as int, k as int).push(cv[k as int]));
        k = k + 1;
    }
    assert(cv.subrange(prefix.len() as int, cs.len() as int) =~= cv.skip(prefix.len() as int));
    Ok(Some(rel))
}

/// Whether a planned entry already has the path `rel`.
fn plan_has(plan: &Vec<RestoreEntry>, rel: &Vec<String>) -> (b: bool)
    ensures
        b == exists|j: int| 0 <= j < plan@.len() && (#[trigger] plan_view(plan@)[j]).1 == names_of(rel@),
{
    let mut j: usize = 0;
    while j < plan.len()
        invariant
            j <= plan.len(),
            forall|i: int| 0 <= i < j ==> (#[trigger] plan_view(plan@)[i]).1 != names_of(rel@),
        decreases plan.len() - j,
    {
        if same_names(&plan[j].relative, rel) {
            assert(plan_view(plan@)[j as int].1 == names_of(rel@));
            return true;
        }
        j = j + 1;
    }
    false
}

/// Checks an uploaded backup's entries and plans their extraction: at most
/// `MAX_RESTORE_ENTRIES` entries, a `cluster.ini` that fixes the cluster
/// directory, safe and distinct paths inside it, no symlinks, and at most
/// `MAX_RESTORE_UNCOMPRESSED_BYTES` in files.
#[verifier::rlimit(40)]
pub fn restore_plan(entries: &Vec<ZipEntryInfo>) -> (r: Result<Vec<RestoreEntry>, RestoreError>)
    ensures
        match r {
            Ok(plan) => restore_plan_spec(entries@) == Ok::<Seq<(int, Seq<Seq<char>>, bool, u64)>, RestoreError>(plan_view(plan@)),
            Err(e) => restore_plan_spec(entries@) == Err::<Seq<(int, Seq<Seq<char>>, bool, u64)>, RestoreError>(e),
        },
{
    if entries.len() > 10000 {
        return Err(RestoreError::TooManyEntries);
    }
    let prefix = match find_cluster_prefix(entries) {
        Ok(p) => p,
        Err(e) => return Err(e),
    };
    let ghost pv = names_of(prefix@);
    let mut plan: Vec<RestoreEntry> = Vec::new();
    let mut total: u64 = 0;
    let mut k: usize = 0;
    assert(plan_view(plan@) =~= Seq::<(int, Seq<Seq<char>>, bool, u64)>::empty());
    while k < entries.len()
        invariant
            k <= entries.len() <= 10000,
            pv == names_of(prefix@),
            cluster_prefix(entries@) == Ok::<Seq<Seq<char>>, RestoreError>(pv),
            total <= MAX_RESTORE_UNCOMPRESSED_BYTES,
            plan_upto(entries@, pv, k as nat) == Ok::<(Seq<(int, Seq<Seq<char>>, bool, u64)>, int), RestoreError>((plan_view(plan@), total as int)),
        decreases entries.len() - k,
    {
        let e = &entries[k];
        let rel = match entry_relative_exec(e, &prefix) {
            Err(x) => {
                proof { lemma_plan_stays_failed(entries@, pv, (k + 1) as nat); }
                return Err(x);
            },
            Ok(None) => {
                k = k + 1;
                continue;
            },
            Ok(Some(rel)) => rel,
        };
        if plan_has(&plan, &rel) {
            proof { lemma_plan_stays_failed(entries@, pv, (k + 1) as nat); }
            return Err(RestoreError::DuplicatePath);
        }
        if !e.is_dir {
            if e.size > 134217728 - total {
                proof { lemma_plan_stays_failed(entries@, pv, (k + 1) as nat); }
                return Err(RestoreError::TooLarge);
            }
            total = total + e.size;
        }
        let ghost before = plan@;
        let item = RestoreEntry { index: k, relative: rel, is_dir: e.is_dir, size: e.size };
        plan.push(item);
        assert(plan_view(plan@) =~= plan_view(before).push((k as int, names_of(item.relative@), item.is_dir, item.size)));
        k = k + 1;
    }
    Ok(plan)
}

/// Once the plan fails, it stays failed with the same error.
proof fn lemma_plan_stays_failed(es: Seq<ZipEntryInfo>, prefix: Seq<Seq<char>>, k: nat)
    requires
        k <= es.len(),
        plan_upto(es, prefix, k) is Err,
    ensures
        plan_upto(es, prefix, es.len()) == plan_upto(es, prefix, k),
    decreases es.len() - k,
{
    if k < es.len() {
        assert(plan_upto(es, prefix, k + 1) == plan_upto(es, prefix, k));
        lemma_plan_stays_failed(es, prefix, k + 1);
    }
}

/// Whether a backup name is one the backup list shows: a `.zip` or `.tar` file.
pub open spec fn listed_archive(name: Seq<char>) -> bool {
    ends_with(name, ".zip"@) || ends_with(name, ".tar"@)
}

fn ends_with_exec(v: &Vec<char>, suffix: &str) -> (b: bool)
    ensures
        b == ends_with(v@, suffix@),
{
    let t = chars_of(suffix);
    if t.len() > v.len() {
        return false;
    }
    let start = v.len() - t.len();
    let mut i: usize = 0;
    while i < t.len()
        invariant
            t@ == suffix@,
            start + t.len() == v.len(),
            i <= t.len(),
            forall|j: int| 0 <= j < i ==> v@[start + j] == t@[j],
        decreases t.len() - i,
    {
        if v[start + i] != t[i] {
            assert(v@.skip(start as int)[i as int] != t@[i as int]);
            return false;
        }
        i = i + 1;
    }
    assert(v@.skip(start as int) =~= t@);
    true
}

/// Whether `name` ends in `.zip` or `.tar`.
pub fn is_listed_backup_archive(name: &str) -> (b: bool)
    ensures
        b == listed_archive(name@),
{
    let v = chars_of(name);
    ends_with_exec(&v, ".zip") || ends_with_exec(&v, ".tar")
}

/// Why a backup file name was refused.
pub enum BackupNameError {
    Invalid(ValidationError),
    NotArchive,
}

impl BackupNameError {
    /// The error's display text.
    pub fn message(&self) -> (m: String)
        ensures
            match self {
                BackupNameError::Invalid(e) => m@ == "invalid "@ + e.field@ + ": "@ + e.reason.text_spec(),
                BackupNameError::NotArchive => m@ == "backup archive must be .zip or .tar"@,
            },
    {
        match self {
            BackupNameError::Invalid(e) => e.message(),
            BackupNameError::NotArchive => "backup archive must be .zip or .tar".to_string(),
        }
    }
}

/// A backup file name: a safe archive name that ends in `.zip` or `.tar`.
pub fn validate_backup_file_name(value: &str) -> (r: Result<String, BackupNameError>)
    ensures
        match path_atom_problem(value@) {
            Some(reason) => r matches Err(BackupNameError::Invalid(e)) && e.field == "backup archive name" && e.reason == reason,
            None => if listed_archive(value@) {
                r matches Ok(n) && n@ == value@
            } else {
                r matches Err(BackupNameError::NotArchive)
            },
        },
{
    let name = match validate_backup_archive_name(value) {
        Ok(n) => n,
        Err(e) => return Err(BackupNameError::Invalid(e)),
    };
    if !is_listed_backup_archive(name.as_str()) {
        return Err(BackupNameError::NotArchive);
    }
    Ok(name.as_str().to_string())
}

/// The planned paths are distinct, the files hold at most
/// `MAX_RESTORE_UNCOMPRESSED_BYTES`, and each entry comes from the archive.
pub proof fn lemma_plan_sound(es: Seq<ZipEntryInfo>, prefix: Seq<Seq<char>>, k: nat)
    ensures
        plan_upto(es, prefix, k) matches Ok((items, total)) ==> {
            &&& 0 <= total <= MAX_RESTORE_UNCOMPRESSED_BYTES
            &&& forall|i: int, j: int| 0 <= i < j < items.len() ==> (#[trigger] items[i]).1 != (#[trigger] items[j]).1
            &&& forall|i: int| 0 <= i < items.len() ==> 0 <= (#[trigger] items[i]).0 < es.len()
                && items[i].2 == es[items[i].0].is_dir && items[i].3 == es[items[i].0].size
                && items[i].1.len() > 0
        },
    decreases k,
{
    if k > 0 && k <= es.len() {
        lemma_plan_sound(es, prefix, (k - 1) as nat);
        match plan_upto(es, prefix, (k - 1) as nat) {
            Ok((items, total)) => {
                match entry_relative(es[k - 1], prefix) {
                    Ok(Some(rel)) => {
                        if !(exists|j: int| 0 <= j < items.len() && (#[trigger] items[j]).1 == rel) {
                            let it = items.push((k - 1, rel, es[k - 1].is_dir, es[k - 1].size));
                            assert forall|i: int, j: int| 0 <= i < j < it.len() implies (#[trigger] it[i]).1 != (#[trigger] it[j]).1 by {
                                if j == it.len() - 1 {
                                    assert(it[i] == items[i]);
                                } else {
                                    assert(it[i] == items[i] && it[j] == items[j]);
                                }
                            }
                            assert forall|i: int| 0 <= i < it.len() implies 0 <= (#[trigger] it[i]).0 < es.len()
                                && it[i].2 == es[it[i].0].is_dir && it[i].3 == es[it[i].0].size
                                && it[i].1.len() > 0 by {
                                if i < items.len() {
                                    assert(it[i] == items[i]);
                                } else {
                                    match zip_components(es[k - 1].name@) {
                                        Ok(cs) => { assert(rel == cs.skip(prefix.len() as int)); },
                                        Err(x) => {},
                                    }
                                }
                            }
                        }
                    },
                    _ => {},
                }
            },
            Err(e) => {},
        }
    }
}

/// Where a restore stands once the archive was checked and planned.
#[derive(PartialEq, Eq, Structural, Clone, Copy)]
pub enum RestoreState {
    /// The planned entries are being written into the staging folder.
    Extracting,
    /// Whether a cluster folder of that name exists is being checked.
    CheckingExisting,
    /// The existing cluster folder is being moved to the tombstone name.
    MovingAside,
    /// The staged cluster is being prepared; `had_existing` tells whether
    /// an old folder was moved aside.
    Preparing { had_existing: bool },
    /// The staging folder is being renamed to the cluster folder.
    Committing { had_existing: bool },
    /// The old folder is being moved back after a failure.
    PuttingBack { failure: RestoreFailure },
    /// The staging folder is being removed after a failure.
    CleaningStaging { failure: RestoreFailure },
    /// The restore is committed and the old folder is being removed.
    RemovingTombstone,
    Finished,
}

/// What the outside work reported.
#[derive(PartialEq, Eq, Structural, Clone, Copy)]
pub enum RestoreEvent {
    Succeeded,
    Failed,
    /// The existence check found the cluster folder.
    Present,
    /// The existence check found no cluster folder.
    Absent,
}

/// What to do next.
#[derive(PartialEq, Eq, Structural, Clone, Copy)]
pub enum RestoreAction {
    CheckExisting,
    MoveExistingAside,
    PrepareStaged,
    RenameStagingToCluster,
    PutExistingBack,
    RemoveStaging,
    RemoveTombstone,
    /// The restore is complete.
    Done,
    /// The restore fails with the error of this step.
    Fail(RestoreFailure),
}

/// Which step's error a failed restore reports.
#[derive(PartialEq, Eq, Structural, Clone, Copy)]
pub enum RestoreFailure {
    Extract,
    CheckExisting,
    MoveAside,
    Prepare,
    Commit,
}

/// The step after `state` reported `event`. A failure before the commit
/// puts a moved-aside folder back, then removes the staging folder; after
/// the commit the old folder is removed and the restore succeeds whatever
/// that removal reports.
pub open spec fn restore_next(state: RestoreState, event: RestoreEvent) -> (RestoreState, RestoreAction) {
    let ok = event == RestoreEvent::Succeeded;
    match state {
        RestoreState::Extracting => if ok {
            (RestoreState::CheckingExisting, RestoreAction::CheckExisting)
        } else {
            (RestoreState::CleaningStaging { failure: RestoreFailure::Extract }, RestoreAction::RemoveStaging)
        },
        RestoreState::CheckingExisting => if event == RestoreEvent::Present {
            (RestoreState::MovingAside, RestoreAction::MoveExistingAside)
        } else if event == RestoreEvent::Absent {
            (RestoreState::Preparing { had_existing: false }, RestoreAction::PrepareStaged)
        } else {
            (
                RestoreState::CleaningStaging { failure: RestoreFailure::CheckExisting },
                RestoreAction::RemoveStaging,
            )
        },
        RestoreState::MovingAside => if ok {
            (RestoreState::Preparing { had_existing: true }, RestoreAction::PrepareStaged)
        } else {
            (RestoreState::CleaningStaging { failure: RestoreFailure::MoveAside }, RestoreAction::RemoveStaging)
        },
        RestoreState::Preparing { had_existing } => if ok {
            (RestoreState::Committing { had_existing }, RestoreAction::RenameStagingToCluster)
        } else if had_existing {
            (RestoreState::PuttingBack { failure: RestoreFailure::Prepare }, RestoreAction::PutExistingBack)
        } else {
            (RestoreState::CleaningStaging { failure: RestoreFailure::Prepare }, RestoreAction::RemoveStaging)
        },
        RestoreState::Committing { had_existing } => if ok {
            if had_existing {
                (RestoreState::RemovingTombstone, RestoreAction::RemoveTombstone)
            } else {
                (RestoreState::Finished, RestoreAction::Done)
            }
        } else if had_existing {
            (RestoreState::PuttingBack { failure: RestoreFailure::Commit }, RestoreAction::PutExistingBack)
        } else {
            (RestoreState::CleaningStaging { failure: RestoreFailure::Commit }, RestoreAction::RemoveStaging)
        },
        RestoreState::PuttingBack { failure } => (RestoreState::CleaningStaging { failure }, RestoreAction::RemoveStaging),
        RestoreState::CleaningStaging { failure } => (RestoreState::Finished, RestoreAction::Fail(failure)),
        RestoreState::RemovingTombstone => (RestoreState::Finished, RestoreAction::Done),
        RestoreState::Finished => (RestoreState::Finished, RestoreAction::Done),
    }
}

/// The first step of a restore: extracting the planned entries.
pub fn restore_start() -> (r: RestoreState)
    ensures
        r == RestoreState::Extracting,
{
    RestoreState::Extracting
}

/// One step of a restore.
pub fn restore_step(state: RestoreState, event: RestoreEvent) -> (r: (RestoreState, RestoreAction))
    ensures
        r == restore_next(state, event),
{
    let ok = match event {
        RestoreEvent::Succeeded => true,
        _ => false,
    };
    match state {
        RestoreState::Extracting => if ok {
            (RestoreState::CheckingExisting, RestoreAction::CheckExisting)
        } else {
            (RestoreState::CleaningStaging { failure: RestoreFailure::Extract }, RestoreAction::RemoveStaging)
        },
        RestoreState::CheckingExisting => match event {
            RestoreEvent::Present => (RestoreState::MovingAside, RestoreAction::MoveExistingAside),
            RestoreEvent::Absent => (RestoreState::Preparing { had_existing: false }, RestoreAction::PrepareStaged),
            _ => (
                RestoreState::CleaningStaging { failure: RestoreFailure::CheckExisting },
                RestoreAction::RemoveStaging,
            ),
        },
        RestoreState::MovingAside => if ok {
            (RestoreState::Preparing { had_existing: true }, RestoreAction::PrepareStaged)
        } else {
            (RestoreState::CleaningStaging { failure: RestoreFailure::MoveAside }, RestoreAction::RemoveStaging)
        },
        RestoreState::Preparing { had_existing } => if ok {
            (RestoreState::Committing { had_existing }, RestoreAction::RenameStagingToCluster)
        } else if had_existing {
            (RestoreState::PuttingBack { failure: RestoreFailure::Prepare }, RestoreAction::PutExistingBack)
        } else {
            (RestoreState::CleaningStaging { failure: RestoreFailure::Prepare }, RestoreAction::RemoveStaging)
        },
        RestoreState::Committing { had_existing } => if ok {
            if had_existing {
                (RestoreState::RemovingTombstone, RestoreAction::RemoveTombstone)
            } else {
                (RestoreState::Finished, RestoreAction::Done)
            }
        } else if had_existing {
            (RestoreState::PuttingBack { failure: RestoreFailure::Commit }, RestoreAction::PutExistingBack)
        } else {
            (RestoreState::CleaningStaging { failure: RestoreFailure::Commit }, RestoreAction::RemoveStaging)
        },
        RestoreState::PuttingBack { failure } => (RestoreState::CleaningStaging { failure }, RestoreAction::RemoveStaging),
        RestoreState::CleaningStaging { failure } => (RestoreState::Finished, RestoreAction::Fail(failure)),
        RestoreState::RemovingTombstone => (RestoreState::Finished, RestoreAction::Done),
        RestoreState::Finished => (RestoreState::Finished, RestoreAction::Done),
    }
}

/// `{prefix}{pid}-{stamp}`, the common shape of the temporary names.
pub open spec fn stamped(prefix: Seq<char>, pid: u32, stamp: i64) -> Seq<char> {
    prefix + decimal(pid as nat) + "-"@ + signed_decimal(stamp as int)
}

fn push_stamp(s: &mut String, pid: u32, stamp: i64)
    ensures
        final(s)@ == old(s)@ + decimal(pid as nat) + "-"@ + signed_decimal(stamp as int),
{
    push_chars(s, &u64_to_chars(pid as u64));
    push_str(s, "-");
    push_chars(s, &i64_to_chars(stamp));
}

/// The hidden file an upload is written to before it gets its name.
pub fn temporary_upload_name(pid: u32, stamp: i64) -> (s: String)
    ensures
        s@ == stamped(".dst-admin-rust-upload-"@, pid, stamp) + ".tmp"@,
{
    let mut s = ".dst-admin-rust-upload-".to_string();
    push_stamp(&mut s, pid, stamp);
    push_str(&mut s, ".tmp");
    s
}

/// The hidden folder a restore is extracted into.
pub fn temporary_restore_name(cluster: &str, pid: u32, stamp: i64) -> (s: String)
    ensures
        s@ == stamped(".dst-admin-rust-restore-"@ + cluster@ + "-"@, pid, stamp),
{
    let mut s = ".dst-admin-rust-restore-".to_string();
    push_str(&mut s, cluster);
    push_str(&mut s, "-");
    push_stamp(&mut s, pid, stamp);
    s
}

/// The hidden folder the replaced cluster is moved to during a restore.
pub fn temporary_tombstone_name(cluster: &str, pid: u32, stamp: i64) -> (s: String)
    ensures
        s@ == stamped(".dst-admin-rust-old-"@ + cluster@ + "-"@, pid, stamp),
{
    let mut s = ".dst-admin-rust-old-".to_string();
    push_str(&mut s, cluster);
    push_str(&mut s, "-");
    push_stamp(&mut s, pid, stamp);
    s
}

/// The hidden file a backup archive is written to before it gets its name.
pub fn temporary_backup_name(pid: u32, stamp: i64) -> (s: String)
    ensures
        s@ == stamped(".dst-admin-rust-backup-"@, pid, stamp) + ".zip.tmp"@,
{
    let mut s = ".dst-admin-rust-backup-".to_string();
    push_stamp(&mut s, pid, stamp);
    push_str(&mut s, ".zip.tmp");
    s
}

} // verus!
