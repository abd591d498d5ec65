//! The line-oriented `dst_config` file and the Klei directory layout it selects.
use vstd::prelude::*;
use crate::text::{chars_of, find_char, first_index_of, line, line_ranges, lines, push_char,
    push_chars, push_str, ranges_view, ranges_within, split_once, string_from_chars, trim,
    trim_range, chars_eq};
use crate::numbers::{decimal, i64_to_chars, lemma_decimal_digits, parse_i64_range, parse_i64_spec, signed_decimal};
use crate::ini::{ini_safe_value, lemma_trim_no_surrounding_ws, no_surrounding_ws};
use crate::text::{is_ws, lemma_lines_empty, lemma_lines_push_line, lemma_trim_end_take, lemma_trim_start_skip, strip_cr};
use crate::validation::{path_atom_problem, validate_cluster_name, ValidationError};
use crate::session::{hex_encode, hex_text, random_bytes, RandomUnavailable};

verus! {

broadcast use vstd::string::group_string_axioms;

/// Contents of the `dst_config` file.
#[derive(Debug, Clone, PartialEq, Eq)]
pub struct DstConfig {
    pub steamcmd: String,
    pub force_install_dir: String,
    pub donot_starve_server_directory: String,
    pub cluster: String,
    pub backup: String,
    pub mod_download_path: String,
    pub bin: i64,
    pub beta: i64,
    pub ugc_directory: String,
    pub persistent_storage_root: String,
    pub conf_dir: String,
}

pub struct DstConfigView {
    pub steamcmd: Seq<char>,
    pub force_install_dir: Seq<char>,
    pub donot_starve_server_directory: Seq<char>,
    pub cluster: Seq<char>,
    pub backup: Seq<char>,
    pub mod_download_path: Seq<char>,
    pub bin: i64,
    pub beta: i64,
    pub ugc_directory: Seq<char>,
    pub persistent_storage_root: Seq<char>,
    pub conf_dir: Seq<char>,
}

impl View for DstConfig {
    type V = DstConfigView;

    open spec fn view(&self) -> DstConfigView {
        DstConfigView {
            steamcmd: self.steamcmd@,
            force_install_dir: self.force_install_dir@,
            donot_starve_server_directory: self.donot_starve_server_directory@,
            cluster: self.cluster@,
            backup: self.backup@,
            mod_download_path: self.mod_download_path@,
            bin: self.bin,
            beta: self.beta,
            ugc_directory: self.ugc_directory@,
            persistent_storage_root: self.persistent_storage_root@,
            conf_dir: self.conf_dir@,
        }
    }
}

/// The configuration with every field empty or zero.
pub open spec fn empty_config() -> DstConfigView {
    DstConfigView {
        steamcmd: Seq::empty(),
        force_install_dir: Seq::empty(),
        donot_starve_server_directory: Seq::empty(),
        cluster: Seq::empty(),
        backup: Seq::empty(),
        mod_download_path: Seq::empty(),
        bin: 0,
        beta: 0,
        ugc_directory: Seq::empty(),
        persistent_storage_root: Seq::empty(),
        conf_dir: Seq::empty(),
    }
}

/// `s` with every `\n` escape (a backslash followed by `n`) removed, scanning
/// from the left as `str::replace` does.
pub open spec fn strip_escaped_newlines(s: Seq<char>) -> Seq<char>
    decreases s.len(),
{
    if s.len() == 0 {
        s
    } else if s.len() >= 2 && s[0] == '\\' && s[1] == 'n' {
        strip_escaped_newlines(s.skip(2))
    } else {
        seq![s[0]] + strip_escaped_newlines(s.drop_first())
    }
}

/// The configuration after one line of the file: a `key=value` line sets the
/// field named by the trimmed key to the trimmed value without `\n` escapes;
/// numbers that do not parse become zero; other lines change nothing.
pub open spec fn apply_config_line(c: DstConfigView, l: Seq<char>) -> DstConfigView {
    match split_once(l, '=') {
        None => c,
        Some((k, raw)) => set_config_field(c, trim(k), strip_escaped_newlines(trim(raw))),
    }
}

/// The configuration with the field named `key` set to `v`; numbers that do
/// not parse become zero; other keys change nothing.
pub open spec fn set_config_field(c: DstConfigView, key: Seq<char>, v: Seq<char>) -> DstConfigView {
    let n = match parse_i64_spec(v) {
        Some(n) => n,
        None => 0,
    };
    if key == "steamcmd"@ {
        DstConfigView { steamcmd: v, ..c }
    } else if key == "force_install_dir"@ {
        DstConfigView { force_install_dir: v, ..c }
    } else if key == "donot_starve_server_directory"@ {
        DstConfigView { donot_starve_server_directory: v, ..c }
    } else if key == "cluster"@ {
        DstConfigView { cluster: v, ..c }
    } else if key == "backup"@ {
        DstConfigView { backup: v, ..c }
    } else if key == "mod_download_path"@ {
        DstConfigView { mod_download_path: v, ..c }
    } else if key == "bin"@ {
        DstConfigView { bin: n, ..c }
    } else if key == "beta"@ {
        DstConfigView { beta: n, ..c }
    } else if key == "ugc_directory"@ {
        DstConfigView { ugc_directory: v, ..c }
    } else if key == "persistent_storage_root"@ {
        DstConfigView { persistent_storage_root: v, ..c }
    } else if key == "conf_dir"@ {
        DstConfigView { conf_dir: v, ..c }
    } else {
        c
    }
}

/// The configuration after the lines `ls`, in order.
pub open spec fn apply_config_lines(c: DstConfigView, ls: Seq<Seq<char>>) -> DstConfigView
    decreases ls.len(),
{
    if ls.len() == 0 {
        c
    } else {
        apply_config_line(apply_config_lines(c, ls.drop_last()), ls.last())
    }
}

/// The configuration that the file `contents` describes, before defaults.
pub open spec fn dst_config_from(contents: Seq<char>) -> DstConfigView {
    apply_config_lines(empty_config(), lines(contents))
}

/// `base` joined with `p` as `Path::join` does on Unix: an absolute `p`
/// replaces `base`, otherwise one `/` separates them unless `base` is empty
/// or already ends with one.
pub open spec fn path_join(base: Seq<char>, p: Seq<char>) -> Seq<char> {
    if p.len() > 0 && p[0] == '/' {
        p
    } else if base.len() == 0 || base.last() == '/' {
        base + p
    } else {
        base + seq!['/'] + p
    }
}

/// The Klei `DoNotStarveTogether` directory that `c` selects under `root`.
pub open spec fn klei_root_spec(c: DstConfigView, root: Seq<char>) -> Seq<char> {
    let base = if c.persistent_storage_root.len() == 0 {
        path_join(path_join(root, ".klei"@), "DoNotStarveTogether"@)
    } else {
        path_join(
            c.persistent_storage_root,
            if c.conf_dir.len() == 0 { "DoNotStarveTogether"@ } else { c.conf_dir },
        )
    };
    if c.beta == 1 {
        base + "BetaBranch"@
    } else {
        base
    }
}

/// Where the Klei directory lies and how the beta branch moves it. Off the
/// beta branch it is the base directory itself: `root/.klei/DoNotStarveTogether`
/// without a persistent storage root, else that root joined with `conf_dir`
/// (or `DoNotStarveTogether`). The beta branch (`beta == 1`) adds exactly
/// `BetaBranch` to the name of the same base directory.
pub proof fn lemma_klei_root_branch(c: DstConfigView, d: DstConfigView, root: Seq<char>)
    ensures
        c.beta != 1 && c.persistent_storage_root.len() == 0 ==> klei_root_spec(c, root)
            == path_join(path_join(root, ".klei"@), "DoNotStarveTogether"@),
        c.beta != 1 && c.persistent_storage_root.len() == 0 && root.len() > 0 && root.last() != '/'
            ==> klei_root_spec(c, root) == root + "/.klei/DoNotStarveTogether"@,
        c.beta != 1 && c.persistent_storage_root.len() > 0 && c.conf_dir.len() == 0 ==> klei_root_spec(c, root)
            == path_join(c.persistent_storage_root, "DoNotStarveTogether"@),
        c.beta != 1 && c.persistent_storage_root.len() > 0 && c.conf_dir.len() > 0 ==> klei_root_spec(c, root)
            == path_join(c.persistent_storage_root, c.conf_dir),
        c.beta == 1 && d.beta != 1 && c.persistent_storage_root == d.persistent_storage_root && c.conf_dir
            == d.conf_dir ==> klei_root_spec(c, root) == klei_root_spec(d, root) + "BetaBranch"@,
{
    reveal_strlit(".klei");
    reveal_strlit("DoNotStarveTogether");
    reveal_strlit("/.klei/DoNotStarveTogether");
    if c.beta != 1 && c.persistent_storage_root.len() == 0 && root.len() > 0 && root.last() != '/' {
        let k = path_join(root, ".klei"@);
        assert(k == root + seq!['/'] + ".klei"@);
        assert(k.len() > 0 && k.last() == 'i');
        assert(path_join(k, "DoNotStarveTogether"@) =~= root + "/.klei/DoNotStarveTogether"@);
    }
}

/// The settings to save: path settings left empty keep the values `old` had.
pub open spec fn with_fallbacks_spec(c: DstConfigView, old: DstConfigView) -> DstConfigView {
    DstConfigView {
        steamcmd: if c.steamcmd.len() == 0 { old.steamcmd } else { c.steamcmd },
        force_install_dir: if c.force_install_dir.len() == 0 { old.force_install_dir } else { c.force_install_dir },
        cluster: if c.cluster.len() == 0 { old.cluster } else { c.cluster },
        backup: if c.backup.len() == 0 { old.backup } else { c.backup },
        mod_download_path: if c.mod_download_path.len() == 0 { old.mod_download_path } else { c.mod_download_path },
        ..c
    }
}

/// The configuration with defaults: cluster `Cluster1`, 32-bit binary, and
/// backup and mod download directories under the Klei directory.
pub open spec fn with_defaults_spec(c: DstConfigView, root: Seq<char>) -> DstConfigView {
    let c1 = DstConfigView { cluster: if c.cluster.len() == 0 { "Cluster1"@ } else { c.cluster }, ..c };
    let c2 = DstConfigView { bin: if c1.bin == 0 { 32 } else { c1.bin }, ..c1 };
    let c3 = DstConfigView {
        backup: if c2.backup.len() == 0 { path_join(klei_root_spec(c2, root), "backup"@) } else { c2.backup },
        ..c2
    };
    DstConfigView {
        mod_download_path: if c3.mod_download_path.len() == 0 {
            path_join(klei_root_spec(c3, root), "mod_config_download"@)
        } else {
            c3.mod_download_path
        },
        ..c3
    }
}

/// One `key=value` line of the saved file.
pub open spec fn config_line(key: Seq<char>, value: Seq<char>) -> Seq<char> {
    line(key + seq!['='] + value)
}

/// The saved file.
pub open spec fn dst_config_text(c: DstConfigView) -> Seq<char> {
    config_line("steamcmd"@, c.steamcmd)
        + config_line("force_install_dir"@, c.force_install_dir)
        + config_line("donot_starve_server_directory"@, c.donot_starve_server_directory)
        + config_line("ugc_directory"@, c.ugc_directory)
        + config_line("conf_dir"@, c.conf_dir)
        + config_line("persistent_storage_root"@, c.persistent_storage_root)
        + config_line("cluster"@, c.cluster)
        + config_line("backup"@, c.backup)
        + config_line("mod_download_path"@, c.mod_download_path)
        + config_line("bin"@, signed_decimal(c.bin as int))
        + config_line("beta"@, signed_decimal(c.beta as int))
}

/// `v[from..to]` without `\n` escapes.
fn strip_escaped_newlines_range(v: &Vec<char>, from: usize, to: usize) -> (out: Vec<char>)
    requires
        from <= to <= v.len(),
    ensures
        out@ == strip_escaped_newlines(v@.subrange(from as int, to as int)),
{
    let mut out: Vec<char> = Vec::new();
    let mut i = from;
    while i < to
        invariant
            from <= i <= to <= v.len(),
            out@ + strip_escaped_newlines(v@.subrange(i as int, to as int)) == strip_escaped_newlines(
                v@.subrange(from as int, to as int),
            ),
        decreases to - i,
    {
        let ghost rest = v@.subrange(i as int, to as int);
        if i + 1 < to && v[i] == '\\' && v[i + 1] == 'n' {
            assert(rest.skip(2) =~= v@.subrange(i + 2, to as int));
            i = i + 2;
        } else {
            let ghost before = out@;
            out.push(v[i]);
            assert(rest.drop_first() =~= v@.subrange(i + 1, to as int));
            assert(out@ + strip_escaped_newlines(v@.subrange(i + 1, to as int)) =~= before + (seq![rest[0]]
                + strip_escaped_newlines(rest.drop_first())));
            i = i + 1;
        }
    }
    assert(out@ + Seq::<char>::empty() =~= out@);
    out
}

/// `s` joined with `p`, as `Path::join`.
pub fn path_join_exec(base: &str, p: &str) -> (out: String)
    ensures
        out@ == path_join(base@, p@),
{
    let bv = chars_of(base);
    let pv = chars_of(p);
    if pv.len() > 0 && pv[0] == '/' {
        return p.to_string();
    }
    let mut out = base.to_string();
    if !(bv.len() == 0 || bv[bv.len() - 1] == '/') {
        push_char(&mut out, '/');
    }
    push_str(&mut out, p);
    proof {
        if !(bv@.len() == 0 || bv@.last() == '/') {
            assert(out@ =~= base@ + seq!['/'] + p@);
        }
    }
    out
}

impl DstConfig {
    /// The configuration with every field empty or zero.
    pub fn empty() -> (c: Self)
        ensures
            c@ == empty_config(),
    {
        DstConfig {
            steamcmd: String::new(),
            force_install_dir: String::new(),
            donot_starve_server_directory: String::new(),
            cluster: String::new(),
            backup: String::new(),
            mod_download_path: String::new(),
            bin: 0,
            beta: 0,
            ugc_directory: String::new(),
            persistent_storage_root: String::new(),
            conf_dir: String::new(),
        }
    }

    /// Applies one line of the file.
    fn apply_line(&mut self, v: &Vec<char>, from: usize, to: usize)
        requires
            from <= to <= v.len(),
        ensures
            final(self)@ == apply_config_line(old(self)@, v@.subrange(from as int, to as int)),
    {
        let ghost l = v@.subrange(from as int, to as int);
        let e = match find_char(v, from, to, '=') {
            None => {
                assert(split_once(l, '=') is None);
                return;
            },
            Some(e) => e,
        };
        proof {
            assert(l.take(e - from) =~= v@.subrange(from as int, e as int));
            assert(l.skip(e - from + 1) =~= v@.subrange(e + 1, to as int));
            assert(split_once(l, '=') == Some((l.take(e - from), l.skip(e - from + 1))));
        }
        let (klo, khi) = trim_range(v, from, e);
        let (vlo, vhi) = trim_range(v, e + 1, to);
        let value = strip_escaped_newlines_range(v, vlo, vhi);
        let key = crate::text::sub_chars(v, klo, khi);
        let n = match parse_i64_range(&value, 0, value.len()) {
            Some(n) => n,
            None => 0,
        };
        assert(value@.subrange(0, value.len() as int) =~= value@);
        let s = string_from_chars(&value);
        if chars_eq(&key, &chars_of("steamcmd")) {
            self.steamcmd = s;
        } else if chars_eq(&key, &chars_of("force_install_dir")) {
            self.force_install_dir = s;
        } else if chars_eq(&key, &chars_of("donot_starve_server_directory")) {
            self.donot_starve_server_directory = s;
        } else if chars_eq(&key, &chars_of("cluster")) {
            self.cluster = s;
        } else if chars_eq(&key, &chars_of("backup")) {
            self.backup = s;
        } else if chars_eq(&key, &chars_of("mod_download_path")) {
            self.mod_download_path = s;
        } else if chars_eq(&key, &chars_of("bin")) {
            self.bin = n;
        } else if chars_eq(&key, &chars_of("beta")) {
            self.beta = n;
        } else if chars_eq(&key, &chars_of("ugc_directory")) {
            self.ugc_directory = s;
        } else if chars_eq(&key, &chars_of("persistent_storage_root")) {
            self.persistent_storage_root = s;
        } else if chars_eq(&key, &chars_of("conf_dir")) {
            self.conf_dir = s;
        }
    }

    /// Parses the `dst_config` file, before defaults are applied.
    #[verifier::rlimit(40)]
    #[verifier::spinoff_prover]
    pub fn from_contents(contents: &str) -> (c: Self)
        ensures
            c@ == dst_config_from(contents@),
    {
        let v = chars_of(contents);
        let rs = line_ranges(&v);
        let ghost ls = lines(v@);
        let mut c = Self::empty();
        let mut k: usize = 0;
        while k < rs.len()
            invariant
                v@ == contents@,
                ls == lines(v@),
                ranges_within(rs@, 0, v.len() as int),
                ranges_view(v@, rs@) == ls,
                k <= rs.len(),
                c@ == apply_config_lines(empty_config(), ls.take(k as int)),
            decreases rs.len() - k,
        {
            let (lo, hi) = rs[k];
            assert(0 <= rs@[k as int].0 <= rs@[k as int].1 <= v.len());
            proof {
                assert(ls.take(k + 1).drop_last() =~= ls.take(k as int));
                assert(ls.take(k + 1).last() == ls[k as int]);
                assert(ls[k as int] == v@.subrange(lo as int, hi as int));
            }
            c.apply_line(&v, lo, hi);
            k = k + 1;
        }
        assert(ls.take(rs.len() as int) =~= ls);
        c
    }

    /// The settings to save, keeping `old` path settings that this one leaves empty.
    pub fn with_fallbacks(self, old: &DstConfig) -> (c: Self)
        ensures
            c@ == with_fallbacks_spec(self@, old@),
    {
        let mut c = self;
        if c.steamcmd.as_str().is_empty() {
            c.steamcmd = old.steamcmd.clone();
        }
        if c.force_install_dir.as_str().is_empty() {
            c.force_install_dir = old.force_install_dir.clone();
        }
        if c.cluster.as_str().is_empty() {
            c.cluster = old.cluster.clone();
        }
        if c.backup.as_str().is_empty() {
            c.backup = old.backup.clone();
        }
        if c.mod_download_path.as_str().is_empty() {
            c.mod_download_path = old.mod_download_path.clone();
        }
        c
    }

    /// The Klei `DoNotStarveTogether` directory under `root`.
    pub fn klei_root(&self, root: &str) -> (p: String)
        ensures
            p@ == klei_root_spec(self@, root@),
    {
        let base = if self.persistent_storage_root.as_str().is_empty() {
            let klei = path_join_exec(root, ".klei");
            path_join_exec(klei.as_str(), "DoNotStarveTogether")
        } else if self.conf_dir.as_str().is_empty() {
            path_join_exec(self.persistent_storage_root.as_str(), "DoNotStarveTogether")
        } else {
            path_join_exec(self.persistent_storage_root.as_str(), self.conf_dir.as_str())
        };
        if self.beta == 1 {
            let mut b = base;
            push_str(&mut b, "BetaBranch");
            b
        } else {
            base
        }
    }

    /// Applies the defaults; a cluster name that is not a safe path component
    /// is refused.
    pub fn with_defaults(self, root: &str) -> (r: Result<Self, ValidationError>)
        ensures
            ({
                let d = with_defaults_spec(self@, root@);
                match path_atom_problem(d.cluster) {
                    None => r is Ok && r->Ok_0@ == d,
                    Some(reason) => r is Err && r->Err_0.field == "cluster name" && r->Err_0.reason
                        == reason,
                }
            }),
    {
        let mut c = self;
        if c.cluster.as_str().is_empty() {
            c.cluster = "Cluster1".to_string();
        }
        match validate_cluster_name(c.cluster.as_str()) {
            Ok(_) => {},
            Err(e) => return Err(e),
        }
        if c.bin == 0 {
            c.bin = 32;
        }
        if c.backup.as_str().is_empty() {
            let k = c.klei_root(root);
            c.backup = path_join_exec(k.as_str(), "backup");
        }
        if c.mod_download_path.as_str().is_empty() {
            let k = c.klei_root(root);
            c.mod_download_path = path_join_exec(k.as_str(), "mod_config_download");
        }
        Ok(c)
    }

    /// The file text to save.
    pub fn to_file_contents(&self) -> (s: String)
        ensures
            s@ == dst_config_text(self@),
    {
        let mut s = String::new();
        push_config_line(&mut s, "steamcmd", self.steamcmd.as_str());
        assert(s@ =~= config_line("steamcmd"@, self.steamcmd@));
        push_config_line(&mut s, "force_install_dir", self.force_install_dir.as_str());
        push_config_line(&mut s, "donot_starve_server_directory", self.donot_starve_server_directory.as_str());
        push_config_line(&mut s, "ugc_directory", self.ugc_directory.as_str());
        push_config_line(&mut s, "conf_dir", self.conf_dir.as_str());
        push_config_line(&mut s, "persistent_storage_root", self.persistent_storage_root.as_str());
        push_config_line(&mut s, "cluster", self.cluster.as_str());
        push_config_line(&mut s, "backup", self.backup.as_str());
        push_config_line(&mut s, "mod_download_path", self.mod_download_path.as_str());
        let bin = string_from_chars(&i64_to_chars(self.bin));
        push_config_line(&mut s, "bin", bin.as_str());
        let beta = string_from_chars(&i64_to_chars(self.beta));
        push_config_line(&mut s, "beta", beta.as_str());
        s
    }
}

fn push_config_line(s: &mut String, key: &str, value: &str)
    ensures
        final(s)@ == old(s)@ + config_line(key@, value@),
{
    push_str(s, key);
    push_char(s, '=');
    push_str(s, value);
    push_char(s, '\n');
    assert(s@ =~= old(s)@ + config_line(key@, value@));
}

/// The directory of the cluster `cluster_name` under the Klei directory of `c`.
pub fn cluster_dir(root: &str, c: &DstConfig, cluster_name: &str) -> (r: Result<String, ValidationError>)
    ensures
        match path_atom_problem(cluster_name@) {
            None => r is Ok && r->Ok_0@ == path_join(klei_root_spec(c@, root@), cluster_name@),
            Some(reason) => r is Err && r->Err_0.field == "cluster name" && r->Err_0.reason == reason,
        },
{
    let name = validate_cluster_name(cluster_name)?;
    let k = c.klei_root(root);
    Ok(path_join_exec(k.as_str(), name.as_str()))
}

/// The version-4 UUID text of 16 random bytes: the version nibble set to 4,
/// the variant bits to `10`, and the bytes in hexadecimal grouped 4-2-2-2-6.
pub open spec fn uuid_v4_text(b: Seq<u8>) -> Seq<char> {
    let v = b.update(6, (b[6] & 0x0f) | 0x40).update(8, (b[8] & 0x3f) | 0x80);
    hex_text(v.subrange(0, 4)) + seq!['-'] + hex_text(v.subrange(4, 6)) + seq!['-'] + hex_text(
        v.subrange(6, 8),
    ) + seq!['-'] + hex_text(v.subrange(8, 10)) + seq!['-'] + hex_text(v.subrange(10, 16))
}

/// The version-4 UUID text of 16 bytes.
pub fn uuid_v4_from_bytes(bytes: &Vec<u8>) -> (s: String)
    requires
        bytes.len() == 16,
    ensures
        s@ == uuid_v4_text(bytes@),
{
    let mut v = bytes.clone();
    let b6 = (v[6] & 0x0f) | 0x40;
    v.set(6, b6);
    let b8 = (v[8] & 0x3f) | 0x80;
    v.set(8, b8);
    let mut s = hex_encode(&v.as_slice()[0..4]);
    push_char(&mut s, '-');
    push_str(&mut s, hex_encode(&v.as_slice()[4..6]).as_str());
    push_char(&mut s, '-');
    push_str(&mut s, hex_encode(&v.as_slice()[6..8]).as_str());
    push_char(&mut s, '-');
    push_str(&mut s, hex_encode(&v.as_slice()[8..10]).as_str());
    push_char(&mut s, '-');
    push_str(&mut s, hex_encode(&v.as_slice()[10..16]).as_str());
    s
}

/// A new random version-4 UUID.
pub fn generate_uuid_v4() -> (r: Result<String, RandomUnavailable>)
    ensures
        r matches Ok(s) ==> exists|b: Seq<u8>| b.len() == 16 && s@ == uuid_v4_text(b),
{
    let bytes = random_bytes(16)?;
    Ok(uuid_v4_from_bytes(&bytes))
}

/// No `\n` escape (a backslash followed by `n`) in `s`.
pub open spec fn no_newline_escape(s: Seq<char>) -> bool {
    forall|i: int| 0 <= i < s.len() - 1 ==> !(#[trigger] s[i] == '\\' && s[i + 1] == 'n')
}

/// A text setting that a saved line carries back unchanged: no line break,
/// no surrounding whitespace, no `\n` escape.
pub open spec fn config_text_safe(s: Seq<char>) -> bool {
    ini_safe_value(s) && no_newline_escape(s)
}

pub proof fn lemma_strip_identity(s: Seq<char>)
    requires
        no_newline_escape(s),
    ensures
        strip_escaped_newlines(s) == s,
    decreases s.len(),
{
    if s.len() > 0 {
        let t = s.drop_first();
        assert forall|i: int| 0 <= i < t.len() - 1 implies !(#[trigger] t[i] == '\\' && t[i + 1] == 'n') by {
            assert(t[i] == s[i + 1] && t[i + 1] == s[i + 2]);
        }
        lemma_strip_identity(t);
        if s.len() >= 2 {
            assert(!(s[0] == '\\' && s[1] == 'n'));
        }
        assert(seq![s[0]] + t =~= s);
    }
}

/// A number written by `to_file_contents` reads back as itself.
pub proof fn lemma_config_number(n: i64)
    ensures
        parse_i64_spec(signed_decimal(n as int)) == Some(n),
        config_text_safe(signed_decimal(n as int)),
{
    let t = signed_decimal(n as int);
    if n < 0 {
        let m = (0 - n) as nat;
        lemma_decimal_digits(m);
        let d = decimal(m);
        assert(t.drop_first() =~= d);
        assert(crate::text::is_ascii_digit(d[d.len() - 1]));
        assert(t.last() == d[d.len() - 1]);
        assert forall|i: int| 0 <= i < t.len() implies t[i] != '\n' && t[i] != '\\' by {
            if i > 0 {
                assert(t[i] == d[i - 1]);
                assert(crate::text::is_ascii_digit(d[i - 1]));
            }
        }
    } else {
        lemma_decimal_digits(n as nat);
        let d = decimal(n as nat);
        assert(crate::text::is_ascii_digit(d[0]));
        assert(crate::text::is_ascii_digit(d[d.len() - 1]));
        assert forall|i: int| 0 <= i < t.len() implies t[i] != '\n' && t[i] != '\\' by {
            assert(crate::text::is_ascii_digit(d[i]));
        }
    }
    assert(!t.contains('\n'));
}

/// The text of a saved line, without its line break.
pub open spec fn config_line_text(key: Seq<char>, value: Seq<char>) -> Seq<char> {
    key + seq!['='] + value
}

/// A saved `key=value` line is one line that keeps its last character.
pub proof fn lemma_config_line_shape(key: Seq<char>, value: Seq<char>)
    requires
        key.len() > 0,
        ini_safe_value(key),
        config_text_safe(value),
    ensures
        !config_line_text(key, value).contains('\n'),
        strip_cr(config_line_text(key, value)) == config_line_text(key, value),
{
    let k = key.len() as int;
    let t = config_line_text(key, value);
    assert(t[k] == '=');
    if value.len() == 0 {
        assert(t.last() == '=');
    } else {
        assert(t.last() == value.last());
    }
    assert(is_ws('\r'));
    if t.contains('\n') {
        let i = choose|i: int| 0 <= i < t.len() && t[i] == '\n';
        if i < k {
            assert(key[i] == t[i]);
            assert(key.contains('\n'));
        } else if i > k {
            assert(value[i - k - 1] == t[i]);
            assert(value.contains('\n'));
        }
    }
}

/// A saved `key=value` line is one line, and reads back as its key and value.
pub proof fn lemma_config_line(key: Seq<char>, value: Seq<char>)
    requires
        key.len() > 0,
        ini_safe_value(key),
        !key.contains('='),
        config_text_safe(value),
    ensures
        !config_line_text(key, value).contains('\n'),
        strip_cr(config_line_text(key, value)) == config_line_text(key, value),
        split_once(config_line_text(key, value), '=') == Some((key, value)),
        trim(key) == key,
        strip_escaped_newlines(trim(value)) == value,
{
    let k = key.len() as int;
    let t = config_line_text(key, value);
    assert(t.len() == k + 1 + value.len());
    assert(t[k] == '=');
    if value.len() == 0 {
        assert(t.last() == '=');
    } else {
        assert(t.last() == value.last());
    }
    assert(!is_ws(t.last()));
    assert(is_ws('\r'));
    assert forall|j: int| 0 <= j < k implies t[j] != '=' by {
        assert(t[j] == key[j]);
        if key[j] == '=' {
            assert(key.contains('='));
        }
    }
    assert(t.contains('='));
    let w = choose|i: int| 0 <= i < t.len() && t[i] == '=' && forall|j: int| 0 <= j < i ==> t[j] != '=';
    assert(w == k) by {
        if w > k {
            assert(t[k] != '=');
        }
    }
    assert(split_once(t, '=') == Some((t.take(k), t.skip(k + 1))));
    assert(t.take(k) =~= key);
    assert(t.skip(k + 1) =~= value);
    lemma_trim_no_surrounding_ws(key);
    lemma_trim_no_surrounding_ws(value);
    lemma_strip_identity(value);
    if t.contains('\n') {
        let i = choose|i: int| 0 <= i < t.len() && t[i] == '\n';
        if i < k {
            assert(key[i] == t[i]);
            assert(key.contains('\n'));
        } else if i > k {
            assert(value[i - k - 1] == t[i]);
            assert(value.contains('\n'));
        }
    }
}

proof fn lemma_config_keys()
    ensures
        "steamcmd"@.len() == 8 && "steamcmd"@[0] == 's' && "steamcmd"@[1] == 't',
        "force_install_dir"@.len() == 17,
        "donot_starve_server_directory"@.len() == 29,
        "cluster"@.len() == 7,
        "backup"@.len() == 6 && "backup"@[0] == 'b' && "backup"@[1] == 'a',
        "mod_download_path"@.len() == 17 && "mod_download_path"@[0] == 'm',
        "bin"@.len() == 3,
        "beta"@.len() == 4 && "beta"@[0] == 'b' && "beta"@[1] == 'e',
        "ugc_directory"@.len() == 13,
        "persistent_storage_root"@.len() == 23,
        "conf_dir"@.len() == 8 && "conf_dir"@[0] == 'c',
        "force_install_dir"@[0] == 'f',
        forall|k: int|
            0 <= k < 8 ==> #[trigger] "steamcmd"@[k] != '=' && "conf_dir"@[k] != '=',
        ini_safe_value("steamcmd"@) && ini_safe_value("force_install_dir"@) && ini_safe_value(
            "donot_starve_server_directory"@,
        ) && ini_safe_value("cluster"@) && ini_safe_value("backup"@) && ini_safe_value(
            "mod_download_path"@,
        ) && ini_safe_value("bin"@) && ini_safe_value("beta"@) && ini_safe_value("ugc_directory"@)
            && ini_safe_value("persistent_storage_root"@) && ini_safe_value("conf_dir"@),
        !"steamcmd"@.contains('=') && !"force_install_dir"@.contains('=') && !"donot_starve_server_directory"@.contains('=')
            && !"cluster"@.contains('=') && !"backup"@.contains('=') && !"mod_download_path"@.contains('=')
            && !"bin"@.contains('=') && !"beta"@.contains('=') && !"ugc_directory"@.contains('=')
            && !"persistent_storage_root"@.contains('=') && !"conf_dir"@.contains('='),
{
    reveal_strlit("steamcmd");
    reveal_strlit("force_install_dir");
    reveal_strlit("donot_starve_server_directory");
    reveal_strlit("cluster");
    reveal_strlit("backup");
    reveal_strlit("mod_download_path");
    reveal_strlit("bin");
    reveal_strlit("beta");
    reveal_strlit("ugc_directory");
    reveal_strlit("persistent_storage_root");
    reveal_strlit("conf_dir");
}

/// The lines of the saved file, in order.
pub open spec fn config_lines(c: DstConfigView) -> Seq<Seq<char>> {
    seq![
        config_line_text("steamcmd"@, c.steamcmd),
        config_line_text("force_install_dir"@, c.force_install_dir),
        config_line_text("donot_starve_server_directory"@, c.donot_starve_server_directory),
        config_line_text("ugc_directory"@, c.ugc_directory),
        config_line_text("conf_dir"@, c.conf_dir),
        config_line_text("persistent_storage_root"@, c.persistent_storage_root),
        config_line_text("cluster"@, c.cluster),
        config_line_text("backup"@, c.backup),
        config_line_text("mod_download_path"@, c.mod_download_path),
        config_line_text("bin"@, signed_decimal(c.bin as int)),
        config_line_text("beta"@, signed_decimal(c.beta as int)),
    ]
}

/// Every text setting can be saved on a line and read back.
pub open spec fn config_saveable(c: DstConfigView) -> bool {
    &&& config_text_safe(c.steamcmd)
    &&& config_text_safe(c.force_install_dir)
    &&& config_text_safe(c.donot_starve_server_directory)
    &&& config_text_safe(c.cluster)
    &&& config_text_safe(c.backup)
    &&& config_text_safe(c.mod_download_path)
    &&& config_text_safe(c.ugc_directory)
    &&& config_text_safe(c.persistent_storage_root)
    &&& config_text_safe(c.conf_dir)
}

/// The text of `ts` written one per line.
pub open spec fn saved_text(ts: Seq<Seq<char>>) -> Seq<char>
    decreases ts.len(),
{
    if ts.len() == 0 {
        Seq::empty()
    } else {
        saved_text(ts.drop_last()) + line(ts.last())
    }
}

/// Lines written one per line read back as themselves.
pub proof fn lemma_saved_text_lines(ts: Seq<Seq<char>>)
    requires
        forall|k: int| 0 <= k < ts.len() ==> !(#[trigger] ts[k]).contains('\n') && strip_cr(ts[k]) == ts[k],
    ensures
        lines(saved_text(ts)) == ts,
        ts.len() > 0 ==> saved_text(ts).last() == '\n',
    decreases ts.len(),
{
    if ts.len() == 0 {
        lemma_lines_empty();
    } else {
        let init = ts.drop_last();
        assert forall|k: int| 0 <= k < init.len() implies !(#[trigger] init[k]).contains('\n') && strip_cr(
            init[k],
        ) == init[k] by {
            assert(init[k] == ts[k]);
        }
        lemma_saved_text_lines(init);
        lemma_lines_push_line(saved_text(init), ts.last());
        assert(init.push(ts.last()) =~= ts);
    }
}

proof fn lemma_config_lines_clean(c: DstConfigView)
    requires
        config_saveable(c),
    ensures
        forall|k: int|
            0 <= k < config_lines(c).len() ==> !(#[trigger] config_lines(c)[k]).contains('\n') && strip_cr(
                config_lines(c)[k],
            ) == config_lines(c)[k],
{
    lemma_config_keys();
    lemma_config_number(c.bin);
    lemma_config_number(c.beta);
    lemma_config_line_shape("steamcmd"@, c.steamcmd);
    lemma_config_line_shape("force_install_dir"@, c.force_install_dir);
    lemma_config_line_shape("donot_starve_server_directory"@, c.donot_starve_server_directory);
    lemma_config_line_shape("ugc_directory"@, c.ugc_directory);
    lemma_config_line_shape("conf_dir"@, c.conf_dir);
    lemma_config_line_shape("persistent_storage_root"@, c.persistent_storage_root);
    lemma_config_line_shape("cluster"@, c.cluster);
    lemma_config_line_shape("backup"@, c.backup);
    lemma_config_line_shape("mod_download_path"@, c.mod_download_path);
    lemma_config_line_shape("bin"@, signed_decimal(c.bin as int));
    lemma_config_line_shape("beta"@, signed_decimal(c.beta as int));
    let t = config_lines(c);
    assert forall|k: int| 0 <= k < t.len() implies !(#[trigger] t[k]).contains('\n') && strip_cr(t[k]) == t[k] by {
        if k == 0 {
        } else if k == 1 {
        } else if k == 2 {
        } else if k == 3 {
        } else if k == 4 {
        } else if k == 5 {
        } else if k == 6 {
        } else if k == 7 {
        } else if k == 8 {
        } else if k == 9 {
        } else {
        }
    }
}

proof fn lemma_saved_text_step(ts: Seq<Seq<char>>, k: int)
    requires
        0 <= k < ts.len(),
    ensures
        saved_text(ts.take(k + 1)) == saved_text(ts.take(k)) + line(ts[k]),
{
    assert(ts.take(k + 1).drop_last() =~= ts.take(k));
}

proof fn lemma_config_text_saved(c: DstConfigView)
    ensures
        dst_config_text(c) == saved_text(config_lines(c)),
{
    let t = config_lines(c);
    assert(saved_text(t.take(0)) == Seq::<char>::empty());
    lemma_saved_text_step(t, 0);
    lemma_saved_text_step(t, 1);
    lemma_saved_text_step(t, 2);
    lemma_saved_text_step(t, 3);
    lemma_saved_text_step(t, 4);
    lemma_saved_text_step(t, 5);
    lemma_saved_text_step(t, 6);
    lemma_saved_text_step(t, 7);
    lemma_saved_text_step(t, 8);
    lemma_saved_text_step(t, 9);
    lemma_saved_text_step(t, 10);
    assert(t.take(11) =~= t);
    assert(Seq::<char>::empty() + line(t[0]) =~= line(t[0]));
}

pub proof fn lemma_config_text_lines(c: DstConfigView)
    requires
        config_saveable(c),
    ensures
        lines(dst_config_text(c)) == config_lines(c),
{
    lemma_config_lines_clean(c);
    lemma_saved_text_lines(config_lines(c));
    lemma_config_text_saved(c);
}

proof fn lemma_apply_saved_line(cfg: DstConfigView, key: Seq<char>, v: Seq<char>)
    requires
        key.len() > 0,
        ini_safe_value(key),
        !key.contains('='),
        config_text_safe(v),
    ensures
        apply_config_line(cfg, config_line_text(key, v)) == set_config_field(cfg, key, v),
{
    lemma_config_line(key, v);
}

proof fn lemma_apply_step(ts: Seq<Seq<char>>, k: int, c0: DstConfigView)
    requires
        0 <= k < ts.len(),
    ensures
        apply_config_lines(c0, ts.take(k + 1)) == apply_config_line(apply_config_lines(c0, ts.take(k)), ts[k]),
{
    assert(ts.take(k + 1).drop_last() =~= ts.take(k));
}

/// The configuration after the lines `ls`, reasoned about one line at a time.
#[verifier::opaque]
pub open spec fn applied_lines(c: DstConfigView, ls: Seq<Seq<char>>) -> DstConfigView {
    apply_config_lines(c, ls)
}

proof fn lemma_saved_line_step(t: Seq<Seq<char>>, k: int, key: Seq<char>, v: Seq<char>)
    requires
        0 <= k < t.len(),
        t[k] == config_line_text(key, v),
        key.len() > 0,
        ini_safe_value(key),
        !key.contains('='),
        config_text_safe(v),
    ensures
        applied_lines(empty_config(), t.take(k + 1)) == set_config_field(
            applied_lines(empty_config(), t.take(k)),
            key,
            v,
        ),
{
    reveal(applied_lines);
    lemma_apply_step(t, k, empty_config());
    lemma_apply_saved_line(apply_config_lines(empty_config(), t.take(k)), key, v);
}

proof fn lemma_set_steamcmd(cfg: DstConfigView, v: Seq<char>)
    ensures
        set_config_field(cfg, "steamcmd"@, v) == (DstConfigView { steamcmd: v, ..cfg }),
{
    lemma_config_keys();
}

proof fn lemma_set_force_install_dir(cfg: DstConfigView, v: Seq<char>)
    ensures
        set_config_field(cfg, "force_install_dir"@, v) == (DstConfigView { force_install_dir: v, ..cfg }),
{
    lemma_config_keys();
}

proof fn lemma_set_donot_starve_server_directory(cfg: DstConfigView, v: Seq<char>)
    ensures
        set_config_field(cfg, "donot_starve_server_directory"@, v) == (DstConfigView { donot_starve_server_directory: v, ..cfg }),
{
    lemma_config_keys();
}

proof fn lemma_set_ugc_directory(cfg: DstConfigView, v: Seq<char>)
    ensures
        set_config_field(cfg, "ugc_directory"@, v) == (DstConfigView { ugc_directory: v, ..cfg }),
{
    lemma_config_keys();
}

proof fn lemma_set_conf_dir(cfg: DstConfigView, v: Seq<char>)
    ensures
        set_config_field(cfg, "conf_dir"@, v) == (DstConfigView { conf_dir: v, ..cfg }),
{
    lemma_config_keys();
}

proof fn lemma_set_persistent_storage_root(cfg: DstConfigView, v: Seq<char>)
    ensures
        set_config_field(cfg, "persistent_storage_root"@, v) == (DstConfigView { persistent_storage_root: v, ..cfg }),
{
    lemma_config_keys();
}

proof fn lemma_set_cluster(cfg: DstConfigView, v: Seq<char>)
    ensures
        set_config_field(cfg, "cluster"@, v) == (DstConfigView { cluster: v, ..cfg }),
{
    lemma_config_keys();
}

proof fn lemma_set_backup(cfg: DstConfigView, v: Seq<char>)
    ensures
        set_config_field(cfg, "backup"@, v) == (DstConfigView { backup: v, ..cfg }),
{
    lemma_config_keys();
}

proof fn lemma_set_mod_download_path(cfg: DstConfigView, v: Seq<char>)
    ensures
        set_config_field(cfg, "mod_download_path"@, v) == (DstConfigView { mod_download_path: v, ..cfg }),
{
    lemma_config_keys();
}

proof fn lemma_set_bin(cfg: DstConfigView, n: i64)
    ensures
        set_config_field(cfg, "bin"@, signed_decimal(n as int)) == (DstConfigView { bin: n, ..cfg }),
{
    lemma_config_keys();
    lemma_config_number(n);
}

proof fn lemma_set_beta(cfg: DstConfigView, n: i64)
    ensures
        set_config_field(cfg, "beta"@, signed_decimal(n as int)) == (DstConfigView { beta: n, ..cfg }),
{
    lemma_config_keys();
    lemma_config_number(n);
}

/// Saving a configuration and reading the file back gives the same
/// configuration, when every text setting fits on one line: no line break,
/// no surrounding whitespace and no `\n` escape.
pub proof fn lemma_dst_config_roundtrip(c: DstConfigView)
    requires
        config_saveable(c),
    ensures
        dst_config_from(dst_config_text(c)) == c,
{
    lemma_config_text_lines(c);
    lemma_config_keys();
    lemma_config_number(c.bin);
    lemma_config_number(c.beta);
    let t = config_lines(c);
    let e = empty_config();
    assert(applied_lines(e, t.take(0)) == e) by {
        reveal(applied_lines);
        assert(t.take(0) =~= Seq::<Seq<char>>::empty());
    }
    lemma_saved_line_step(t, 0, "steamcmd"@, c.steamcmd);
    lemma_set_steamcmd(e, c.steamcmd);
    let a1 = DstConfigView { steamcmd: c.steamcmd, ..e };
    lemma_saved_line_step(t, 1, "force_install_dir"@, c.force_install_dir);
    lemma_set_force_install_dir(a1, c.force_install_dir);
    let a2 = DstConfigView { force_install_dir: c.force_install_dir, ..a1 };
    lemma_saved_line_step(t, 2, "donot_starve_server_directory"@, c.donot_starve_server_directory);
    lemma_set_donot_starve_server_directory(a2, c.donot_starve_server_directory);
    let a3 = DstConfigView { donot_starve_server_directory: c.donot_starve_server_directory, ..a2 };
    lemma_saved_line_step(t, 3, "ugc_directory"@, c.ugc_directory);
    lemma_set_ugc_directory(a3, c.ugc_directory);
    let a4 = DstConfigView { ugc_directory: c.ugc_directory, ..a3 };
    lemma_saved_line_step(t, 4, "conf_dir"@, c.conf_dir);
    lemma_set_conf_dir(a4, c.conf_dir);
    let a5 = DstConfigView { conf_dir: c.conf_dir, ..a4 };
    lemma_saved_line_step(t, 5, "persistent_storage_root"@, c.persistent_storage_root);
    lemma_set_persistent_storage_root(a5, c.persistent_storage_root);
    let a6 = DstConfigView { persistent_storage_root: c.persistent_storage_root, ..a5 };
    lemma_saved_line_step(t, 6, "cluster"@, c.cluster);
    lemma_set_cluster(a6, c.cluster);
    let a7 = DstConfigView { cluster: c.cluster, ..a6 };
    lemma_saved_line_step(t, 7, "backup"@, c.backup);
    lemma_set_backup(a7, c.backup);
    let a8 = DstConfigView { backup: c.backup, ..a7 };
    lemma_saved_line_step(t, 8, "mod_download_path"@, c.mod_download_path);
    lemma_set_mod_download_path(a8, c.mod_download_path);
    let a9 = DstConfigView { mod_download_path: c.mod_download_path, ..a8 };
    lemma_saved_line_step(t, 9, "bin"@, signed_decimal(c.bin as int));
    lemma_set_bin(a9, c.bin);
    let a10 = DstConfigView { bin: c.bin, ..a9 };
    lemma_saved_line_step(t, 10, "beta"@, signed_decimal(c.beta as int));
    lemma_set_beta(a10, c.beta);
    assert(t.take(11) =~= t);
    assert(applied_lines(e, t) == apply_config_lines(e, t)) by {
        reveal(applied_lines);
    }
}

/// One component of a path, as `Path::components` gives it.
pub enum PathPiece {
    Prefix,
    Root,
    CurDir,
    ParentDir,
    Normal(String),
    /// A plain name that is not valid UTF-8.
    NotUtf8,
}

/// Why a cluster directory cannot be anchored for safe access.
pub enum ClusterPathError {
    MissingClusterName,
    InvalidClusterName(ValidationError),
    MissingKleiRootName,
}

impl ClusterPathError {
    pub fn message(&self) -> (m: String)
        ensures
            m@ == match *self {
                ClusterPathError::MissingClusterName => "missing cluster name"@,
                ClusterPathError::InvalidClusterName(e) => "invalid "@ + e.field@ + ": "@ + e.reason.text_spec(),
                ClusterPathError::MissingKleiRootName => "missing Klei root name"@,
            },
    {
        match self {
            ClusterPathError::MissingClusterName => "missing cluster name".to_string(),
            ClusterPathError::InvalidClusterName(e) => e.message(),
            ClusterPathError::MissingKleiRootName => "missing Klei root name".to_string(),
        }
    }
}

pub open spec fn piece_name(p: PathPiece) -> Option<Seq<char>> {
    match p {
        PathPiece::Normal(s) => Some(s@),
        _ => None,
    }
}

/// Where files of a cluster are reached from: the directory made of the
/// first `base_len` components of the cluster path, and the names below it.
pub struct ClusterAnchor {
    pub base_len: usize,
    pub relative: Vec<String>,
}

/// The anchor of the cluster directory `c`: its last component names the
/// cluster, the one before names the Klei root; the Klei root is reached
/// from the directory above `.klei` when its parent is named `.klei`, and
/// from its own parent otherwise.
pub open spec fn cluster_anchor_spec(c: Seq<PathPiece>) -> Result<(int, Seq<Seq<char>>), ClusterPathError> {
    let n = c.len() as int;
    if n == 0 || piece_name(c[n - 1]) is None {
        Err(ClusterPathError::MissingClusterName)
    } else {
        let cluster = piece_name(c[n - 1])->0;
        match path_atom_problem(cluster) {
            Some(reason) => Err(
                ClusterPathError::InvalidClusterName(ValidationError { field: "cluster name", reason }),
            ),
            None => if n - 1 == 0 || piece_name(c[n - 2]) is None {
                Err(ClusterPathError::MissingKleiRootName)
            } else {
                let leaf = piece_name(c[n - 2])->0;
                let p = n - 2;
                if p > 0 && piece_name(c[p - 1]) == Some(".klei"@) {
                    Ok((p - 1, seq![".klei"@, leaf, cluster]))
                } else {
                    Ok((p, seq![leaf, cluster]))
                }
            },
        }
    }
}

/// Splits a cluster directory into the directory that safe access starts
/// from and the names below it that lead to the cluster.
pub fn cluster_anchor(c: &Vec<PathPiece>) -> (r: Result<ClusterAnchor, ClusterPathError>)
    ensures
        match cluster_anchor_spec(c@) {
            Ok((len, names)) => r matches Ok(a) && a.base_len == len && crate::fs_path::string_views(a.relative@)
                == names,
            Err(e) => r matches Err(x) && x == e,
        },
{
    let n = c.len();
    if n == 0 {
        return Err(ClusterPathError::MissingClusterName);
    }
    let cluster = match &c[n - 1] {
        PathPiece::Normal(s) => s,
        _ => return Err(ClusterPathError::MissingClusterName),
    };
    let name = match validate_cluster_name(cluster.as_str()) {
        Ok(v) => v,
        Err(e) => return Err(ClusterPathError::InvalidClusterName(e)),
    };
    if n < 2 {
        return Err(ClusterPathError::MissingKleiRootName);
    }
    let leaf = match &c[n - 2] {
        PathPiece::Normal(s) => s,
        _ => return Err(ClusterPathError::MissingKleiRootName),
    };
    let p = n - 2;
    let klei_parent = if p > 0 {
        match &c[p - 1] {
            PathPiece::Normal(s) => chars_eq(&chars_of(s.as_str()), &chars_of(".klei")),
            _ => false,
        }
    } else {
        false
    };
    let mut relative: Vec<String> = Vec::new();
    let base_len = if klei_parent {
        relative.push(".klei".to_string());
        p - 1
    } else {
        p
    };
    relative.push(leaf.clone());
    relative.push(name.into_string());
    proof {
        if klei_parent {
            assert(crate::fs_path::string_views(relative@) =~= seq![".klei"@, leaf@, cluster@]);
        } else {
            assert(crate::fs_path::string_views(relative@) =~= seq![leaf@, cluster@]);
        }
    }
    Ok(ClusterAnchor { base_len, relative })
}

} // verus!
