//! Authentication: the `password.txt` login file, in-memory sessions, the
//! session cookie and the paths that need no login.
use vstd::prelude::*;
use crate::ini::{eq_text, kv_text, lemma_eq_line_pair, lemma_kv_line};
use crate::text::{line, lemma_lines_empty, lemma_lines_push_line, strip_cr};
use crate::text::{chars_eq, chars_of, find_char, line_ranges, lines, push_char, push_str,
    ranges_view, ranges_within, split_once, starts_with, starts_with_exec, string_from_range, trim,
    trim_range};

verus! {

broadcast use vstd::string::group_string_axioms;

/// Name of the session cookie.
pub const SESSION_COOKIE_NAME: &'static str = "token";

/// Lifetime of a session in seconds: seven days.
pub const SESSION_MAX_AGE_SECONDS: u64 = 604800;

/// Lifetime of a session in nanoseconds.
pub const SESSION_TTL_NANOS: u128 = 604800000000000;

/// The login file: one `key=value` (or `key = value`) line per setting.
#[derive(Clone, PartialEq, Eq)]
pub struct PasswordFile {
    pub username: String,
    pub password: String,
    pub display_name: String,
    pub photo_url: String,
}

/// What the client learns about the logged-in user.
#[derive(Debug, Clone, PartialEq, Eq)]
pub struct PublicUser {
    pub username: String,
    pub display_name: String,
    pub photo_url: String,
}

/// A login request.
#[derive(Clone)]
pub struct UserCredentials {
    pub username: String,
    pub password: String,
    pub session_id: Option<String>,
}

/// Why the login file cannot be used.
#[derive(Debug, Clone, PartialEq, Eq)]
pub enum PasswordFileError {
    /// The file sets no value for this key.
    MissingKey(&'static str),
}

impl PasswordFileError {
    /// The message returned to the client.
    pub fn message(&self) -> (s: String)
        ensures
            match self {
                PasswordFileError::MissingKey(k) => s@ == "password file missing `"@ + k@ + "`"@,
            },
    {
        match self {
            PasswordFileError::MissingKey(k) => {
                let mut s = "password file missing `".to_string();
                push_str(&mut s, k);
                push_str(&mut s, "`");
                s
            },
        }
    }
}

pub struct PasswordFieldsView {
    pub username: Option<Seq<char>>,
    pub password: Option<Seq<char>>,
    pub display_name: Option<Seq<char>>,
    pub photo_url: Option<Seq<char>>,
}

/// The settings after one line: a non-blank `key=value` line sets the setting
/// of its trimmed key to its trimmed value; other lines change nothing.
pub open spec fn password_line(f: PasswordFieldsView, l: Seq<char>) -> PasswordFieldsView {
    let t = trim(l);
    if t.len() == 0 {
        f
    } else {
        match split_once(t, '=') {
            None => f,
            Some((k, v)) => {
                let key = trim(k);
                let value = trim(v);
                if key == "username"@ {
                    PasswordFieldsView { username: Some(value), ..f }
                } else if key == "password"@ {
                    PasswordFieldsView { password: Some(value), ..f }
                } else if key == "displayName"@ {
                    PasswordFieldsView { display_name: Some(value), ..f }
                } else if key == "photoURL"@ {
                    PasswordFieldsView { photo_url: Some(value), ..f }
                } else {
                    f
                }
            },
        }
    }
}

pub open spec fn password_lines(ls: Seq<Seq<char>>) -> PasswordFieldsView
    decreases ls.len(),
{
    if ls.len() == 0 {
        PasswordFieldsView { username: None, password: None, display_name: None, photo_url: None }
    } else {
        password_line(password_lines(ls.drop_last()), ls.last())
    }
}

/// The settings that the file text gives.
pub open spec fn password_fields(contents: Seq<char>) -> PasswordFieldsView {
    password_lines(lines(contents))
}

/// The rendered login file.
pub open spec fn password_text(p: PasswordFile) -> Seq<char> {
    "username = "@ + p.username@ + "\npassword = "@ + p.password@ + "\ndisplayName="@ + p.display_name@
        + "\nphotoURL="@ + p.photo_url@ + "\n"@
}

fn set_field(target: &mut Option<String>, v: &Vec<char>, lo: usize, hi: usize)
    requires
        lo <= hi <= v.len(),
    ensures
        *final(target) matches Some(s) && s@ == v@.subrange(lo as int, hi as int),
{
    *target = Some(string_from_range(v, lo, hi));
}

fn opt_view(o: &Option<String>) -> (r: Ghost<Option<Seq<char>>>)
    ensures
        r@ == match o {
            Some(s) => Some(s@),
            None => None::<Seq<char>>,
        },
{
    Ghost(match o {
        Some(s) => Some(s@),
        None => None,
    })
}

pub open spec fn opt_views(
    u: Option<String>,
    p: Option<String>,
    d: Option<String>,
    ph: Option<String>,
) -> PasswordFieldsView {
    PasswordFieldsView {
        username: match u {
            Some(s) => Some(s@),
            None => None,
        },
        password: match p {
            Some(s) => Some(s@),
            None => None,
        },
        display_name: match d {
            Some(s) => Some(s@),
            None => None,
        },
        photo_url: match ph {
            Some(s) => Some(s@),
            None => None,
        },
    }
}

impl PasswordFile {
    /// Parses the login file; each of `username`, `password`, `displayName`
    /// and `photoURL` must be set, and the first missing one is reported.
    #[verifier::rlimit(60)]
    pub fn parse(contents: &str) -> (r: Result<PasswordFile, PasswordFileError>)
        ensures
            ({
                let f = password_fields(contents@);
                if f.username is None {
                    r == Err::<PasswordFile, PasswordFileError>(PasswordFileError::MissingKey("username"))
                } else if f.password is None {
                    r == Err::<PasswordFile, PasswordFileError>(PasswordFileError::MissingKey("password"))
                } else if f.display_name is None {
                    r == Err::<PasswordFile, PasswordFileError>(PasswordFileError::MissingKey("displayName"))
                } else if f.photo_url is None {
                    r == Err::<PasswordFile, PasswordFileError>(PasswordFileError::MissingKey("photoURL"))
                } else {
                    r matches Ok(p) && p.username@ == f.username->Some_0 && p.password@
                        == f.password->Some_0 && p.display_name@ == f.display_name->Some_0
                        && p.photo_url@ == f.photo_url->Some_0
                }
            }),
    {
        let v = chars_of(contents);
        let rs = line_ranges(&v);
        let ghost ls = lines(v@);
        let mut username: Option<String> = None;
        let mut password: Option<String> = None;
        let mut display_name: Option<String> = None;
        let mut photo_url: Option<String> = None;
        let k_user = chars_of("username");
        let k_pass = chars_of("password");
        let k_disp = chars_of("displayName");
        let k_photo = chars_of("photoURL");
        let mut k: usize = 0;
        while k < rs.len()
            invariant
                v@ == contents@,
                ls == lines(v@),
                k_user@ == "username"@,
                k_pass@ == "password"@,
                k_disp@ == "displayName"@,
                k_photo@ == "photoURL"@,
                ranges_within(rs@, 0, v.len() as int),
                ranges_view(v@, rs@) == ls,
                k <= rs.len(),
                opt_views(username, password, display_name, photo_url) == password_lines(ls.take(k as int)),
            decreases rs.len() - k,
        {
            let (lo, hi) = rs[k];
            assert(0 <= rs@[k as int].0 <= rs@[k as int].1 <= v.len());
            let ghost l = v@.subrange(lo as int, hi as int);
            proof {
                assert(ls.take(k + 1).drop_last() =~= ls.take(k as int));
                assert(ls.take(k + 1).last() == ls[k as int]);
                assert(ls[k as int] == l);
            }
            let (tlo, thi) = trim_range(&v, lo, hi);
            let ghost t = v@.subrange(tlo as int, thi as int);
            if tlo < thi {
                match find_char(&v, tlo, thi, '=') {
                    None => {
                        assert(split_once(t, '=') is None);
                    },
                    Some(e) => {
                        proof {
                            assert(t.take(e - tlo) =~= v@.subrange(tlo as int, e as int));
                            assert(t.skip(e - tlo + 1) =~= v@.subrange(e + 1, thi as int));
                            assert(split_once(t, '=') == Some((t.take(e - tlo), t.skip(e - tlo + 1))));
                        }
                        let (klo, khi) = trim_range(&v, tlo, e);
                        let (vlo, vhi) = trim_range(&v, e + 1, thi);
                        if crate::text::range_eq(&v, klo, khi, &k_user) {
                            set_field(&mut username, &v, vlo, vhi);
                        } else if crate::text::range_eq(&v, klo, khi, &k_pass) {
                            set_field(&mut password, &v, vlo, vhi);
                        } else if crate::text::range_eq(&v, klo, khi, &k_disp) {
                            set_field(&mut display_name, &v, vlo, vhi);
                        } else if crate::text::range_eq(&v, klo, khi, &k_photo) {
                            set_field(&mut photo_url, &v, vlo, vhi);
                        }
                    },
                }
            }
            k = k + 1;
        }
        proof {
            assert(ls.take(rs.len() as int) =~= ls);
        }
        let username = match username {
            Some(u) => u,
            None => return Err(PasswordFileError::MissingKey("username")),
        };
        let password = match password {
            Some(p) => p,
            None => return Err(PasswordFileError::MissingKey("password")),
        };
        let display_name = match display_name {
            Some(d) => d,
            None => return Err(PasswordFileError::MissingKey("displayName")),
        };
        let photo_url = match photo_url {
            Some(p) => p,
            None => return Err(PasswordFileError::MissingKey("photoURL")),
        };
        Ok(PasswordFile { username, password, display_name, photo_url })
    }

    /// The file text, with the key order and spacing that the panel writes.
    pub fn render(&self) -> (s: String)
        ensures
            s@ == password_text(*self),
    {
        let mut s = "username = ".to_string();
        push_str(&mut s, self.username.as_str());
        push_str(&mut s, "\npassword = ");
        push_str(&mut s, self.password.as_str());
        push_str(&mut s, "\ndisplayName=");
        push_str(&mut s, self.display_name.as_str());
        push_str(&mut s, "\nphotoURL=");
        push_str(&mut s, self.photo_url.as_str());
        push_str(&mut s, "\n");
        s
    }

    /// What the client learns about this user: all but the password.
    pub fn public_user(&self) -> (u: PublicUser)
        ensures
            u.username@ == self.username@,
            u.display_name@ == self.display_name@,
            u.photo_url@ == self.photo_url@,
    {
        PublicUser {
            username: self.username.clone(),
            display_name: self.display_name.clone(),
            photo_url: self.photo_url.clone(),
        }
    }
}

impl UserCredentials {
    /// Forgets the password once it has been checked.
    pub fn clear_password(&mut self)
        ensures
            final(self).password@ == Seq::<char>::empty(),
            final(self).username@ == old(self).username@,
            final(self).session_id == old(self).session_id,
    {
        self.password = String::new();
    }
}

proof fn lemma_username_line(f: PasswordFieldsView, v: Seq<char>)
    requires
        crate::ini::ini_safe_value(v),
    ensures
        password_line(f, kv_text("username"@, v)) == (PasswordFieldsView { username: Some(v), ..f }),
        !kv_text("username"@, v).contains('\n'),
        kv_text("username"@, v).last() != '\r',
{
    reveal_strlit("username");
    assert(!"username"@.contains('='));
    assert(!"username"@.contains('\n'));
    lemma_kv_line("username"@, v);
}

proof fn lemma_password_field_line(f: PasswordFieldsView, v: Seq<char>)
    requires
        crate::ini::ini_safe_value(v),
    ensures
        password_line(f, kv_text("password"@, v)) == (PasswordFieldsView { password: Some(v), ..f }),
        !kv_text("password"@, v).contains('\n'),
        kv_text("password"@, v).last() != '\r',
{
    reveal_strlit("username");
    reveal_strlit("password");
    assert(!"password"@.contains('='));
    assert(!"password"@.contains('\n'));
    lemma_kv_line("password"@, v);
}

proof fn lemma_display_name_line(f: PasswordFieldsView, v: Seq<char>)
    requires
        crate::ini::ini_safe_value(v),
    ensures
        password_line(f, eq_text("displayName"@, v)) == (PasswordFieldsView { display_name: Some(v), ..f }),
        !eq_text("displayName"@, v).contains('\n'),
        eq_text("displayName"@, v).last() != '\r',
{
    reveal_strlit("username");
    reveal_strlit("password");
    reveal_strlit("displayName");
    assert(!"displayName"@.contains('='));
    assert(!"displayName"@.contains('\n'));
    lemma_eq_line_pair("displayName"@, v);
}

proof fn lemma_photo_url_line(f: PasswordFieldsView, v: Seq<char>)
    requires
        crate::ini::ini_safe_value(v),
    ensures
        password_line(f, eq_text("photoURL"@, v)) == (PasswordFieldsView { photo_url: Some(v), ..f }),
        !eq_text("photoURL"@, v).contains('\n'),
        eq_text("photoURL"@, v).last() != '\r',
{
    reveal_strlit("username");
    reveal_strlit("password");
    reveal_strlit("displayName");
    reveal_strlit("photoURL");
    assert(!"photoURL"@.contains('='));
    assert(!"photoURL"@.contains('\n'));
    lemma_eq_line_pair("photoURL"@, v);
}

/// The written login file, line by line.
proof fn lemma_password_text_shape(p: PasswordFile)
    ensures
        password_text(p) == line(kv_text("username"@, p.username@)) + line(kv_text("password"@, p.password@))
            + line(eq_text("displayName"@, p.display_name@)) + line(eq_text("photoURL"@, p.photo_url@)),
{
    reveal_strlit("username");
    reveal_strlit("password");
    reveal_strlit("displayName");
    reveal_strlit("photoURL");
    reveal_strlit("username = ");
    reveal_strlit("\npassword = ");
    reveal_strlit("\ndisplayName=");
    reveal_strlit("\nphotoURL=");
    reveal_strlit("\n");
    reveal_strlit(" = ");
    reveal_strlit("=");
    assert(password_text(p) =~= line(kv_text("username"@, p.username@)) + line(kv_text("password"@, p.password@))
        + line(eq_text("displayName"@, p.display_name@)) + line(eq_text("photoURL"@, p.photo_url@)));
}

/// The lines of a written login file.
proof fn lemma_password_lines(p: PasswordFile)
    requires
        crate::ini::ini_safe_value(p.username@),
        crate::ini::ini_safe_value(p.password@),
        crate::ini::ini_safe_value(p.display_name@),
        crate::ini::ini_safe_value(p.photo_url@),
    ensures
        lines(password_text(p)) == seq![kv_text("username"@, p.username@), kv_text("password"@, p.password@),
            eq_text("displayName"@, p.display_name@), eq_text("photoURL"@, p.photo_url@)],
{
    let l1 = kv_text("username"@, p.username@);
    let l2 = kv_text("password"@, p.password@);
    let l3 = eq_text("displayName"@, p.display_name@);
    let l4 = eq_text("photoURL"@, p.photo_url@);
    let f0 = PasswordFieldsView { username: None, password: None, display_name: None, photo_url: None };
    lemma_username_line(f0, p.username@);
    lemma_password_field_line(f0, p.password@);
    lemma_display_name_line(f0, p.display_name@);
    lemma_photo_url_line(f0, p.photo_url@);
    lemma_password_text_shape(p);
    let t0 = Seq::<char>::empty();
    let t1 = t0 + line(l1);
    let t2 = t1 + line(l2);
    let t3 = t2 + line(l3);
    let t4 = t3 + line(l4);
    assert(t0 + line(l1) =~= line(l1));
    assert(password_text(p) == t4);
    lemma_lines_empty();
    lemma_lines_push_line(t0, l1);
    lemma_lines_push_line(t1, l2);
    lemma_lines_push_line(t2, l3);
    lemma_lines_push_line(t3, l4);
    assert(lines(t4) =~= seq![l1, l2, l3, l4]);
}

/// Reading back a written login file gives the same four settings, when
/// none of them has surrounding whitespace or a line break.
#[verifier::rlimit(100)]
pub proof fn lemma_password_roundtrip(p: PasswordFile)
    requires
        crate::ini::ini_safe_value(p.username@),
        crate::ini::ini_safe_value(p.password@),
        crate::ini::ini_safe_value(p.display_name@),
        crate::ini::ini_safe_value(p.photo_url@),
    ensures
        password_fields(password_text(p)) == (PasswordFieldsView {
            username: Some(p.username@),
            password: Some(p.password@),
            display_name: Some(p.display_name@),
            photo_url: Some(p.photo_url@),
        }),
{
    let l1 = kv_text("username"@, p.username@);
    let l2 = kv_text("password"@, p.password@);
    let l3 = eq_text("displayName"@, p.display_name@);
    let l4 = eq_text("photoURL"@, p.photo_url@);
    let f0 = PasswordFieldsView { username: None, password: None, display_name: None, photo_url: None };
    lemma_username_line(f0, p.username@);
    let f1 = password_line(f0, l1);
    lemma_password_field_line(f1, p.password@);
    let f2 = password_line(f1, l2);
    lemma_display_name_line(f2, p.display_name@);
    let f3 = password_line(f2, l3);
    lemma_photo_url_line(f3, p.photo_url@);
    lemma_password_lines(p);
    let ls = seq![l1, l2, l3, l4];
    assert(password_lines(seq![l1]) == f1) by {
        assert(seq![l1].drop_last() =~= Seq::<Seq<char>>::empty());
        assert(password_lines(Seq::<Seq<char>>::empty()) == f0);
        assert(seq![l1].last() == l1);
    }
    assert(password_lines(seq![l1, l2]) == f2) by {
        assert(seq![l1, l2].drop_last() =~= seq![l1]);
        assert(seq![l1, l2].last() == l2);
    }
    assert(password_lines(seq![l1, l2, l3]) == f3) by {
        assert(seq![l1, l2, l3].drop_last() =~= seq![l1, l2]);
        assert(seq![l1, l2, l3].last() == l3);
    }
    assert(ls.drop_last() =~= seq![l1, l2, l3]);
    assert(ls.last() == l4);
    assert(password_fields(password_text(p)) == password_lines(ls));
}

} // verus!
