//! Backup archives: the DST world `.meta` file, a Lua table literal read
//! without running it; the season and clock fields a backup name describes;
//! the name itself; and the names of the entries written into an archive.
use vstd::prelude::*;
use vstd::multiset::Multiset;
use crate::cluster_ini::{cluster_ini_from, ClusterIni};
use crate::numbers::{i64_to_chars, signed_decimal};
use crate::validation::{path_atom_problem, validate_backup_archive_name, validate_filename, ValidationError};
use crate::restore::{is_listed_backup_archive, listed_archive};
use crate::text::{lemma_text_le_refl, lemma_text_le_total, lemma_text_le_trans, text_le, text_le_exec, push_chars, push_str, chars_of, is_ascii_alphanumeric, is_ascii_digit, is_whitespace, is_ws, string_from_range};

verus! {

/// A value of the Lua table literal, as parsed: numbers keep their text.
pub enum LuaValue {
    Table(Vec<(String, LuaValue)>),
    Str(String),
    Number(String),
    Bool(bool),
}

/// The mathematical form of a parsed Lua value.
pub enum LuaVal {
    Table(Seq<(Seq<char>, LuaVal)>),
    Str(Seq<char>),
    Num(Seq<char>),
    Bool(bool),
}

pub open spec fn lua_view(v: LuaValue) -> LuaVal
    decreases v,
{
    match v {
        LuaValue::Table(fields) => LuaVal::Table(fields_view(fields@)),
        LuaValue::Str(t) => LuaVal::Str(t@),
        LuaValue::Number(t) => LuaVal::Num(t@),
        LuaValue::Bool(b) => LuaVal::Bool(b),
    }
}

pub open spec fn fields_view(f: Seq<(String, LuaValue)>) -> Seq<(Seq<char>, LuaVal)>
    decreases f,
{
    if f.len() == 0 {
        Seq::empty()
    } else {
        fields_view(f.subrange(0, f.len() - 1)).push((f[f.len() - 1].0@, lua_view(f[f.len() - 1].1)))
    }
}

pub open spec fn line_end(s: Seq<char>, i: int) -> int
    decreases s.len() - i,
{
    if 0 <= i < s.len() && s[i] != '\n' {
        line_end(s, i + 1)
    } else {
        i
    }
}

pub open spec fn comment_at(s: Seq<char>, i: int) -> bool {
    0 <= i && i + 1 < s.len() && s[i] == '-' && s[i + 1] == '-'
}

/// The position after whitespace and `--` line comments from `i`.
pub open spec fn skip_ws(s: Seq<char>, i: int) -> int
    decreases s.len() - i,
{
    if 0 <= i < s.len() && is_ws(s[i]) {
        skip_ws(s, i + 1)
    } else if comment_at(s, i) {
        let e = line_end(s, i + 2);
        if i < e <= s.len() {
            skip_ws(s, e)
        } else {
            i
        }
    } else {
        i
    }
}

pub proof fn lemma_line_end(s: Seq<char>, i: int)
    requires
        0 <= i <= s.len(),
    ensures
        i <= line_end(s, i) <= s.len(),
    decreases s.len() - i,
{
    if i < s.len() && s[i] != '\n' {
        lemma_line_end(s, i + 1);
    }
}

pub proof fn lemma_skip_ws(s: Seq<char>, i: int)
    requires
        0 <= i <= s.len(),
    ensures
        i <= skip_ws(s, i) <= s.len(),
    decreases s.len() - i,
{
    if i < s.len() && is_ws(s[i]) {
        lemma_skip_ws(s, i + 1);
    } else if comment_at(s, i) {
        lemma_line_end(s, i + 2);
        lemma_skip_ws(s, line_end(s, i + 2));
    }
}

fn skip_ws_exec(v: &Vec<char>, i: usize) -> (j: usize)
    requires
        i <= v.len(),
    ensures
        j == skip_ws(v@, i as int),
        i <= j <= v.len(),
{
    let mut k = i;
    loop
        invariant
            i <= k <= v.len(),
            skip_ws(v@, k as int) == skip_ws(v@, i as int),
        decreases v.len() - k,
    {
        if k < v.len() && is_whitespace(v[k]) {
            k = k + 1;
        } else if k < v.len() && v.len() - k > 1 && v[k] == '-' && v[k + 1] == '-' {
            let mut e = k + 2;
            while e < v.len() && v[e] != '\n'
                invariant
                    k + 2 <= e <= v.len(),
                    line_end(v@, e as int) == line_end(v@, k + 2),
                decreases v.len() - e,
            {
                e = e + 1;
            }
            k = e;
        } else {
            return k;
        }
    }
}

pub open spec fn ident_start(c: char) -> bool {
    c == '_' || ('a' <= c && c <= 'z') || ('A' <= c && c <= 'Z')
}

pub open spec fn ident_char(c: char) -> bool {
    c == '_' || is_ascii_alphanumeric(c)
}

pub open spec fn ident_end(s: Seq<char>, i: int) -> int
    decreases s.len() - i,
{
    if 0 <= i < s.len() && ident_char(s[i]) {
        ident_end(s, i + 1)
    } else {
        i
    }
}

/// An identifier after whitespace: a letter or `_`, then letters, digits and `_`.
pub open spec fn parse_ident(s: Seq<char>, i: int) -> Option<(Seq<char>, int)> {
    let j = skip_ws(s, i);
    if 0 <= j < s.len() && ident_start(s[j]) {
        let e = ident_end(s, j + 1);
        Some((s.subrange(j, e), e))
    } else {
        None
    }
}

fn ident_char_exec(c: char) -> (b: bool)
    ensures
        b == ident_char(c),
{
    c == '_' || ('0' <= c && c <= '9') || ('A' <= c && c <= 'Z') || ('a' <= c && c <= 'z')
}

fn parse_ident_exec(v: &Vec<char>, i: usize) -> (r: Option<(String, usize)>)
    requires
        i <= v.len(),
    ensures
        match r {
            Some((t, e)) => parse_ident(v@, i as int) == Some((t@, e as int)) && i < e <= v.len(),
            None => parse_ident(v@, i as int) is None,
        },
{
    let j = skip_ws_exec(v, i);
    if j < v.len() && (v[j] == '_' || ('a' <= v[j] && v[j] <= 'z') || ('A' <= v[j] && v[j] <= 'Z')) {
        let mut e = j + 1;
        while e < v.len() && ident_char_exec(v[e])
            invariant
                j + 1 <= e <= v.len(),
                ident_end(v@, e as int) == ident_end(v@, j + 1),
            decreases v.len() - e,
        {
            e = e + 1;
        }
        let t = string_from_range(v, j, e);
        Some((t, e))
    } else {
        None
    }
}

/// Whether the word `w` stands at `j`, not followed by an identifier character.
pub open spec fn word_at(s: Seq<char>, j: int, w: Seq<char>) -> bool {
    &&& 0 <= j
    &&& j + w.len() <= s.len()
    &&& s.subrange(j, j + w.len()) == w
    &&& !(j + w.len() < s.len() && ident_char(s[j + w.len()]))
}

/// The position after the word `w` that follows whitespace from `i`.
pub open spec fn consume_word(s: Seq<char>, i: int, w: Seq<char>) -> Option<int> {
    let j = skip_ws(s, i);
    if word_at(s, j, w) {
        Some(j + w.len())
    } else {
        None
    }
}

fn consume_word_exec(v: &Vec<char>, i: usize, w: &str) -> (r: Option<usize>)
    requires
        i <= v.len(),
        w@.len() > 0,
    ensures
        r matches Some(e) ==> i < e,
        r == match consume_word(v@, i as int, w@) {
            Some(e) => Some(e as usize),
            None => None::<usize>,
        },
        r matches Some(e) ==> e <= v.len(),
{
    let j = skip_ws_exec(v, i);
    let p = chars_of(w);
    if p.len() > v.len() - j {
        return None;
    }
    let mut k: usize = 0;
    while k < p.len()
        invariant
            j + p.len() <= v.len(),
            p@ == w@,
            j == skip_ws(v@, i as int),
            k <= p.len(),
            forall|m: int| 0 <= m < k ==> v@[j + m] == p@[m],
        decreases p.len() - k,
    {
        if v[j + k] != p[k] {
            assert(v@.subrange(j as int, j + p.len())[k as int] != w@[k as int]);
            assert(v@.subrange(j as int, j + w@.len()) != w@);
            assert(!word_at(v@, j as int, w@));
            return None;
        }
        k = k + 1;
    }
    assert(v@.subrange(j as int, j + p.len()) =~= p@);
    let e = j + p.len();
    if e < v.len() && ident_char_exec(v[e]) {
        return None;
    }
    Some(e)
}

pub open spec fn is_quote(c: char) -> bool {
    c == '"' || c == '\''
}

/// The character an escape `\c` stands for.
pub open spec fn unescape(c: char) -> char {
    if c == 'n' {
        '\n'
    } else if c == 'r' {
        '\r'
    } else if c == 't' {
        '\t'
    } else {
        c
    }
}

/// The rest of a string literal closed by `q`, from `k`, after the text `acc`.
pub open spec fn string_body(s: Seq<char>, k: int, q: char, acc: Seq<char>) -> Option<(Seq<char>, int)>
    decreases s.len() - k,
{
    if k < 0 || k >= s.len() {
        None
    } else if s[k] == q {
        Some((acc, k + 1))
    } else if s[k] == '\\' {
        if k + 1 >= s.len() {
            None
        } else {
            string_body(s, k + 2, q, acc.push(unescape(s[k + 1])))
        }
    } else {
        string_body(s, k + 1, q, acc.push(s[k]))
    }
}

/// A quoted string starting at `i`.
pub open spec fn parse_string(s: Seq<char>, i: int) -> Option<(Seq<char>, int)> {
    if 0 <= i < s.len() && is_quote(s[i]) {
        string_body(s, i + 1, s[i], Seq::empty())
    } else {
        None
    }
}

pub proof fn lemma_string_body_end(s: Seq<char>, k: int, q: char, acc: Seq<char>)
    requires
        0 <= k,
    ensures
        string_body(s, k, q, acc) matches Some((_, e)) ==> k < e <= s.len(),
    decreases s.len() - k,
{
    if 0 <= k < s.len() && s[k] != q {
        if s[k] == '\\' {
            if k + 1 < s.len() {
                lemma_string_body_end(s, k + 2, q, acc.push(unescape(s[k + 1])));
            }
        } else {
            lemma_string_body_end(s, k + 1, q, acc.push(s[k]));
        }
    }
}

fn unescape_exec(c: char) -> (u: char)
    ensures
        u == unescape(c),
{
    if c == 'n' {
        '\n'
    } else if c == 'r' {
        '\r'
    } else if c == 't' {
        '\t'
    } else {
        c
    }
}

fn parse_string_exec(v: &Vec<char>, i: usize) -> (r: Option<(String, usize)>)
    requires
        i <= v.len(),
    ensures
        match r {
            Some((t, e)) => parse_string(v@, i as int) == Some((t@, e as int)) && i < e <= v.len(),
            None => parse_string(v@, i as int) is None,
        },
{
    if i >= v.len() || !(v[i] == '"' || v[i] == '\'') {
        return None;
    }
    let q = v[i];
    let mut out: Vec<char> = Vec::new();
    let mut k = i + 1;
    while k < v.len()
        invariant
            i < k <= v.len() + 1,
            i < v.len(),
            is_quote(v@[i as int]),
            q == v@[i as int],
            string_body(v@, k as int, q, out@) == string_body(v@, i + 1, q, Seq::empty()),
        decreases v.len() + 1 - k,
    {
        let c = v[k];
        if c == q {
            assert(string_body(v@, k as int, q, out@) == Some((out@, k + 1)));
            let t = crate::text::string_from_chars(&out);
            return Some((t, k + 1));
        }
        if c == '\\' {
            if k + 1 >= v.len() {
                return None;
            }
            out.push(unescape_exec(v[k + 1]));
            k = k + 2;
        } else {
            out.push(c);
            k = k + 1;
        }
    }
    None
}

pub open spec fn digits_end(s: Seq<char>, i: int) -> int
    decreases s.len() - i,
{
    if 0 <= i < s.len() && is_ascii_digit(s[i]) {
        digits_end(s, i + 1)
    } else {
        i
    }
}

pub proof fn lemma_digits_end(s: Seq<char>, i: int)
    requires
        0 <= i <= s.len(),
    ensures
        i <= digits_end(s, i) <= s.len(),
    decreases s.len() - i,
{
    if i < s.len() && is_ascii_digit(s[i]) {
        lemma_digits_end(s, i + 1);
    }
}

/// The text of a number after whitespace: an optional `-`, digits, and an
/// optional `.` with digits, with at least one digit in all.
pub open spec fn parse_number(s: Seq<char>, i: int) -> Option<(Seq<char>, int)> {
    let j = skip_ws(s, i);
    let k = if 0 <= j < s.len() && s[j] == '-' { j + 1 } else { j };
    let d = digits_end(s, k);
    let e = if 0 <= d < s.len() && s[d] == '.' { digits_end(s, d + 1) } else { d };
    let seen = d > k || e > d + 1;
    if seen {
        Some((s.subrange(j, e), e))
    } else {
        None
    }
}

fn digits_end_exec(v: &Vec<char>, i: usize) -> (e: usize)
    requires
        i <= v.len(),
    ensures
        e == digits_end(v@, i as int),
        i <= e <= v.len(),
{
    let mut e = i;
    while e < v.len() && '0' <= v[e] && v[e] <= '9'
        invariant
            i <= e <= v.len(),
            digits_end(v@, e as int) == digits_end(v@, i as int),
        decreases v.len() - e,
    {
        e = e + 1;
    }
    e
}

fn parse_number_exec(v: &Vec<char>, i: usize) -> (r: Option<(String, usize)>)
    requires
        i <= v.len(),
    ensures
        match r {
            Some((t, e)) => parse_number(v@, i as int) == Some((t@, e as int)) && i < e <= v.len(),
            None => parse_number(v@, i as int) is None,
        },
{
    let j = skip_ws_exec(v, i);
    let k = if j < v.len() && v[j] == '-' { j + 1 } else { j };
    let d = digits_end_exec(v, k);
    let e = if d < v.len() && v[d] == '.' { digits_end_exec(v, d + 1) } else { d };
    if d > k || (e > d && e - d > 1) {
        let t = string_from_range(v, j, e);
        Some((t, e))
    } else {
        None
    }
}

/// The position after whitespace and one optional `,` or `;`.
pub open spec fn after_separator(s: Seq<char>, i: int) -> int {
    let j = skip_ws(s, i);
    if 0 <= j < s.len() && (s[j] == ',' || s[j] == ';') {
        j + 1
    } else {
        j
    }
}

fn after_separator_exec(v: &Vec<char>, i: usize) -> (j: usize)
    requires
        i <= v.len(),
    ensures
        j == after_separator(v@, i as int),
        i <= j <= v.len(),
{
    let j = skip_ws_exec(v, i);
    if j < v.len() && (v[j] == ',' || v[j] == ';') {
        j + 1
    } else {
        j
    }
}

/// A table key after whitespace: an identifier, or `[` with a string or an
/// identifier and `]`.
pub open spec fn parse_table_key(s: Seq<char>, i: int) -> Option<(Seq<char>, int)> {
    let j = skip_ws(s, i);
    if 0 <= j < s.len() && s[j] == '[' {
        let k = skip_ws(s, j + 1);
        let key = if 0 <= k < s.len() && is_quote(s[k]) {
            parse_string(s, k)
        } else {
            parse_ident(s, k)
        };
        match key {
            None => None,
            Some((name, e)) => {
                let m = skip_ws(s, e);
                if 0 <= m < s.len() && s[m] == ']' {
                    Some((name, m + 1))
                } else {
                    None
                }
            },
        }
    } else {
        parse_ident(s, j)
    }
}

/// A key and `=` at `j`, with the position of the value after it.
pub open spec fn keyed_start(s: Seq<char>, j: int) -> Option<(Seq<char>, int)> {
    match parse_table_key(s, j) {
        Some((key, k)) => {
            let m = skip_ws(s, k);
            if 0 <= m < s.len() && s[m] == '=' {
                Some((key, m + 1))
            } else {
                None
            }
        },
        None => None,
    }
}

/// A value after whitespace, at nesting depth `d`: a table, a string,
/// `true`, `false` or a number. Tables nest at most 16 deep.
pub open spec fn parse_value(s: Seq<char>, i: int, d: int) -> Option<(LuaVal, int)>
    decreases 16 - d, s.len() - i, 0int,
{
    let j = skip_ws(s, i);
    if 0 <= j < s.len() && s[j] == '{' {
        if d + 1 > 16 {
            None
        } else {
            table_loop(s, j + 1, d + 1, Seq::empty())
        }
    } else if 0 <= j < s.len() && is_quote(s[j]) {
        match parse_string(s, j) {
            Some((t, e)) => Some((LuaVal::Str(t), e)),
            None => None,
        }
    } else if consume_word(s, j, "true"@) is Some {
        Some((LuaVal::Bool(true), consume_word(s, j, "true"@)->0))
    } else if consume_word(s, j, "false"@) is Some {
        Some((LuaVal::Bool(false), consume_word(s, j, "false"@)->0))
    } else {
        match parse_number(s, j) {
            Some((t, e)) => Some((LuaVal::Num(t), e)),
            None => None,
        }
    }
}

/// The rest of a table from `i`, after the keyed fields `fields`: `key =
/// value` entries are kept, entries without a key are read and dropped, each
/// may be followed by `,` or `;`, and `}` closes the table.
pub open spec fn table_loop(s: Seq<char>, i: int, d: int, fields: Seq<(Seq<char>, LuaVal)>) -> Option<
    (LuaVal, int),
>
    decreases 16 - d, s.len() - i, 1int,
{
    let j = skip_ws(s, i);
    if 0 <= j < s.len() && s[j] == '}' {
        Some((LuaVal::Table(fields), j + 1))
    } else {
        match keyed_start(s, j) {
            Some((key, p)) => if i <= p <= s.len() {
                match parse_value(s, p, d) {
                    None => None,
                    Some((v, e)) => {
                        let q = after_separator(s, e);
                        if i < q <= s.len() {
                            table_loop(s, q, d, fields.push((key, v)))
                        } else {
                            None
                        }
                    },
                }
            } else {
                None
            },
            None => if i <= j <= s.len() {
                match parse_value(s, j, d) {
                    None => None,
                    Some((_v, e)) => {
                        let q = after_separator(s, e);
                        if i < q <= s.len() {
                            table_loop(s, q, d, fields)
                        } else {
                            None
                        }
                    },
                }
            } else {
                None
            },
        }
    }
}

/// The value of a `.meta` file: an optional `return`, then one value; what
/// follows it is ignored.
pub open spec fn parse_meta(s: Seq<char>) -> Option<LuaVal> {
    let j = skip_ws(s, 0);
    let k = match consume_word(s, j, "return"@) {
        Some(e) => e,
        None => skip_ws(s, j),
    };
    match parse_value(s, k, 0) {
        Some((v, _e)) => Some(v),
        None => None,
    }
}

fn parse_table_key_exec(v: &Vec<char>, i: usize) -> (r: Option<(String, usize)>)
    requires
        i <= v.len(),
    ensures
        match r {
            Some((t, e)) => parse_table_key(v@, i as int) == Some((t@, e as int)) && i < e <= v.len(),
            None => parse_table_key(v@, i as int) is None,
        },
{
    let j = skip_ws_exec(v, i);
    if j < v.len() && v[j] == '[' {
        let k = skip_ws_exec(v, j + 1);
        let key = if k < v.len() && (v[k] == '"' || v[k] == '\'') {
            parse_string_exec(v, k)
        } else {
            parse_ident_exec(v, k)
        };
        match key {
            None => None,
            Some((name, e)) => {
                let m = skip_ws_exec(v, e);
                if m < v.len() && v[m] == ']' {
                    Some((name, m + 1))
                } else {
                    None
                }
            },
        }
    } else {
        parse_ident_exec(v, j)
    }
}

fn keyed_start_exec(v: &Vec<char>, j: usize) -> (r: Option<(String, usize)>)
    requires
        j <= v.len(),
    ensures
        match r {
            Some((t, p)) => keyed_start(v@, j as int) == Some((t@, p as int)) && j < p <= v.len(),
            None => keyed_start(v@, j as int) is None,
        },
{
    match parse_table_key_exec(v, j) {
        Some((key, k)) => {
            let m = skip_ws_exec(v, k);
            if m < v.len() && v[m] == '=' {
                Some((key, m + 1))
            } else {
                None
            }
        },
        None => None,
    }
}

pub proof fn lemma_fields_view_push(f: Seq<(String, LuaValue)>, a: (String, LuaValue))
    ensures
        fields_view(f.push(a)) == fields_view(f).push((a.0@, lua_view(a.1))),
{
    assert(f.push(a).subrange(0, f.len() as int) =~= f);
}

fn parse_value_exec(v: &Vec<char>, i: usize, d: usize) -> (r: Option<(LuaValue, usize)>)
    requires
        i <= v.len(),
        d <= 16,
    ensures
        match r {
            Some((x, e)) => parse_value(v@, i as int, d as int) == Some((lua_view(x), e as int)) && i < e
                <= v.len(),
            None => parse_value(v@, i as int, d as int) is None,
        },
    decreases 16 - d, v.len() - i, 0usize,
{
    proof {
        reveal_strlit("true");
        reveal_strlit("false");
    }
    let j = skip_ws_exec(v, i);
    if j < v.len() && v[j] == '{' {
        if d + 1 > 16 {
            return None;
        }
        return parse_table_exec(v, j + 1, d + 1);
    }
    if j < v.len() && (v[j] == '"' || v[j] == '\'') {
        return match parse_string_exec(v, j) {
            Some((t, e)) => Some((LuaValue::Str(t), e)),
            None => None,
        };
    }
    match consume_word_exec(v, j, "true") {
        Some(e) => {
            return Some((LuaValue::Bool(true), e));
        },
        None => {},
    }
    match consume_word_exec(v, j, "false") {
        Some(e) => {
            return Some((LuaValue::Bool(false), e));
        },
        None => {},
    }
    match parse_number_exec(v, j) {
        Some((t, e)) => Some((LuaValue::Number(t), e)),
        None => None,
    }
}

fn parse_table_exec(v: &Vec<char>, i: usize, d: usize) -> (r: Option<(LuaValue, usize)>)
    requires
        i <= v.len(),
        1 <= d <= 16,
    ensures
        match r {
            Some((x, e)) => table_loop(v@, i as int, d as int, Seq::empty()) == Some((lua_view(x), e as int))
                && i < e <= v.len(),
            None => table_loop(v@, i as int, d as int, Seq::empty()) is None,
        },
    decreases 16 - d, v.len() - i, 1usize,
{
    let mut fields: Vec<(String, LuaValue)> = Vec::new();
    let mut k = i;
    loop
        invariant
            i <= k <= v.len(),
            1 <= d <= 16,
            table_loop(v@, k as int, d as int, fields_view(fields@)) == table_loop(v@, i as int, d as int,
                Seq::empty()),
        decreases v.len() - k,
    {
        let j = skip_ws_exec(v, k);
        if j < v.len() && v[j] == '}' {
            return Some((LuaValue::Table(fields), j + 1));
        }
        match keyed_start_exec(v, j) {
            Some((key, p)) => {
                match parse_value_exec(v, p, d) {
                    None => {
                        return None;
                    },
                    Some((x, e)) => {
                        let q = after_separator_exec(v, e);
                        proof {
                            lemma_fields_view_push(fields@, (key, x));
                        }
                        fields.push((key, x));
                        k = q;
                    },
                }
            },
            None => {
                match parse_value_exec(v, j, d) {
                    None => {
                        return None;
                    },
                    Some((_x, e)) => {
                        k = after_separator_exec(v, e);
                    },
                }
            },
        }
    }
}

/// Parses the Lua table literal of a `.meta` file; `None` when it is not one.
pub fn parse_meta_table(contents: &str) -> (r: Option<LuaValue>)
    ensures
        match r {
            Some(x) => parse_meta(contents@) == Some(lua_view(x)),
            None => parse_meta(contents@) is None,
        },
{
    proof {
        reveal_strlit("return");
    }
    let v = chars_of(contents);
    let j = skip_ws_exec(&v, 0);
    let k = match consume_word_exec(&v, j, "return") {
        Some(e) => e,
        None => skip_ws_exec(&v, j),
    };
    match parse_value_exec(&v, k, 0) {
        Some((x, _e)) => Some(x),
        None => None,
    }
}

/// The value of the last field named `key`.
pub open spec fn last_field(f: Seq<(Seq<char>, LuaVal)>, key: Seq<char>) -> Option<LuaVal>
    decreases f.len(),
{
    if f.len() == 0 {
        None
    } else if f.last().0 == key {
        Some(f.last().1)
    } else {
        last_field(f.drop_last(), key)
    }
}

/// Field `key` of a table; nothing of anything else.
pub open spec fn field_of(v: Option<LuaVal>, key: Seq<char>) -> Option<LuaVal> {
    match v {
        Some(LuaVal::Table(f)) => last_field(f, key),
        _ => None,
    }
}

pub open spec fn opt_view(o: Option<&LuaValue>) -> Option<LuaVal> {
    match o {
        Some(x) => Some(lua_view(*x)),
        None => None,
    }
}

pub proof fn lemma_fields_view_len(f: Seq<(String, LuaValue)>)
    ensures
        fields_view(f).len() == f.len(),
        forall|j: int| 0 <= j < f.len() ==> #[trigger] fields_view(f)[j] == (f[j].0@, lua_view(f[j].1)),
    decreases f.len(),
{
    if f.len() > 0 {
        lemma_fields_view_len(f.subrange(0, f.len() - 1));
    }
}

fn same_text(a: &str, b: &str) -> (r: bool)
    ensures
        r == (a@ == b@),
{
    crate::text::chars_eq(&chars_of(a), &chars_of(b))
}

/// Field `key` of `v` when `v` is a table.
#[verifier::loop_isolation(false)]
pub fn lua_field<'a>(v: Option<&'a LuaValue>, key: &str) -> (r: Option<&'a LuaValue>)
    ensures
        opt_view(r) == field_of(opt_view(v), key@),
{
    let fields = match v {
        Some(LuaValue::Table(fields)) => fields,
        _ => return None,
    };
    let ghost fv = fields_view(fields@);
    proof {
        lemma_fields_view_len(fields@);
        assert(fv.subrange(0, fields.len() as int) =~= fv);
    }
    let mut k = fields.len();
    while k > 0
        invariant
            k <= fields.len(),
            fv == fields_view(fields@),
            fv.len() == fields.len(),
            forall|j: int| 0 <= j < fields.len() ==> #[trigger] fv[j] == (fields@[j].0@, lua_view(fields@[j].1)),
            last_field(fv, key@) == last_field(fv.subrange(0, k as int), key@),
        decreases k,
    {
        let ghost pre = fv.subrange(0, k as int);
        assert(pre.drop_last() =~= fv.subrange(0, k - 1));
        assert(pre.last() == fv[k - 1]);
        if same_text(fields[k - 1].0.as_str(), key) {
            return Some(&fields[k - 1].1);
        }
        k = k - 1;
    }
    None
}

/// The value of field `key` of a table, taken out of it.
#[verifier::loop_isolation(false)]
pub fn take_field(v: LuaValue, key: &str) -> (r: Option<LuaValue>)
    ensures
        match r {
            Some(x) => field_of(Some(lua_view(v)), key@) == Some(lua_view(x)),
            None => field_of(Some(lua_view(v)), key@) is None,
        },
{
    let ghost gv = lua_view(v);
    let mut fields = match v {
        LuaValue::Table(fields) => fields,
        _ => return None,
    };
    let ghost whole = fields_view(fields@);
    assert(gv == LuaVal::Table(whole));
    loop
        invariant
            last_field(whole, key@) == last_field(fields_view(fields@), key@),
        decreases fields.len(),
    {
        let ghost before = fields@;
        match fields.pop() {
            None => {
                return None;
            },
            Some((k, x)) => {
                proof {
                    assert(before =~= fields@.push((k, x)));
                    lemma_fields_view_push(fields@, (k, x));
                    assert(fields_view(before).drop_last() =~= fields_view(fields@));
                }
                if same_text(k.as_str(), key) {
                    return Some(x);
                }
            },
        }
    }
}

pub open spec fn num_text(v: Option<LuaVal>) -> Option<Seq<char>> {
    match v {
        Some(LuaVal::Num(t)) => Some(t),
        _ => None,
    }
}

pub open spec fn bool_or_false(v: Option<LuaVal>) -> bool {
    match v {
        Some(LuaVal::Bool(b)) => b,
        _ => false,
    }
}

pub open spec fn str_or_empty(v: Option<LuaVal>) -> Seq<char> {
    match v {
        Some(LuaVal::Str(t)) => t,
        _ => Seq::empty(),
    }
}

pub open spec fn opt_text(o: Option<String>) -> Option<Seq<char>> {
    match o {
        Some(t) => Some(t@),
        None => None,
    }
}

pub open spec fn opt_lua(o: Option<LuaValue>) -> Option<LuaVal> {
    match o {
        Some(x) => Some(lua_view(x)),
        None => None,
    }
}

fn num_at(t: Option<&LuaValue>, key: &str) -> (r: Option<String>)
    ensures
        opt_text(r) == num_text(field_of(opt_view(t), key@)),
{
    match lua_field(t, key) {
        Some(LuaValue::Number(n)) => Some(n.clone()),
        _ => None,
    }
}

fn bool_at(t: Option<&LuaValue>, key: &str) -> (b: bool)
    ensures
        b == bool_or_false(field_of(opt_view(t), key@)),
{
    match lua_field(t, key) {
        Some(LuaValue::Bool(b)) => *b,
        _ => false,
    }
}

fn str_at(t: Option<&LuaValue>, key: &str) -> (s: String)
    ensures
        s@ == str_or_empty(field_of(opt_view(t), key@)),
{
    match lua_field(t, key) {
        Some(LuaValue::Str(x)) => x.clone(),
        _ => String::new(),
    }
}

/// The clock and season fields of a world's `.meta` file. Numbers keep the
/// text they were written with (`None` when the field is missing or not a
/// number); missing strings are empty and missing flags false.
pub struct ArchiveMetaFields {
    pub total_time_in_phase: Option<String>,
    pub cycles: Option<String>,
    pub phase: String,
    pub remaining_time_in_phase: Option<String>,
    pub mooom_phase_cycle: Option<String>,
    pub segs_night: Option<String>,
    pub segs_day: Option<String>,
    pub segs_dusk: Option<String>,
    pub premode: bool,
    pub season: String,
    pub elapsed_days_in_season: Option<String>,
    pub random_summer: bool,
    pub random_autumn: bool,
    pub random_spring: bool,
    pub random_winter: bool,
    pub length_summer: Option<String>,
    pub length_autumn: Option<String>,
    pub length_spring: Option<String>,
    pub length_winter: Option<String>,
    pub remaining_days_in_season: Option<String>,
    pub mode: String,
    pub total_days_in_season: Option<String>,
    /// The whole `seasons.segs` value.
    pub season_segs: Option<LuaValue>,
}

/// `m` holds the fields of the parsed `.meta` value `root`.
pub open spec fn meta_fields_of(m: ArchiveMetaFields, root: LuaVal) -> bool {
    let clock = field_of(Some(root), "clock"@);
    let csegs = field_of(clock, "segs"@);
    let seasons = field_of(Some(root), "seasons"@);
    let random = field_of(seasons, "israndom"@);
    let lengths = field_of(seasons, "lengths"@);
    &&& opt_text(m.total_time_in_phase) == num_text(field_of(clock, "totaltimeinphase"@))
    &&& opt_text(m.cycles) == num_text(field_of(clock, "cycles"@))
    &&& m.phase@ == str_or_empty(field_of(clock, "phase"@))
    &&& opt_text(m.remaining_time_in_phase) == num_text(field_of(clock, "remainingtimeinphase"@))
    &&& opt_text(m.mooom_phase_cycle) == num_text(field_of(clock, "mooomphasecycle"@))
    &&& opt_text(m.segs_night) == num_text(field_of(csegs, "night"@))
    &&& opt_text(m.segs_day) == num_text(field_of(csegs, "day"@))
    &&& opt_text(m.segs_dusk) == num_text(field_of(csegs, "dusk"@))
    &&& m.premode == bool_or_false(field_of(seasons, "premode"@))
    &&& m.season@ == str_or_empty(field_of(seasons, "season"@))
    &&& opt_text(m.elapsed_days_in_season) == num_text(field_of(seasons, "elapseddaysinseason"@))
    &&& m.random_summer == bool_or_false(field_of(random, "summer"@))
    &&& m.random_autumn == bool_or_false(field_of(random, "autumn"@))
    &&& m.random_spring == bool_or_false(field_of(random, "spring"@))
    &&& m.random_winter == bool_or_false(field_of(random, "winter"@))
    &&& opt_text(m.length_summer) == num_text(field_of(lengths, "summer"@))
    &&& opt_text(m.length_autumn) == num_text(field_of(lengths, "autumn"@))
    &&& opt_text(m.length_spring) == num_text(field_of(lengths, "spring"@))
    &&& opt_text(m.length_winter) == num_text(field_of(lengths, "winter"@))
    &&& opt_text(m.remaining_days_in_season) == num_text(field_of(seasons, "remainingdaysinseason"@))
    &&& m.mode@ == str_or_empty(field_of(seasons, "mode"@))
    &&& opt_text(m.total_days_in_season) == num_text(field_of(seasons, "totaldaysinseason"@))
    &&& opt_lua(m.season_segs) == field_of(seasons, "segs"@)
}

/// The clock and season fields of a `.meta` file; `None` when the file is
/// not a Lua table literal as `parse_meta` reads it.
pub fn archive_meta_fields(contents: &str) -> (r: Option<ArchiveMetaFields>)
    ensures
        match parse_meta(contents@) {
            None => r is None,
            Some(root) => r matches Some(m) && meta_fields_of(m, root),
        },
{
    let root = match parse_meta_table(contents) {
        Some(x) => x,
        None => return None,
    };
    let clock = lua_field(Some(&root), "clock");
    let csegs = lua_field(clock, "segs");
    let seasons = lua_field(Some(&root), "seasons");
    let random = lua_field(seasons, "israndom");
    let lengths = lua_field(seasons, "lengths");
    let total_time_in_phase = num_at(clock, "totaltimeinphase");
    let cycles = num_at(clock, "cycles");
    let phase = str_at(clock, "phase");
    let remaining_time_in_phase = num_at(clock, "remainingtimeinphase");
    let mooom_phase_cycle = num_at(clock, "mooomphasecycle");
    let segs_night = num_at(csegs, "night");
    let segs_day = num_at(csegs, "day");
    let segs_dusk = num_at(csegs, "dusk");
    let premode = bool_at(seasons, "premode");
    let season = str_at(seasons, "season");
    let elapsed_days_in_season = num_at(seasons, "elapseddaysinseason");
    let random_summer = bool_at(random, "summer");
    let random_autumn = bool_at(random, "autumn");
    let random_spring = bool_at(random, "spring");
    let random_winter = bool_at(random, "winter");
    let length_summer = num_at(lengths, "summer");
    let length_autumn = num_at(lengths, "autumn");
    let length_spring = num_at(lengths, "spring");
    let length_winter = num_at(lengths, "winter");
    let remaining_days_in_season = num_at(seasons, "remainingdaysinseason");
    let mode = str_at(seasons, "mode");
    let total_days_in_season = num_at(seasons, "totaldaysinseason");
    let season_segs = match take_field(root, "seasons") {
        Some(se) => take_field(se, "segs"),
        None => None,
    };
    Some(ArchiveMetaFields {
        total_time_in_phase,
        cycles,
        phase,
        remaining_time_in_phase,
        mooom_phase_cycle,
        segs_night,
        segs_day,
        segs_dusk,
        premode,
        season,
        elapsed_days_in_season,
        random_summer,
        random_autumn,
        random_spring,
        random_winter,
        length_summer,
        length_autumn,
        length_spring,
        length_winter,
        remaining_days_in_season,
        mode,
        total_days_in_season,
        season_segs,
    })
}

/// The Chinese name of a season; empty for an unknown one.
pub open spec fn localized_season_spec(season: Seq<char>) -> Seq<char> {
    if season == "spring"@ {
        "春天"@
    } else if season == "summer"@ {
        "夏天"@
    } else if season == "autumn"@ {
        "秋天"@
    } else if season == "winter"@ {
        "冬天"@
    } else {
        ""@
    }
}

pub fn localized_season(season: &str) -> (t: &'static str)
    ensures
        t@ == localized_season_spec(season@),
{
    if same_text(season, "spring") {
        "春天"
    } else if same_text(season, "summer") {
        "夏天"
    } else if same_text(season, "autumn") {
        "秋天"
    } else if same_text(season, "winter") {
        "冬天"
    } else {
        ""
    }
}

/// The description of a save in a backup name:
/// `{cycles}day_{phase}_{season}({elapsed}_{elapsed + remaining})`.
pub open spec fn archive_description_spec(cycles: int, phase: Seq<char>, season: Seq<char>, elapsed: int,
    remaining: int) -> Seq<char> {
    signed_decimal(cycles) + "day_"@ + phase + "_"@ + localized_season_spec(season) + "("@ + signed_decimal(
        elapsed,
    ) + "_"@ + signed_decimal(elapsed + remaining) + ")"@
}

pub fn archive_description(cycles: i64, phase: &str, season: &str, elapsed: i64, remaining: i64) -> (s: String)
    requires
        i64::MIN <= elapsed + remaining <= i64::MAX,
    ensures
        s@ == archive_description_spec(cycles as int, phase@, season@, elapsed as int, remaining as int),
{
    let mut s = String::new();
    push_chars(&mut s, &i64_to_chars(cycles));
    push_str(&mut s, "day_");
    push_str(&mut s, phase);
    push_str(&mut s, "_");
    push_str(&mut s, localized_season(season));
    push_str(&mut s, "(");
    push_chars(&mut s, &i64_to_chars(elapsed));
    push_str(&mut s, "_");
    push_chars(&mut s, &i64_to_chars(elapsed + remaining));
    push_str(&mut s, ")");
    s
}

/// The name a backup shows for a cluster: the `cluster_name` of its
/// `cluster.ini` when that is not empty, else the folder name.
pub open spec fn backup_display_name_spec(cluster_ini: Option<Seq<char>>, folder: Seq<char>) -> Seq<char> {
    match cluster_ini {
        Some(c) => if cluster_ini_from(c).cluster_name.len() > 0 {
            cluster_ini_from(c).cluster_name
        } else {
            folder
        },
        None => folder,
    }
}

pub fn backup_display_name(cluster_ini: Option<&str>, folder: &str) -> (s: String)
    ensures
        s@ == backup_display_name_spec(
            match cluster_ini {
                Some(c) => Some(c@),
                None => None,
            },
            folder@,
        ),
{
    match cluster_ini {
        Some(c) => {
            let ini = ClusterIni::from_contents(c);
            if ini.cluster_name.as_str().is_empty() {
                folder.to_string()
            } else {
                ini.cluster_name
            }
        },
        None => folder.to_string(),
    }
}

/// The file name of a backup made without a name:
/// `{timestamp}_{display name}_{description}.zip`.
pub open spec fn game_backup_name_spec(timestamp: Seq<char>, display: Seq<char>, description: Seq<char>) -> Seq<
    char,
> {
    timestamp + "_"@ + display + "_"@ + description + ".zip"@
}

/// The backup file name, refused when it is not a safe file name.
pub fn game_backup_name(timestamp: &str, display: &str, description: &str) -> (r: Result<String, ValidationError>)
    ensures
        ({
            let name = game_backup_name_spec(timestamp@, display@, description@);
            match path_atom_problem(name) {
                None => r matches Ok(n) && n@ == name,
                Some(reason) => r matches Err(e) && e.field == "backup archive name" && e.reason == reason,
            }
        }),
{
    let mut name = timestamp.to_string();
    push_str(&mut name, "_");
    push_str(&mut name, display);
    push_str(&mut name, "_");
    push_str(&mut name, description);
    push_str(&mut name, ".zip");
    match validate_backup_archive_name(name.as_str()) {
        Ok(n) => Ok(n.into_string()),
        Err(e) => Err(e),
    }
}

/// One component of a file's path inside the cluster folder, as the
/// filesystem gives it.
pub enum ArchivePathPart {
    /// A plain name.
    Name(String),
    /// A plain name that is not valid UTF-8.
    NotUtf8,
    /// A root, prefix, `.` or `..` component.
    Special,
}

/// Why a file cannot be stored in a backup archive under its path.
pub enum ArchiveNameError {
    UnsafeComponent,
    NonUtf8Component,
    Invalid(ValidationError),
    Empty,
}

impl ArchiveNameError {
    pub fn message(&self) -> (m: String)
        ensures
            m@ == archive_name_error_text(*self),
    {
        match self {
            ArchiveNameError::UnsafeComponent => "cluster backup path contains unsafe components".to_string(),
            ArchiveNameError::NonUtf8Component => "cluster backup path contains non-utf8 component".to_string(),
            ArchiveNameError::Invalid(e) => e.message(),
            ArchiveNameError::Empty => "cluster backup path cannot be empty".to_string(),
        }
    }
}

pub open spec fn archive_name_error_text(e: ArchiveNameError) -> Seq<char> {
    match e {
        ArchiveNameError::UnsafeComponent => "cluster backup path contains unsafe components"@,
        ArchiveNameError::NonUtf8Component => "cluster backup path contains non-utf8 component"@,
        ArchiveNameError::Invalid(v) => "invalid "@ + v.field@ + ": "@ + v.reason.text_spec(),
        ArchiveNameError::Empty => "cluster backup path cannot be empty"@,
    }
}

pub open spec fn part_error(p: ArchivePathPart) -> Option<ArchiveNameError> {
    match p {
        ArchivePathPart::Name(n) => match path_atom_problem(n@) {
            Some(reason) => Some(ArchiveNameError::Invalid(ValidationError { field: "filename", reason })),
            None => None,
        },
        ArchivePathPart::NotUtf8 => Some(ArchiveNameError::NonUtf8Component),
        ArchivePathPart::Special => Some(ArchiveNameError::UnsafeComponent),
    }
}

/// The error of the first part that has one.
pub open spec fn first_part_error(parts: Seq<ArchivePathPart>) -> Option<ArchiveNameError>
    decreases parts.len(),
{
    if parts.len() == 0 {
        None
    } else {
        match first_part_error(parts.drop_last()) {
            Some(e) => Some(e),
            None => part_error(parts.last()),
        }
    }
}

pub open spec fn part_name(p: ArchivePathPart) -> Seq<char> {
    match p {
        ArchivePathPart::Name(n) => n@,
        _ => Seq::empty(),
    }
}

/// The names joined with `/`.
pub open spec fn joined_names(parts: Seq<ArchivePathPart>) -> Seq<char>
    decreases parts.len(),
{
    if parts.len() == 0 {
        Seq::empty()
    } else if parts.len() == 1 {
        part_name(parts[0])
    } else {
        joined_names(parts.drop_last()) + "/"@ + part_name(parts.last())
    }
}

/// The entry name of a file in a backup archive: its path components, each
/// a safe file name, joined with `/`.
pub fn archive_entry_name(parts: &Vec<ArchivePathPart>) -> (r: Result<String, ArchiveNameError>)
    ensures
        match first_part_error(parts@) {
            Some(e) => r matches Err(x) && x == e,
            None => if parts.len() == 0 {
                r matches Err(ArchiveNameError::Empty)
            } else {
                r matches Ok(n) && n@ == joined_names(parts@)
            },
        },
{
    let mut out = String::new();
    let mut k: usize = 0;
    while k < parts.len()
        invariant
            k <= parts.len(),
            first_part_error(parts@.take(k as int)) is None,
            out@ == joined_names(parts@.take(k as int)),
        decreases parts.len() - k,
    {
        proof {
            assert(parts@.take(k + 1).drop_last() =~= parts@.take(k as int));
            assert(parts@.take(k + 1).last() == parts@[k as int]);
        }
        match &parts[k] {
            ArchivePathPart::Name(n) => {
                match validate_filename(n.as_str()) {
                    Err(e) => {
                        proof {
                            lemma_first_error_prefix(parts@, k as int + 1);
                        }
                        return Err(ArchiveNameError::Invalid(e));
                    },
                    Ok(_) => {},
                }
                if k > 0 {
                    push_str(&mut out, "/");
                }
                push_str(&mut out, n.as_str());
            },
            ArchivePathPart::NotUtf8 => {
                proof {
                    lemma_first_error_prefix(parts@, k as int + 1);
                }
                return Err(ArchiveNameError::NonUtf8Component);
            },
            ArchivePathPart::Special => {
                proof {
                    lemma_first_error_prefix(parts@, k as int + 1);
                }
                return Err(ArchiveNameError::UnsafeComponent);
            },
        }
        k = k + 1;
    }
    proof {
        assert(parts@.take(parts.len() as int) =~= parts@);
    }
    if k == 0 {
        return Err(ArchiveNameError::Empty);
    }
    Ok(out)
}

/// An error in a prefix is the first error of the whole.
pub proof fn lemma_first_error_prefix(parts: Seq<ArchivePathPart>, k: int)
    requires
        0 <= k <= parts.len(),
        first_part_error(parts.take(k)) is Some,
    ensures
        first_part_error(parts) == first_part_error(parts.take(k)),
    decreases parts.len() - k,
{
    if k < parts.len() {
        assert(parts.take(k + 1).drop_last() =~= parts.take(k));
        lemma_first_error_prefix(parts, k + 1);
    } else {
        assert(parts.take(k) =~= parts);
    }
}

pub open spec fn strs(v: Seq<String>) -> Seq<Seq<char>> {
    v.map_values(|s: String| s@)
}

/// Every text sorts no later than those after it.
pub open spec fn sorted_texts(s: Seq<Seq<char>>) -> bool {
    forall|i: int, j: int| 0 <= i < j < s.len() ==> text_le(#[trigger] s[i], #[trigger] s[j])
}

fn le_names(a: &String, b: &String) -> (r: bool)
    ensures
        r == text_le(a@, b@),
{
    text_le_exec(&chars_of(a.as_str()), &chars_of(b.as_str()))
}

/// The names in the order of `str`.
pub fn sort_names(names: Vec<String>) -> (out: Vec<String>)
    ensures
        sorted_texts(strs(out@)),
        strs(out@).to_multiset() == strs(names@).to_multiset(),
{
    let ghost whole = strs(names@).to_multiset();
    let mut rest = names;
    let mut out: Vec<String> = Vec::new();
    proof {
        strs(out@).to_multiset_ensures();
    }
    assert(strs(out@).to_multiset() =~= Multiset::empty());
    assert(Multiset::<Seq<char>>::empty().add(strs(rest@).to_multiset()) =~= whole);
    while rest.len() > 0
        invariant
            sorted_texts(strs(out@)),
            forall|i: int, j: int| 0 <= i < out.len() && 0 <= j < rest.len() ==> text_le(
                #[trigger] out@[i]@,
                #[trigger] rest@[j]@,
            ),
            strs(out@).to_multiset().add(strs(rest@).to_multiset()) == whole,
        decreases rest.len(),
    {
        let mut m: usize = 0;
        let mut j: usize = 1;
        proof {
            lemma_text_le_refl(rest@[0]@);
        }
        while j < rest.len()
            invariant
                m < rest.len(),
                1 <= j <= rest.len(),
                forall|t: int| 0 <= t < j ==> text_le(rest@[m as int]@, #[trigger] rest@[t]@),
            decreases rest.len() - j,
        {
            if !le_names(&rest[m], &rest[j]) {
                proof {
                    lemma_text_le_total(rest@[m as int]@, rest@[j as int]@);
                    lemma_text_le_refl(rest@[j as int]@);
                    assert forall|t: int| 0 <= t < j + 1 implies text_le(rest@[j as int]@, #[trigger] rest@[t]@) by {
                        if t < j {
                            lemma_text_le_trans(rest@[j as int]@, rest@[m as int]@, rest@[t]@);
                        }
                    }
                }
                m = j;
            }
            j = j + 1;
        }
        let ghost before_rest = rest@;
        let ghost before_out = out@;
        let x = rest.remove(m);
        proof {
            assert(strs(rest@) =~= strs(before_rest).remove(m as int));
            assert(strs(before_rest)[m as int] == x@);
        }
        out.push(x);
        proof {
            assert(strs(out@) =~= strs(before_out).push(x@));
            let a = x@;
            let mo = strs(before_out).to_multiset();
            let mr = strs(before_rest).to_multiset();
            strs(before_rest).to_multiset_ensures();
            strs(before_out).to_multiset_ensures();
            assert(strs(before_rest).contains(a));
            assert(mr.count(a) > 0);
            assert(strs(rest@).to_multiset() =~= mr.remove(a));
            assert(strs(out@).to_multiset() =~= mo.insert(a));
            assert(mo.insert(a).add(mr.remove(a)) =~= mo.add(mr));
            assert forall|i: int, k: int| 0 <= i < k < out.len() implies text_le(
                #[trigger] strs(out@)[i],
                #[trigger] strs(out@)[k],
            ) by {
                if k < out.len() - 1 {
                    assert(strs(before_out)[i] == strs(out@)[i]);
                    assert(strs(before_out)[k] == strs(out@)[k]);
                } else {
                    assert(out@[i]@ == before_out[i]@);
                    assert(text_le(before_out[i]@, before_rest[m as int]@));
                }
            }
            assert forall|i: int, k: int| 0 <= i < out.len() && 0 <= k < rest.len() implies text_le(
                #[trigger] out@[i]@,
                #[trigger] rest@[k]@,
            ) by {
                let src = if k < m { k } else { k + 1 };
                assert(rest@[k] == before_rest[src]);
                if i < out.len() - 1 {
                    assert(out@[i] == before_out[i]);
                    assert(text_le(before_out[i]@, before_rest[src]@));
                } else {
                    assert(text_le(before_rest[m as int]@, before_rest[src]@));
                }
            }
        }
    }
    proof {
        strs(rest@).to_multiset_ensures();
        assert(strs(rest@).to_multiset() =~= Multiset::empty());
        assert(strs(out@).to_multiset().add(Multiset::empty()) =~= strs(out@).to_multiset());
    }
    out
}

/// Whether a name is listed as a backup archive, as a predicate.
pub open spec fn listed_pred() -> spec_fn(Seq<char>) -> bool {
    |t: Seq<char>| listed_archive(t)
}

/// The backup archives among the names of the backup folder (`.zip` and
/// `.tar` files), in the order of `str`.
pub fn listed_backup_names(names: Vec<String>) -> (out: Vec<String>)
    ensures
        sorted_texts(strs(out@)),
        strs(out@).to_multiset() == strs(names@).filter(listed_pred()).to_multiset(),
{
    let ghost p = listed_pred();
    let mut kept: Vec<String> = Vec::new();
    let mut k: usize = 0;
    let n = names.len();
    let mut rest = names;
    let ghost all = rest@;
    while rest.len() > 0
        invariant
            all.len() == n,
            p == listed_pred(),
            k + rest.len() == n,
            rest@ == all.skip(k as int),
            strs(kept@) == strs(all.take(k as int)).filter(p),
        decreases rest.len(),
    {
        let x = rest.remove(0);
        proof {
            assert(all.take(k + 1).drop_last() =~= all.take(k as int));
            assert(strs(all.take(k + 1)).drop_last() =~= strs(all.take(k as int)));
            assert(all.take(k + 1).last() == x);
            assert(strs(all.take(k + 1)).last() == x@);
            assert(strs(all.take(k + 1)).len() > 0);
            assert(rest@ =~= all.skip(k + 1));
        }
        let ghost sub = strs(all.take(k as int)).filter(p);
        proof {
            reveal(Seq::filter);
            assert(p(x@) == listed_archive(x@));
        }
        assert(strs(all.take(k + 1)).filter(p) == if p(x@) { sub.push(x@) } else { sub });
        if is_listed_backup_archive(x.as_str()) {
            let ghost before = kept@;
            kept.push(x);
            assert(strs(kept@) =~= strs(before).push(x@));
        }
        k = k + 1;
    }
    proof {
        assert(all.take(n as int) =~= all);
    }
    sort_names(kept)
}

} // verus!
