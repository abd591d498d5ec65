//! Central validation helpers for user-controlled identifiers and file names.
//!
//! Validation errors intentionally do not echo the rejected value, so callers
//! can return them directly to clients without leaking secrets from malformed
//! requests.
use vstd::prelude::*;
use crate::text::{
    chars_eq, chars_of, eq_ignore_ascii_case, first_index_of, find_char, is_ascii_alphanumeric,
    is_ascii_digit, is_alphanumeric, is_control, is_control_char, is_digit, is_whitespace, is_ws,
    starts_with, string_from_range, sub_chars, to_ascii_upper, trim, trim_range, ascii_upper,
};

verus! {

/// Why a value was rejected.
#[derive(Debug, Clone, Copy, PartialEq, Eq, Structural)]
pub enum ValidationReason {
    Empty,
    SurroundingWhitespace,
    ReservedComponent,
    TooLong,
    TrailingDotOrSpace,
    ReservedName,
    UnsafeCharacters,
    OptionMarker,
    MissingPrefix,
    MissingId,
    DigitsOnly,
}

/// Error raised when user input fails a shared safety validator.
#[derive(Debug, Clone, PartialEq, Eq)]
pub struct ValidationError {
    pub field: &'static str,
    pub reason: ValidationReason,
}

impl ValidationError {
    /// The message shown to clients: `invalid <field>: <reason>`.
    pub fn message(&self) -> (s: String)
        ensures
            s@ == "invalid "@ + self.field@ + ": "@ + self.reason.text_spec(),
    {
        let mut s = "invalid ".to_string();
        crate::text::push_str(&mut s, self.field);
        crate::text::push_str(&mut s, ": ");
        crate::text::push_str(&mut s, self.reason.text());
        s
    }
}

impl ValidationReason {
    /// The human-readable reason text.
    pub open spec fn text_spec(&self) -> Seq<char> {
        match self {
            ValidationReason::Empty => "cannot be empty"@,
            ValidationReason::SurroundingWhitespace => "cannot have surrounding whitespace"@,
            ValidationReason::ReservedComponent => "reserved path component"@,
            ValidationReason::TooLong => "is too long"@,
            ValidationReason::TrailingDotOrSpace => "cannot end with dot or whitespace"@,
            ValidationReason::ReservedName => "uses a reserved name"@,
            ValidationReason::UnsafeCharacters => "contains unsafe characters"@,
            ValidationReason::OptionMarker => "cannot start with an option marker"@,
            ValidationReason::MissingPrefix => "must start with KU_"@,
            ValidationReason::MissingId => "missing id after prefix"@,
            ValidationReason::DigitsOnly => "must contain digits only"@,
        }
    }

    /// The human-readable reason text.
    pub fn text(&self) -> (t: &'static str)
        ensures
            t@ == self.text_spec(),
    {
        match self {
            ValidationReason::Empty => "cannot be empty",
            ValidationReason::SurroundingWhitespace => "cannot have surrounding whitespace",
            ValidationReason::ReservedComponent => "reserved path component",
            ValidationReason::TooLong => "is too long",
            ValidationReason::TrailingDotOrSpace => "cannot end with dot or whitespace",
            ValidationReason::ReservedName => "uses a reserved name",
            ValidationReason::UnsafeCharacters => "contains unsafe characters",
            ValidationReason::OptionMarker => "cannot start with an option marker",
            ValidationReason::MissingPrefix => "must start with KU_",
            ValidationReason::MissingId => "missing id after prefix",
            ValidationReason::DigitsOnly => "must contain digits only",
        }
    }
}

/// Number of bytes of the UTF-8 encoding of one character, as `char::len_utf8`.
pub open spec fn char_utf8_len(c: char) -> nat {
    let u = c as u32;
    if u < 0x80 {
        1
    } else if u < 0x800 {
        2
    } else if u < 0x10000 {
        3
    } else {
        4
    }
}

/// Number of bytes of the UTF-8 encoding of `s`, as `str::len`.
pub open spec fn utf8_len(s: Seq<char>) -> nat
    decreases s.len(),
{
    if s.len() == 0 {
        0
    } else {
        utf8_len(s.drop_last()) + char_utf8_len(s.last())
    }
}

pub open spec fn is_windows_invalid(c: char) -> bool {
    c == ':' || c == '<' || c == '>' || c == '"' || c == '|' || c == '?' || c == '*'
}

pub open spec fn is_path_unsafe_char(c: char) -> bool {
    c == '/' || c == '\\' || is_control(c) || is_windows_invalid(c)
}

/// The part of a name before its first `.`.
pub open spec fn name_stem(s: Seq<char>) -> Seq<char> {
    match first_index_of(s, '.') {
        Some(i) => s.take(i),
        None => s,
    }
}

pub open spec fn upper_seq(s: Seq<char>) -> Seq<char> {
    Seq::new(s.len(), |i: int| ascii_upper(s[i]))
}

/// The device names that Windows reserves, in upper case.
pub open spec fn is_reserved_device(u: Seq<char>) -> bool {
    ||| u == "CON"@ ||| u == "PRN"@ ||| u == "AUX"@ ||| u == "NUL"@
    ||| u == "COM1"@ ||| u == "COM2"@ ||| u == "COM3"@ ||| u == "COM4"@ ||| u == "COM5"@
    ||| u == "COM6"@ ||| u == "COM7"@ ||| u == "COM8"@ ||| u == "COM9"@
    ||| u == "LPT1"@ ||| u == "LPT2"@ ||| u == "LPT3"@ ||| u == "LPT4"@ ||| u == "LPT5"@
    ||| u == "LPT6"@ ||| u == "LPT7"@ ||| u == "LPT8"@ ||| u == "LPT9"@
}

pub open spec fn is_windows_reserved(s: Seq<char>) -> bool {
    is_reserved_device(upper_seq(name_stem(s)))
}

/// Why `s` is not a safe single path component, if it is not.
pub open spec fn path_atom_problem(s: Seq<char>) -> Option<ValidationReason> {
    if trim(s).len() == 0 {
        Some(ValidationReason::Empty)
    } else if trim(s) != s {
        Some(ValidationReason::SurroundingWhitespace)
    } else if s == "."@ || s == ".."@ {
        Some(ValidationReason::ReservedComponent)
    } else if utf8_len(s) > 255 {
        Some(ValidationReason::TooLong)
    } else if s.last() == '.' || s.last() == ' ' {
        Some(ValidationReason::TrailingDotOrSpace)
    } else if is_windows_reserved(s) {
        Some(ValidationReason::ReservedName)
    } else if exists|i: int| 0 <= i < s.len() && is_path_unsafe_char(#[trigger] s[i]) {
        Some(ValidationReason::UnsafeCharacters)
    } else {
        None
    }
}

/// Why `s` is not a decimal Steam Workshop id, if it is not.
pub open spec fn mod_id_problem(s: Seq<char>) -> Option<ValidationReason> {
    if s.len() == 0 {
        Some(ValidationReason::Empty)
    } else if utf8_len(s) > 20 {
        Some(ValidationReason::TooLong)
    } else if exists|i: int| 0 <= i < s.len() && !is_ascii_digit(#[trigger] s[i]) {
        Some(ValidationReason::DigitsOnly)
    } else {
        None
    }
}

pub open spec fn is_ku_id_char(c: char) -> bool {
    is_ascii_alphanumeric(c) || c == '_' || c == '-'
}

/// Why `s` is not a Klei user id, if it is not.
pub open spec fn ku_id_problem(s: Seq<char>) -> Option<ValidationReason> {
    if !starts_with(s, "KU_"@) {
        Some(ValidationReason::MissingPrefix)
    } else if s.len() == 3 {
        Some(ValidationReason::MissingId)
    } else if utf8_len(s.skip(3)) > 128 {
        Some(ValidationReason::TooLong)
    } else if exists|i: int| 3 <= i < s.len() && !is_ku_id_char(#[trigger] s[i]) {
        Some(ValidationReason::UnsafeCharacters)
    } else {
        None
    }
}

pub open spec fn is_shell_meta(c: char) -> bool {
    c == ';' || c == '&' || c == '`' || c == '$' || c == '(' || c == ')' || c == '\''
}

/// Why `s` may not be placed in an argv value position, if it may not.
pub open spec fn command_arg_problem(s: Seq<char>) -> Option<ValidationReason> {
    match path_atom_problem(s) {
        Some(r) => Some(r),
        None => if s[0] == '-' || s[0] == '+' {
            Some(ValidationReason::OptionMarker)
        } else if exists|i: int| 0 <= i < s.len() && is_shell_meta(#[trigger] s[i]) {
            Some(ValidationReason::UnsafeCharacters)
        } else {
            None
        },
    }
}

/// Byte length of the UTF-8 encoding of `v[from..to]`.
pub fn utf8_len_range(v: &Vec<char>, from: usize, to: usize) -> (n: usize)
    requires
        from <= to <= v.len(),
    ensures
        n as nat == utf8_len(v@.subrange(from as int, to as int)) || (n == usize::MAX
            && utf8_len(v@.subrange(from as int, to as int)) >= usize::MAX),
{
    let mut n: usize = 0;
    let mut i = from;
    while i < to
        invariant
            from <= i <= to <= v.len(),
            n as nat == utf8_len(v@.subrange(from as int, i as int)),
        decreases to - i,
    {
        let u = v[i] as u32;
        let w: usize = if u < 0x80 {
            1
        } else if u < 0x800 {
            2
        } else if u < 0x10000 {
            3
        } else {
            4
        };
        proof {
            let next = v@.subrange(from as int, i + 1);
            assert(next.drop_last() =~= v@.subrange(from as int, i as int));
            assert(next.last() == v@[i as int]);
        }
        if n > usize::MAX - w {
            proof {
                let full = v@.subrange(from as int, to as int);
                lemma_utf8_len_prefix(full, i + 1 - from);
                assert(full.take(i + 1 - from) =~= v@.subrange(from as int, i + 1));
            }
            return usize::MAX;
        }
        n = n + w;
        i = i + 1;
    }
    n
}

pub proof fn lemma_utf8_len_prefix(s: Seq<char>, k: int)
    requires
        0 <= k <= s.len(),
    ensures
        utf8_len(s.take(k)) <= utf8_len(s),
    decreases s.len() - k,
{
    if k < s.len() {
        assert(s.drop_last().take(k) =~= s.take(k));
        lemma_utf8_len_prefix(s.drop_last(), k);
    } else {
        assert(s.take(k) =~= s);
    }
}

fn is_windows_invalid_char(c: char) -> (b: bool)
    ensures
        b == is_windows_invalid(c),
{
    c == ':' || c == '<' || c == '>' || c == '"' || c == '|' || c == '?' || c == '*'
}

fn is_reserved_device_exec(u: &Vec<char>) -> (b: bool)
    ensures
        b == is_reserved_device(u@),
{
    chars_eq(u, &chars_of("CON")) || chars_eq(u, &chars_of("PRN")) || chars_eq(u, &chars_of("AUX"))
        || chars_eq(u, &chars_of("NUL")) || chars_eq(u, &chars_of("COM1")) || chars_eq(
        u,
        &chars_of("COM2"),
    ) || chars_eq(u, &chars_of("COM3")) || chars_eq(u, &chars_of("COM4")) || chars_eq(
        u,
        &chars_of("COM5"),
    ) || chars_eq(u, &chars_of("COM6")) || chars_eq(u, &chars_of("COM7")) || chars_eq(
        u,
        &chars_of("COM8"),
    ) || chars_eq(u, &chars_of("COM9")) || chars_eq(u, &chars_of("LPT1")) || chars_eq(
        u,
        &chars_of("LPT2"),
    ) || chars_eq(u, &chars_of("LPT3")) || chars_eq(u, &chars_of("LPT4")) || chars_eq(
        u,
        &chars_of("LPT5"),
    ) || chars_eq(u, &chars_of("LPT6")) || chars_eq(u, &chars_of("LPT7")) || chars_eq(
        u,
        &chars_of("LPT8"),
    ) || chars_eq(u, &chars_of("LPT9"))
}

/// Whether `v` names a Windows device (`CON`, `COM1`, ...), ignoring case and extension.
fn is_windows_reserved_name(v: &Vec<char>) -> (b: bool)
    ensures
        b == is_windows_reserved(v@),
{
    let end = match find_char(v, 0, v.len(), '.') {
        Some(i) => i,
        None => v.len(),
    };
    proof {
        assert(v@.subrange(0, v.len() as int) =~= v@);
        assert(v@.subrange(0, end as int) =~= name_stem(v@));
    }
    let mut upper: Vec<char> = Vec::new();
    let mut i: usize = 0;
    while i < end
        invariant
            end <= v.len(),
            i <= end,
            upper@ == upper_seq(v@.subrange(0, i as int)),
        decreases end - i,
    {
        upper.push(to_ascii_upper(v[i]));
        assert(upper@ =~= upper_seq(v@.subrange(0, i + 1)));
        i = i + 1;
    }
    is_reserved_device_exec(&upper)
}

#[verifier::loop_isolation(false)]
pub fn path_atom_check(v: &Vec<char>) -> (r: Option<ValidationReason>)
    ensures
        r == path_atom_problem(v@),
{
    let (lo, hi) = trim_range(v, 0, v.len());
    proof {
        assert(v@.subrange(0, v.len() as int) =~= v@);
    }
    if lo == hi {
        return Some(ValidationReason::Empty);
    }
    if lo != 0 || hi != v.len() {
        proof {
            let t = v@.subrange(lo as int, hi as int);
            assert(t.len() != v@.len());
        }
        return Some(ValidationReason::SurroundingWhitespace);
    }
    proof {
        assert(v@.subrange(0, v.len() as int) =~= v@);
    }
    if chars_eq(v, &chars_of(".")) || chars_eq(v, &chars_of("..")) {
        return Some(ValidationReason::ReservedComponent);
    }
    if utf8_len_range(v, 0, v.len()) > 255 {
        return Some(ValidationReason::TooLong);
    }
    let last = v[v.len() - 1];
    if last == '.' || last == ' ' {
        return Some(ValidationReason::TrailingDotOrSpace);
    }
    if is_windows_reserved_name(v) {
        return Some(ValidationReason::ReservedName);
    }
    let mut i: usize = 0;
    while i < v.len()
        invariant
            i <= v.len(),
            forall|j: int| 0 <= j < i ==> !is_path_unsafe_char(v@[j]),
        decreases v.len() - i,
    {
        let c = v[i];
        if c == '/' || c == '\\' || is_control_char(c) || is_windows_invalid_char(c) {
            assert(is_path_unsafe_char(v@[i as int]));
            return Some(ValidationReason::UnsafeCharacters);
        }
        i = i + 1;
    }
    None
}

/// Validated DST cluster name safe to use as a single path component.
#[derive(Debug, Clone, PartialEq, Eq, Hash)]
pub struct ClusterName(String);

impl View for ClusterName {
    type V = Seq<char>;

    closed spec fn view(&self) -> Seq<char> {
        self.0@
    }
}

impl ClusterName {
    /// Returns the validated value as a string slice.
    pub fn as_str(&self) -> (s: &str)
        ensures
            s@ == self@,
    {
        self.0.as_str()
    }

    /// Consumes the wrapper and returns the validated string.
    pub fn into_string(self) -> (s: String)
        ensures
            s@ == self@,
    {
        self.0
    }
}

/// Validated DST shard or level name safe to use as a single path component.
#[derive(Debug, Clone, PartialEq, Eq, Hash)]
pub struct LevelName(String);

impl View for LevelName {
    type V = Seq<char>;

    closed spec fn view(&self) -> Seq<char> {
        self.0@
    }
}

impl LevelName {
    /// Returns the validated value as a string slice.
    pub fn as_str(&self) -> (s: &str)
        ensures
            s@ == self@,
    {
        self.0.as_str()
    }

    /// Consumes the wrapper and returns the validated string.
    pub fn into_string(self) -> (s: String)
        ensures
            s@ == self@,
    {
        self.0
    }
}

/// Validated Steam Workshop decimal mod id.
#[derive(Debug, Clone, PartialEq, Eq, Hash)]
pub struct ModId(String);

impl View for ModId {
    type V = Seq<char>;

    closed spec fn view(&self) -> Seq<char> {
        self.0@
    }
}

impl ModId {
    /// Returns the validated value as a string slice.
    pub fn as_str(&self) -> (s: &str)
        ensures
            s@ == self@,
    {
        self.0.as_str()
    }

    /// Consumes the wrapper and returns the validated string.
    pub fn into_string(self) -> (s: String)
        ensures
            s@ == self@,
    {
        self.0
    }
}

/// Validated Klei user id.
#[derive(Debug, Clone, PartialEq, Eq, Hash)]
pub struct KuId(String);

impl View for KuId {
    type V = Seq<char>;

    closed spec fn view(&self) -> Seq<char> {
        self.0@
    }
}

impl KuId {
    /// Returns the validated value as a string slice.
    pub fn as_str(&self) -> (s: &str)
        ensures
            s@ == self@,
    {
        self.0.as_str()
    }

    /// Consumes the wrapper and returns the validated string.
    pub fn into_string(self) -> (s: String)
        ensures
            s@ == self@,
    {
        self.0
    }
}

/// Validated single filename safe to use as one path component.
#[derive(Debug, Clone, PartialEq, Eq, Hash)]
pub struct SafeFilename(String);

impl View for SafeFilename {
    type V = Seq<char>;

    closed spec fn view(&self) -> Seq<char> {
        self.0@
    }
}

impl SafeFilename {
    /// Returns the validated value as a string slice.
    pub fn as_str(&self) -> (s: &str)
        ensures
            s@ == self@,
    {
        self.0.as_str()
    }

    /// Consumes the wrapper and returns the validated string.
    pub fn into_string(self) -> (s: String)
        ensures
            s@ == self@,
    {
        self.0
    }
}

/// Validated backup archive filename safe to use as one path component.
#[derive(Debug, Clone, PartialEq, Eq, Hash)]
pub struct BackupArchiveName(String);

impl View for BackupArchiveName {
    type V = Seq<char>;

    closed spec fn view(&self) -> Seq<char> {
        self.0@
    }
}

impl BackupArchiveName {
    /// Returns the validated value as a string slice.
    pub fn as_str(&self) -> (s: &str)
        ensures
            s@ == self@,
    {
        self.0.as_str()
    }

    /// Consumes the wrapper and returns the validated string.
    pub fn into_string(self) -> (s: String)
        ensures
            s@ == self@,
    {
        self.0
    }
}

/// Validated user-controlled value safe to place in argv value positions.
#[derive(Debug, Clone, PartialEq, Eq, Hash)]
pub struct SafeCommandArg(String);

impl View for SafeCommandArg {
    type V = Seq<char>;

    closed spec fn view(&self) -> Seq<char> {
        self.0@
    }
}

impl SafeCommandArg {
    /// Returns the validated value as a string slice.
    pub fn as_str(&self) -> (s: &str)
        ensures
            s@ == self@,
    {
        self.0.as_str()
    }

    /// Consumes the wrapper and returns the validated string.
    pub fn into_string(self) -> (s: String)
        ensures
            s@ == self@,
    {
        self.0
    }
}

fn error(field: &'static str, reason: ValidationReason) -> (e: ValidationError)
    ensures
        e.field == field,
        e.reason == reason,
{
    ValidationError { field, reason }
}

fn path_atom(field: &'static str, value: &str) -> (r: Result<String, ValidationError>)
    ensures
        match path_atom_problem(value@) {
            None => r is Ok && r->Ok_0@ == value@,
            Some(reason) => r is Err && r->Err_0.field == field && r->Err_0.reason == reason,
        },
{
    let v = chars_of(value);
    match path_atom_check(&v) {
        None => Ok(value.to_owned()),
        Some(reason) => Err(error(field, reason)),
    }
}

/// Validates a DST cluster name.
pub fn validate_cluster_name(value: &str) -> (r: Result<ClusterName, ValidationError>)
    ensures
        match path_atom_problem(value@) {
            None => r is Ok && r->Ok_0@ == value@,
            Some(reason) => r is Err && r->Err_0.field == "cluster name" && r->Err_0.reason == reason,
        },
{
    match path_atom("cluster name", value) {
        Ok(s) => Ok(ClusterName(s)),
        Err(e) => Err(e),
    }
}

/// Validates a DST shard/level name.
pub fn validate_level_name(value: &str) -> (r: Result<LevelName, ValidationError>)
    ensures
        match path_atom_problem(value@) {
            None => r is Ok && r->Ok_0@ == value@,
            Some(reason) => r is Err && r->Err_0.field == "level name" && r->Err_0.reason == reason,
        },
{
    match path_atom("level name", value) {
        Ok(s) => Ok(LevelName(s)),
        Err(e) => Err(e),
    }
}

/// Validates a single file name, not a nested path.
pub fn validate_filename(value: &str) -> (r: Result<SafeFilename, ValidationError>)
    ensures
        match path_atom_problem(value@) {
            None => r is Ok && r->Ok_0@ == value@,
            Some(reason) => r is Err && r->Err_0.field == "filename" && r->Err_0.reason == reason,
        },
{
    match path_atom("filename", value) {
        Ok(s) => Ok(SafeFilename(s)),
        Err(e) => Err(e),
    }
}

/// Validates a backup archive file name.
pub fn validate_backup_archive_name(value: &str) -> (r: Result<BackupArchiveName, ValidationError>)
    ensures
        match path_atom_problem(value@) {
            None => r is Ok && r->Ok_0@ == value@,
            Some(reason) => r is Err && r->Err_0.field == "backup archive name" && r->Err_0.reason
                == reason,
        },
{
    match path_atom("backup archive name", value) {
        Ok(s) => Ok(BackupArchiveName(s)),
        Err(e) => Err(e),
    }
}

/// Validates a Steam Workshop mod id; compatible callers pass decimal ids.
#[verifier::loop_isolation(false)]
pub fn validate_mod_id(value: &str) -> (r: Result<ModId, ValidationError>)
    ensures
        match mod_id_problem(value@) {
            None => r is Ok && r->Ok_0@ == value@,
            Some(reason) => r is Err && r->Err_0.field == "mod id" && r->Err_0.reason == reason,
        },
{
    let v = chars_of(value);
    if v.len() == 0 {
        return Err(error("mod id", ValidationReason::Empty));
    }
    proof {
        assert(v@.subrange(0, v.len() as int) =~= v@);
    }
    if utf8_len_range(&v, 0, v.len()) > 20 {
        return Err(error("mod id", ValidationReason::TooLong));
    }
    let mut i: usize = 0;
    while i < v.len()
        invariant
            i <= v.len(),
            forall|j: int| 0 <= j < i ==> is_ascii_digit(v@[j]),
        decreases v.len() - i,
    {
        if !is_digit(v[i]) {
            assert(!is_ascii_digit(v@[i as int]));
            return Err(error("mod id", ValidationReason::DigitsOnly));
        }
        i = i + 1;
    }
    Ok(ModId(value.to_owned()))
}

/// Validates a Klei user id such as `KU_abc-123`.
#[verifier::loop_isolation(false)]
pub fn validate_ku_id(value: &str) -> (r: Result<KuId, ValidationError>)
    ensures
        match ku_id_problem(value@) {
            None => r is Ok && r->Ok_0@ == value@,
            Some(reason) => r is Err && r->Err_0.field == "KU id" && r->Err_0.reason == reason,
        },
{
    let v = chars_of(value);
    let prefix = chars_of("KU_");
    proof {
        reveal_strlit("KU_");
    }
    if !crate::text::starts_with_exec(&v, &prefix) {
        return Err(error("KU id", ValidationReason::MissingPrefix));
    }
    if v.len() == 3 {
        return Err(error("KU id", ValidationReason::MissingId));
    }
    proof {
        assert(v@.subrange(3, v.len() as int) =~= v@.skip(3));
    }
    if utf8_len_range(&v, 3, v.len()) > 128 {
        return Err(error("KU id", ValidationReason::TooLong));
    }
    let mut i: usize = 3;
    while i < v.len()
        invariant
            3 <= i <= v.len(),
            forall|j: int| 3 <= j < i ==> is_ku_id_char(v@[j]),
        decreases v.len() - i,
    {
        let c = v[i];
        if !(is_alphanumeric(c) || c == '_' || c == '-') {
            assert(!is_ku_id_char(v@[i as int]));
            return Err(error("KU id", ValidationReason::UnsafeCharacters));
        }
        i = i + 1;
    }
    Ok(KuId(value.to_owned()))
}

/// Validates a user-controlled value before it is passed as an argv value.
///
/// Stricter than path component validation: a leading `-` or `+` is rejected
/// so a value cannot turn into an option, SteamCMD command, or console
/// directive, and shell metacharacters are rejected.
#[verifier::loop_isolation(false)]
pub fn validate_safe_command_arg(field: &'static str, value: &str) -> (r: Result<
    SafeCommandArg,
    ValidationError,
>)
    ensures
        match command_arg_problem(value@) {
            None => r is Ok && r->Ok_0@ == value@,
            Some(reason) => r is Err && r->Err_0.field == field && r->Err_0.reason == reason,
        },
{
    let s = match path_atom(field, value) {
        Ok(s) => s,
        Err(e) => return Err(e),
    };
    let v = chars_of(value);
    if v[0] == '-' || v[0] == '+' {
        return Err(error(field, ValidationReason::OptionMarker));
    }
    let mut i: usize = 0;
    while i < v.len()
        invariant
            i <= v.len(),
            forall|j: int| 0 <= j < i ==> !is_shell_meta(v@[j]),
        decreases v.len() - i,
    {
        let c = v[i];
        if c == ';' || c == '&' || c == '`' || c == '$' || c == '(' || c == ')' || c == '\'' {
            assert(is_shell_meta(v@[i as int]));
            return Err(error(field, ValidationReason::UnsafeCharacters));
        }
        i = i + 1;
    }
    Ok(SafeCommandArg(s))
}

} // verus!
