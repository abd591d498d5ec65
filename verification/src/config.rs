//! Application settings from `config.yml`, with the defaults applied to
//! missing or zero values, and where the database file lives.
use vstd::prelude::*;
use crate::dst_config::{path_join, path_join_exec};
use crate::text::{chars_of, push_str, starts_with, string_from_range, trim, trim_range};
use crate::numbers::{all_digits, parse_bool_range, parse_bool_spec, parse_i64_range, parse_i64_spec, parse_unsigned,
    parse_unsigned_range, unsigned_body};

verus! {

broadcast use vstd::string::group_string_axioms;

/// Version endpoint used when none is configured.
pub const DEFAULT_DST_VERSION_URL: &'static str = "https://api.dstserverlist.top/api/v2/Server/Version";
/// Minutes between mod-info checks when none is configured.
pub const DEFAULT_MODINFO_CHECK_INTERVAL: i64 = 5;
/// Minutes between mod-info refreshes when none is configured.
pub const DEFAULT_MODINFO_UPDATE_CHECK_INTERVAL: i64 = 10;

/// Settings of the panel.
pub struct AppConfig {
    pub bind_address: String,
    /// HTTP port, kept as text.
    pub port: String,
    pub path: String,
    /// Directory that a relative database file name is taken under.
    pub data_dir: String,
    /// SQLite database path, file name or `sqlite:` URL.
    pub database: String,
    pub steamcmd: String,
    pub steam_api_key: Option<String>,
    pub flag: String,
    pub wan_ip: String,
    pub white_admin_ip: Option<String>,
    pub token: Option<String>,
    pub dst_version_url: String,
    pub auto_update_modinfo: AutoUpdateModinfoConfig,
    pub dst_cli_port: String,
}

/// Automatic mod-info refresh settings.
pub struct AutoUpdateModinfoConfig {
    pub enable: bool,
    /// Minutes between checks for changes.
    pub check_interval: i64,
    /// Minutes between refresh runs.
    pub update_check_interval: i64,
}

/// Settings as read from the file, before defaults.
pub struct RawAppConfig {
    pub bind_address: String,
    pub port: String,
    pub path: String,
    pub data_dir: String,
    pub database: String,
    pub steamcmd: String,
    pub steam_api_key: Option<String>,
    pub flag: String,
    pub wan_ip: String,
    pub white_admin_ip: Option<String>,
    pub token: Option<String>,
    pub dst_version_url: String,
    pub auto_update_modinfo: RawAutoUpdateModinfoConfig,
    pub dst_cli_port: String,
}

/// Mod-info refresh settings as read from the file, before defaults.
pub struct RawAutoUpdateModinfoConfig {
    pub enable: bool,
    pub check_interval: i64,
    pub update_check_interval: i64,
}

pub open spec fn default_text(value: Seq<char>, fallback: Seq<char>) -> Seq<char> {
    if value.len() == 0 { fallback } else { value }
}

/// `value`, or `fallback` when it is empty.
pub fn default_string(value: String, fallback: &str) -> (s: String)
    ensures
        s@ == default_text(value@, fallback@),
{
    if value.as_str().is_empty() { fallback.to_string() } else { value }
}

/// `value`, or `fallback` when it is zero.
pub fn default_i64(value: i64, fallback: i64) -> (v: i64)
    ensures
        v == if value == 0 { fallback } else { value },
{
    if value == 0 { fallback } else { value }
}

impl RawAutoUpdateModinfoConfig {
    /// Applies the interval defaults: zero means unset.
    pub fn into_config(self) -> (c: AutoUpdateModinfoConfig)
        ensures
            c.enable == self.enable,
            c.check_interval == if self.check_interval == 0 { DEFAULT_MODINFO_CHECK_INTERVAL } else { self.check_interval },
            c.update_check_interval == if self.update_check_interval == 0 { DEFAULT_MODINFO_UPDATE_CHECK_INTERVAL } else { self.update_check_interval },
    {
        AutoUpdateModinfoConfig {
            enable: self.enable,
            check_interval: default_i64(self.check_interval, DEFAULT_MODINFO_CHECK_INTERVAL),
            update_check_interval: default_i64(self.update_check_interval, DEFAULT_MODINFO_UPDATE_CHECK_INTERVAL),
        }
    }
}

impl RawAppConfig {
    /// Applies the defaults: an empty data directory is `./`, an empty version
    /// URL is `DEFAULT_DST_VERSION_URL`; everything else is kept.
    pub fn into_app_config(self) -> (c: AppConfig)
        ensures
            c.data_dir@ == default_text(self.data_dir@, "./"@),
            c.dst_version_url@ == default_text(self.dst_version_url@, DEFAULT_DST_VERSION_URL@),
            c.bind_address == self.bind_address,
            c.port == self.port,
            c.path == self.path,
            c.database == self.database,
            c.steamcmd == self.steamcmd,
            c.steam_api_key == self.steam_api_key,
            c.flag == self.flag,
            c.wan_ip == self.wan_ip,
            c.white_admin_ip == self.white_admin_ip,
            c.token == self.token,
            c.dst_cli_port == self.dst_cli_port,
            c.auto_update_modinfo.enable == self.auto_update_modinfo.enable,
            c.auto_update_modinfo.check_interval == if self.auto_update_modinfo.check_interval == 0 {
                DEFAULT_MODINFO_CHECK_INTERVAL } else { self.auto_update_modinfo.check_interval },
            c.auto_update_modinfo.update_check_interval == if self.auto_update_modinfo.update_check_interval == 0 {
                DEFAULT_MODINFO_UPDATE_CHECK_INTERVAL } else { self.auto_update_modinfo.update_check_interval },
    {
        AppConfig {
            bind_address: self.bind_address,
            port: self.port,
            path: self.path,
            data_dir: default_string(self.data_dir, "./"),
            database: self.database,
            steamcmd: self.steamcmd,
            steam_api_key: self.steam_api_key,
            flag: self.flag,
            wan_ip: self.wan_ip,
            white_admin_ip: self.white_admin_ip,
            token: self.token,
            dst_version_url: default_string(self.dst_version_url, DEFAULT_DST_VERSION_URL),
            auto_update_modinfo: self.auto_update_modinfo.into_config(),
            dst_cli_port: self.dst_cli_port,
        }
    }
}

/// Where the database is: a `sqlite:` URL or an absolute path as given; a
/// relative name under the trimmed data directory, unless that is empty,
/// `.` or `./`.
pub open spec fn database_path_spec(data_dir: Seq<char>, database: Seq<char>) -> Seq<char> {
    let d = trim(data_dir);
    if starts_with(database, "sqlite:"@) || (database.len() > 0 && database[0] == '/') {
        database
    } else if d.len() == 0 || d == "."@ || d == "./"@ {
        database
    } else {
        path_join(d, database)
    }
}

impl AppConfig {
    /// The SQLite database path.
    pub fn database_path(&self) -> (p: String)
        ensures
            p@ == database_path_spec(self.data_dir@, self.database@),
    {
        proof {
            reveal_strlit("sqlite:");
            reveal_strlit(".");
            reveal_strlit("./");
        }
        let db = chars_of(self.database.as_str());
        let prefix = chars_of("sqlite:");
        let mut is_url = db.len() >= prefix.len();
        let mut i: usize = 0;
        while is_url && i < prefix.len()
            invariant
                prefix@ == "sqlite:"@,
                db@ == self.database@,
                i <= prefix.len(),
                is_url ==> db.len() >= prefix.len(),
                is_url ==> forall|j: int| 0 <= j < i ==> db@[j] == prefix@[j],
                !is_url ==> !starts_with(db@, prefix@),
            decreases prefix.len() - i,
        {
            if db[i] != prefix[i] {
                is_url = false;
            }
            i = i + 1;
        }
        proof {
            if is_url {
                assert(db@.take(prefix@.len() as int) =~= prefix@);
            }
        }
        if is_url || (db.len() > 0 && db[0] == '/') {
            return self.database.clone();
        }
        let dv = chars_of(self.data_dir.as_str());
        assert(dv@.subrange(0, dv.len() as int) =~= dv@);
        let (a, b) = trim_range(&dv, 0, dv.len());
        let d = string_from_range(&dv, a, b);
        let n = b - a;
        let dot = n == 1 && dv[a] == '.';
        let dot_slash = n == 2 && dv[a] == '.' && dv[a + 1] == '/';
        proof {
            reveal_strlit(".");
            reveal_strlit("./");
            let t = d@;
            if n == 1 && dv@[a as int] == '.' {
                assert(t =~= "."@);
            }
            if n == 2 && dv@[a as int] == '.' && dv@[a + 1] == '/' {
                assert(t =~= "./"@);
            }
            assert(t == dv@.subrange(a as int, b as int));
            assert("."@.len() == 1);
            if t == "."@ {
                assert(t.len() == 1);
                assert(t[0] == dv@[a as int]);
            }
            if t == "./"@ {
                assert(t.len() == 2 && t[0] == dv@[a as int] && t[1] == dv@[a + 1]);
            }
        }
        if n == 0 || dot || dot_slash {
            self.database.clone()
        } else {
            path_join_exec(d.as_str(), self.database.as_str())
        }
    }
}

/// Where the HTTP server listens.
#[derive(Debug, PartialEq, Eq)]
pub struct BindAddress {
    pub host: String,
    pub port: u16,
}

/// Why a port setting is not a port, as `u16::from_str` reports it.
#[derive(Debug, PartialEq, Eq, Structural, Clone, Copy)]
pub enum PortProblem {
    InvalidDigit,
    TooLarge,
}

/// The listen address setting is unusable.
#[derive(Debug)]
pub struct BindAddressError {
    /// The port text as configured, trimmed.
    pub value: String,
    pub problem: PortProblem,
}

impl BindAddressError {
    /// The error's display text.
    pub fn message(&self) -> (m: String)
        ensures
            m@ == "invalid HTTP port `"@ + self.value@ + "` in config.yml: "@ + match self.problem {
                PortProblem::InvalidDigit => "invalid digit found in string"@,
                PortProblem::TooLarge => "number too large to fit in target type"@,
            },
    {
        let mut m = "invalid HTTP port `".to_string();
        push_str(&mut m, self.value.as_str());
        push_str(&mut m, "` in config.yml: ");
        match self.problem {
            PortProblem::InvalidDigit => push_str(&mut m, "invalid digit found in string"),
            PortProblem::TooLarge => push_str(&mut m, "number too large to fit in target type"),
        }
        m
    }
}

/// The trimmed setting, or `default` when it is blank.
pub open spec fn setting_or(v: Seq<char>, default: Seq<char>) -> Seq<char> {
    if trim(v).len() == 0 { default } else { trim(v) }
}

/// The port a text gives, or why it gives none.
pub open spec fn port_of(t: Seq<char>) -> Result<u16, PortProblem> {
    match parse_unsigned(t, 65535) {
        Some(n) => Ok(n as u16),
        None => if unsigned_body(t).len() > 0 && all_digits(unsigned_body(t)) {
            Err(PortProblem::TooLarge)
        } else {
            Err(PortProblem::InvalidDigit)
        },
    }
}

fn trimmed(s: &str) -> (t: String)
    ensures
        t@ == trim(s@),
{
    let v = chars_of(s);
    assert(v@.subrange(0, v.len() as int) =~= v@);
    let (a, b) = trim_range(&v, 0, v.len());
    string_from_range(&v, a, b)
}

/// The listen address: the trimmed host, or `0.0.0.0` when blank; the
/// trimmed port, or `8082` when blank, which must be a `u16`.
pub fn bind_addr(config: &AppConfig) -> (r: Result<BindAddress, BindAddressError>)
    ensures
        ({
            let port_text = setting_or(config.port@, "8082"@);
            match port_of(port_text) {
                Ok(p) => r matches Ok(a) && a.host@ == setting_or(config.bind_address@, "0.0.0.0"@) && a.port == p,
                Err(e) => r matches Err(x) && x.value@ == port_text && x.problem == e,
            }
        }),
{
    let h = trimmed(config.bind_address.as_str());
    let host = if h.as_str().is_empty() { "0.0.0.0".to_string() } else { h };
    let p = trimmed(config.port.as_str());
    let port_text = if p.as_str().is_empty() { "8082".to_string() } else { p };
    let v = chars_of(port_text.as_str());
    let n = v.len();
    assert(v@.subrange(0, n as int) =~= v@);
    match parse_unsigned_range(&v, 0, n, 65535) {
        Some(x) => Ok(BindAddress { host, port: x as u16 }),
        None => {
            let start: usize = if n > 0 && v[0] == '+' { 1 } else { 0 };
            let ghost body = unsigned_body(v@);
            assert(body =~= v@.subrange(start as int, n as int));
            let mut digits = start < n;
            let mut i = start;
            while i < n
                invariant
                    start <= i <= n,
                    n == v.len(),
                    body == v@.subrange(start as int, n as int),
                    digits == (start < n && forall|j: int| start <= j < i ==> '0' <= #[trigger] v@[j] <= '9'),
                decreases n - i,
            {
                if !('0' <= v[i] && v[i] <= '9') {
                    digits = false;
                }
                i = i + 1;
            }
            proof {
                if digits {
                    assert forall|j: int| 0 <= j < body.len() implies '0' <= #[trigger] body[j] <= '9' by {
                        assert(body[j] == v@[start + j]);
                    }
                } else if body.len() > 0 && all_digits(body) {
                    let j = choose|j: int| start <= j < n && !('0' <= #[trigger] v@[j] <= '9');
                    assert(body[j - start] == v@[j]);
                }
            }
            let problem = if digits { PortProblem::TooLarge } else { PortProblem::InvalidDigit };
            Err(BindAddressError { value: port_text, problem })
        },
    }
}

/// A YAML number as the reader sees it: as `i64` and as `u64` where it
/// fits, and its text.
pub struct ScalarNumber {
    pub as_i64: Option<i64>,
    pub as_u64: Option<u64>,
    pub text: String,
}

/// A settings value as the YAML reader found it.
pub enum ConfigScalar {
    /// The key is absent.
    Missing,
    Null,
    Bool(bool),
    Number(ScalarNumber),
    Text(String),
    /// A sequence, mapping or tagged value.
    Other,
}

/// Why a settings value has the wrong shape.
#[derive(PartialEq, Eq, Structural, Clone, Copy)]
pub enum IntProblem {
    InvalidDigit,
    TooLarge,
    TooSmall,
}

/// Why a settings value was refused. The text never repeats the value,
/// which may be a secret.
pub enum ScalarError {
    ExpectedScalar,
    ExpectedI64,
    ExpectedInteger(IntProblem),
    ExpectedIntegerValue,
    ExpectedBoolean,
    ExpectedBooleanValue,
}

impl ScalarError {
    pub open spec fn message_spec(&self) -> Seq<char> {
        match self {
            ScalarError::ExpectedScalar => "expected scalar value"@,
            ScalarError::ExpectedI64 => "expected signed 64-bit integer"@,
            ScalarError::ExpectedInteger(p) => "expected integer: "@ + match p {
                IntProblem::InvalidDigit => "invalid digit found in string"@,
                IntProblem::TooLarge => "number too large to fit in target type"@,
                IntProblem::TooSmall => "number too small to fit in target type"@,
            },
            ScalarError::ExpectedIntegerValue => "expected integer value"@,
            ScalarError::ExpectedBoolean => "expected boolean: provided string was not `true` or `false`"@,
            ScalarError::ExpectedBooleanValue => "expected boolean value"@,
        }
    }

    /// The error's display text.
    pub fn message(&self) -> (m: String)
        ensures
            m@ == self.message_spec(),
    {
        match self {
            ScalarError::ExpectedScalar => "expected scalar value".to_string(),
            ScalarError::ExpectedI64 => "expected signed 64-bit integer".to_string(),
            ScalarError::ExpectedInteger(p) => {
                let mut m = "expected integer: ".to_string();
                match p {
                    IntProblem::InvalidDigit => push_str(&mut m, "invalid digit found in string"),
                    IntProblem::TooLarge => push_str(&mut m, "number too large to fit in target type"),
                    IntProblem::TooSmall => push_str(&mut m, "number too small to fit in target type"),
                }
                m
            },
            ScalarError::ExpectedIntegerValue => "expected integer value".to_string(),
            ScalarError::ExpectedBoolean => "expected boolean: provided string was not `true` or `false`".to_string(),
            ScalarError::ExpectedBooleanValue => "expected boolean value".to_string(),
        }
    }
}

/// A text setting: absent or null is empty, numbers and booleans are their
/// text, anything else is refused.
pub fn scalar_string(v: &ConfigScalar) -> (r: Result<String, ScalarError>)
    ensures
        match v {
            ConfigScalar::Missing | ConfigScalar::Null => r matches Ok(s) && s@.len() == 0,
            ConfigScalar::Text(t) => r matches Ok(s) && s@ == t@,
            ConfigScalar::Number(n) => r matches Ok(s) && s@ == n.text@,
            ConfigScalar::Bool(b) => r matches Ok(s) && s@ == crate::numbers::bool_text(*b),
            ConfigScalar::Other => r matches Err(ScalarError::ExpectedScalar),
        },
{
    match v {
        ConfigScalar::Missing | ConfigScalar::Null => Ok(String::new()),
        ConfigScalar::Text(t) => Ok(t.clone()),
        ConfigScalar::Number(n) => Ok(n.text.clone()),
        ConfigScalar::Bool(b) => {
            proof {
                reveal_strlit("true");
                reveal_strlit("false");
            }
            Ok(if *b { "true".to_string() } else { "false".to_string() })
        },
        ConfigScalar::Other => Err(ScalarError::ExpectedScalar),
    }
}

/// An optional text setting: empty text is absent.
pub fn scalar_optional_string(v: &ConfigScalar) -> (r: Result<Option<String>, ScalarError>)
    ensures
        match scalar_string_spec(v) {
            Ok(s) => r matches Ok(o) && (if s.len() == 0 { o is None } else { o matches Some(x) && x@ == s }),
            Err(_) => r matches Err(ScalarError::ExpectedScalar),
        },
{
    let s = scalar_string(v)?;
    if s.as_str().is_empty() { Ok(None) } else { Ok(Some(s)) }
}

pub open spec fn scalar_string_spec(v: &ConfigScalar) -> Result<Seq<char>, ()> {
    match v {
        ConfigScalar::Missing | ConfigScalar::Null => Ok(Seq::empty()),
        ConfigScalar::Text(t) => Ok(t@),
        ConfigScalar::Number(n) => Ok(n.text@),
        ConfigScalar::Bool(b) => Ok(crate::numbers::bool_text(*b)),
        ConfigScalar::Other => Err(()),
    }
}

/// Why a text is not an `i64`, as `i64::from_str` reports it.
pub open spec fn i64_problem(t: Seq<char>) -> IntProblem {
    let negative = t.len() > 0 && t[0] == '-';
    let body = if negative { t.drop_first() } else { unsigned_body(t) };
    if body.len() == 0 || !all_digits(body) {
        IntProblem::InvalidDigit
    } else if negative {
        IntProblem::TooSmall
    } else {
        IntProblem::TooLarge
    }
}

/// An integer setting: absent, null or empty text is zero; a number must
/// fit in `i64`; text must parse as `i64`.
pub fn scalar_i64(v: &ConfigScalar) -> (r: Result<i64, ScalarError>)
    ensures
        match v {
            ConfigScalar::Missing | ConfigScalar::Null => r == Ok::<i64, ScalarError>(0),
            ConfigScalar::Number(n) => match n.as_i64 {
                Some(x) => r == Ok::<i64, ScalarError>(x),
                None => match n.as_u64 {
                    Some(u) => if u <= i64::MAX { r == Ok::<i64, ScalarError>(u as i64) } else { r matches Err(ScalarError::ExpectedI64) },
                    None => r matches Err(ScalarError::ExpectedI64),
                },
            },
            ConfigScalar::Text(t) => if t@.len() == 0 {
                r == Ok::<i64, ScalarError>(0)
            } else {
                match parse_i64_spec(t@) {
                    Some(x) => r == Ok::<i64, ScalarError>(x),
                    None => r matches Err(ScalarError::ExpectedInteger(p)) && p == i64_problem(t@),
                }
            },
            _ => r matches Err(ScalarError::ExpectedIntegerValue),
        },
{
    match v {
        ConfigScalar::Missing | ConfigScalar::Null => Ok(0),
        ConfigScalar::Number(n) => match n.as_i64 {
            Some(x) => Ok(x),
            None => match n.as_u64 {
                Some(u) => if u <= 9223372036854775807u64 { Ok(u as i64) } else { Err(ScalarError::ExpectedI64) },
                None => Err(ScalarError::ExpectedI64),
            },
        },
        ConfigScalar::Text(t) => {
            if t.as_str().is_empty() {
                return Ok(0);
            }
            let c = chars_of(t.as_str());
            let n = c.len();
            assert(c@.subrange(0, n as int) =~= c@);
            match parse_i64_range(&c, 0, n) {
                Some(x) => Ok(x),
                None => Err(ScalarError::ExpectedInteger(int_problem(&c))),
            }
        },
        _ => Err(ScalarError::ExpectedIntegerValue),
    }
}

fn int_problem(c: &Vec<char>) -> (p: IntProblem)
    ensures
        p == i64_problem(c@),
{
    let negative = c.len() > 0 && c[0] == '-';
    let start: usize = if negative || (c.len() > 0 && c[0] == '+') { 1 } else { 0 };
    let ghost body = if negative { c@.drop_first() } else { unsigned_body(c@) };
    assert(body =~= c@.subrange(start as int, c.len() as int));
    let mut digits = start < c.len();
    let mut i = start;
    while i < c.len()
        invariant
            start <= i <= c.len(),
            start <= c.len(),
            body == c@.subrange(start as int, c.len() as int),
            digits == (start < c.len() && forall|j: int| start <= j < i ==> '0' <= #[trigger] c@[j] <= '9'),
        decreases c.len() - i,
    {
        if !('0' <= c[i] && c[i] <= '9') {
            digits = false;
        }
        i = i + 1;
    }
    proof {
        if digits {
            assert forall|j: int| 0 <= j < body.len() implies '0' <= #[trigger] body[j] <= '9' by {
                assert(body[j] == c@[start + j]);
            }
        } else if body.len() > 0 && all_digits(body) {
            let j = choose|j: int| start <= j < c.len() && !('0' <= #[trigger] c@[j] <= '9');
            assert(body[j - start] == c@[j]);
        }
    }
    if !digits {
        IntProblem::InvalidDigit
    } else if negative {
        IntProblem::TooSmall
    } else {
        IntProblem::TooLarge
    }
}

/// A switch setting: absent, null or empty text is off; a number is on
/// unless it is zero (or no `i64`); text must be `true` or `false`.
pub fn scalar_bool(v: &ConfigScalar) -> (r: Result<bool, ScalarError>)
    ensures
        match v {
            ConfigScalar::Missing | ConfigScalar::Null => r == Ok::<bool, ScalarError>(false),
            ConfigScalar::Bool(b) => r == Ok::<bool, ScalarError>(*b),
            ConfigScalar::Number(n) => r == Ok::<bool, ScalarError>(match n.as_i64 { Some(x) => x != 0, None => false }),
            ConfigScalar::Text(t) => if t@.len() == 0 {
                r == Ok::<bool, ScalarError>(false)
            } else {
                match parse_bool_spec(t@) {
                    Some(b) => r == Ok::<bool, ScalarError>(b),
                    None => r matches Err(ScalarError::ExpectedBoolean),
                }
            },
            ConfigScalar::Other => r matches Err(ScalarError::ExpectedBooleanValue),
        },
{
    match v {
        ConfigScalar::Missing | ConfigScalar::Null => Ok(false),
        ConfigScalar::Bool(b) => Ok(*b),
        ConfigScalar::Number(n) => Ok(match n.as_i64 { Some(x) => x != 0, None => false }),
        ConfigScalar::Text(t) => {
            if t.as_str().is_empty() {
                return Ok(false);
            }
            let c = chars_of(t.as_str());
            let n = c.len();
            assert(c@.subrange(0, n as int) =~= c@);
            match parse_bool_range(&c, 0, n) {
                Some(b) => Ok(b),
                None => Err(ScalarError::ExpectedBoolean),
            }
        },
        ConfigScalar::Other => Err(ScalarError::ExpectedBooleanValue),
    }
}

} // verus!
