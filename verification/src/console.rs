//! Console commands for running DST shards, sent through `screen` as argv
//! arrays so that no cluster, level, id or message text reaches a shell.
use vstd::prelude::*;
use crate::command::{CommandSpec, DEFAULT_OUTPUT_LIMIT_BYTES};
use crate::numbers::{i64_to_chars, signed_decimal};
use crate::text::{chars_of, push_char, push_chars, push_str};
use crate::validation::{
    command_arg_problem, ku_id_problem, utf8_len, utf8_len_range, validate_ku_id,
    validate_safe_command_arg, ValidationError,
};

verus! {

broadcast use vstd::string::group_string_axioms;

/// Most bytes of console text that one command may carry.
pub const MAX_CONSOLE_TEXT_BYTES: usize = 8192;

/// Why a console request was refused.
#[derive(Debug, Clone, PartialEq, Eq)]
pub enum ConsoleError {
    /// A cluster, level or player id failed validation.
    Invalid(ValidationError),
    /// The text holds a NUL character.
    UnsafeText,
    /// The text is longer than [`MAX_CONSOLE_TEXT_BYTES`] bytes.
    TextTooLong,
}

/// The message returned to the client for an error.
pub open spec fn console_error_text(e: ConsoleError) -> Seq<char> {
    match e {
        ConsoleError::Invalid(v) => "invalid "@ + v.field@ + ": "@ + v.reason.text_spec(),
        ConsoleError::UnsafeText => "console text contains unsafe characters"@,
        ConsoleError::TextTooLong => "console text is too long"@,
    }
}

impl ConsoleError {
    /// The message returned to the client.
    pub fn message(&self) -> (s: String)
        ensures
            s@ == console_error_text(*self),
    {
        match self {
            ConsoleError::Invalid(e) => e.message(),
            ConsoleError::UnsafeText => "console text contains unsafe characters".to_string(),
            ConsoleError::TextTooLong => "console text is too long".to_string(),
        }
    }
}

/// The problem with console text, if any.
pub open spec fn console_text_problem(s: Seq<char>) -> Option<ConsoleError> {
    if s.contains('\0') {
        Some(ConsoleError::UnsafeText)
    } else if utf8_len(s) > MAX_CONSOLE_TEXT_BYTES {
        Some(ConsoleError::TextTooLong)
    } else {
        None
    }
}

/// The `screen` session name of a shard.
pub open spec fn session_key(cluster: Seq<char>, level: Seq<char>) -> Seq<char> {
    "DST_8level_"@ + cluster + seq!['_'] + level
}

/// The argv that types `command` and Enter into a shard's `screen` session.
pub open spec fn screen_args(cluster: Seq<char>, level: Seq<char>, command: Seq<char>) -> Seq<Seq<char>> {
    seq!["-S"@, session_key(cluster, level), "-p"@, "0"@, "-X"@, "stuff"@, command.push('\n')]
}

/// `value` escaped for a double-quoted Lua string literal.
pub open spec fn lua_escape(value: Seq<char>) -> Seq<char>
    decreases value.len(),
{
    if value.len() == 0 {
        Seq::empty()
    } else {
        let prev = lua_escape(value.drop_last());
        let c = value.last();
        if c == '\\' {
            prev + seq!['\\', '\\']
        } else if c == '"' {
            prev + seq!['\\', '"']
        } else if c == '\n' {
            prev + seq!['\\', 'n']
        } else if c == '\r' {
            prev + seq!['\\', 'r']
        } else {
            prev.push(c)
        }
    }
}

/// The command that announces `message` on a shard.
pub open spec fn announce_command(message: Seq<char>) -> Seq<char> {
    "c_announce(\""@ + lua_escape(message) + "\")"@
}

/// A command that quotes a validated player id.
pub open spec fn player_command(prefix: Seq<char>, ku_id: Seq<char>, suffix: Seq<char>) -> Seq<char> {
    prefix + ku_id + suffix
}

/// Whether a spec is `screen` typing `command` into the shard's session.
pub open spec fn is_screen_spec(
    spec: crate::command::CommandSpecView,
    cluster: Seq<char>,
    level: Seq<char>,
    command: Seq<char>,
) -> bool {
    &&& spec.program == "screen"@
    &&& spec.args == screen_args(cluster, level, command)
    &&& spec.current_dir is None
    &&& spec.timeout is None
    &&& spec.output_limit == DEFAULT_OUTPUT_LIMIT_BYTES
}

/// The `screen` session name of a shard.
pub fn screen_session_key(cluster_name: &str, level_name: &str) -> (key: String)
    ensures
        key@ == session_key(cluster_name@, level_name@),
{
    let mut key = "DST_8level_".to_string();
    push_str(&mut key, cluster_name);
    push_char(&mut key, '_');
    push_str(&mut key, level_name);
    proof {
        assert(key@ =~= session_key(cluster_name@, level_name@));
    }
    key
}

/// The spec that types `command` and Enter into a shard's `screen` session.
pub fn screen_command_spec(cluster_name: &str, level_name: &str, command: &str) -> (spec: CommandSpec)
    ensures
        is_screen_spec(spec@, cluster_name@, level_name@, command@),
{
    let key = screen_session_key(cluster_name, level_name);
    let mut typed = command.to_string();
    push_char(&mut typed, '\n');
    let spec = CommandSpec::new("screen")
        .arg("-S")
        .arg(key.as_str())
        .arg("-p")
        .arg("0")
        .arg("-X")
        .arg("stuff")
        .arg(typed.as_str());
    proof {
        assert(spec@.args =~= screen_args(cluster_name@, level_name@, command@));
    }
    spec
}

/// Checks console text: no NUL character and at most 8192 bytes.
pub fn validate_console_text(value: &str) -> (r: Result<(), ConsoleError>)
    ensures
        match console_text_problem(value@) {
            None => r is Ok,
            Some(e) => r == Err::<(), ConsoleError>(e),
        },
{
    let v = chars_of(value);
    let mut i: usize = 0;
    while i < v.len()
        invariant
            v@ == value@,
            i <= v.len(),
            forall|j: int| 0 <= j < i ==> v@[j] != '\0',
        decreases v.len() - i,
    {
        if v[i] == '\0' {
            assert(value@.contains('\0')) by {
                assert(value@[i as int] == '\0');
            }
            return Err(ConsoleError::UnsafeText);
        }
        i = i + 1;
    }
    assert(!value@.contains('\0'));
    assert(v@.subrange(0, v.len() as int) =~= v@);
    if utf8_len_range(&v, 0, v.len()) > MAX_CONSOLE_TEXT_BYTES {
        return Err(ConsoleError::TextTooLong);
    }
    Ok(())
}

/// Escapes `value` for a double-quoted Lua string literal: backslash, quote,
/// line feed and carriage return become their escape sequences.
pub fn lua_double_quote_escape(value: &str) -> (escaped: String)
    ensures
        escaped@ == lua_escape(value@),
{
    let v = chars_of(value);
    let mut out = String::new();
    let mut i: usize = 0;
    while i < v.len()
        invariant
            v@ == value@,
            i <= v.len(),
            out@ == lua_escape(v@.take(i as int)),
        decreases v.len() - i,
    {
        let c = v[i];
        proof {
            assert(v@.take(i + 1).drop_last() =~= v@.take(i as int));
            assert(v@.take(i + 1).last() == c);
        }
        let ghost before = out@;
        if c == '\\' {
            push_char(&mut out, '\\');
            push_char(&mut out, '\\');
        } else if c == '"' {
            push_char(&mut out, '\\');
            push_char(&mut out, '"');
        } else if c == '\n' {
            push_char(&mut out, '\\');
            push_char(&mut out, 'n');
        } else if c == '\r' {
            push_char(&mut out, '\\');
            push_char(&mut out, 'r');
        } else {
            push_char(&mut out, c);
        }
        proof {
            if c == '\\' {
                assert(out@ =~= before + seq!['\\', '\\']);
            } else if c == '"' {
                assert(out@ =~= before + seq!['\\', '"']);
            } else if c == '\n' {
                assert(out@ =~= before + seq!['\\', 'n']);
            } else if c == '\r' {
                assert(out@ =~= before + seq!['\\', 'r']);
            }
        }
        i = i + 1;
    }
    assert(v@.take(v.len() as int) =~= v@);
    out
}

/// The spec that sends `command` to one shard, after validating the cluster
/// name, the level name and the text, in that order.
pub fn level_command_spec(cluster_name: &str, level_name: &str, command: &str) -> (r: Result<
    CommandSpec,
    ConsoleError,
>)
    ensures
        match command_arg_problem(cluster_name@) {
            Some(reason) => r matches Err(ConsoleError::Invalid(e)) && e.field == "cluster name"
                && e.reason == reason,
            None => match command_arg_problem(level_name@) {
                Some(reason) => r matches Err(ConsoleError::Invalid(e)) && e.field == "level name"
                    && e.reason == reason,
                None => match console_text_problem(command@) {
                    Some(e) => r == Err::<CommandSpec, ConsoleError>(e),
                    None => r matches Ok(spec) && is_screen_spec(
                        spec@,
                        cluster_name@,
                        level_name@,
                        command@,
                    ),
                },
            },
        },
{
    let cluster = match validate_safe_command_arg("cluster name", cluster_name) {
        Ok(c) => c,
        Err(e) => return Err(ConsoleError::Invalid(e)),
    };
    let level = match validate_safe_command_arg("level name", level_name) {
        Ok(l) => l,
        Err(e) => return Err(ConsoleError::Invalid(e)),
    };
    validate_console_text(command)?;
    Ok(screen_command_spec(cluster.as_str(), level.as_str(), command))
}

/// The specs that send `command` to the Master and then the Caves shard of a
/// cluster, after validating the cluster name and the text.
pub fn both_levels_command_specs(cluster_name: &str, command: &str) -> (r: Result<
    Vec<CommandSpec>,
    ConsoleError,
>)
    ensures
        match command_arg_problem(cluster_name@) {
            Some(reason) => r matches Err(ConsoleError::Invalid(e)) && e.field == "cluster name"
                && e.reason == reason,
            None => match console_text_problem(command@) {
                Some(e) => r == Err::<Vec<CommandSpec>, ConsoleError>(e),
                None => r matches Ok(specs) && specs.len() == 2 && is_screen_spec(
                    specs[0]@,
                    cluster_name@,
                    "Master"@,
                    command@,
                ) && is_screen_spec(specs[1]@, cluster_name@, "Caves"@, command@),
            },
        },
{
    let cluster = match validate_safe_command_arg("cluster name", cluster_name) {
        Ok(c) => c,
        Err(e) => return Err(ConsoleError::Invalid(e)),
    };
    validate_console_text(command)?;
    let mut specs: Vec<CommandSpec> = Vec::new();
    specs.push(screen_command_spec(cluster.as_str(), "Master", command));
    specs.push(screen_command_spec(cluster.as_str(), "Caves", command));
    Ok(specs)
}

/// The announcement command for `message`, after checking the message text.
pub fn broadcast_command(message: &str) -> (r: Result<String, ConsoleError>)
    ensures
        match console_text_problem(message@) {
            Some(e) => r == Err::<String, ConsoleError>(e),
            None => r matches Ok(c) && c@ == announce_command(message@),
        },
{
    validate_console_text(message)?;
    let escaped = lua_double_quote_escape(message);
    let mut c = "c_announce(\"".to_string();
    push_str(&mut c, escaped.as_str());
    push_str(&mut c, "\")");
    Ok(c)
}

/// A command about one player, quoting the validated `ku_id` between `prefix`
/// and `suffix`.
fn player_command_exec(prefix: &str, ku_id: &str, suffix: &str) -> (r: Result<String, ConsoleError>)
    ensures
        match ku_id_problem(ku_id@) {
            Some(reason) => r matches Err(ConsoleError::Invalid(e)) && e.field == "KU id"
                && e.reason == reason,
            None => r matches Ok(c) && c@ == player_command(prefix@, ku_id@, suffix@),
        },
{
    let id = match validate_ku_id(ku_id) {
        Ok(id) => id,
        Err(e) => return Err(ConsoleError::Invalid(e)),
    };
    let mut c = prefix.to_string();
    push_str(&mut c, id.as_str());
    push_str(&mut c, suffix);
    Ok(c)
}

/// `TheNet:Kick("<ku id>")`.
pub fn kick_command(ku_id: &str) -> (r: Result<String, ConsoleError>)
    ensures
        match ku_id_problem(ku_id@) {
            Some(reason) => r matches Err(ConsoleError::Invalid(e)) && e.field == "KU id"
                && e.reason == reason,
            None => r matches Ok(c) && c@ == player_command("TheNet:Kick(\""@, ku_id@, "\")"@),
        },
{
    player_command_exec("TheNet:Kick(\"", ku_id, "\")")
}

/// `UserToPlayer("<ku id>"):PushEvent('death')`.
pub fn kill_command(ku_id: &str) -> (r: Result<String, ConsoleError>)
    ensures
        match ku_id_problem(ku_id@) {
            Some(reason) => r matches Err(ConsoleError::Invalid(e)) && e.field == "KU id"
                && e.reason == reason,
            None => r matches Ok(c) && c@ == player_command(
                "UserToPlayer(\""@,
                ku_id@,
                "\"):PushEvent('death')"@,
            ),
        },
{
    player_command_exec("UserToPlayer(\"", ku_id, "\"):PushEvent('death')")
}

/// `UserToPlayer("<ku id>"):PushEvent('respawnfromghost')`.
pub fn respawn_command(ku_id: &str) -> (r: Result<String, ConsoleError>)
    ensures
        match ku_id_problem(ku_id@) {
            Some(reason) => r matches Err(ConsoleError::Invalid(e)) && e.field == "KU id"
                && e.reason == reason,
            None => r matches Ok(c) && c@ == player_command(
                "UserToPlayer(\""@,
                ku_id@,
                "\"):PushEvent('respawnfromghost')"@,
            ),
        },
{
    player_command_exec("UserToPlayer(\"", ku_id, "\"):PushEvent('respawnfromghost')")
}

/// `c_rollback(<days>)`.
pub fn rollback_command(days: i64) -> (c: String)
    ensures
        c@ == "c_rollback("@ + signed_decimal(days as int) + ")"@,
{
    let mut c = "c_rollback(".to_string();
    push_chars(&mut c, &i64_to_chars(days));
    push_str(&mut c, ")");
    c
}

/// The announcement made before a rollback of `days` days.
pub fn rollback_announcement(days: i64) -> (c: String)
    ensures
        c@ == ":pig 正在回档"@ + signed_decimal(days as int) + "天"@,
{
    let mut c = ":pig 正在回档".to_string();
    push_chars(&mut c, &i64_to_chars(days));
    push_str(&mut c, "天");
    c
}

/// The announcement made before the world is regenerated.
pub fn regenerate_announcement() -> (c: &'static str)
    ensures
        c@ == ":pig 即将重置世界！！！"@,
{
    ":pig 即将重置世界！！！"
}

/// The command that regenerates the world.
pub fn regenerate_command() -> (c: &'static str)
    ensures
        c@ == "c_regenerateworld()"@,
{
    "c_regenerateworld()"
}

/// How a Lua double-quoted string body ends when read from the front:
/// `Closed` at an unescaped quote or a raw line break, `Dangling` after a
/// lone trailing backslash, else `Open`.
#[derive(PartialEq, Eq, Structural)]
pub enum LiteralScan {
    Open,
    Closed,
    Dangling,
}

pub open spec fn scan_literal(s: Seq<char>) -> LiteralScan
    decreases s.len(),
{
    if s.len() == 0 {
        LiteralScan::Open
    } else if s[0] == '\\' {
        if s.len() >= 2 { scan_literal(s.skip(2)) } else { LiteralScan::Dangling }
    } else if s[0] == '"' || s[0] == '\n' || s[0] == '\r' {
        LiteralScan::Closed
    } else {
        scan_literal(s.skip(1))
    }
}

proof fn lemma_scan_concat(a: Seq<char>, b: Seq<char>)
    requires
        scan_literal(a) == LiteralScan::Open,
    ensures
        scan_literal(a + b) == scan_literal(b),
    decreases a.len(),
{
    if a.len() > 0 {
        if a[0] == '\\' {
            assert((a + b).skip(2) =~= a.skip(2) + b);
            lemma_scan_concat(a.skip(2), b);
        } else {
            assert((a + b).skip(1) =~= a.skip(1) + b);
            lemma_scan_concat(a.skip(1), b);
        }
    } else {
        assert(a + b =~= b);
    }
}

/// An escaped message can neither end the Lua string it is placed in nor
/// break its line: read as a string body it stays open to the end.
pub proof fn lemma_lua_escape_stays_inside(message: Seq<char>)
    ensures
        scan_literal(lua_escape(message)) == LiteralScan::Open,
    decreases message.len(),
{
    if message.len() > 0 {
        let d = message.drop_last();
        let c = message.last();
        lemma_lua_escape_stays_inside(d);
        let tail = if c == '\\' {
            seq!['\\', '\\']
        } else if c == '"' {
            seq!['\\', '"']
        } else if c == '\n' {
            seq!['\\', 'n']
        } else if c == '\r' {
            seq!['\\', 'r']
        } else {
            seq![c]
        };
        assert(lua_escape(message) =~= lua_escape(d) + tail);
        lemma_scan_concat(lua_escape(d), tail);
        assert(tail.skip(tail.len() as int) =~= Seq::<char>::empty());
        if tail.len() == 2 {
            assert(tail.skip(2) =~= Seq::<char>::empty());
            assert(scan_literal(tail.skip(2)) == LiteralScan::Open);
            assert(tail[0] == '\\');
        } else {
            assert(tail.skip(1) =~= Seq::<char>::empty());
            assert(scan_literal(tail.skip(1)) == LiteralScan::Open);
        }
        assert(scan_literal(tail) == LiteralScan::Open);
    }
}

} // verus!
