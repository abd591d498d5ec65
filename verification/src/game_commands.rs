//! The argv of the commands that install, update, start and kill the
//! dedicated server. Nothing here passes through a shell.
use vstd::prelude::*;
use core::time::Duration;
use crate::command::{secs_duration, arg_views, CommandOutput, CommandSpec, CommandSpecView, DEFAULT_OUTPUT_LIMIT_BYTES};
use crate::console::{screen_session_key, session_key};
use crate::dst_config::DstConfig;
use crate::numbers::{decimal, u64_to_chars};
use crate::text::{chars_of, push_str, string_from_chars};
use crate::game_status::{first_unsafe_world, lemma_first_unsafe_prefix, World};
use crate::process::{first_level_process, first_match, ProcessSnapshot};
use crate::validation::{command_arg_problem, validate_safe_command_arg, ValidationError};

verus! {

broadcast use vstd::string::group_string_axioms;

/// The Steam app id of the dedicated server.
pub const DST_APP_ID: &'static str = "343050";

/// The installation directory: `-beta` appended on the beta branch.
pub open spec fn install_dir_spec(force_install_dir: Seq<char>, beta: i64) -> Seq<char> {
    if beta == 1 { force_install_dir + "-beta"@ } else { force_install_dir }
}

/// Which installation a shard runs from: off the beta branch it is
/// `force_install_dir` itself, and on the beta branch (`beta == 1`) it is that
/// directory with exactly `-beta` after its name.
pub proof fn lemma_install_dir_branch(force_install_dir: Seq<char>, beta: i64)
    ensures
        beta != 1 ==> install_dir_spec(force_install_dir, beta) == force_install_dir,
        beta == 1 ==> install_dir_spec(force_install_dir, beta).len() == force_install_dir.len() + 5,
        beta == 1 ==> install_dir_spec(force_install_dir, beta).take(force_install_dir.len() as int)
            == force_install_dir,
        beta == 1 ==> install_dir_spec(force_install_dir, beta).skip(force_install_dir.len() as int)
            == seq!['-', 'b', 'e', 't', 'a'],
        install_dir_spec(force_install_dir, beta) == force_install_dir <==> beta != 1,
{
    reveal_strlit("-beta");
    let d = install_dir_spec(force_install_dir, beta);
    if beta == 1 {
        assert(d.take(force_install_dir.len() as int) =~= force_install_dir);
        assert(d.skip(force_install_dir.len() as int) =~= seq!['-', 'b', 'e', 't', 'a']);
    }
}

pub fn install_dir(force_install_dir: &str, beta: i64) -> (d: String)
    ensures
        d@ == install_dir_spec(force_install_dir@, beta),
{
    let mut d = force_install_dir.to_string();
    if beta == 1 {
        push_str(&mut d, "-beta");
    }
    d
}

/// The folder under the installation that a server build runs in and the
/// argv that starts it, by the `bin` setting: 64-bit, LuaJIT, box86, box64,
/// or else 32-bit.
pub open spec fn server_binary(bin: i64) -> (Seq<char>, Seq<Seq<char>>) {
    if bin == 64 {
        ("bin64"@, seq!["./dontstarve_dedicated_server_nullrenderer_x64"@])
    } else if bin == 100 {
        ("bin64"@, seq!["./dontstarve_dedicated_server_nullrenderer_x64_luajit"@])
    } else if bin == 86 {
        ("bin64"@, seq!["box86"@, "./dontstarve_dedicated_server_nullrenderer_x64"@])
    } else if bin == 2664 {
        ("bin64"@, seq!["box64"@, "./dontstarve_dedicated_server_nullrenderer_x64"@])
    } else {
        ("bin"@, seq!["./dontstarve_dedicated_server_nullrenderer"@])
    }
}

fn join_dir(base: &str, leaf: &str) -> (p: String)
    ensures
        p@ == crate::dst_config::path_join(base@, leaf@),
{
    crate::dst_config::path_join_exec(base, leaf)
}

/// The directory a server build runs in and the argv that starts it.
pub fn binary_and_wrapper_args(config: &DstConfig) -> (r: (String, Vec<String>))
    ensures
        r.0@ == crate::dst_config::path_join(install_dir_spec(config.force_install_dir@, config.beta),
            server_binary(config.bin).0),
        arg_views(r.1@) == server_binary(config.bin).1,
{
    let install = install_dir(config.force_install_dir.as_str(), config.beta);

    let (leaf, args): (&str, Vec<String>) = if config.bin == 64 {
        ("bin64", vec!["./dontstarve_dedicated_server_nullrenderer_x64".to_string()])
    } else if config.bin == 100 {
        ("bin64", vec!["./dontstarve_dedicated_server_nullrenderer_x64_luajit".to_string()])
    } else if config.bin == 86 {
        ("bin64", vec!["box86".to_string(), "./dontstarve_dedicated_server_nullrenderer_x64".to_string()])
    } else if config.bin == 2664 {
        ("bin64", vec!["box64".to_string(), "./dontstarve_dedicated_server_nullrenderer_x64".to_string()])
    } else {
        ("bin", vec!["./dontstarve_dedicated_server_nullrenderer".to_string()])
    };
    let dir = join_dir(install.as_str(), leaf);
    assert(arg_views(args@) =~= server_binary(config.bin).1);
    (dir, args)
}

/// `[flag, value]` when the value is set, else nothing.
pub open spec fn optional_flag(flag: Seq<char>, value: Seq<char>) -> Seq<Seq<char>> {
    if value.len() == 0 { Seq::empty() } else { seq![flag, value] }
}

/// The argv after `screen` that starts a shard in a detached session.
pub open spec fn launch_args(cluster: Seq<char>, level: Seq<char>, c: crate::dst_config::DstConfigView) -> Seq<Seq<char>> {
    seq!["-d"@, "-m"@, "-S"@, session_key(cluster, level)] + server_binary(c.bin).1
        + seq!["-console"@, "-cluster"@, cluster, "-shard"@, level]
        + optional_flag("-ugc_directory"@, c.ugc_directory)
        + optional_flag("-persistent_storage_root"@, c.persistent_storage_root)
        + optional_flag("-conf_dir"@, c.conf_dir)
}

fn push_flag(spec: CommandSpec, flag: &str, value: &String) -> (r: CommandSpec)
    ensures
        r@.args == spec@.args + optional_flag(flag@, value@),
        r@.program == spec@.program,
        r@.current_dir == spec@.current_dir,
        r@.timeout == spec@.timeout,
        r@.output_limit == spec@.output_limit,
{
    if value.as_str().is_empty() {
        assert(spec@.args + Seq::<Seq<char>>::empty() =~= spec@.args);
        spec
    } else {
        let r = spec.arg(flag).arg(value.as_str());
        assert(r@.args =~= spec@.args + seq![flag@, value@]);
        r
    }
}

/// The command that starts shard `level_name` of `cluster_name` in a
/// detached `screen` session, in the build's directory, with a timeout.
pub fn launch_level_spec(cluster_name: &str, level_name: &str, config: &DstConfig) -> (spec: CommandSpec)
    ensures
        spec@.program == "screen"@,
        spec@.args == launch_args(cluster_name@, level_name@, config@),
        spec@.current_dir == Some(crate::dst_config::path_join(
            install_dir_spec(config.force_install_dir@, config.beta), server_binary(config.bin).0)),
        spec@.timeout == Some(secs_duration(1200)),
        spec@.output_limit == DEFAULT_OUTPUT_LIMIT_BYTES,
{
    let (dir, binary_args) = binary_and_wrapper_args(config);
    let key = screen_session_key(cluster_name, level_name);
    let spec = CommandSpec::new("screen").arg("-d").arg("-m").arg("-S").arg(key.as_str())
        .with_current_dir(dir.as_str());
    let spec = spec.extend_args(&binary_args);
    let spec = spec.arg("-console").arg("-cluster").arg(cluster_name).arg("-shard").arg(level_name);
    let ghost mid = spec@.args;
    let spec = push_flag(spec, "-ugc_directory", &config.ugc_directory);
    let spec = push_flag(spec, "-persistent_storage_root", &config.persistent_storage_root);
    let spec = push_flag(spec, "-conf_dir", &config.conf_dir);
    let spec = spec.with_timeout(Duration::from_secs(1200));
    proof {
        let c = config@;
        assert(mid =~= seq!["-d"@, "-m"@, "-S"@, session_key(cluster_name@, level_name@)] + server_binary(c.bin).1
            + seq!["-console"@, "-cluster"@, cluster_name@, "-shard"@, level_name@]);
        assert(spec@.args =~= launch_args(cluster_name@, level_name@, c));
    }
    spec
}

/// The command that force-kills process `pid`.
pub fn kill_level_spec(pid: u32) -> (spec: CommandSpec)
    ensures
        spec@.program == "kill"@,
        spec@.args == seq!["-9"@, decimal(pid as nat)],
        spec@.current_dir is None,
        spec@.timeout == Some(secs_duration(10)),
{
    let digits = string_from_chars(&u64_to_chars(pid as u64));
    let spec = CommandSpec::new("kill").arg("-9").arg(digits.as_str()).with_timeout(Duration::from_secs(10));
    assert(spec@.args =~= seq!["-9"@, decimal(pid as nat)]);
    spec
}

/// A path setting holds a NUL character and cannot be passed to a process.
pub struct UnsafePath {
    /// Which setting.
    pub name: &'static str,
}

impl UnsafePath {
    /// The error's display text.
    pub fn message(&self) -> (m: String)
        ensures
            m@ == self.name@ + " path contains unsafe characters"@,
    {
        let mut m = self.name.to_string();
        push_str(&mut m, " path contains unsafe characters");
        m
    }
}

fn has_nul(s: &str) -> (b: bool)
    ensures
        b == s@.contains('\0'),
{
    let v = chars_of(s);
    let mut i: usize = 0;
    while i < v.len()
        invariant
            v@ == s@,
            i <= v.len(),
            forall|j: int| 0 <= j < i ==> v@[j] != '\0',
        decreases v.len() - i,
    {
        if v[i] == '\0' {
            assert(v@[i as int] == '\0');
            return true;
        }
        i = i + 1;
    }
    false
}

/// The SteamCMD run that installs the dedicated server into
/// `force_install_dir`, from the SteamCMD directory.
pub fn install_spec(steam_cmd: &str, force_install_dir: &str) -> (r: Result<CommandSpec, UnsafePath>)
    ensures
        steam_cmd@.contains('\0') ==> (r matches Err(e) && e.name@ == "steamcmd"@),
        !steam_cmd@.contains('\0') && force_install_dir@.contains('\0') ==> (r matches Err(e) && e.name@ == "force_install_dir"@),
        !steam_cmd@.contains('\0') && !force_install_dir@.contains('\0') ==> (r matches Ok(spec) && {
            &&& spec@.program == "./steamcmd.sh"@
            &&& spec@.current_dir == Some(steam_cmd@)
            &&& spec@.args == seq!["+login"@, "anonymous"@, "+force_install_dir"@, force_install_dir@,
                "+app_update"@, "343050"@, "validate"@, "+quit"@]
            &&& spec@.timeout == Some(secs_duration(3600))
        }),
{
    if has_nul(steam_cmd) {
        return Err(UnsafePath { name: "steamcmd" });
    }
    if has_nul(force_install_dir) {
        return Err(UnsafePath { name: "force_install_dir" });
    }
    let spec = CommandSpec::new("./steamcmd.sh").with_current_dir(steam_cmd).arg("+login").arg("anonymous")
        .arg("+force_install_dir").arg(force_install_dir).arg("+app_update").arg(DST_APP_ID).arg("validate")
        .arg("+quit").with_timeout(Duration::from_secs(3600));
    assert(spec@.args =~= seq!["+login"@, "anonymous"@, "+force_install_dir"@, force_install_dir@,
        "+app_update"@, "343050"@, "validate"@, "+quit"@]);
    Ok(spec)
}

/// Whether an install or update run succeeded: no timeout and exit code zero.
pub fn command_succeeded(output: &CommandOutput) -> (b: bool)
    ensures
        b == (!output.timed_out && output.status_code == Some(0i32)),
{
    !output.timed_out && match output.status_code {
        Some(c) => c == 0,
        None => false,
    }
}

/// Whether a strict lifecycle or update run succeeded: exit code zero; a
/// timed-out run has no exit code.
pub fn exited_zero(output: &CommandOutput) -> (b: bool)
    ensures
        b == (output.status_code == Some(0i32)),
{
    match output.status_code {
        Some(c) => c == 0,
        None => false,
    }
}

/// The program SteamCMD runs as, and the arguments before its own: `box86`
/// with the 32-bit binary for `bin` 86, else the `steamcmd.sh` script when it
/// exists, else the `steamcmd` binary.
pub open spec fn steamcmd_program(bin: i64, script_exists: bool) -> (Seq<char>, Seq<Seq<char>>) {
    if bin == 86 {
        ("box86"@, seq!["./linux32/steamcmd"@])
    } else if script_exists {
        ("./steamcmd.sh"@, Seq::empty())
    } else {
        ("./steamcmd"@, Seq::empty())
    }
}

/// The argv of a SteamCMD update run.
pub open spec fn steam_update_args(prefix: Seq<Seq<char>>, install: Seq<char>, beta: i64) -> Seq<Seq<char>> {
    prefix + seq!["+login"@, "anonymous"@, "+force_install_dir"@, install, "+app_update"@, "343050"@]
        + (if beta == 1 { seq!["-beta"@, "updatebeta"@] } else { Seq::empty() })
        + seq!["validate"@, "+quit"@]
}

/// The command that updates the dedicated server: DepotDownloader for
/// `bin` 2664, else SteamCMD from its directory; `steamcmd_script_exists`
/// tells whether `steamcmd.sh` is there.
pub fn update_spec(config: &DstConfig, steamcmd_script_exists: bool) -> (r: Result<CommandSpec, UnsafePath>)
    ensures
        ({
            let c = config@;
            let install = install_dir_spec(c.force_install_dir, c.beta);
            if c.bin == 2664 {
                r matches Ok(spec) && spec@.program == "./DepotDownloader"@
                    && spec@.current_dir == Some("/opt/DepotDownloader"@)
                    && spec@.args == seq!["-app"@, "343050"@, "-os"@, "linux"@, "-osarch"@, "64"@, "-dir"@, install, "-validate"@]
                    && spec@.timeout == Some(secs_duration(1200))
            } else if c.steamcmd.contains('\0') {
                r matches Err(e) && e.name@ == "steamcmd"@
            } else {
                let (program, prefix) = steamcmd_program(c.bin, steamcmd_script_exists);
                r matches Ok(spec) && spec@.program == program
                    && spec@.current_dir == Some(c.steamcmd)
                    && spec@.args == steam_update_args(prefix, install, c.beta)
                    && spec@.timeout == Some(secs_duration(1200))
            }
        }),
{
    let install = install_dir(config.force_install_dir.as_str(), config.beta);
    if config.bin == 2664 {
        let spec = CommandSpec::new("./DepotDownloader").with_current_dir("/opt/DepotDownloader").arg("-app")
            .arg("343050").arg("-os").arg("linux").arg("-osarch").arg("64").arg("-dir").arg(install.as_str())
            .arg("-validate").with_timeout(Duration::from_secs(1200));
        assert(spec@.args =~= seq!["-app"@, "343050"@, "-os"@, "linux"@, "-osarch"@, "64"@, "-dir"@, install@, "-validate"@]);
        return Ok(spec);
    }
    if has_nul(config.steamcmd.as_str()) {
        return Err(UnsafePath { name: "steamcmd" });
    }
    let (program, prefix): (&str, Vec<String>) = if config.bin == 86 {
        ("box86", vec!["./linux32/steamcmd".to_string()])
    } else if steamcmd_script_exists {
        ("./steamcmd.sh", Vec::new())
    } else {
        ("./steamcmd", Vec::new())
    };
    let ghost pre = arg_views(prefix@);
    assert(pre =~= steamcmd_program(config.bin, steamcmd_script_exists).1);
    let spec = CommandSpec::new(program).with_current_dir(config.steamcmd.as_str()).extend_args(&prefix)
        .arg("+login").arg("anonymous").arg("+force_install_dir").arg(install.as_str()).arg("+app_update")
        .arg("343050");
    let ghost mid = spec@.args;
    let spec = if config.beta == 1 { spec.arg("-beta").arg("updatebeta") } else { spec };
    let spec = spec.arg("validate").arg("+quit").with_timeout(Duration::from_secs(1200));
    proof {
        assert(mid =~= pre + seq!["+login"@, "anonymous"@, "+force_install_dir"@, install@, "+app_update"@, "343050"@]);
        assert(spec@.args =~= steam_update_args(pre, install@, config.beta));
    }
    Ok(spec)
}

/// What the hard-kill fallback of a stop does once the grace period passed.
#[derive(PartialEq, Eq, Structural, Clone, Copy)]
pub enum KillDecision {
    /// No process of the shard remains.
    NotRunning,
    /// A process remains but its id is unknown.
    MissingPid,
    /// The remaining process is killed.
    Kill(u32),
}

/// The decision for the first process of the shard among `snapshots`.
pub open spec fn kill_decision_spec(snapshots: Seq<ProcessSnapshot>, cluster: Seq<char>, level: Seq<char>) -> KillDecision {
    match first_match(snapshots, cluster, level) {
        None => KillDecision::NotRunning,
        Some(i) => match snapshots[i].pid {
            None => KillDecision::MissingPid,
            Some(p) => KillDecision::Kill(p),
        },
    }
}

pub fn kill_decision(snapshots: &[ProcessSnapshot], cluster_name: &str, level_name: &str) -> (d: KillDecision)
    ensures
        d == kill_decision_spec(snapshots@, cluster_name@, level_name@),
{
    match first_level_process(snapshots, cluster_name, level_name) {
        None => KillDecision::NotRunning,
        Some(p) => match p.pid {
            None => KillDecision::MissingPid,
            Some(pid) => KillDecision::Kill(pid),
        },
    }
}

/// Why a strict stop failed.
#[derive(PartialEq, Eq, Structural, Clone, Copy)]
pub enum StopFailure {
    /// The process table could not be read.
    Snapshots,
    /// A process remained without an id.
    MissingPid,
    /// The kill command failed.
    Kill,
    /// A process of the shard remained after the kill.
    StillRunning,
}

/// The result of a stop: a lenient stop always succeeds; a strict one
/// reports the kill fallback's failure, then a failed or positive check for
/// a remaining process (`remaining` is `None` when the table could not be
/// read).
pub open spec fn stop_outcome_spec(strict: bool, kill: Result<(), StopFailure>, remaining: Option<bool>) -> Result<
    (),
    StopFailure,
> {
    if !strict {
        Ok(())
    } else {
        match kill {
            Err(e) => Err(e),
            Ok(()) => match remaining {
                None => Err(StopFailure::Snapshots),
                Some(true) => Err(StopFailure::StillRunning),
                Some(false) => Ok(()),
            },
        }
    }
}

pub fn stop_outcome(strict: bool, kill: Result<(), StopFailure>, remaining: Option<bool>) -> (r: Result<(), StopFailure>)
    ensures
        r == stop_outcome_spec(strict, kill, remaining),
{
    if !strict {
        return Ok(());
    }
    match kill {
        Err(e) => Err(e),
        Ok(()) => match remaining {
            None => Err(StopFailure::Snapshots),
            Some(true) => Err(StopFailure::StillRunning),
            Some(false) => Ok(()),
        },
    }
}

/// An update stops the shards first, except with the `2664` binary, which
/// refuses to update while a shard runs.
pub open spec fn update_stops_levels_spec(bin: i64) -> bool {
    bin != 2664
}

pub fn update_stops_levels(bin: i64) -> (b: bool)
    ensures
        b == update_stops_levels_spec(bin),
{
    bin != 2664
}

/// The first of `levels` that still runs in the cluster.
pub fn first_running_level(snapshots: &[ProcessSnapshot], cluster_name: &str, levels: &Vec<String>) -> (r: Option<usize>)
    ensures
        match r {
            Some(i) => i < levels.len() && first_match(snapshots@, cluster_name@, levels@[i as int]@) is Some
                && forall|j: int| 0 <= j < i ==> first_match(snapshots@, cluster_name@, (#[trigger] levels@[j])@) is None,
            None => forall|j: int| 0 <= j < levels.len() ==> first_match(snapshots@, cluster_name@, (#[trigger] levels@[j])@) is None,
        },
{
    let mut k: usize = 0;
    while k < levels.len()
        invariant
            k <= levels.len(),
            forall|j: int| 0 <= j < k ==> first_match(snapshots@, cluster_name@, (#[trigger] levels@[j])@) is None,
        decreases levels.len() - k,
    {
        if first_level_process(snapshots, cluster_name, levels[k].as_str()).is_some() {
            return Some(k);
        }
        k = k + 1;
    }
    None
}

/// The shard folder names a lifecycle command acts on, in order; the first
/// one that is not a safe argv value fails them all.
pub fn lifecycle_level_names(worlds: &Vec<World>) -> (r: Result<Vec<String>, ValidationError>)
    ensures
        match first_unsafe_world(worlds@) {
            Some(i) => r matches Err(e) && e.field == "level name" && Some(e.reason) == command_arg_problem(
                worlds@[i].uuid@,
            ),
            None => r matches Ok(names) && names.len() == worlds.len() && forall|i: int|
                0 <= i < names.len() ==> (#[trigger] names@[i])@ == worlds@[i].uuid@,
        },
{
    let mut names: Vec<String> = Vec::new();
    let mut k: usize = 0;
    while k < worlds.len()
        invariant
            k <= worlds.len(),
            names.len() == k,
            first_unsafe_world(worlds@.take(k as int)) is None,
            forall|i: int| 0 <= i < k ==> (#[trigger] names@[i])@ == worlds@[i].uuid@,
        decreases worlds.len() - k,
    {
        proof {
            assert(worlds@.take(k + 1).drop_last() =~= worlds@.take(k as int));
            assert(worlds@.take(k + 1).last() == worlds@[k as int]);
        }
        match validate_safe_command_arg("level name", worlds[k].uuid.as_str()) {
            Ok(v) => {
                names.push(v.into_string());
            },
            Err(e) => {
                proof {
                    assert(first_unsafe_world(worlds@.take(k + 1)) == Some(k as int));
                    lemma_first_unsafe_prefix(worlds@, k + 1);
                }
                return Err(e);
            },
        }
        k = k + 1;
    }
    proof {
        assert(worlds@.take(worlds.len() as int) =~= worlds@);
    }
    Ok(names)
}

} // verus!
