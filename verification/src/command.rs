//! Command specifications for external SteamCMD/DST operations.
//!
//! Arguments are stored as an argv array. There is deliberately no API for
//! shell command strings, so service code cannot concatenate user input into
//! `sh -c` style commands. Running a specification is the caller's business.
use vstd::prelude::*;
use core::time::Duration;

verus! {

/// The span of `secs` whole seconds, as `Duration::from_secs` makes it.
pub uninterp spec fn secs_duration(secs: u64) -> Duration;

/// `Duration::from_secs`: the span of `secs` whole seconds. It depends on
/// `secs` alone, so its value is named by `secs_duration`; nothing more is
/// stated of it.
pub assume_specification[ core::time::Duration::from_secs ](secs: u64) -> (d: Duration)
    ensures
        d == secs_duration(secs),
;

/// Default maximum captured bytes per output stream.
pub const DEFAULT_OUTPUT_LIMIT_BYTES: usize = 1048576;

/// Command process specification.
pub struct CommandSpec {
    program: String,
    args: Vec<String>,
    current_dir: Option<String>,
    timeout: Option<Duration>,
    output_limit: usize,
}

/// The contents of a command specification.
pub struct CommandSpecView {
    pub program: Seq<char>,
    pub args: Seq<Seq<char>>,
    pub current_dir: Option<Seq<char>>,
    pub timeout: Option<Duration>,
    pub output_limit: usize,
}

pub open spec fn arg_views(v: Seq<String>) -> Seq<Seq<char>> {
    v.map_values(|a: String| a@)
}

impl View for CommandSpec {
    type V = CommandSpecView;

    closed spec fn view(&self) -> CommandSpecView {
        CommandSpecView {
            program: self.program@,
            args: arg_views(self.args@),
            current_dir: match self.current_dir {
                Some(d) => Some(d@),
                None => None,
            },
            timeout: self.timeout,
            output_limit: self.output_limit,
        }
    }
}

impl CommandSpec {
    /// Creates a command spec for an executable path or program name.
    pub fn new(program: &str) -> (spec: Self)
        ensures
            spec@.program == program@,
            spec@.args == Seq::<Seq<char>>::empty(),
            spec@.current_dir is None,
            spec@.timeout is None,
            spec@.output_limit == DEFAULT_OUTPUT_LIMIT_BYTES,
    {
        let spec = CommandSpec {
            program: program.to_owned(),
            args: Vec::new(),
            current_dir: None,
            timeout: None,
            output_limit: DEFAULT_OUTPUT_LIMIT_BYTES,
        };
        assert(arg_views(spec.args@) =~= Seq::<Seq<char>>::empty());
        spec
    }

    /// Appends one argv argument.
    pub fn arg(self, arg: &str) -> (spec: Self)
        ensures
            spec@.args == self@.args.push(arg@),
            spec@.program == self@.program,
            spec@.current_dir == self@.current_dir,
            spec@.timeout == self@.timeout,
            spec@.output_limit == self@.output_limit,
    {
        let mut spec = self;
        let ghost before = spec.args@;
        spec.args.push(arg.to_owned());
        assert(arg_views(spec.args@) =~= arg_views(before).push(arg@));
        spec
    }

    /// Appends multiple argv arguments.
    pub fn extend_args(self, args: &Vec<String>) -> (spec: Self)
        ensures
            spec@.args == self@.args + arg_views(args@),
            spec@.program == self@.program,
            spec@.current_dir == self@.current_dir,
            spec@.timeout == self@.timeout,
            spec@.output_limit == self@.output_limit,
    {
        let mut spec = self;
        let ghost start = spec.args@;
        let mut i: usize = 0;
        while i < args.len()
            invariant
                i <= args.len(),
                arg_views(spec.args@) == arg_views(start) + arg_views(args@.take(i as int)),
                spec.program == self.program,
                spec.current_dir == self.current_dir,
                spec.timeout == self.timeout,
                spec.output_limit == self.output_limit,
            decreases args.len() - i,
        {
            let ghost before = spec.args@;
            spec.args.push(args[i].clone());
            proof {
                assert(args@.take(i + 1) =~= args@.take(i as int).push(args@[i as int]));
                assert(arg_views(spec.args@) =~= arg_views(before).push(args@[i as int]@));
                assert(arg_views(args@.take(i + 1)) =~= arg_views(args@.take(i as int)).push(args@[i as int]@));
            }
            i = i + 1;
        }
        assert(args@.take(args.len() as int) =~= args@);
        spec
    }

    /// Sets a timeout for the command.
    pub fn with_timeout(self, timeout: Duration) -> (spec: Self)
        ensures
            spec@.timeout == Some(timeout),
            spec@.program == self@.program,
            spec@.args == self@.args,
            spec@.current_dir == self@.current_dir,
            spec@.output_limit == self@.output_limit,
    {
        let mut spec = self;
        spec.timeout = Some(timeout);
        spec
    }

    /// Sets the child process working directory, in place of a shell `cd`.
    pub fn with_current_dir(self, current_dir: &str) -> (spec: Self)
        ensures
            spec@.current_dir == Some(current_dir@),
            spec@.program == self@.program,
            spec@.args == self@.args,
            spec@.timeout == self@.timeout,
            spec@.output_limit == self@.output_limit,
    {
        let mut spec = self;
        spec.current_dir = Some(current_dir.to_owned());
        spec
    }

    /// Sets the maximum captured bytes for each output stream.
    pub fn with_output_limit(self, output_limit: usize) -> (spec: Self)
        ensures
            spec@.output_limit == output_limit,
            spec@.program == self@.program,
            spec@.args == self@.args,
            spec@.current_dir == self@.current_dir,
            spec@.timeout == self@.timeout,
    {
        let mut spec = self;
        spec.output_limit = output_limit;
        spec
    }

    /// Returns the executable path or program name.
    pub fn program(&self) -> (p: &str)
        ensures
            p@ == self@.program,
    {
        self.program.as_str()
    }

    /// Returns argv arguments.
    pub fn args(&self) -> (a: &[String])
        ensures
            arg_views(a@) == self@.args,
    {
        self.args.as_slice()
    }

    /// Returns the configured working directory, if any.
    pub fn current_dir(&self) -> (d: Option<&str>)
        ensures
            match d {
                Some(s) => self@.current_dir == Some(s@),
                None => self@.current_dir is None,
            },
    {
        match &self.current_dir {
            Some(d) => Some(d.as_str()),
            None => None,
        }
    }

    /// Returns the configured timeout.
    pub fn timeout(&self) -> (t: Option<Duration>)
        ensures
            t == self@.timeout,
    {
        self.timeout
    }

    /// Returns the maximum captured bytes for stdout and stderr separately.
    pub fn output_limit(&self) -> (n: usize)
        ensures
            n == self@.output_limit,
    {
        self.output_limit
    }
}

/// Captured process output.
#[derive(PartialEq, Eq)]
pub struct CommandOutput {
    pub status_code: Option<i32>,
    pub stdout: Vec<u8>,
    pub stderr: Vec<u8>,
    pub timed_out: bool,
    pub stdout_truncated: bool,
    pub stderr_truncated: bool,
}

impl CommandOutput {
    /// Creates a successful output with the given streams.
    pub fn success(stdout: Vec<u8>, stderr: Vec<u8>) -> (out: Self)
        ensures
            out.status_code == Some(0i32),
            out.stdout@ == stdout@,
            out.stderr@ == stderr@,
            !out.timed_out,
            !out.stdout_truncated,
            !out.stderr_truncated,
    {
        CommandOutput {
            status_code: Some(0),
            stdout,
            stderr,
            timed_out: false,
            stdout_truncated: false,
            stderr_truncated: false,
        }
    }
}

/// A bounded head buffer for one output stream: bytes past the limit are
/// dropped and remembered as truncation.
pub struct BoundedBytes {
    pub bytes: Vec<u8>,
    pub truncated: bool,
}

impl BoundedBytes {
    pub fn new() -> (b: Self)
        ensures
            b.bytes@ == Seq::<u8>::empty(),
            !b.truncated,
    {
        BoundedBytes { bytes: Vec::new(), truncated: false }
    }

    /// Adds one chunk read from the stream, keeping at most `limit` bytes in all.
    pub fn push_chunk(&mut self, chunk: &[u8], limit: usize)
        requires
            old(self).bytes@.len() <= limit,
        ensures
            ({
                let remaining = limit - old(self).bytes@.len();
                let kept = if chunk@.len() <= remaining { chunk@.len() as int } else { remaining as int };
                &&& final(self).bytes@ == old(self).bytes@ + chunk@.take(kept)
                &&& final(self).truncated == (old(self).truncated || chunk@.len() > remaining)
            }),
            final(self).bytes@.len() <= limit,
    {
        let remaining = limit - self.bytes.len();
        let kept = if chunk.len() <= remaining { chunk.len() } else { remaining };
        let ghost start = self.bytes@;
        let ghost t0 = self.truncated;
        let mut i: usize = 0;
        while i < kept
            invariant
                self.truncated == t0,
                kept <= chunk@.len(),
                i <= kept,
                start.len() + kept <= limit,
                self.bytes@ == start + chunk@.take(i as int),
            decreases kept - i,
        {
            self.bytes.push(chunk[i]);
            assert(chunk@.take(i + 1) =~= chunk@.take(i as int).push(chunk@[i as int]));
            assert(self.bytes@ =~= start + chunk@.take(i + 1));
            i = i + 1;
        }
        if chunk.len() > remaining {
            self.truncated = true;
        }
    }
}


impl Clone for CommandSpec {
    fn clone(&self) -> (c: Self)
        ensures
            c@ == self@,
    {
        let mut args: Vec<String> = Vec::new();
        let mut i: usize = 0;
        while i < self.args.len()
            invariant
                i <= self.args.len(),
                args@ == self.args@.take(i as int),
            decreases self.args.len() - i,
        {
            args.push(self.args[i].clone());
            assert(self.args@.take(i + 1) =~= self.args@.take(i as int).push(self.args@[i as int]));
            i = i + 1;
        }
        assert(self.args@.take(self.args.len() as int) =~= self.args@);
        let current_dir = match &self.current_dir {
            Some(d) => Some(d.clone()),
            None => None,
        };
        CommandSpec {
            program: self.program.clone(),
            args,
            current_dir,
            timeout: self.timeout,
            output_limit: self.output_limit,
        }
    }
}

impl Clone for CommandOutput {
    fn clone(&self) -> (c: Self)
        ensures
            c.status_code == self.status_code,
            c.stdout@ == self.stdout@,
            c.stderr@ == self.stderr@,
            c.timed_out == self.timed_out,
            c.stdout_truncated == self.stdout_truncated,
            c.stderr_truncated == self.stderr_truncated,
    {
        CommandOutput {
            status_code: self.status_code,
            stdout: copy_bytes(&self.stdout),
            stderr: copy_bytes(&self.stderr),
            timed_out: self.timed_out,
            stdout_truncated: self.stdout_truncated,
            stderr_truncated: self.stderr_truncated,
        }
    }
}

fn copy_bytes(v: &Vec<u8>) -> (c: Vec<u8>)
    ensures
        c@ == v@,
{
    let mut c: Vec<u8> = Vec::new();
    let mut i: usize = 0;
    while i < v.len()
        invariant
            i <= v.len(),
            c@ == v@.take(i as int),
        decreases v.len() - i,
    {
        c.push(v[i]);
        assert(v@.take(i + 1) =~= v@.take(i as int).push(v@[i as int]));
        i = i + 1;
    }
    assert(v@.take(v.len() as int) =~= v@);
    c
}

/// Why running a command failed. The messages carry no argv values and no
/// command output, so they are safe to return or log.
pub enum CommandError {
    Spawn(String),
    Output(String),
    OutputTask(String),
    Timeout,
    FakeExhausted,
    UnsupportedPlatform,
}

impl CommandError {
    pub open spec fn message_spec(&self) -> Seq<char> {
        match self {
            CommandError::Spawn(_) => "command failed to start"@,
            CommandError::Output(_) => "command output failed"@,
            CommandError::OutputTask(_) => "command output task failed"@,
            CommandError::Timeout => "command timed out"@,
            CommandError::FakeExhausted => "fake command runner has no output configured"@,
            CommandError::UnsupportedPlatform => "external commands are unsupported on this platform"@,
        }
    }

    /// The error's display text.
    pub fn message(&self) -> (m: String)
        ensures
            m@ == self.message_spec(),
    {
        match self {
            CommandError::Spawn(_) => "command failed to start".to_string(),
            CommandError::Output(_) => "command output failed".to_string(),
            CommandError::OutputTask(_) => "command output task failed".to_string(),
            CommandError::Timeout => "command timed out".to_string(),
            CommandError::FakeExhausted => "fake command runner has no output configured".to_string(),
            CommandError::UnsupportedPlatform => "external commands are unsupported on this platform".to_string(),
        }
    }
}

/// The runner that starts real processes; the process work itself lives with
/// the application, which owns the async runtime.
#[derive(Clone, Copy)]
pub struct TokioCommandRunner;

impl TokioCommandRunner {
    pub fn new() -> (r: Self) {
        TokioCommandRunner
    }
}

/// A runner that records every specification it is asked to run and answers
/// with preconfigured outputs, first to last.
pub struct FakeCommandRunner {
    outputs: Vec<CommandOutput>,
    calls: Vec<CommandSpec>,
}

impl FakeCommandRunner {
    /// The outputs not handed out yet, in the order they will be.
    pub closed spec fn pending(&self) -> Seq<CommandOutput> {
        self.outputs@
    }

    /// The specifications run so far, in call order.
    pub closed spec fn recorded(&self) -> Seq<CommandSpecView> {
        self.calls@.map_values(|c: CommandSpec| c@)
    }

    pub fn new(outputs: Vec<CommandOutput>) -> (r: Self)
        ensures
            r.pending() == outputs@,
            r.recorded() == Seq::<CommandSpecView>::empty(),
    {
        let r = FakeCommandRunner { outputs, calls: Vec::new() };
        assert(r.recorded() =~= Seq::<CommandSpecView>::empty());
        r
    }

    /// The specifications run so far, in call order.
    pub fn calls(&self) -> (c: Vec<CommandSpec>)
        ensures
            c@.map_values(|x: CommandSpec| x@) == self.recorded(),
    {
        let mut c: Vec<CommandSpec> = Vec::new();
        let mut i: usize = 0;
        while i < self.calls.len()
            invariant
                i <= self.calls.len(),
                c.len() == i,
                c@.map_values(|x: CommandSpec| x@) == self.calls@.take(i as int).map_values(|x: CommandSpec| x@),
            decreases self.calls.len() - i,
        {
            let ghost before = c@;
            let x = self.calls[i].clone();
            c.push(x);
            proof {
                assert(self.calls@.take(i + 1) =~= self.calls@.take(i as int).push(self.calls@[i as int]));
                assert(c@.map_values(|x: CommandSpec| x@) =~= before.map_values(|x: CommandSpec| x@).push(x@));
                assert(self.calls@.take(i + 1).map_values(|x: CommandSpec| x@) =~= self.calls@.take(i as int).map_values(|x: CommandSpec| x@).push(self.calls@[i as int]@));
            }
            i = i + 1;
        }
        assert(self.calls@.take(self.calls.len() as int) =~= self.calls@);
        c
    }

    /// Records `spec` and hands out the next configured output, or
    /// `FakeExhausted` once none is left.
    pub fn run(&mut self, spec: CommandSpec) -> (r: Result<CommandOutput, CommandError>)
        ensures
            final(self).recorded() == old(self).recorded().push(spec@),
            old(self).pending().len() > 0 ==> r == Ok::<CommandOutput, CommandError>(old(self).pending()[0])
                && final(self).pending() == old(self).pending().drop_first(),
            old(self).pending().len() == 0 ==> r is Err && r->Err_0 is FakeExhausted
                && final(self).pending() == old(self).pending(),
    {
        let ghost before = self.calls@;
        self.calls.push(spec);
        assert(self.calls@.map_values(|x: CommandSpec| x@) =~= before.map_values(|x: CommandSpec| x@).push(spec@));
        if self.outputs.len() > 0 {
            let o = self.outputs.remove(0);
            assert(self.outputs@ =~= old(self).outputs@.drop_first());
            Ok(o)
        } else {
            Err(CommandError::FakeExhausted)
        }
    }
}

} // verus!
