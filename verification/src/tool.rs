//! Tool invocation context, risk grading, and the `bash` tool's
//! environment, sandbox flag and result text.
//!
//! A tool's environment is a list of `(name, value)` pairs; a name set
//! twice reads as its last value, as a map overwritten in order would.

use vstd::prelude::*;
use crate::config_file::pairs_view;
use crate::decimal::{dec, u64_to_decimal};
use crate::text::{str_eq, strip_prefix, trim, trimmed};
use crate::ext::ToolSpec;
use crate::paths::{join_path, path_join};

verus! {

/// The risk of a tool call: decides whether the host auto-approves,
/// prompts, or blocks under the active permission mode. A tool that can
/// run arbitrary code or commands is always `High`.
#[derive(Debug, Clone, Copy, PartialEq, Eq, Structural)]
pub enum RiskLevel {
    Low,
    Medium,
    High,
}

impl Default for RiskLevel {
    /// The default grade is the strictest.
    fn default() -> (r: Self)
        ensures
            r == RiskLevel::High,
    {
        RiskLevel::High
    }
}

/// The context a tool runs in: its working directory, environment, session,
/// and its private state directory.
#[derive(Debug, Clone)]
pub struct ToolContext {
    pub cwd: String,
    pub env: Vec<(String, String)>,
    pub session_id: String,
    pub state_dir: String,
}

/// The value of variable `k` in `env`: the last pair that names it.
pub open spec fn env_lookup(env: Seq<(Seq<char>, Seq<char>)>, k: Seq<char>) -> Option<Seq<char>>
    decreases env.len(),
{
    if env.len() == 0 {
        None
    } else if env.last().0 == k {
        Some(env.last().1)
    } else {
        env_lookup(env.drop_last(), k)
    }
}

/// The value of variable `key` in `env`.
pub fn env_get(env: &Vec<(String, String)>, key: &str) -> (r: Option<String>)
    ensures
        match env_lookup(pairs_view(env@), key@) {
            Some(v) => r matches Some(x) && x@ == v,
            None => r is None,
        },
{
    let mut i = env.len();
    assert(pairs_view(env@).take(i as int) =~= pairs_view(env@));
    while i > 0
        invariant
            0 <= i <= env.len(),
            env_lookup(pairs_view(env@), key@) == env_lookup(pairs_view(env@).take(i as int), key@),
        decreases i,
    {
        let ghost t = pairs_view(env@).take(i as int);
        assert(t.drop_last() =~= pairs_view(env@).take(i - 1));
        if str_eq(env[i - 1].0.as_str(), key) {
            return Some(env[i - 1].1.clone());
        }
        i = i - 1;
    }
    None
}

proof fn lemma_filter_step<A>(s: Seq<A>, f: spec_fn(A) -> bool, x: A)
    ensures
        s.push(x).filter(f) == if f(x) {
            s.filter(f).push(x)
        } else {
            s.filter(f)
        },
{
    reveal(Seq::filter);
    assert(s.push(x).drop_last() =~= s);
}

proof fn lemma_filter_empty<A>(s: Seq<A>, f: spec_fn(A) -> bool)
    requires
        s.len() == 0,
    ensures
        s.filter(f) == s,
{
    reveal(Seq::filter);
}

/// `env` without the pairs that name `k`.
pub open spec fn env_without(env: Seq<(Seq<char>, Seq<char>)>, k: Seq<char>) -> Seq<
    (Seq<char>, Seq<char>),
>
    decreases env.len(),
{
    if env.len() == 0 {
        seq![]
    } else if env.last().0 == k {
        env_without(env.drop_last(), k)
    } else {
        env_without(env.drop_last(), k).push(env.last())
    }
}

proof fn lemma_lookup_without(env: Seq<(Seq<char>, Seq<char>)>, k: Seq<char>, k2: Seq<char>)
    requires
        k2 != k,
    ensures
        env_lookup(env_without(env, k), k2) == env_lookup(env, k2),
        env_lookup(env_without(env, k), k) is None,
    decreases env.len(),
{
    if env.len() > 0 {
        lemma_lookup_without(env.drop_last(), k, k2);
        if env.last().0 != k {
            assert(env_without(env, k).drop_last() =~= env_without(env.drop_last(), k));
        }
    }
}

/// Set variable `key` to `value`, replacing any earlier value.
pub fn env_set(env: &mut Vec<(String, String)>, key: &str, value: &str)
    ensures
        pairs_view(final(env)@) == env_without(pairs_view(old(env)@), key@).push((key@, value@)),
{
    let mut out: Vec<(String, String)> = Vec::new();
    let mut i: usize = 0;
    assert(pairs_view(out@) =~= env_without(pairs_view(env@).take(0), key@));
    while i < env.len()
        invariant
            0 <= i <= env.len(),
            pairs_view(out@) == env_without(pairs_view(env@).take(i as int), key@),
        decreases env.len() - i,
    {
        let ghost t = pairs_view(env@).take(i + 1);
        assert(t.drop_last() =~= pairs_view(env@).take(i as int));
        assert(t.last() == (env@[i as int].0@, env@[i as int].1@));
        if !str_eq(env[i].0.as_str(), key) {
            let ghost before = out@;
            out.push((env[i].0.clone(), env[i].1.clone()));
            assert(pairs_view(out@) =~= pairs_view(before).push(t.last()));
        }
        i = i + 1;
    }
    assert(pairs_view(env@).take(env.len() as int) =~= pairs_view(env@));
    let ghost before = out@;
    out.push((key.to_owned(), value.to_owned()));
    assert(pairs_view(out@) =~= pairs_view(before).push((key@, value@)));
    *env = out;
}

/// Reading back what was set: after `env_set(k, v)`, `k` reads as `v` and
/// every other variable reads as before.
pub proof fn lemma_env_set_get(
    before: Seq<(Seq<char>, Seq<char>)>,
    k: Seq<char>,
    v: Seq<char>,
    k2: Seq<char>,
)
    ensures
        env_lookup(env_without(before, k).push((k, v)), k) == Some(v),
        k2 != k ==> env_lookup(env_without(before, k).push((k, v)), k2) == env_lookup(before, k2),
{
    let after = env_without(before, k).push((k, v));
    assert(after.drop_last() =~= env_without(before, k));
    if k2 != k {
        lemma_lookup_without(before, k, k2);
    }
}

/// Whether the `bash` tool is to be sandboxed: `CONGA_SANDBOX` is exactly
/// `1` (no other truthy spelling).
pub fn sandbox_enabled(env: &Vec<(String, String)>) -> (r: bool)
    ensures
        r == (env_lookup(pairs_view(env@), "CONGA_SANDBOX"@) == Some("1"@)),
{
    match env_get(env, "CONGA_SANDBOX") {
        Some(v) => str_eq(v.as_str(), "1"),
        None => false,
    }
}

/// Whether a variable is the host's own (`CONGA_*`): configuration and
/// secrets that must not leak into commands the model runs.
pub open spec fn is_host_var(name: Seq<char>) -> bool {
    "CONGA_"@.is_prefix_of(name)
}

/// The environment a command runs with: the tool's environment without the
/// host's own variables, in order.
pub fn child_env(env: &Vec<(String, String)>) -> (r: Vec<(String, String)>)
    ensures
        pairs_view(r@) == pairs_view(env@).filter(|p: (Seq<char>, Seq<char>)| !is_host_var(p.0)),
{
    let ghost f = |p: (Seq<char>, Seq<char>)| !is_host_var(p.0);
    let mut out: Vec<(String, String)> = Vec::new();
    let mut i: usize = 0;
    proof {
        lemma_filter_empty(pairs_view(env@).take(0), f);
    }
    assert(pairs_view(out@) =~= pairs_view(env@).take(0).filter(f));
    while i < env.len()
        invariant
            0 <= i <= env.len(),
            f == (|p: (Seq<char>, Seq<char>)| !is_host_var(p.0)),
            pairs_view(out@) == pairs_view(env@).take(i as int).filter(f),
        decreases env.len() - i,
    {
        let ghost t = pairs_view(env@).take(i + 1);
        assert(t.drop_last() =~= pairs_view(env@).take(i as int));
        proof {
            lemma_filter_step(pairs_view(env@).take(i as int), f, t.last());
            assert(t =~= pairs_view(env@).take(i as int).push(t.last()));
        }
        if strip_prefix(env[i].0.as_str(), "CONGA_").is_none() {
            let ghost before = out@;
            out.push((env[i].0.clone(), env[i].1.clone()));
            assert(pairs_view(out@) =~= pairs_view(before).push(t.last()));
        }
        i = i + 1;
    }
    assert(pairs_view(env@).take(env.len() as int) =~= pairs_view(env@));
    out
}

/// The Seatbelt (`sandbox-exec`) profile: allow everything broadly, deny
/// file writes everywhere except beneath the working directory and the two
/// temporary directories (paths already resolved by the caller).
pub open spec fn seatbelt_text(cwd: Seq<char>, tmp: Seq<char>, var_tmp: Seq<char>) -> Seq<char> {
    "(version 1)\n(allow default)\n(deny file-write*)\n(allow file-write* (subpath \""@ + cwd
        + "\"))\n(allow file-write* (subpath \""@ + tmp + "\"))\n(allow file-write* (subpath \""@
        + var_tmp + "\"))\n"@
}

/// Build the Seatbelt profile (see [`seatbelt_text`]).
pub fn seatbelt_profile(cwd: &str, tmp: &str, var_tmp: &str) -> (r: String)
    ensures
        r@ == seatbelt_text(cwd@, tmp@, var_tmp@),
{
    let mut s = "(version 1)\n(allow default)\n(deny file-write*)\n(allow file-write* (subpath \"".to_owned();
    s.append(cwd);
    s.append("\"))\n(allow file-write* (subpath \"");
    s.append(tmp);
    s.append("\"))\n(allow file-write* (subpath \"");
    s.append(var_tmp);
    s.append("\"))\n");
    s
}

/// The arguments of a `bash` call, as read from its JSON arguments.
#[derive(Debug, Clone)]
pub struct BashArgs {
    pub command: Option<String>,
    pub timeout: Option<u64>,
    pub run_in_background: Option<bool>,
}

/// How a `bash` call runs.
#[derive(Debug, Clone)]
pub struct BashPlan {
    pub command: String,
    /// Seconds before the command is killed.
    pub timeout_secs: u64,
    pub run_in_background: bool,
    /// Run in the session's persistent shell (state survives across calls);
    /// otherwise a one-shot `sh -c` (or `cmd /C` on Windows), confined when
    /// the sandbox is on.
    pub persistent: bool,
    /// Confine the one-shot command (fail-closed when confinement fails).
    pub confine: bool,
}

/// The default command timeout, in seconds.
pub const DEFAULT_TIMEOUT_SECS: u64 = 120;

/// Plan a `bash` call: the command is required; the timeout defaults to
/// 120 s; the persistent shell is used off Windows unless the sandbox is
/// on (a persistent shell cannot be confined), and the sandbox confines the
/// one-shot command.
pub fn plan_bash(args: &BashArgs, env: &Vec<(String, String)>, windows: bool) -> (r: Result<
    BashPlan,
    String,
>)
    ensures
        match r {
            Ok(p) => {
                &&& args.command matches Some(c) && p.command@ == c@
                &&& p.timeout_secs == match args.timeout {
                    Some(t) => t,
                    None => 120,
                }
                &&& p.run_in_background == match args.run_in_background {
                    Some(b) => b,
                    None => false,
                }
                &&& p.confine == (env_lookup(pairs_view(env@), "CONGA_SANDBOX"@) == Some("1"@))
                &&& p.persistent == (!windows && !p.confine)
            },
            Err(m) => args.command is None && m@ == "command is required"@,
        },
{
    let command = match &args.command {
        Some(c) => c.clone(),
        None => {
            return Err("command is required".to_owned());
        },
    };
    let timeout_secs = match args.timeout {
        Some(t) => t,
        None => DEFAULT_TIMEOUT_SECS,
    };
    let run_in_background = match args.run_in_background {
        Some(b) => b,
        None => false,
    };
    let confine = sandbox_enabled(env);
    Ok(BashPlan { command, timeout_secs, run_in_background, persistent: !windows && !confine, confine })
}

/// The signed decimal form of `n`.
pub open spec fn signed_dec(n: int) -> Seq<char> {
    if n < 0 {
        seq!['-'] + dec((-n) as nat)
    } else {
        dec(n as nat)
    }
}

fn i64_to_decimal(n: i64) -> (r: String)
    ensures
        r@ == signed_dec(n as int),
{
    if n < 0 {
        let m: u64 = if n == i64::MIN {
            9223372036854775808u64
        } else {
            (-n) as u64
        };
        let mut s = "-".to_owned();
        let d = u64_to_decimal(m);
        s.append(d.as_str());
        proof {
            reveal_strlit("-");
            assert(m as int == -(n as int));
            assert(s@ =~= seq!['-'] + dec(m as nat));
        }
        s
    } else {
        u64_to_decimal(n as u64)
    }
}

/// The text of a one-shot command's result before trimming: stdout, then
/// (when there is any) stderr behind a `--- stderr ---` rule, then the exit
/// code.
pub open spec fn command_text(stdout: Seq<char>, stderr: Seq<char>, code: int) -> Seq<char> {
    let body = if stderr.len() == 0 {
        stdout
    } else if stdout.len() == 0 {
        stderr
    } else {
        stdout + "\n--- stderr ---\n"@ + stderr
    };
    body + "\n[exit "@ + signed_dec(code) + "]"@
}

/// The text a one-shot command reports (see [`command_text`]), trimmed.
pub fn command_result_text(stdout: &str, stderr: &str, code: i32) -> (r: String)
    ensures
        r@ == trimmed(command_text(stdout@, stderr@, code as int)),
{
    let mut text = String::new();
    if !stdout.is_empty() {
        text.append(stdout);
    }
    if !stderr.is_empty() {
        if !text.as_str().is_empty() {
            text.append("\n--- stderr ---\n");
        }
        text.append(stderr);
    }
    text.append("\n[exit ");
    let c = i64_to_decimal(code as i64);
    text.append(c.as_str());
    text.append("]");
    proof {
        let body = if stderr@.len() == 0 {
            stdout@
        } else if stdout@.len() == 0 {
            stderr@
        } else {
            stdout@ + "\n--- stderr ---\n"@ + stderr@
        };
        assert(text@ =~= command_text(stdout@, stderr@, code as int));
    }
    trim(text.as_str())
}

/// The description of `bash`.
pub const BASH_DESCRIPTION: &'static str = "Run a shell command in this session's persistent shell: cd, exported env vars, and activated virtualenvs survive across calls (non-Windows). Set run_in_background to start the command without waiting; its output goes to a log file you can read. Optional timeout in seconds.";

/// The JSON schema of `bash`'s parameters.
pub const BASH_PARAMETERS: &'static str = "{\"type\": \"object\", \"properties\": {\"command\": {\"type\": \"string\"}, \"timeout\": {\"type\": \"integer\", \"description\": \"seconds (default 120)\"}, \"run_in_background\": {\"type\": \"boolean\", \"description\": \"start the command detached; output is redirected to a log file under the tool state dir (returned in the result)\"}}, \"required\": [\"command\"]}";

/// The `bash` tool: it runs arbitrary commands, so it is always `High`.
pub fn bash_tool() -> (r: ToolSpec)
    ensures
        r.name@ == "bash"@,
        r.label@ == "Bash"@,
        r.description@ == BASH_DESCRIPTION@,
        r.parameters@ == BASH_PARAMETERS@,
        r.risk == RiskLevel::High,
{
    ToolSpec {
        name: "bash".to_owned(),
        label: "Bash".to_owned(),
        description: BASH_DESCRIPTION.to_owned(),
        parameters: BASH_PARAMETERS.to_owned(),
        risk: RiskLevel::High,
    }
}

/// Where a background command's log goes: `bg` under the tool's state
/// directory; nowhere for a command run in the foreground.
pub fn background_dir(state_dir: &str, run_in_background: bool) -> (r: Option<String>)
    ensures
        match r {
            Some(d) => run_in_background && d@ == path_join(state_dir@, "bg"@),
            None => !run_in_background,
        },
{
    if run_in_background {
        Some(join_path(state_dir, "bg"))
    } else {
        None
    }
}

/// Whether a persistent-shell run failed: a non-zero exit code, or no
/// code at all (the run did not complete: a timeout or a dead shell).
pub fn persistent_failed(exit_code: Option<i32>) -> (r: bool)
    ensures
        r == match exit_code {
            Some(c) => c != 0,
            None => true,
        },
{
    match exit_code {
        Some(c) => c != 0,
        None => true,
    }
}

/// The exit code a one-shot command reports: its own, or -1 when it was
/// ended by a signal.
pub fn reported_code(code: Option<i32>) -> (r: i32)
    ensures
        r == match code {
            Some(c) => c,
            None => -1i32,
        },
{
    match code {
        Some(c) => c,
        None => -1,
    }
}

/// The error of a one-shot command that outlived its timeout.
pub fn timed_out_message(timeout_secs: u64) -> (r: String)
    ensures
        r@ == "timed out after "@ + dec(timeout_secs as nat) + "s"@,
{
    let mut s = "timed out after ".to_owned();
    s.append(u64_to_decimal(timeout_secs).as_str());
    s.append("s");
    s
}

/// The error of a command that could not be started.
pub fn spawn_failed_message(err: &str) -> (r: String)
    ensures
        r@ == "failed to spawn: "@ + err@,
{
    let mut s = "failed to spawn: ".to_owned();
    s.append(err);
    s
}

/// The temporary directory a confined command may write: `TMPDIR`, else
/// `/tmp`.
pub fn sandbox_tmp(tmpdir: Option<&str>) -> (r: String)
    ensures
        r@ == match tmpdir {
            Some(t) => t@,
            None => "/tmp"@,
        },
{
    match tmpdir {
        Some(t) => t.to_owned(),
        None => "/tmp".to_owned(),
    }
}

/// How the Seatbelt capability probe ended: `sandbox-exec` ran and exited
/// (successfully or with a code, absent when a signal ended it), or it could
/// not be started.
#[derive(Debug)]
pub enum ProbeOutcome {
    Exited { success: bool, code: Option<i32> },
    SpawnFailed(String),
}

/// What the probe means: Seatbelt can confine commands only when a
/// restrictive profile applied; otherwise the sandbox is unavailable, and
/// why.
pub fn probe_verdict(outcome: &ProbeOutcome) -> (r: Result<(), String>)
    ensures
        match outcome {
            ProbeOutcome::Exited { success, code } => if *success {
                r is Ok
            } else {
                r matches Err(m) && m@ == "macOS refused to apply the sandbox profile (sandbox-exec exited "@
                    + signed_dec(
                    match code {
                        Some(c) => *c as int,
                        None => -1,
                    },
                ) + "); this system cannot confine the bash tool, so CONGA_SANDBOX=1 is unavailable"@
            },
            ProbeOutcome::SpawnFailed(e) => r matches Err(m) && m@
                == "sandbox self-check could not run sandbox-exec: "@ + e@,
        },
{
    match outcome {
        ProbeOutcome::Exited { success, code } => {
            if *success {
                Ok(())
            } else {
                let c: i32 = match code {
                    Some(c) => *c,
                    None => -1,
                };
                let mut m = "macOS refused to apply the sandbox profile (sandbox-exec exited ".to_owned();
                m.append(i64_to_decimal(c as i64).as_str());
                m.append("); this system cannot confine the bash tool, so CONGA_SANDBOX=1 is unavailable");
                Err(m)
            }
        },
        ProbeOutcome::SpawnFailed(e) => {
            let mut m = "sandbox self-check could not run sandbox-exec: ".to_owned();
            m.append(e.as_str());
            Err(m)
        },
    }
}

/// The platform a command is confined on.
#[derive(Debug, Clone, Copy, PartialEq, Eq, Structural)]
pub enum Platform {
    MacOs,
    Linux,
    Other,
}

/// How a one-shot command is confined.
#[derive(Debug)]
pub enum ConfineBackend {
    /// Re-run the command under `sandbox-exec` with the Seatbelt profile.
    Seatbelt,
    /// Apply a Landlock ruleset to the child before it starts.
    Landlock,
    /// Refuse to run the command (fail-closed), with why.
    Refuse(String),
}

/// The confinement available on a platform: Seatbelt on macOS, Landlock on
/// Linux when built with it, and a refusal otherwise.
pub fn confine_backend(platform: Platform, landlock_built: bool) -> (r: ConfineBackend)
    ensures
        match platform {
            Platform::MacOs => r is Seatbelt,
            Platform::Linux => if landlock_built {
                r is Landlock
            } else {
                r matches ConfineBackend::Refuse(m) && m@
                    == "CONGA_SANDBOX=1 but this build lacks the landlock backend; rebuild conga with --features sandbox-landlock"@
            },
            Platform::Other => r matches ConfineBackend::Refuse(m) && m@ == "sandbox unsupported on this platform"@,
        },
{
    match platform {
        Platform::MacOs => ConfineBackend::Seatbelt,
        Platform::Linux => if landlock_built {
            ConfineBackend::Landlock
        } else {
            ConfineBackend::Refuse(
                "CONGA_SANDBOX=1 but this build lacks the landlock backend; rebuild conga with --features sandbox-landlock".to_owned(),
            )
        },
        Platform::Other => ConfineBackend::Refuse("sandbox unsupported on this platform".to_owned()),
    }
}

/// The arguments of `sandbox-exec` that run `program` with `args` under
/// `profile`: `-p`, the profile, the program, then its arguments.
pub fn seatbelt_args(profile: &str, program: &str, args: &Vec<String>) -> (r: Vec<String>)
    ensures
        r@.len() == args@.len() + 3,
        r@[0]@ == "-p"@,
        r@[1]@ == profile@,
        r@[2]@ == program@,
        forall|i: int| 0 <= i < args@.len() ==> #[trigger] r@[i + 3]@ == args@[i]@,
{
    let mut out: Vec<String> = Vec::new();
    out.push("-p".to_owned());
    out.push(profile.to_owned());
    out.push(program.to_owned());
    let mut i: usize = 0;
    while i < args.len()
        invariant
            0 <= i <= args.len(),
            out@.len() == i + 3,
            out@[0]@ == "-p"@,
            out@[1]@ == profile@,
            out@[2]@ == program@,
            forall|j: int| 0 <= j < i ==> #[trigger] out@[j + 3]@ == args@[j]@,
        decreases args.len() - i,
    {
        out.push(args[i].clone());
        i = i + 1;
    }
    out
}

/// What a Landlock rule grants beneath its path.
#[derive(Debug, Clone, Copy, PartialEq, Eq, Structural)]
pub enum Access {
    Read,
    ReadWrite,
}

/// The Landlock rules of a confined command: read everywhere, read and
/// write beneath the working directory, the temporary directory and
/// `/var/tmp`.
pub fn landlock_rules(cwd: &str, tmp: &str) -> (r: Vec<(String, Access)>)
    ensures
        r@.len() == 4,
        r@[0].0@ == "/"@ && r@[0].1 == Access::Read,
        r@[1].0@ == cwd@ && r@[1].1 == Access::ReadWrite,
        r@[2].0@ == tmp@ && r@[2].1 == Access::ReadWrite,
        r@[3].0@ == "/var/tmp"@ && r@[3].1 == Access::ReadWrite,
{
    let mut v: Vec<(String, Access)> = Vec::new();
    v.push(("/".to_owned(), Access::Read));
    v.push((cwd.to_owned(), Access::ReadWrite));
    v.push((tmp.to_owned(), Access::ReadWrite));
    v.push(("/var/tmp".to_owned(), Access::ReadWrite));
    v
}

/// The refusal when the working directory cannot be resolved for the
/// sandbox.
pub fn cwd_inaccessible_message(err: &str) -> (r: String)
    ensures
        r@ == "sandbox: cwd not accessible: "@ + err@,
{
    let mut s = "sandbox: cwd not accessible: ".to_owned();
    s.append(err);
    s
}

} // verus!