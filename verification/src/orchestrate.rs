//! The execution orchestrator: per-request workspace naming, the exact
//! compile- and run-phase invocations, and the outcome classifier.
//!
//! The caller drives the phases in order — prepare, materialize source,
//! compile, run, account, classify — performing the process and file
//! work outside; every decision and every command line is produced here.

use vstd::prelude::*;

use crate::accounting::{spec_measure_args, GTime};
use crate::env::{RunnerEnv, RunnerOption};
use crate::lang::{LangExt, Language};
use crate::memory::Memory;
use crate::nsjail::{
    spec_base_args, spec_env_arg, spec_mount_arg, spec_tmpfs_arg, NsJailBuilder,
};
use crate::numerals::decimal_of;
use crate::runner::{
    apply_directives, directives_args, resolve_run_command, Runners, SandboxDirective, GO_CACHE,
};
use crate::state::RunnerState;
use crate::strings::{chars_to_string, push_chars, push_string};
use crate::time::MsTime;
use crate::web::RunnerRequest;

verus! {

/// A runnable process: its argument vector, the program first, and the
/// working directory it starts in.
#[derive(Debug, Clone)]
pub struct Invocation {
    pub argv: Vec<String>,
    pub current_dir: Option<String>,
}

/// A character of a workspace identifier: Crockford base-32.
pub open spec fn is_ulid_char(c: char) -> bool {
    ('0' <= c && c <= '9') || ('A' <= c && c <= 'Z' && c != 'I' && c != 'L' && c != 'O' && c != 'U')
}

/// A well-formed workspace identifier: 26 Crockford base-32 characters.
pub open spec fn is_workspace_id(s: Seq<char>) -> bool {
    s.len() == 26 && forall|i: int| 0 <= i < s.len() ==> is_ulid_char(#[trigger] s[i])
}

/// Relies on `ulid::Ulid::generate` and the `Display` impl of `Ulid`: a
/// ULID always renders as exactly 26 characters of the Crockford base-32
/// alphabet.  The identifier itself depends on the clock and on
/// randomness, so nothing is promised about which one comes back.
#[verifier::external_body]
fn fresh_ulid_string() -> (r: String)
    ensures
        is_workspace_id(r@),
{
    ulid::Ulid::generate().to_string()
}

/// A fresh, time-sortable workspace identifier for one request.
pub fn new_workspace_id() -> (r: String)
    ensures
        is_workspace_id(r@),
{
    fresh_ulid_string()
}

/// The per-request workspace directory for an identifier.
pub open spec fn spec_workspace_dir(env: RunnerEnv, id: Seq<char>) -> Seq<char> {
    env.running_path@ + "/"@ + id
}

/// Joins the running base directory and a workspace identifier.
pub fn workspace_dir(env: &RunnerEnv, id: &str) -> (r: String)
    ensures
        r@ == spec_workspace_dir(*env, id@),
{
    let mut out: Vec<char> = Vec::new();
    push_chars(&mut out, env.running_path.as_str());
    push_chars(&mut out, "/");
    push_chars(&mut out, id);
    assert(out@ =~= spec_workspace_dir(*env, id@));
    chars_to_string(&out)
}

/// Distinct identifiers of equal length name distinct workspaces, so two
/// concurrent requests never share a directory.
pub proof fn lemma_workspace_dirs_distinct(env: RunnerEnv, id1: Seq<char>, id2: Seq<char>)
    requires
        id1.len() == id2.len(),
        id1 != id2,
    ensures
        spec_workspace_dir(env, id1) != spec_workspace_dir(env, id2),
{
    let d1 = spec_workspace_dir(env, id1);
    let d2 = spec_workspace_dir(env, id2);
    if d1 == d2 {
        let prefix = env.running_path@ + "/"@;
        assert(d1 == prefix + id1);
        assert(d2 == prefix + id2);
        assert forall|i: int| 0 <= i < id1.len() implies id1[i] == id2[i] by {
            assert((prefix + id1)[prefix.len() + i] == id1[i]);
            assert((prefix + id2)[prefix.len() + i] == id2[i]);
        }
        assert(id1 =~= id2);
    }
}

/// Two requests planned under distinct workspace identifiers never share
/// a workspace: their directories differ, and each run is chrooted to its
/// own directory, so neither observes the other's files, stdin or
/// stdout.
pub proof fn lemma_requests_are_isolated(env: RunnerEnv, id1: Seq<char>, id2: Seq<char>)
    requires
        is_workspace_id(id1),
        is_workspace_id(id2),
        id1 != id2,
    ensures
        spec_workspace_dir(env, id1) != spec_workspace_dir(env, id2),
{
    lemma_workspace_dirs_distinct(env, id1, id2);
}

/// The compile-phase invocation: the measuring wrapper, the launcher
/// with its baseline, the fixed compile ceilings, the workspace as root,
/// the toolchain visible read-only, a sized `/tmp`, the recipe's compile
/// directives, writable root and `/proc`, then the compiler command
/// handed to the shell.
pub open spec fn spec_compile_invocation(
    lang: Language,
    compile_cmd: Seq<char>,
    more_compile: Seq<SandboxDirective>,
    option: RunnerOption,
    env: RunnerEnv,
    dir: Seq<char>,
) -> Seq<Seq<char>> {
    seq![env.nix_bin@ + "/time"@] + spec_measure_args() + seq![env.nix_bin@ + "/nsjail"@]
        + spec_base_args(env) + seq![
        "--time_limit"@,
        decimal_of(((option.compile_time_limit_seconds.0 + 999) / 1000) as nat),
        "--cgroup_mem_max"@,
        decimal_of(option.compile_memory_limit_megabytes.0 as nat),
        "--rlimit_fsize"@,
        "100"@,
        "--rlimit_nofile"@,
        "128"@,
        "--chroot"@,
        dir,
        "--env"@,
        spec_env_arg("PATH"@, lang.spec_runner_path(env.runner_path@) + "/bin"@),
        "-R"@,
        spec_mount_arg(lang.spec_runner_path(env.runner_path@), lang.spec_runner_path(env.runner_path@)),
        "-m"@,
        spec_tmpfs_arg("/tmp"@, Memory(536870912)),
        "--env"@,
        spec_env_arg("TMPDIR"@, "/tmp"@),
        "--rw"@,
    ] + directives_args(more_compile) + seq!["--proc_rw"@, "--"@, env.nix_bin@ + "/sh"@, "-c"@, compile_cmd]
}

/// Builds the compile-phase invocation for a workspace.
#[verifier::rlimit(100)]
pub fn compile_invocation(
    lang: Language,
    compile_cmd: &str,
    more_compile: &Vec<SandboxDirective>,
    option: &RunnerOption,
    env: &RunnerEnv,
    dir: &str,
) -> (r: Invocation)
    ensures
        r.argv.deep_view() == spec_compile_invocation(
            lang,
            compile_cmd@,
            more_compile@,
            *option,
            *env,
            dir@,
        ),
        r.current_dir matches Some(d) && d@ == dir@,
{
    let prefix = GTime::new_cmd(env);
    let mut builder = NsJailBuilder::new_with(prefix, env);
    builder.time_limit(option.compile_time_limit_seconds);
    builder.memory_limit(option.compile_memory_limit_megabytes);
    builder.proc_writable(true);
    builder.arg("--rlimit_fsize");
    builder.arg("100");
    builder.arg("--rlimit_nofile");
    builder.arg("128");
    builder.cwd(dir);
    let bin = lang.bin_path(env.runner_path.as_str());
    builder.env("PATH", bin.as_str());
    let toolchain = lang.runner_path(env.runner_path.as_str());
    builder.mount_ro(toolchain.as_str());
    builder.tmpfsmount("/tmp", Memory::new_megabytes(512));
    builder.writable();
    apply_directives(&mut builder, more_compile);
    let (mut argv, current_dir) = builder.build();
    push_string(&mut argv, env.sh_cmd());
    push_string(&mut argv, "-c".to_owned());
    push_string(&mut argv, compile_cmd.to_owned());
    assert(argv.deep_view() =~= spec_compile_invocation(
        lang,
        compile_cmd@,
        more_compile@,
        *option,
        *env,
        dir@,
    ));
    Invocation { argv, current_dir }
}

/// The run-phase invocation: the measuring wrapper, the launcher with
/// its baseline, the toolchain visible read-only, the request's limits
/// each with its grace margin, the launcher log, the workspace as root,
/// the recipe's run directives, `/proc` hidden, then the run command
/// handed to the shell.
pub open spec fn spec_run_invocation(
    lang: Language,
    run_cmd: Seq<char>,
    more_run: Seq<SandboxDirective>,
    time_limit: MsTime,
    memory_limit: Memory,
    env: RunnerEnv,
    dir: Seq<char>,
) -> Seq<Seq<char>> {
    seq![env.nix_bin@ + "/time"@] + spec_measure_args() + seq![env.nix_bin@ + "/nsjail"@]
        + spec_base_args(env) + seq![
        "--env"@,
        spec_env_arg("PATH"@, lang.spec_runner_path(env.runner_path@) + "/bin"@),
        "-R"@,
        spec_mount_arg(lang.spec_runner_path(env.runner_path@), lang.spec_runner_path(env.runner_path@)),
        "--time_limit"@,
        decimal_of(((time_limit.0 + 1000 + 999) / 1000) as nat),
        "--cgroup_mem_max"@,
        decimal_of((memory_limit.0 + 1048576) as nat),
        "--log"@,
        "nsjail.log"@,
        "--chroot"@,
        dir,
    ] + directives_args(more_run) + seq!["--disable_proc"@, "--"@, env.nix_bin@ + "/sh"@, "-c"@, run_cmd]
}

/// Builds the run-phase invocation for a workspace.
///
/// The hard-kill ceilings get one second and one megabyte of grace above
/// the request's limits, so the launcher's own enforcement never fires
/// strictly before the classifier's comparison would.
#[verifier::rlimit(100)]
pub fn run_invocation(
    lang: Language,
    run_cmd: &str,
    more_run: &Vec<SandboxDirective>,
    time_limit: MsTime,
    memory_limit: Memory,
    env: &RunnerEnv,
    dir: &str,
) -> (r: Invocation)
    requires
        time_limit.0 + 1000 <= u64::MAX,
        memory_limit.0 + 1048576 <= u64::MAX,
    ensures
        r.argv.deep_view() == spec_run_invocation(
            lang,
            run_cmd@,
            more_run@,
            time_limit,
            memory_limit,
            *env,
            dir@,
        ),
        r.current_dir matches Some(d) && d@ == dir@,
{
    let prefix = GTime::new_cmd(env);
    let mut builder = NsJailBuilder::new_with(prefix, env);
    let bin = lang.bin_path(env.runner_path.as_str());
    builder.env("PATH", bin.as_str());
    let toolchain = lang.runner_path(env.runner_path.as_str());
    builder.mount_ro(toolchain.as_str());
    builder.time_limit(time_limit.add_seconds(1));
    builder.memory_limit(memory_limit.add_megabytes(1));
    builder.log("nsjail.log");
    builder.cwd(dir);
    apply_directives(&mut builder, more_run);
    let (mut argv, current_dir) = builder.build();
    push_string(&mut argv, env.sh_cmd());
    push_string(&mut argv, "-c".to_owned());
    push_string(&mut argv, run_cmd.to_owned());
    assert(argv.deep_view() =~= spec_run_invocation(
        lang,
        run_cmd@,
        more_run@,
        time_limit,
        memory_limit,
        *env,
        dir@,
    ));
    Invocation { argv, current_dir }
}

/// The compile gate: a failing compiler exit ends the request with its
/// diagnostics, and the run phase never starts; a clean exit continues.
pub fn compile_outcome(exit_success: bool, stderr: String) -> (r: Option<RunnerState>)
    ensures
        exit_success <==> r is None,
        !exit_success ==> (r matches Some(s) && s matches RunnerState::CompileError { stderr: e }
            && e@ == stderr@),
{
    if exit_success {
        None
    } else {
        Some(RunnerState::CompileError { stderr })
    }
}

/// The exit code reported when the process was killed by a signal and
/// left none.
pub const SIGNAL_EXIT_CODE: i32 = 137;

/// `r` is the outcome the classifier owes for one completed run, held
/// against the request's original limits in strict priority: first a
/// timeout, then a memory overrun, then a nonzero exit, else success.
pub open spec fn is_classified(
    r: RunnerState,
    exit_success: bool,
    exit_code: Option<i32>,
    stdout: Seq<char>,
    stderr: Seq<char>,
    memory: Memory,
    time: MsTime,
    time_limit: MsTime,
    memory_limit: Memory,
) -> bool {
    &&& time.0 > time_limit.0 ==> (r matches RunnerState::Timeout { ms_time_elapsed }
        && ms_time_elapsed == time && ms_time_elapsed.0 >= time_limit.0)
    &&& time.0 <= time_limit.0 && memory.0 > memory_limit.0 ==> (r matches RunnerState::MemoryLimit {
        max_memory_usage,
    } && max_memory_usage == memory && max_memory_usage.0 > memory_limit.0)
    &&& time.0 <= time_limit.0 && memory.0 <= memory_limit.0 && !exit_success ==> (r matches RunnerState::RuntimeError {
        stderr: e,
        exit_code: c,
        max_memory_usage,
        ms_time_elapsed,
    } && e@ == stderr && c == (match exit_code {
        Some(c0) => c0,
        None => SIGNAL_EXIT_CODE,
    }) && max_memory_usage == memory && ms_time_elapsed == time)
    &&& time.0 <= time_limit.0 && memory.0 <= memory_limit.0 && exit_success ==> (r matches RunnerState::Success {
        stdout: o,
        max_memory_usage,
        ms_time_elapsed,
    } && o@ == stdout && max_memory_usage == memory && max_memory_usage.0 <= memory_limit.0
        && ms_time_elapsed == time)
}

/// Classifies one completed run against the request's original limits,
/// in strict priority: timeout, then memory, then a nonzero exit, then
/// success.
pub fn classify(
    exit_success: bool,
    exit_code: Option<i32>,
    stdout: String,
    stderr: String,
    memory: Memory,
    time: MsTime,
    time_limit: MsTime,
    memory_limit: Memory,
) -> (r: RunnerState)
    ensures
        is_classified(r, exit_success, exit_code, stdout@, stderr@, memory, time, time_limit, memory_limit),
{
    if time.as_ms() > time_limit.as_ms() {
        return RunnerState::Timeout { ms_time_elapsed: time };
    }
    if memory.as_bytes() > memory_limit.as_bytes() {
        return RunnerState::MemoryLimit { max_memory_usage: memory };
    }
    if !exit_success {
        let code = match exit_code {
            Some(c) => c,
            None => SIGNAL_EXIT_CODE,
        };
        return RunnerState::RuntimeError {
            stderr,
            exit_code: code,
            max_memory_usage: memory,
            ms_time_elapsed: time,
        };
    }
    RunnerState::Success { stdout, max_memory_usage: memory, ms_time_elapsed: time }
}

/// Everything one request needs before any process is spawned: its
/// fresh workspace, the source file to materialize, the optional compile
/// invocation and the run invocation.
#[derive(Debug, Clone)]
pub struct ExecutionPlan {
    pub workspace_id: String,
    pub workspace_dir: String,
    pub source_file: Option<String>,
    pub compile: Option<Invocation>,
    pub run: Invocation,
}

/// Plans one request: allocates a fresh workspace identifier, consults
/// the registry, and lays out both phases' invocations against the
/// workspace directory.
pub fn plan_execution(
    runners: &Runners,
    request: &RunnerRequest,
    option: &RunnerOption,
    env: &RunnerEnv,
) -> (r: ExecutionPlan)
    requires
        runners.wf(),
        request.ms_time_limit.0 + 1000 <= u64::MAX,
        request.memory_limit.0 + 1048576 <= u64::MAX,
    ensures
        is_workspace_id(r.workspace_id@),
        r.workspace_dir@ == spec_workspace_dir(*env, r.workspace_id@),
        ({
            let recipe = runners.spec_get(request.lang);
            &&& (match r.source_file {
                Some(f) => recipe.spec_file_name() == Some(f@),
                None => recipe.spec_file_name() is None,
            })
            &&& (match r.compile {
                Some(inv) => recipe.spec_compile_cmd() matches Some(cc)
                    && inv.argv.deep_view() == spec_compile_invocation(
                    request.lang,
                    cc,
                    recipe.spec_option().more_compile@,
                    *option,
                    *env,
                    r.workspace_dir@,
                ) && (inv.current_dir matches Some(d) && d@ == r.workspace_dir@),
                None => recipe.spec_compile_cmd() is None,
            })
            &&& r.run.argv.deep_view() == spec_run_invocation(
                request.lang,
                recipe.spec_run_text(request.code@),
                recipe.spec_option().more_run@,
                request.ms_time_limit,
                request.memory_limit,
                *env,
                r.workspace_dir@,
            )
            &&& (r.run.current_dir matches Some(d) && d@ == r.workspace_dir@)
        }),
{
    let workspace_id = new_workspace_id();
    let dir = workspace_dir(env, workspace_id.as_str());
    let recipe = runners.get(&request.lang);
    let source_file = match recipe.file_name() {
        Some(f) => Some(f.clone()),
        None => None,
    };
    let compile = match recipe.compile_cmd() {
        Some(cc) => Some(compile_invocation(
            request.lang,
            cc.as_str(),
            &recipe.option().more_compile,
            option,
            env,
            dir.as_str(),
        )),
        None => None,
    };
    let rc = recipe.run_cmd();
    let run_cmd = resolve_run_command(&rc, request.code.as_str());
    let run = run_invocation(
        request.lang,
        run_cmd.as_str(),
        &recipe.option().more_run,
        request.ms_time_limit,
        request.memory_limit,
        env,
        dir.as_str(),
    );
    ExecutionPlan { workspace_id, workspace_dir: dir, source_file, compile, run }
}

/// Where one request stands in the compile-run-classify order.
#[derive(Debug, Clone)]
pub enum SessionPhase {
    /// Waiting for the compile invocation's exit.
    Compiling,
    /// Waiting for the run invocation's exit and its accounting.
    Running,
    /// The terminal outcome; no further transition applies.
    Finished(RunnerState),
}

/// One request's orchestration state machine.
///
/// The phases run strictly in order and every transition requires the
/// phase it leaves, so each is a hard exit point: a session finished by
/// a failing compile admits no run transition, and the run phase never
/// starts.
#[derive(Debug, Clone)]
pub struct Session {
    pub plan: ExecutionPlan,
    pub time_limit: MsTime,
    pub memory_limit: Memory,
    pub phase: SessionPhase,
}

impl Session {
    /// Opens a session on a plan: at the compile phase when the plan has
    /// one, else straight at the run phase.
    pub fn start(plan: ExecutionPlan, time_limit: MsTime, memory_limit: Memory) -> (s: Session)
        ensures
            s.plan == plan,
            s.time_limit == time_limit,
            s.memory_limit == memory_limit,
            plan.compile is Some ==> s.phase is Compiling,
            plan.compile is None ==> s.phase is Running,
    {
        let phase = if plan.compile.is_some() {
            SessionPhase::Compiling
        } else {
            SessionPhase::Running
        };
        Session { plan, time_limit, memory_limit, phase }
    }

    /// The compile exit: a clean one moves on to the run phase; a
    /// failing one finishes the session with the compiler's diagnostics,
    /// so the run phase never executes.
    pub fn compile_finished(&mut self, exit_success: bool, stderr: String)
        requires
            old(self).phase is Compiling,
        ensures
            final(self).plan == old(self).plan,
            final(self).time_limit == old(self).time_limit,
            final(self).memory_limit == old(self).memory_limit,
            exit_success ==> final(self).phase is Running,
            !exit_success ==> (final(self).phase matches SessionPhase::Finished(st)
                && st matches RunnerState::CompileError { stderr: e } && e@ == stderr@),
    {
        match compile_outcome(exit_success, stderr) {
            None => {
                self.phase = SessionPhase::Running;
            },
            Some(st) => {
                self.phase = SessionPhase::Finished(st);
            },
        }
    }

    /// The run exit with its measured usage: the session finishes with
    /// the classified outcome, held against the original limits.
    pub fn run_finished(
        &mut self,
        exit_success: bool,
        exit_code: Option<i32>,
        stdout: String,
        stderr: String,
        memory: Memory,
        time: MsTime,
    )
        requires
            old(self).phase is Running,
        ensures
            final(self).plan == old(self).plan,
            final(self).time_limit == old(self).time_limit,
            final(self).memory_limit == old(self).memory_limit,
            final(self).phase matches SessionPhase::Finished(st) && is_classified(
                st,
                exit_success,
                exit_code,
                stdout@,
                stderr@,
                memory,
                time,
                old(self).time_limit,
                old(self).memory_limit,
            ),
    {
        let time_limit = self.time_limit;
        let memory_limit = self.memory_limit;
        let st = classify(
            exit_success,
            exit_code,
            stdout,
            stderr,
            memory,
            time,
            time_limit,
            memory_limit,
        );
        self.phase = SessionPhase::Finished(st);
    }
}

/// The Go source compiled once at startup to warm the shared build
/// cache.
pub fn go_warmup_source() -> (r: String)
    ensures
        r@ == "\npackage main\nimport \"fmt\"\nfunc main() {\n    fmt.Println(\"Hello, Go!\")\n}\n"@,
{
    "\npackage main\nimport \"fmt\"\nfunc main() {\n    fmt.Println(\"Hello, Go!\")\n}\n".to_owned()
}

/// The file the warmup source is written to, inside the temporary
/// directory the warmup runs in.
pub const GO_WARMUP_FILE: &'static str = "go-cache-main.go";

/// The registry-construction invocation that warms Go's shared build
/// cache: the launcher with its baseline, the cache mounted writable,
/// the Go toolchain visible read-only, and one throwaway build handed to
/// the shell.  Run once at startup; its failure is fatal to startup.
pub open spec fn spec_go_warmup_invocation(env: RunnerEnv, temp_dir: Seq<char>) -> Seq<Seq<char>> {
    seq![env.nix_bin@ + "/nsjail"@] + spec_base_args(env) + seq![
        "-B"@,
        spec_mount_arg("/go-cache"@, "/go-cache"@),
        "--rlimit_fsize"@,
        "100"@,
        "--rlimit_nofile"@,
        "128"@,
        "--chroot"@,
        temp_dir,
        "--env"@,
        spec_env_arg("PATH"@, Language::Go1_23.spec_runner_path(env.runner_path@) + "/bin"@),
        "-R"@,
        spec_mount_arg(
            Language::Go1_23.spec_runner_path(env.runner_path@),
            Language::Go1_23.spec_runner_path(env.runner_path@),
        ),
        "-B"@,
        spec_mount_arg("/go-cache"@, "/go-cache"@),
        "--env"@,
        spec_env_arg("GOCACHE"@, "/go-cache"@),
        "-m"@,
        spec_tmpfs_arg("/tmp"@, Memory(536870912)),
        "--env"@,
        spec_env_arg("TMPDIR"@, "/tmp"@),
        "--rw"@,
        "--proc_rw"@,
        "--"@,
        env.nix_bin@ + "/sh"@,
        "-c"@,
        "go build -o go-cache-main go-cache-main.go"@,
    ]
}

/// Builds the Go cache warmup invocation against a temporary directory.
#[verifier::rlimit(100)]
pub fn go_warmup_invocation(env: &RunnerEnv, temp_dir: &str) -> (r: Invocation)
    ensures
        r.argv.deep_view() == spec_go_warmup_invocation(*env, temp_dir@),
        r.current_dir matches Some(d) && d@ == temp_dir@,
{
    let mut builder = NsJailBuilder::new(env);
    builder.mount_rw(GO_CACHE);
    builder.proc_writable(true);
    builder.arg("--rlimit_fsize");
    builder.arg("100");
    builder.arg("--rlimit_nofile");
    builder.arg("128");
    builder.cwd(temp_dir);
    let bin = Language::Go1_23.bin_path(env.runner_path.as_str());
    builder.env("PATH", bin.as_str());
    let toolchain = Language::Go1_23.runner_path(env.runner_path.as_str());
    builder.mount_ro(toolchain.as_str());
    builder.mount_rw(GO_CACHE);
    builder.env("GOCACHE", GO_CACHE);
    builder.tmpfsmount("/tmp", Memory::new_megabytes(512));
    builder.writable();
    let (mut argv, current_dir) = builder.build();
    push_string(&mut argv, env.sh_cmd());
    push_string(&mut argv, "-c".to_owned());
    push_string(&mut argv, "go build -o go-cache-main go-cache-main.go".to_owned());
    assert(argv.deep_view() =~= spec_go_warmup_invocation(*env, temp_dir@));
    Invocation { argv, current_dir }
}

} // verus!
