//! The per-language build/run recipes and the total registry over the
//! closed set of languages.
//!
//! A recipe is plain data: the source file name, the optional compile
//! command, the run command, and a list of sandbox directives applied on
//! top of the builder's baseline — never executable hooks, so a recipe
//! can be inspected and tested in isolation.

use vstd::prelude::*;

use crate::lang::Language;
use crate::nsjail::{spec_env_arg, spec_mount_arg, NsJailBuilder};
use crate::strings::{chars_to_string, push_chars};

verus! {

/// The shared directory Go's build cache lives in.
pub const GO_CACHE: &'static str = "/go-cache";

/// One extra configuration step a recipe applies to its sandbox.
#[derive(Debug, Clone)]
pub enum SandboxDirective {
    /// Inject an environment variable.
    Env { key: String, value: String },
    /// Mount a path read-write at the same path.
    MountRw { path: String },
    /// Mount a path read-write at another path.
    MountRwDest { src: String, dest: String },
    /// Pass one raw launcher argument through.
    RawArg { arg: String },
}

/// The launcher arguments one directive adds.
pub open spec fn directive_args(d: SandboxDirective) -> Seq<Seq<char>> {
    match d {
        SandboxDirective::Env { key, value } => seq!["--env"@, spec_env_arg(key@, value@)],
        SandboxDirective::MountRw { path } => seq!["-B"@, spec_mount_arg(path@, path@)],
        SandboxDirective::MountRwDest { src, dest } => seq!["-B"@, spec_mount_arg(src@, dest@)],
        SandboxDirective::RawArg { arg } => seq![arg@],
    }
}

/// The launcher arguments a directive list adds, in order.
pub open spec fn directives_args(ds: Seq<SandboxDirective>) -> Seq<Seq<char>>
    decreases ds.len(),
{
    if ds.len() == 0 {
        Seq::<Seq<char>>::empty()
    } else {
        directives_args(ds.drop_last()) + directive_args(ds.last())
    }
}

/// Applies each directive to the builder, in order.
pub fn apply_directives(builder: &mut NsJailBuilder, ds: &Vec<SandboxDirective>)
    ensures
        final(builder).args.deep_view() == old(builder).args.deep_view() + directives_args(ds@),
        final(builder).proc_writable == old(builder).proc_writable,
        final(builder).current_dir == old(builder).current_dir,
{
    let n = ds.len();
    let mut i: usize = 0;
    assert(directives_args(ds@.subrange(0, 0)) =~= Seq::<Seq<char>>::empty());
    assert(builder.args.deep_view() =~= old(builder).args.deep_view() + directives_args(
        ds@.subrange(0, 0),
    ));
    while i < n
        invariant
            i <= n,
            n == ds@.len(),
            builder.args.deep_view() == old(builder).args.deep_view() + directives_args(
                ds@.subrange(0, i as int),
            ),
            builder.proc_writable == old(builder).proc_writable,
            builder.current_dir == old(builder).current_dir,
        decreases n - i,
    {
        let ghost done = ds@.subrange(0, i as int);
        match &ds[i] {
            SandboxDirective::Env { key, value } => {
                builder.env(key.as_str(), value.as_str());
            },
            SandboxDirective::MountRw { path } => {
                builder.mount_rw(path.as_str());
            },
            SandboxDirective::MountRwDest { src, dest } => {
                builder.mount_rw_dest(src.as_str(), dest.as_str());
            },
            SandboxDirective::RawArg { arg } => {
                builder.arg(arg.as_str());
            },
        }
        proof {
            assert(ds@.subrange(0, i + 1 as int).drop_last() =~= done);
            assert(ds@.subrange(0, i + 1 as int).last() == ds@[i as int]);
            assert(builder.args.deep_view() =~= old(builder).args.deep_view() + directives_args(
                ds@.subrange(0, i + 1 as int),
            ));
        }
        i = i + 1;
    }
    assert(ds@.subrange(0, n as int) =~= ds@);
}

/// The sandbox directives a recipe adds for its compile and run phases.
#[derive(Debug, Clone)]
pub struct LangRunnerOption {
    pub more_compile: Vec<SandboxDirective>,
    pub more_run: Vec<SandboxDirective>,
}

/// How one language materializes, compiles and runs submitted source.
#[derive(Debug, Clone)]
pub enum LangRunner {
    /// The source is written to a file, compiled, then the artifact runs.
    WithCompile { file_name: String, compile_cmd: String, run_cmd: String, option: LangRunnerOption },
    /// The source is written to a file and interpreted directly.
    WithoutCompile { file_name: String, run_cmd: String, option: LangRunnerOption },
    /// The source is spliced into the run command itself; no file is
    /// written.
    Inline { run_prefix: String, run_suffix: String, option: LangRunnerOption },
}

/// A resolved run command: fixed, or built around the submitted source.
#[derive(Debug, Clone)]
pub enum RunCommand {
    WithCode { prefix: String, suffix: String },
    Static { run_cmd: String },
}

/// The command line a resolved run command denotes for given source text.
pub open spec fn run_command_text(rc: RunCommand, code: Seq<char>) -> Seq<char> {
    match rc {
        RunCommand::WithCode { prefix, suffix } => prefix@ + code + suffix@,
        RunCommand::Static { run_cmd } => run_cmd@,
    }
}

impl LangRunner {
    /// The name of the source file to materialize, if the language uses
    /// one.
    pub open spec fn spec_file_name(&self) -> Option<Seq<char>> {
        match self {
            LangRunner::WithCompile { file_name, .. } => Some(file_name@),
            LangRunner::WithoutCompile { file_name, .. } => Some(file_name@),
            LangRunner::Inline { .. } => None,
        }
    }

    /// The compile command, for languages with a compile phase.
    pub open spec fn spec_compile_cmd(&self) -> Option<Seq<char>> {
        match self {
            LangRunner::WithCompile { compile_cmd, .. } => Some(compile_cmd@),
            LangRunner::WithoutCompile { .. } => None,
            LangRunner::Inline { .. } => None,
        }
    }

    /// The recipe's extra sandbox directives.
    pub open spec fn spec_option(&self) -> LangRunnerOption {
        match self {
            LangRunner::WithCompile { option, .. } => *option,
            LangRunner::WithoutCompile { option, .. } => *option,
            LangRunner::Inline { option, .. } => *option,
        }
    }

    pub fn file_name(&self) -> (r: Option<&String>)
        ensures
            match r {
                Some(f) => self.spec_file_name() == Some(f@),
                None => self.spec_file_name() is None,
            },
    {
        match self {
            LangRunner::WithCompile { file_name, .. } => Some(file_name),
            LangRunner::WithoutCompile { file_name, .. } => Some(file_name),
            LangRunner::Inline { .. } => None,
        }
    }

    pub fn compile_cmd(&self) -> (r: Option<&String>)
        ensures
            match r {
                Some(c) => self.spec_compile_cmd() == Some(c@),
                None => self.spec_compile_cmd() is None,
            },
    {
        match self {
            LangRunner::WithCompile { compile_cmd, .. } => Some(compile_cmd),
            LangRunner::WithoutCompile { .. } => None,
            LangRunner::Inline { .. } => None,
        }
    }

    /// The run command, fixed or code-splicing, ready to resolve.
    pub fn run_cmd(&self) -> (r: RunCommand)
        ensures
            forall|code: Seq<char>| run_command_text(r, code) == self.spec_run_text(code),
    {
        match self {
            LangRunner::WithCompile { run_cmd, .. } => RunCommand::Static { run_cmd: run_cmd.clone() },
            LangRunner::WithoutCompile { run_cmd, .. } => RunCommand::Static { run_cmd: run_cmd.clone() },
            LangRunner::Inline { run_prefix, run_suffix, .. } => RunCommand::WithCode {
                prefix: run_prefix.clone(),
                suffix: run_suffix.clone(),
            },
        }
    }

    /// The command line that runs the given source text.
    pub open spec fn spec_run_text(&self, code: Seq<char>) -> Seq<char> {
        match self {
            LangRunner::WithCompile { run_cmd, .. } => run_cmd@,
            LangRunner::WithoutCompile { run_cmd, .. } => run_cmd@,
            LangRunner::Inline { run_prefix, run_suffix, .. } => run_prefix@ + code + run_suffix@,
        }
    }

    pub fn option(&self) -> (r: &LangRunnerOption)
        ensures
            *r == self.spec_option(),
    {
        match self {
            LangRunner::WithCompile { option, .. } => option,
            LangRunner::WithoutCompile { option, .. } => option,
            LangRunner::Inline { option, .. } => option,
        }
    }
}

/// Resolves a run command against the submitted source text.
pub fn resolve_run_command(rc: &RunCommand, code: &str) -> (r: String)
    ensures
        r@ == run_command_text(*rc, code@),
{
    match rc {
        RunCommand::WithCode { prefix, suffix } => {
            let mut out: Vec<char> = Vec::new();
            push_chars(&mut out, prefix.as_str());
            push_chars(&mut out, code);
            push_chars(&mut out, suffix.as_str());
            assert(out@ =~= prefix@ + code@ + suffix@);
            chars_to_string(&out)
        },
        RunCommand::Static { run_cmd } => run_cmd.clone(),
    }
}

/// The Rust recipe: write `main.rs`, compile it optimized, run the
/// artifact.
pub open spec fn is_rust_recipe(r: LangRunner) -> bool {
    &&& r matches LangRunner::WithCompile { file_name, compile_cmd, run_cmd, option }
    &&& file_name@ == "main.rs"@
    &&& compile_cmd@ == "rustc -O main.rs -o main"@
    &&& run_cmd@ == "./main"@
    &&& option.more_compile@ == Seq::<SandboxDirective>::empty()
    &&& option.more_run@ == Seq::<SandboxDirective>::empty()
}

/// The Go recipe: write `main.go`, build with the shared cache mounted
/// writable, run the artifact.
pub open spec fn is_go_recipe(r: LangRunner) -> bool {
    &&& r matches LangRunner::WithCompile { file_name, compile_cmd, run_cmd, option }
    &&& file_name@ == "main.go"@
    &&& compile_cmd@ == "go build -o main main.go"@
    &&& run_cmd@ == "./main"@
    &&& option.more_compile@.len() == 2
    &&& option.more_compile@[0] matches SandboxDirective::Env { key, value } && key@ == "GOCACHE"@
        && value@ == "/go-cache"@
    &&& option.more_compile@[1] matches SandboxDirective::MountRw { path } && path@ == "/go-cache"@
    &&& option.more_run@ == Seq::<SandboxDirective>::empty()
}

/// The Python recipe: write `main.py`, interpret it directly.
pub open spec fn is_python_recipe(r: LangRunner) -> bool {
    &&& r matches LangRunner::WithoutCompile { file_name, run_cmd, option }
    &&& file_name@ == "main.py"@
    &&& run_cmd@ == "python main.py"@
    &&& option.more_compile@ == Seq::<SandboxDirective>::empty()
    &&& option.more_run@ == Seq::<SandboxDirective>::empty()
}

/// The Rust recipe's data.
pub fn rust() -> (r: LangRunner)
    ensures
        is_rust_recipe(r),
{
    LangRunner::WithCompile {
        file_name: "main.rs".to_owned(),
        compile_cmd: "rustc -O main.rs -o main".to_owned(),
        run_cmd: "./main".to_owned(),
        option: LangRunnerOption { more_compile: Vec::new(), more_run: Vec::new() },
    }
}

/// The Go recipe's data; the cache warmup that accompanies it at
/// startup is planned by the orchestrator.
pub fn go() -> (r: LangRunner)
    ensures
        is_go_recipe(r),
{
    let mut more_compile: Vec<SandboxDirective> = Vec::new();
    more_compile.push(SandboxDirective::Env {
        key: "GOCACHE".to_owned(),
        value: GO_CACHE.to_owned(),
    });
    more_compile.push(SandboxDirective::MountRw { path: GO_CACHE.to_owned() });
    LangRunner::WithCompile {
        file_name: "main.go".to_owned(),
        compile_cmd: "go build -o main main.go".to_owned(),
        run_cmd: "./main".to_owned(),
        option: LangRunnerOption { more_compile, more_run: Vec::new() },
    }
}

/// The Python recipe's data.
pub fn python() -> (r: LangRunner)
    ensures
        is_python_recipe(r),
{
    LangRunner::WithoutCompile {
        file_name: "main.py".to_owned(),
        run_cmd: "python main.py".to_owned(),
        option: LangRunnerOption { more_compile: Vec::new(), more_run: Vec::new() },
    }
}

/// The recipe for each language.
pub open spec fn is_recipe_for(lang: Language, r: LangRunner) -> bool {
    match lang {
        Language::Rust1_82 => is_rust_recipe(r),
        Language::Go1_23 => is_go_recipe(r),
        Language::Python3_13 => is_python_recipe(r),
    }
}

/// The recipe of one language, exhaustively.
pub fn lang_into_runner(lang: &Language) -> (r: LangRunner)
    ensures
        is_recipe_for(*lang, r),
{
    match lang {
        Language::Rust1_82 => rust(),
        Language::Go1_23 => go(),
        Language::Python3_13 => python(),
    }
}

/// The total registry: every language has exactly one recipe, fixed at
/// startup and read-only afterwards.
#[derive(Debug, Clone)]
pub struct Runners {
    pub rust: LangRunner,
    pub go: LangRunner,
    pub python: LangRunner,
}

impl Runners {
    /// Every entry holds its language's recipe.
    pub open spec fn wf(&self) -> bool {
        &&& is_rust_recipe(self.rust)
        &&& is_go_recipe(self.go)
        &&& is_python_recipe(self.python)
    }

    /// The entry consulted for each language.
    pub open spec fn spec_get(&self, lang: Language) -> LangRunner {
        match lang {
            Language::Rust1_82 => self.rust,
            Language::Go1_23 => self.go,
            Language::Python3_13 => self.python,
        }
    }

    /// Builds the registry, populating every language.
    pub fn new() -> (r: Runners)
        ensures
            r.wf(),
    {
        Runners {
            rust: lang_into_runner(&Language::Rust1_82),
            go: lang_into_runner(&Language::Go1_23),
            python: lang_into_runner(&Language::Python3_13),
        }
    }

    /// Looks a language up; total, with no fallback entry.
    pub fn get(&self, lang: &Language) -> (r: &LangRunner)
        ensures
            *r == self.spec_get(*lang),
            self.wf() ==> is_recipe_for(*lang, *r),
    {
        match lang {
            Language::Rust1_82 => &self.rust,
            Language::Go1_23 => &self.go,
            Language::Python3_13 => &self.python,
        }
    }
}

} // verus!
