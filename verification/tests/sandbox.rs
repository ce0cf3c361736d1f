use runner::accounting::GTime;
use runner::numerals::ParseNumberError;
use runner::env::{
    compile_memory_limit_megabytes, compile_time_limit_seconds, RunnerEnv, RunnerOption,
};
use runner::error::Error;
use runner::lang::Language;
use runner::memory::Memory;
use runner::nsjail::NsJailBuilder;
use runner::orchestrate::{
    go_warmup_invocation, new_workspace_id, plan_execution, run_invocation, workspace_dir,
};
use runner::runner::{resolve_run_command, RunCommand, Runners};
use runner::time::MsTime;
use runner::web::RunnerRequest;

fn test_env() -> RunnerEnv {
    RunnerEnv {
        runner_path: "/runner".to_string(),
        running_path: "/running".to_string(),
        nix_store_path: "/nix/store".to_string(),
        nix_bin: "/global/bin".to_string(),
        permission_id: 99999,
    }
}

fn base_args() -> Vec<String> {
    [
        "-Mo",
        "--user",
        "99999",
        "--group",
        "99999",
        "--detect_cgroupv2",
        "--bindmount_ro",
        "/dev/null",
        "--disable_clone_newnet",
        "--disable_clone_newuser",
        "--disable_clone_newipc",
        "--disable_clone_newuts",
        "--disable_clone_newcgroup",
        "--rlimit_as",
        "9192",
        "-R",
        "/nix/store",
        "-R",
        "/global/bin",
    ]
    .iter()
    .map(|s| s.to_string())
    .collect()
}

#[test]
fn measuring_wrapper_command() {
    let cmd = GTime::new_cmd(&test_env());
    let expected: Vec<String> = [
        "/global/bin/time",
        "--quiet",
        "--format",
        "%M\n%E",
        "--output",
        "time.txt",
    ]
    .iter()
    .map(|s| s.to_string())
    .collect();
    assert_eq!(cmd, expected);
}

#[test]
fn builder_baseline_and_marker() {
    let env = test_env();
    let builder = NsJailBuilder::new(&env);
    let (argv, current_dir) = builder.build();
    let mut expected = vec!["/global/bin/nsjail".to_string()];
    expected.extend(base_args());
    // /proc is hidden unless a recipe asks otherwise
    expected.push("--disable_proc".to_string());
    expected.push("--".to_string());
    assert_eq!(argv, expected);
    assert!(current_dir.is_none());
}

#[test]
fn run_invocation_argv_is_exact() {
    let env = test_env();
    let inv = run_invocation(
        Language::Python3_13,
        "python main.py",
        &Vec::new(),
        MsTime::new_ms(2000),
        Memory::new_megabytes(16),
        &env,
        "/running/X",
    );
    let mut expected: Vec<String> = [
        "/global/bin/time",
        "--quiet",
        "--format",
        "%M\n%E",
        "--output",
        "time.txt",
        "/global/bin/nsjail",
    ]
    .iter()
    .map(|s| s.to_string())
    .collect();
    expected.extend(base_args());
    expected.extend(
        [
            "--env",
            "PATH=/runner/python313/bin",
            "-R",
            "/runner/python313:/runner/python313",
            "--time_limit",
            "3",
            "--cgroup_mem_max",
            "17825792",
            "--log",
            "nsjail.log",
            "--chroot",
            "/running/X",
            "--disable_proc",
            "--",
            "/global/bin/sh",
            "-c",
            "python main.py",
        ]
        .iter()
        .map(|s| s.to_string()),
    );
    assert_eq!(inv.argv, expected);
    assert_eq!(inv.current_dir.as_deref(), Some("/running/X"));
}

#[test]
fn accounting_file_parses() {
    let (memory, time) = GTime::parse_output("262144\n1:02.345\n").unwrap();
    assert_eq!(memory.as_kilobytes(), 262144);
    assert_eq!(time.as_ms(), 62345);
}

#[test]
fn accounting_file_with_crlf_parses() {
    let (memory, time) = GTime::parse_output("512\r\n0:00.10\r\n").unwrap();
    assert_eq!(memory.as_kilobytes(), 512);
    assert_eq!(time.as_ms(), 10);
}

#[test]
fn accounting_file_errors_name_the_line() {
    assert_eq!(GTime::parse_output(""), Err(Error::MissingMemoryLine));
    assert_eq!(GTime::parse_output("abc\n0:01.000"), Err(Error::InvalidMemoryLine));
    assert_eq!(GTime::parse_output("123"), Err(Error::MissingTimeLine));
    assert_eq!(GTime::parse_output("123\n"), Err(Error::MissingTimeLine));
    assert_eq!(GTime::parse_output("123\nxx"), Err(Error::InvalidTimeLine));
}

#[test]
fn workspace_ids_are_ulids() {
    let id = new_workspace_id();
    assert_eq!(id.len(), 26);
    assert!(id.chars().all(|c| {
        c.is_ascii_digit()
            || (c.is_ascii_uppercase() && c != 'I' && c != 'L' && c != 'O' && c != 'U')
    }));
    let other = new_workspace_id();
    assert_ne!(id, other);
}

#[test]
fn workspace_dirs_are_under_the_running_path() {
    let env = test_env();
    let dir = workspace_dir(&env, "01ARZ3NDEKTSV4RRFFQ69G5FAV");
    assert_eq!(dir, "/running/01ARZ3NDEKTSV4RRFFQ69G5FAV");
}

#[test]
fn plan_for_an_interpreted_language_skips_compilation() {
    let runners = Runners::new();
    let request = RunnerRequest {
        lang: Language::Python3_13,
        code: "print(1)".to_string(),
        ms_time_limit: MsTime::new_ms(2000),
        memory_limit: Memory::new_megabytes(16),
        stdin: String::new(),
    };
    let plan = plan_execution(&runners, &request, &test_option(), &test_env());
    assert_eq!(plan.source_file.as_deref(), Some("main.py"));
    assert!(plan.compile.is_none());
    assert!(plan.workspace_dir.starts_with("/running/"));
    assert_eq!(plan.workspace_dir, format!("/running/{}", plan.workspace_id));
    let last = plan.run.argv.last().unwrap();
    assert_eq!(last, "python main.py");
}

#[test]
fn plan_for_a_compiled_language_compiles_first() {
    let runners = Runners::new();
    let request = RunnerRequest {
        lang: Language::Rust1_82,
        code: "fn main() {}".to_string(),
        ms_time_limit: MsTime::new_ms(2000),
        memory_limit: Memory::new_megabytes(16),
        stdin: String::new(),
    };
    let plan = plan_execution(&runners, &request, &test_option(), &test_env());
    assert_eq!(plan.source_file.as_deref(), Some("main.rs"));
    let compile = plan.compile.expect("rust must compile");
    assert_eq!(compile.argv.last().unwrap(), "rustc -O main.rs -o main");
    assert!(compile.argv.contains(&"--proc_rw".to_string()));
    assert_eq!(compile.current_dir.as_deref(), Some(plan.workspace_dir.as_str()));
    assert_eq!(plan.run.argv.last().unwrap(), "./main");
    assert!(plan.run.argv.contains(&"--disable_proc".to_string()));
}

#[test]
fn go_warmup_builds_the_throwaway_program() {
    let inv = go_warmup_invocation(&test_env(), "/tmp/warm");
    assert_eq!(inv.argv.last().unwrap(), "go build -o go-cache-main go-cache-main.go");
    assert!(inv.argv.contains(&"-B".to_string()));
    assert!(inv.argv.contains(&"/go-cache:/go-cache".to_string()));
    assert!(inv.argv.contains(&"GOCACHE=/go-cache".to_string()));
    assert_eq!(inv.current_dir.as_deref(), Some("/tmp/warm"));
}

#[test]
fn recipes_are_total_and_fixed() {
    let runners = Runners::new();
    let rust = runners.get(&Language::Rust1_82);
    assert_eq!(rust.file_name().map(|s| s.as_str()), Some("main.rs"));
    assert_eq!(rust.compile_cmd().map(|s| s.as_str()), Some("rustc -O main.rs -o main"));
    let go = runners.get(&Language::Go1_23);
    assert_eq!(go.file_name().map(|s| s.as_str()), Some("main.go"));
    assert_eq!(go.compile_cmd().map(|s| s.as_str()), Some("go build -o main main.go"));
    let python = runners.get(&Language::Python3_13);
    assert_eq!(python.file_name().map(|s| s.as_str()), Some("main.py"));
    assert!(python.compile_cmd().is_none());
}

#[test]
fn run_commands_resolve_against_the_source() {
    let fixed = RunCommand::Static { run_cmd: "./main".to_string() };
    assert_eq!(resolve_run_command(&fixed, "ignored"), "./main");
    let inline = RunCommand::WithCode {
        prefix: "python -c '".to_string(),
        suffix: "'".to_string(),
    };
    assert_eq!(resolve_run_command(&inline, "print(1)"), "python -c 'print(1)'");
}

#[test]
fn configuration_values_parse() {
    assert_eq!(compile_time_limit_seconds("2").unwrap(), MsTime::new_ms(2000));
    assert_eq!(compile_time_limit_seconds("x").unwrap_err(), ParseNumberError::Invalid);
    assert_eq!(compile_time_limit_seconds("").unwrap_err(), ParseNumberError::Empty);
    assert_eq!(
        compile_time_limit_seconds("99999999999999999999").unwrap_err(),
        ParseNumberError::Overflow
    );
    assert_eq!(
        compile_memory_limit_megabytes("512").unwrap(),
        Memory::new_megabytes(512)
    );
    assert!(compile_memory_limit_megabytes("1y").is_err());
}

fn test_option() -> RunnerOption {
    RunnerOption {
        compile_time_limit_seconds: MsTime::new_seconds(20),
        compile_memory_limit_megabytes: Memory::new_megabytes(512),
    }
}
