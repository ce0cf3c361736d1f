use runner::env::{RunnerEnv, RunnerOption};
use runner::lang::Language;
use runner::memory::Memory;
use runner::orchestrate::{classify, compile_outcome, plan_execution, Session, SessionPhase};
use runner::runner::Runners;
use runner::state::RunnerState;
use runner::time::MsTime;
use runner::web::RunnerRequest;

fn session_for_rust() -> Session {
    let env = RunnerEnv {
        runner_path: "/runner".to_string(),
        running_path: "/running".to_string(),
        nix_store_path: "/nix/store".to_string(),
        nix_bin: "/global/bin".to_string(),
        permission_id: 99999,
    };
    let option = RunnerOption {
        compile_time_limit_seconds: MsTime::new_seconds(20),
        compile_memory_limit_megabytes: Memory::new_megabytes(512),
    };
    let request = RunnerRequest {
        lang: Language::Rust1_82,
        code: "fn main() {".to_string(),
        ms_time_limit: MsTime::new_ms(2000),
        memory_limit: Memory::new_megabytes(16),
        stdin: String::new(),
    };
    let runners = Runners::new();
    let plan = plan_execution(&runners, &request, &option, &env);
    Session::start(plan, request.ms_time_limit, request.memory_limit)
}

#[test]
fn a_failed_compile_finishes_the_session_before_any_run() {
    let mut session = session_for_rust();
    assert!(matches!(session.phase, SessionPhase::Compiling));
    session.compile_finished(false, "error: this file contains an unclosed delimiter".to_string());
    match &session.phase {
        SessionPhase::Finished(RunnerState::CompileError { stderr }) => {
            assert!(stderr.contains("unclosed delimiter"));
        },
        other => panic!("expected a finished CompileError session, got {:?}", other),
    }
}

#[test]
fn a_clean_compile_advances_the_session_to_the_run_phase() {
    let mut session = session_for_rust();
    session.compile_finished(true, String::new());
    assert!(matches!(session.phase, SessionPhase::Running));
    session.run_finished(
        true,
        Some(0),
        "ok\n".to_string(),
        String::new(),
        Memory::new_kilobytes(800),
        MsTime::new_ms(12),
    );
    match &session.phase {
        SessionPhase::Finished(RunnerState::Success { stdout, .. }) => {
            assert_eq!(stdout, "ok\n");
        },
        other => panic!("expected a finished Success session, got {:?}", other),
    }
}

#[test]
fn within_limits_and_zero_exit_is_success() {
    let state = classify(
        true,
        Some(0),
        "hello\n".to_string(),
        "".to_string(),
        Memory::new_kilobytes(900),
        MsTime::new_ms(150),
        MsTime::new_ms(2000),
        Memory::new_megabytes(64),
    );
    match state {
        RunnerState::Success { stdout, max_memory_usage, ms_time_elapsed } => {
            assert_eq!(stdout, "hello\n");
            assert!(max_memory_usage.as_bytes() <= Memory::new_megabytes(64).as_bytes());
            assert_eq!(ms_time_elapsed.as_ms(), 150);
        },
        other => panic!("expected Success, got {:?}", other),
    }
}

#[test]
fn sleeping_past_the_time_limit_is_a_timeout() {
    // a program that sleeps for time_limit + 1 second under a 2000 ms limit
    let elapsed = MsTime::new_ms(2000).add_seconds(1);
    let state = classify(
        false,
        None,
        "".to_string(),
        "".to_string(),
        Memory::new_kilobytes(500),
        elapsed,
        MsTime::new_ms(2000),
        Memory::new_megabytes(64),
    );
    match state {
        RunnerState::Timeout { ms_time_elapsed } => {
            assert!(ms_time_elapsed.as_ms() >= 2000);
            assert_eq!(ms_time_elapsed.as_ms(), 3000);
        },
        other => panic!("expected Timeout, got {:?}", other),
    }
}

#[test]
fn retaining_more_than_the_memory_limit_is_a_memory_limit() {
    let limit = Memory::new_megabytes(16);
    let peak = Memory::new_megabytes(17);
    let state = classify(
        false,
        None,
        "".to_string(),
        "".to_string(),
        peak,
        MsTime::new_ms(100),
        MsTime::new_ms(2000),
        limit,
    );
    match state {
        RunnerState::MemoryLimit { max_memory_usage } => {
            assert!(max_memory_usage.as_bytes() > limit.as_bytes());
        },
        other => panic!("expected MemoryLimit, got {:?}", other),
    }
}

#[test]
fn nonzero_exit_within_limits_is_a_runtime_error() {
    let state = classify(
        false,
        Some(7),
        "".to_string(),
        "boom\n".to_string(),
        Memory::new_kilobytes(500),
        MsTime::new_ms(100),
        MsTime::new_ms(2000),
        Memory::new_megabytes(64),
    );
    match state {
        RunnerState::RuntimeError { stderr, exit_code, .. } => {
            assert_eq!(exit_code, 7);
            assert_eq!(stderr, "boom\n");
        },
        other => panic!("expected RuntimeError, got {:?}", other),
    }
}

#[test]
fn a_kill_without_an_exit_code_reports_the_signal_sentinel() {
    let state = classify(
        false,
        None,
        "".to_string(),
        "".to_string(),
        Memory::new_kilobytes(500),
        MsTime::new_ms(100),
        MsTime::new_ms(2000),
        Memory::new_megabytes(64),
    );
    match state {
        RunnerState::RuntimeError { exit_code, .. } => assert_eq!(exit_code, 137),
        other => panic!("expected RuntimeError, got {:?}", other),
    }
}

#[test]
fn timeout_takes_priority_over_memory() {
    let state = classify(
        false,
        None,
        "".to_string(),
        "".to_string(),
        Memory::new_megabytes(100),
        MsTime::new_ms(5000),
        MsTime::new_ms(2000),
        Memory::new_megabytes(16),
    );
    assert!(matches!(state, RunnerState::Timeout { .. }));
}

#[test]
fn a_failing_compile_ends_the_request_with_its_diagnostics() {
    let diagnostic = "error: expected `;`, found `}`\n".to_string();
    let outcome = compile_outcome(false, diagnostic.clone());
    match outcome {
        Some(RunnerState::CompileError { stderr }) => {
            assert!(!stderr.is_empty());
            assert!(stderr.contains("expected `;`"));
            assert_eq!(stderr, diagnostic);
        },
        other => panic!("expected CompileError, got {:?}", other),
    }
}

#[test]
fn a_clean_compile_continues_to_the_run_phase() {
    assert!(compile_outcome(true, "".to_string()).is_none());
}
