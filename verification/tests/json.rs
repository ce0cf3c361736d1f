use runner::memory::Memory;
use runner::state::RunnerState;
use runner::time::MsTime;

#[test]
fn success_serializes_with_its_tag_and_fields() {
    let state = RunnerState::Success {
        stdout: "hi\n".to_string(),
        max_memory_usage: Memory::new_megabytes(10),
        ms_time_elapsed: MsTime::new_ms(500),
    };
    assert_eq!(
        state.to_json(),
        "{\"Success\":{\"stdout\":\"hi\\n\",\"max_memory_usage\":\"10M\",\"ms_time_elapsed\":500}}"
    );
}

#[test]
fn runtime_error_serializes_its_exit_code() {
    let state = RunnerState::RuntimeError {
        stderr: "boom".to_string(),
        exit_code: -9,
        max_memory_usage: Memory::new_kilobytes(10),
        ms_time_elapsed: MsTime::new_ms(1),
    };
    assert_eq!(
        state.to_json(),
        "{\"RuntimeError\":{\"stderr\":\"boom\",\"exit_code\":-9,\"max_memory_usage\":\"10K\",\"ms_time_elapsed\":1}}"
    );
}

#[test]
fn unit_variant_serializes_as_its_tag() {
    assert_eq!(RunnerState::InternalError.to_json(), "\"InternalError\"");
}

#[test]
fn strings_escape_quotes_backslashes_and_control_characters() {
    let state = RunnerState::CompileError {
        stderr: "say \"hi\"\\ \t\r\u{1b}".to_string(),
    };
    assert_eq!(
        state.to_json(),
        "{\"CompileError\":{\"stderr\":\"say \\\"hi\\\"\\\\ \\t\\r\\u001b\"}}"
    );
}

#[test]
fn every_variant_round_trips_through_json() {
    let states = vec![
        RunnerState::Success {
            stdout: "out with \"quotes\"\nand\ttabs".to_string(),
            max_memory_usage: Memory::new_bytes(10),
            ms_time_elapsed: MsTime::new_ms(0),
        },
        RunnerState::RuntimeError {
            stderr: "stack trace\n\u{7}".to_string(),
            exit_code: 7,
            max_memory_usage: Memory::new_megabytes(3),
            ms_time_elapsed: MsTime::new_ms(123),
        },
        RunnerState::RuntimeError {
            stderr: String::new(),
            exit_code: -2147483648,
            max_memory_usage: Memory::new_bytes(0),
            ms_time_elapsed: MsTime::new_ms(u64::MAX),
        },
        RunnerState::Timeout { ms_time_elapsed: MsTime::new_ms(3000) },
        RunnerState::MemoryLimit { max_memory_usage: Memory::new_megabytes(17) },
        RunnerState::CompileError { stderr: "error: expected `;`".to_string() },
        RunnerState::InternalError,
    ];
    for state in states {
        let text = state.to_json();
        let back = RunnerState::from_json(&text).unwrap();
        assert_eq!(back, state);
    }
}

#[test]
fn memory_fields_round_trip_at_their_display_unit() {
    // the suffixed string carries whole units only, so an odd byte count
    // comes back truncated to its display unit
    let state = RunnerState::MemoryLimit { max_memory_usage: Memory::new_bytes(1024 * 1024 + 1) };
    let back = RunnerState::from_json(&state.to_json()).unwrap();
    assert_eq!(
        back,
        RunnerState::MemoryLimit { max_memory_usage: Memory::new_bytes(1024 * 1024) }
    );
}

#[test]
fn malformed_text_is_rejected() {
    assert!(RunnerState::from_json("invalid_json").is_none());
    assert!(RunnerState::from_json("").is_none());
    assert!(RunnerState::from_json("{\"Timeout\":{\"ms_time_elapsed\":}}").is_none());
    assert!(RunnerState::from_json("{\"Unknown\":{}}").is_none());
    assert!(RunnerState::from_json("\"InternalError\" ").is_none());
}

#[test]
fn only_the_canonical_form_is_accepted() {
    // canonical
    assert!(RunnerState::from_json("{\"Timeout\":{\"ms_time_elapsed\":3000}}").is_some());
    // a leading zero, spaces, or a non-canonical memory string are not
    assert!(RunnerState::from_json("{\"Timeout\":{\"ms_time_elapsed\":03000}}").is_none());
    assert!(RunnerState::from_json("{\"Timeout\": {\"ms_time_elapsed\":3000}}").is_none());
    assert!(
        RunnerState::from_json("{\"MemoryLimit\":{\"max_memory_usage\":\"1024K\"}}").is_none()
    );
    assert!(RunnerState::from_json("{\"MemoryLimit\":{\"max_memory_usage\":\"1M\"}}").is_some());
}
