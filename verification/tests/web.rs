use runner::lang::Language;
use runner::memory::Memory;
use runner::state::RunnerState;
use runner::time::MsTime;
use runner::web::{GrpcRunnerRequest, GrpcRunnerResponse, RunnerRequest, RunnerResponse};

#[test]
fn test_grpc_request_conversion() {
    let request = RunnerRequest {
        lang: Language::Rust1_82,
        code: "fn main() { println!(\"Hello, world!\"); }".to_string(),
        ms_time_limit: MsTime::new_ms(1000),
        memory_limit: Memory::new_bytes(1024 * 1024),
        stdin: "input".to_string(),
    };

    let grpc_request = request.clone().into_grpc();
    let converted_request = grpc_request.try_into_web().unwrap();

    assert_eq!(request, converted_request);
}

#[test]
fn test_grpc_response_conversion() {
    let response = RunnerResponse {
        state: RunnerState::Success {
            stdout: "Hello, world!".to_string(),
            max_memory_usage: Memory::new_bytes(1024 * 1024),
            ms_time_elapsed: MsTime::new_ms(500),
        },
    };

    let grpc_response = response.clone().try_into_grpc().unwrap();
    let converted_response = grpc_response.try_from_web().unwrap();

    assert_eq!(response, converted_response);
}

#[test]
fn test_grpc_request_error_handling() {
    let grpc_request = GrpcRunnerRequest {
        lang: 999, // Invalid language
        code: "fn main() { println!(\"Hello, world!\"); }".to_string(),
        ms_time_limit: 1000,
        memory_limit: 1024 * 1024,
        stdin: "input".to_string(),
    };

    let result = grpc_request.try_into_web();
    assert!(result.is_err());
    assert_eq!(result.unwrap_err().field, "lang");
}

#[test]
fn test_grpc_response_error_handling() {
    let grpc_response = GrpcRunnerResponse {
        state: "invalid_json".to_string(), // Invalid JSON
    };

    let result = grpc_response.try_from_web();
    assert!(result.is_err());
    assert_eq!(result.unwrap_err().field, "state");
}
