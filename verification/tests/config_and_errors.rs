use katago_server::ApiError;
use katago_server::Config;
use katago_server::KatagoConfig;
use katago_server::KatagoError;
use katago_server::RequestConfig;
use katago_server::ServerConfig;
use katago_server::build_version_response;
use katago_server::cache_clear_response;
use katago_server::health_response;
use katago_server::model_file_name;

#[test]
fn test_default_config() {
    let config = Config::default();
    assert_eq!(config.server.host, "0.0.0.0");
    assert_eq!(config.server.port, 2718);
    assert_eq!(config.katago.katago_path, "./katago");
    assert_eq!(config.katago.model_path, "./model.bin.gz");
    assert_eq!(config.katago.config_path, "./gtp_config.cfg");
    assert_eq!(config.katago.move_timeout_secs, 20);
}

#[test]
fn test_server_config_default() {
    let config = ServerConfig::default();
    assert_eq!(config.host, "0.0.0.0");
    assert_eq!(config.port, 2718);
}

#[test]
fn test_katago_config_default() {
    let config = KatagoConfig::default();
    assert_eq!(config.katago_path, "./katago");
    assert_eq!(config.model_path, "./model.bin.gz");
    assert_eq!(config.config_path, "./gtp_config.cfg");
    assert_eq!(config.move_timeout_secs, 20);
}

#[test]
fn test_request_config_default() {
    let config = RequestConfig::default();
    assert!(config.komi.is_none());
    assert!(config.client.is_none());
    assert!(config.request_id.is_none());
    assert!(config.ownership.is_none());
}

#[test]
fn test_process_start_failed_error() {
    let error = KatagoError::ProcessStartFailed("test error".to_string());
    assert_eq!(
        error.message(),
        "Failed to start KataGo process: test error"
    );
}

#[test]
fn test_process_died_error() {
    let error = KatagoError::ProcessDied;
    assert_eq!(error.message(), "KataGo process died unexpectedly");
}

#[test]
fn test_timeout_error() {
    let error = KatagoError::Timeout(30);
    assert_eq!(error.message(), "Command timeout after 30 seconds");
}

#[test]
fn test_parse_error() {
    let error = KatagoError::ParseError("invalid json".to_string());
    assert_eq!(
        error.message(),
        "Failed to parse KataGo response: invalid json"
    );
}

#[test]
fn test_invalid_command_error() {
    let error = KatagoError::InvalidCommand("bad command".to_string());
    assert_eq!(error.message(), "Invalid GTP command: bad command");
}

#[test]
fn test_response_error() {
    let error = KatagoError::ResponseError("error message".to_string());
    assert_eq!(error.message(), "KataGo returned error: error message");
}

#[test]
fn test_duplicate_id_error_message() {
    let error = KatagoError::DuplicateId("req-9".to_string());
    assert_eq!(error.message(), "Duplicate request id: req-9");
}

#[test]
fn test_io_error_message() {
    let error = KatagoError::IoError("broken pipe".to_string());
    assert_eq!(error.message(), "IO error: broken pipe");
}

#[test]
fn test_api_error_from_timeout() {
    let e = ApiError::from_error(&KatagoError::Timeout(20));
    assert_eq!(e.problem.status, 504);
    assert_eq!(e.problem.title, "Analysis Timeout");
    assert_eq!(
        e.problem.detail,
        "KataGo analysis timed out after 20 seconds"
    );
    assert_eq!(
        e.problem.problem_type,
        "https://katago-server/problems/analysis-timeout"
    );
    assert!(e.problem.request_id.is_none());
    let e = e.with_request_id("req-123".to_string());
    assert_eq!(e.problem.request_id.as_deref(), Some("req-123"));
}

#[test]
fn test_api_error_from_process_died() {
    let e = ApiError::from_error(&KatagoError::ProcessDied);
    assert_eq!(e.problem.status, 503);
    assert_eq!(e.problem.title, "Service Unavailable");
    assert_eq!(e.problem.detail, "KataGo process has died unexpectedly");
}

#[test]
fn test_api_error_from_parse_and_response() {
    let e = ApiError::from_error(&KatagoError::ParseError("bad".to_string()));
    assert_eq!(e.problem.status, 500);
    assert_eq!(e.problem.detail, "Failed to parse KataGo response: bad");
    let e = ApiError::from_error(&KatagoError::ResponseError("oops".to_string()));
    assert_eq!(e.problem.status, 500);
    assert_eq!(e.problem.title, "KataGo Error");
    assert_eq!(e.problem.detail, "KataGo returned error: oops");
}

#[test]
fn test_api_error_new_and_instance() {
    let e = ApiError::new(400, "Invalid Request", "missing moves");
    assert_eq!(
        e.problem.problem_type,
        "https://katago-server/problems/invalid-request"
    );
    assert_eq!(e.problem.status, 400);
    assert_eq!(e.problem.detail, "missing moves");
    let e = e.with_instance("/api/v1/analysis".to_string());
    assert_eq!(e.problem.instance.as_deref(), Some("/api/v1/analysis"));
}

#[test]
fn test_model_file_name() {
    assert_eq!(model_file_name("/models/best.bin.gz"), "best.bin.gz");
    assert_eq!(model_file_name("model.bin.gz"), "model.bin.gz");
    assert_eq!(model_file_name("/models/"), "unknown");
    assert_eq!(model_file_name(""), "unknown");
}

#[test]
fn test_version_response_shape() {
    let v = build_version_response("1.0.0".to_string(), None, "/m/kata1.bin.gz");
    assert_eq!(v.server.name, "katago-server");
    assert_eq!(v.server.version, "1.0.0");
    assert!(v.katago.is_none());
    assert_eq!(v.model.name, "kata1.bin.gz");
}

#[test]
fn test_health_and_cache_responses() {
    let h = health_response(true, "now".to_string());
    assert_eq!(h.status, "healthy");
    assert_eq!(h.timestamp.as_deref(), Some("now"));
    assert!(h.uptime.is_none());
    let h = health_response(false, "now".to_string());
    assert_eq!(h.status, "unhealthy");
    let c = cache_clear_response("ts".to_string());
    assert_eq!(c.status, "cleared");
    assert_eq!(c.timestamp, "ts");
}
