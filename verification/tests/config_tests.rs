//! Tests for configuration text.

use http_router::config::read_config;
use http_router::config::ConfigDropshot;
use http_router::config::HandlerTaskMode;

#[test]
fn test_valid_config_empty() {
    let parsed = read_config("valid_config_empty", "").unwrap();
    assert_eq!(parsed, ConfigDropshot::default());
}

#[test]
fn test_valid_config_basic() {
    // Ensure that a basic config which leaves optional fields unset is
    // correctly parsed.
    let parsed = read_config(
        "valid_config_basic",
        r#"
        bind_address = "127.0.0.1:12345"
        "#,
    )
    .unwrap();

    assert_eq!(
        parsed,
        ConfigDropshot {
            bind_address: "127.0.0.1:12345".parse().unwrap(),
            ..ConfigDropshot::default()
        }
    );
}

#[test]
fn test_valid_config_all_settings() {
    let parsed = read_config(
        "valid_config_basic",
        r#"
        bind_address = "127.0.0.1:12345"
        default_request_body_max_bytes = 1048576
        default_handler_task_mode = "cancel-on-disconnect"
        log_headers = ["X-Forwarded-For"]
        "#,
    )
    .unwrap();

    assert_eq!(
        parsed,
        ConfigDropshot {
            bind_address: "127.0.0.1:12345".parse().unwrap(),
            default_request_body_max_bytes: 1048576,
            default_handler_task_mode: HandlerTaskMode::CancelOnDisconnect,
        },
    );
}

// Bad values for "bind_address"

#[test]
fn test_config_bad_bind_address_port_too_small() {
    let error = read_config(
        "bad_bind_address_port_too_small",
        "bind_address = \"127.0.0.1:-3\"",
    )
    .unwrap_err()
    .message()
    .to_string();
    println!("found error: {}", error);
    assert!(error.contains("invalid socket address syntax"));
}

#[test]
fn test_config_bad_bind_address_port_too_large() {
    let error = read_config(
        "bad_bind_address_port_too_large",
        "bind_address = \"127.0.0.1:65536\"",
    )
    .unwrap_err()
    .message()
    .to_string();
    println!("found error: {}", error);
    assert!(error.contains("invalid socket address syntax"));
}

#[test]
fn test_config_bad_bind_address_garbage() {
    let error = read_config("bad_bind_address_garbage", "bind_address = \"garbage\"")
        .unwrap_err()
        .message()
        .to_string();
    println!("found error: {}", error);
    assert!(error.contains("invalid socket address syntax"));
}

// Bad values for "request_body_max_bytes"

#[test]
fn test_config_bad_request_body_max_bytes_negative() {
    let error = read_config(
        "bad_request_body_max_bytes_negative",
        "default_request_body_max_bytes = -1024",
    )
    .unwrap_err()
    .message()
    .to_string();
    println!("found error: {}", error);
    assert!(error.contains("invalid value: integer"));
}

#[test]
fn test_config_bad_request_body_max_bytes_too_large() {
    let error = read_config(
        "bad_request_body_max_bytes_too_large",
        "default_request_body_max_bytes = 999999999999999999999999999999",
    )
    .unwrap_err()
    .message()
    .to_string();
    println!("found error: {}", error);
    assert!(error.starts_with(""));
}

#[test]
fn test_config_deprecated_request_body_max_bytes() {
    let error = read_config(
        "deprecated_request_body_max_bytes",
        "request_body_max_bytes = 1024",
    )
    .unwrap_err();
    assert_eq!(
        error.message(),
        "invalid type: integer `1024`, \
         expected the field to be absent \
         (request_body_max_bytes has been renamed to \
         default_request_body_max_bytes)",
    );
}

#[test]
fn test_config_unknown_keys_ignored() {
    let parsed = read_config(
        "unknown_keys",
        r#"
        something_else = 7
        bind_address = "10.1.2.3:80"
        "#,
    )
    .unwrap();
    assert_eq!(parsed.bind_address, "10.1.2.3:80".parse().unwrap());
    assert_eq!(parsed.default_request_body_max_bytes, 1024);
}

#[test]
fn test_config_detached_mode() {
    let parsed = read_config(
        "detached_mode",
        "default_handler_task_mode = \"detached\"",
    )
    .unwrap();
    assert_eq!(parsed.default_handler_task_mode, HandlerTaskMode::Detached);
}

#[test]
fn test_config_unknown_task_mode() {
    let error = read_config(
        "unknown_task_mode",
        "default_handler_task_mode = \"sometimes\"",
    )
    .unwrap_err();
    assert_eq!(
        error.message(),
        "unknown variant `sometimes`, expected `cancel-on-disconnect` or `detached`"
    );
}

#[test]
fn test_config_wrong_type_for_bind_address() {
    let error = read_config("bad_bind_address_type", "bind_address = 80").unwrap_err();
    assert_eq!(error.message(), "invalid type: integer `80`, expected socket address");
}
