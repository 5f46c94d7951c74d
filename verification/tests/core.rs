use liaozhai::constants::{
    AUTH_FAILED_MSG, AUTH_MAX_RETRIES_MSG, AUTH_RATE_LIMITED_MSG, BANNER, IAC_WILL_ECHO,
    IAC_WONT_ECHO, MAX_BUFFER_SIZE, MAX_LINE_LENGTH, PASSWORD_PROMPT, USERNAME_PROMPT, VERSION,
    WELCOME_TEMPLATE, WORLD_SELECTED_TEMPLATE, WORLD_SELECTION_OUT_OF_RANGE_MSG,
    WORLD_SELECT_PROMPT_TEMPLATE,
};
use liaozhai::error::Error;

#[test]
fn version_is_non_empty() {
    assert!(!VERSION.is_empty());
}

#[test]
fn banner_contains_version() {
    assert!(BANNER.contains(VERSION));
}

#[test]
fn max_line_length_is_4096() {
    assert_eq!(MAX_LINE_LENGTH, 4096);
}

#[test]
fn max_buffer_size_is_10mb() {
    assert_eq!(MAX_BUFFER_SIZE, 10 * 1024 * 1024);
}

#[test]
fn username_prompt_is_non_empty() {
    assert!(!USERNAME_PROMPT.is_empty());
}

#[test]
fn password_prompt_is_non_empty() {
    assert!(!PASSWORD_PROMPT.is_empty());
}

#[test]
fn templates_contain_placeholders() {
    assert!(WELCOME_TEMPLATE.contains("{username}"));
    assert!(WORLD_SELECTED_TEMPLATE.contains("{world}"));
    assert!(WORLD_SELECT_PROMPT_TEMPLATE.contains("{n}"));
    assert!(WORLD_SELECTION_OUT_OF_RANGE_MSG.contains("{n}"));
}

#[test]
fn iac_echo_sequences_are_3_bytes() {
    assert_eq!(IAC_WILL_ECHO.len(), 3);
    assert_eq!(IAC_WONT_ECHO.len(), 3);
}

#[test]
fn auth_messages_non_empty() {
    assert!(!AUTH_FAILED_MSG.is_empty());
    assert!(!AUTH_MAX_RETRIES_MSG.is_empty());
    assert!(!AUTH_RATE_LIMITED_MSG.is_empty());
}

#[test]
fn banner_contains_project_name() {
    assert!(BANNER.contains("Liaozhai MUX"));
    assert!(BANNER.contains("Multi-User eXegesis"));
}

#[test]
fn error_display_formatting() {
    let e = Error::Config("missing field".into());
    assert_eq!(e.message(), "configuration error: missing field");
}

#[test]
fn codec_error_display() {
    let e = Error::Codec("line too long".into());
    assert_eq!(e.message(), "codec error: line too long");
}

#[test]
fn io_error_converts_via_from() {
    let io_err = std::io::Error::new(std::io::ErrorKind::NotFound, "gone");
    let e: Error = io_err.into();
    assert!(matches!(e, Error::Io(_)));
    assert!(e.message().contains("gone"));
}

#[test]
fn io_error_message_has_prefix() {
    let e: Error = std::io::Error::new(std::io::ErrorKind::Other, "disk on fire").into();
    assert_eq!(e.message(), "I/O error: disk on fire");
}

#[test]
fn every_error_kind_has_its_prefix() {
    assert_eq!(Error::Auth("x".into()).message(), "authentication error: x");
    assert_eq!(Error::Net("y".into()).message(), "network error: y");
    assert_eq!(Error::World("z".into()).message(), "world error: z");
    assert_eq!(Error::Config(String::new()).message(), "configuration error: ");
}

#[test]
fn unix_secs_maps_clock_readings() {
    assert_eq!(liaozhai::clock::unix_secs(None), 0);
    assert_eq!(liaozhai::clock::unix_secs(Some(5)), 5);
    assert_eq!(liaozhai::clock::unix_secs(Some(u64::MAX)), i64::MAX);
    assert_eq!(liaozhai::clock::unix_secs(Some(i64::MAX as u64)), i64::MAX);
    assert!(liaozhai::clock::unix_now() > 1_600_000_000);
}
