use liaozhai::cli::{
    FIRST_POSSIBLE_TIMESTAMP, LAST_POSSIBLE_TIMESTAMP, LAST_SUPPORTED_TIMESTAMP,
    account_created_message, account_list_header, account_list_row, check_new_password,
    check_new_username, format_timestamp, last_login_text, strip_line_ending,
};

#[test]
fn username_is_trimmed_and_required() {
    assert_eq!(check_new_username("  alice \n").unwrap(), "alice");
    assert_eq!(check_new_username("   ").unwrap_err(), "Username cannot be empty.");
    assert_eq!(check_new_username("").unwrap_err(), "Username cannot be empty.");
}

#[test]
fn password_confirmation_rules() {
    assert!(check_new_password("secret", "secret").is_ok());
    assert_eq!(check_new_password("secret", "different").unwrap_err(), "Passwords do not match.");
    assert_eq!(check_new_password("", "").unwrap_err(), "Password cannot be empty.");
    assert_eq!(check_new_password("", "x").unwrap_err(), "Passwords do not match.");
}

#[test]
fn stdin_line_endings_are_dropped() {
    assert_eq!(strip_line_ending("secret\n"), "secret");
    assert_eq!(strip_line_ending("secret\r\n"), "secret");
    assert_eq!(strip_line_ending("secret\n\n"), "secret");
    assert_eq!(strip_line_ending("secret\r\r\n\n"), "secret");
    assert_eq!(strip_line_ending("sec\nret"), "sec\nret");
    assert_eq!(strip_line_ending("secret\n\r"), "secret\n");
    assert_eq!(strip_line_ending(""), "");
}

#[test]
fn listing_columns_match_the_table_layout() {
    let expected = format!("{:<38} {:<16} {:<21} LAST LOGIN", "ID", "USERNAME", "CREATED");
    assert_eq!(account_list_header(), expected);
    let row = account_list_row(
        "67e55044-10b1-426f-9247-bb680e5fe0c8",
        "alice",
        "2024-01-02 03:04:05",
        "(never)",
    );
    let expected = format!(
        "{:<38} {:<16} {:<21} {}",
        "67e55044-10b1-426f-9247-bb680e5fe0c8", "alice", "2024-01-02 03:04:05", "(never)"
    );
    assert_eq!(row, expected);
}

#[test]
fn overlong_columns_are_not_cut() {
    let long_name = "a_very_long_user_name_indeed";
    let row = account_list_row("x", long_name, "c", "d");
    assert_eq!(row, format!("{:<38} {:<16} {:<21} {}", "x", long_name, "c", "d"));
}

#[test]
fn timestamps_render_in_utc() {
    assert_eq!(format_timestamp(0), "1970-01-01 00:00:00");
    assert_eq!(format_timestamp(1_704_164_645), "2024-01-02 03:04:05");
    assert_eq!(last_login_text(None), "(never)");
    assert_eq!(last_login_text(Some(0)), "1970-01-01 00:00:00");
}

#[test]
fn unrepresentable_timestamps_fall_back_to_seconds() {
    assert_eq!(format_timestamp(i64::MAX), i64::MAX.to_string());
    assert_eq!(format_timestamp(i64::MIN), i64::MIN.to_string());
}

#[test]
fn created_message() {
    assert_eq!(account_created_message("alice"), "Account 'alice' created.");
}

#[test]
fn supported_range_edges() {
    assert_eq!(format_timestamp(LAST_SUPPORTED_TIMESTAMP), "9999-12-31 23:59:59");
    assert_eq!(format_timestamp(LAST_POSSIBLE_TIMESTAMP + 1), (LAST_POSSIBLE_TIMESTAMP + 1).to_string());
    assert_eq!(format_timestamp(FIRST_POSSIBLE_TIMESTAMP - 1), (FIRST_POSSIBLE_TIMESTAMP - 1).to_string());
    assert_eq!(last_login_text(Some(1_704_164_645)), "2024-01-02 03:04:05");
}
