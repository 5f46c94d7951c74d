use std::sync::Arc;

use liaozhai::account::Account;
use liaozhai::metadata::WorldMetadata;
use liaozhai::registry::WorldRegistry;
use liaozhai::session::{
    format_world_list, format_world_select_prompt, is_session_terminator, Session, SessionState,
    Transition,
};

fn test_registry() -> Arc<WorldRegistry> {
    Arc::new(WorldRegistry::new(vec![
        WorldMetadata::new(
            "studio-dusk",
            "The Studio at Dusk",
            "A small interior, warmly lit.",
        ),
        WorldMetadata::new(
            "mountain-trail",
            "The Mountain Trail",
            "A path winding into mist.",
        ),
        WorldMetadata::new(
            "library-echoes",
            "The Library of Echoes",
            "A reading room of recursive proportions.",
        ),
    ]))
}

// --- is_session_terminator ---

#[test]
fn session_terminator_quit() {
    assert!(is_session_terminator("quit"));
}

#[test]
fn session_terminator_exit() {
    assert!(is_session_terminator("exit"));
}

#[test]
fn session_terminator_bye() {
    assert!(is_session_terminator("bye"));
}

#[test]
fn session_terminator_disconnect() {
    assert!(is_session_terminator("disconnect"));
}

#[test]
fn session_terminator_case_insensitive() {
    assert!(is_session_terminator("QUIT"));
    assert!(is_session_terminator("Exit"));
    assert!(is_session_terminator("BYE"));
}

#[test]
fn session_terminator_whitespace() {
    assert!(is_session_terminator("  quit  "));
}

#[test]
fn session_terminator_rejects_other() {
    assert!(!is_session_terminator("hello"));
    assert!(!is_session_terminator(""));
    assert!(!is_session_terminator("quitting"));
}

// --- Username state ---

#[test]
fn username_accepts_non_empty() {
    let session = Session::new(test_registry());
    let t = session.handle_input("alice");
    match t {
        Transition::Advance { next, output } => {
            assert_eq!(
                next,
                SessionState::Authenticating {
                    username: Some("alice".into())
                }
            );
            assert!(output.contains("Password"));
        }
        other => panic!("expected Advance, got {other:?}"),
    }
}

#[test]
fn username_rejects_empty() {
    let session = Session::new(test_registry());
    let t = session.handle_input("");
    match t {
        Transition::Stay { output } => {
            assert!(output.contains("cannot be empty"));
            assert!(output.contains("Username: "));
        }
        other => panic!("expected Stay, got {other:?}"),
    }
}

#[test]
fn username_rejects_whitespace_only() {
    let session = Session::new(test_registry());
    let t = session.handle_input("   ");
    match t {
        Transition::Stay { output } => {
            assert!(output.contains("cannot be empty"));
        }
        other => panic!("expected Stay, got {other:?}"),
    }
}

#[test]
fn username_quit_disconnects() {
    let session = Session::new(test_registry());
    let t = session.handle_input("quit");
    assert!(matches!(t, Transition::Disconnect { .. }));
}

#[test]
fn username_exit_disconnects() {
    let session = Session::new(test_registry());
    let t = session.handle_input("exit");
    assert!(matches!(t, Transition::Disconnect { .. }));
}

// --- Password state ---

#[test]
fn password_returns_auth_pending() {
    let mut session = Session::new(test_registry());
    session.apply(SessionState::Authenticating {
        username: Some("alice".into()),
    });
    let t = session.handle_input("secret");
    match t {
        Transition::AuthPending { username, password } => {
            assert_eq!(username, "alice");
            assert_eq!(password, "secret");
        }
        other => panic!("expected AuthPending, got {other:?}"),
    }
}

#[test]
fn complete_auth_success_advances_to_world_selection() {
    let session = Session::new(test_registry());
    let account = Account::new("alice");
    let t = session.complete_auth(Some(account));
    match t {
        Transition::Advance { next, output } => {
            assert!(matches!(next, SessionState::WorldSelection { .. }));
            assert!(output.contains("Welcome, alice"));
            assert!(output.contains("Available worlds:"));
        }
        other => panic!("expected Advance, got {other:?}"),
    }
}

#[test]
fn complete_auth_failure_returns_to_username() {
    let session = Session::new(test_registry());
    let t = session.complete_auth(None);
    match t {
        Transition::Advance { next, output } => {
            assert_eq!(next, SessionState::Authenticating { username: None });
            assert!(output.contains("Authentication failed"));
            assert!(output.contains("Username: "));
        }
        other => panic!("expected Advance, got {other:?}"),
    }
}

#[test]
fn password_rejects_empty() {
    let mut session = Session::new(test_registry());
    session.apply(SessionState::Authenticating {
        username: Some("alice".into()),
    });
    let t = session.handle_input("");
    match t {
        Transition::Stay { output } => {
            assert!(output.contains("cannot be empty"));
            assert!(output.contains("Password: "));
        }
        other => panic!("expected Stay, got {other:?}"),
    }
}

#[test]
fn password_quit_disconnects() {
    let mut session = Session::new(test_registry());
    session.apply(SessionState::Authenticating {
        username: Some("alice".into()),
    });
    let t = session.handle_input("quit");
    assert!(matches!(t, Transition::Disconnect { .. }));
}

// --- World selection state ---

#[test]
fn world_selection_valid_choice() {
    let mut session = Session::new(test_registry());
    session.apply(SessionState::WorldSelection {
        account: Account::new("alice"),
    });
    let t = session.handle_input("1");
    match t {
        Transition::Disconnect { goodbye } => {
            assert!(goodbye.contains("The Studio at Dusk"));
            assert!(goodbye.contains("Disconnecting"));
        }
        other => panic!("expected Disconnect, got {other:?}"),
    }
}

#[test]
fn world_selection_all_valid_choices() {
    let expected = [
        "The Studio at Dusk",
        "The Mountain Trail",
        "The Library of Echoes",
    ];
    for (i, name) in expected.iter().enumerate() {
        let mut session = Session::new(test_registry());
        session.apply(SessionState::WorldSelection {
            account: Account::new("alice"),
        });
        let t = session.handle_input(&(i + 1).to_string());
        match t {
            Transition::Disconnect { goodbye } => {
                assert!(goodbye.contains(name));
            }
            other => panic!("expected Disconnect for world {}, got {other:?}", i + 1),
        }
    }
}

#[test]
fn world_selection_zero_rejected() {
    let mut session = Session::new(test_registry());
    session.apply(SessionState::WorldSelection {
        account: Account::new("alice"),
    });
    let t = session.handle_input("0");
    match t {
        Transition::Stay { output } => {
            assert!(output.contains("between 1 and 3"));
        }
        other => panic!("expected Stay, got {other:?}"),
    }
}

#[test]
fn world_selection_out_of_range_rejected() {
    let mut session = Session::new(test_registry());
    session.apply(SessionState::WorldSelection {
        account: Account::new("alice"),
    });
    let t = session.handle_input("4");
    match t {
        Transition::Stay { output } => {
            assert!(output.contains("between 1 and 3"));
        }
        other => panic!("expected Stay, got {other:?}"),
    }
}

#[test]
fn world_selection_non_numeric_rejected() {
    let mut session = Session::new(test_registry());
    session.apply(SessionState::WorldSelection {
        account: Account::new("alice"),
    });
    let t = session.handle_input("abc");
    match t {
        Transition::Stay { output } => {
            assert!(output.contains("Please enter a number"));
        }
        other => panic!("expected Stay, got {other:?}"),
    }
}

#[test]
fn world_selection_empty_rejected() {
    let mut session = Session::new(test_registry());
    session.apply(SessionState::WorldSelection {
        account: Account::new("alice"),
    });
    let t = session.handle_input("");
    match t {
        Transition::Stay { output } => {
            assert!(output.contains("Please enter a number"));
            assert!(output.contains("Select a world"));
        }
        other => panic!("expected Stay, got {other:?}"),
    }
}

#[test]
fn world_selection_quit_disconnects() {
    let mut session = Session::new(test_registry());
    session.apply(SessionState::WorldSelection {
        account: Account::new("alice"),
    });
    let t = session.handle_input("quit");
    match t {
        Transition::Disconnect { goodbye } => {
            assert!(goodbye.contains("strange tale"));
        }
        other => panic!("expected Disconnect, got {other:?}"),
    }
}

// --- format helpers ---

#[test]
fn format_world_list_matches_demo() {
    let reg = test_registry();
    let output = format_world_list(reg.worlds());
    assert!(output.starts_with("Available worlds:\r\n"));
    assert!(output.contains("  1. The Studio at Dusk"));
    assert!(output.contains("  2. The Mountain Trail"));
    assert!(output.contains("  3. The Library of Echoes"));
}

#[test]
fn format_world_list_empty_registry() {
    let output = format_world_list(&[]);
    assert_eq!(output, "Available worlds:\r\n");
}

#[test]
fn world_select_prompt_shows_range() {
    let prompt = format_world_select_prompt(3);
    assert_eq!(prompt, "Select a world (1-3, or 'quit'): ");
}

#[test]
fn is_password_input_when_waiting_for_password() {
    let mut session = Session::new(test_registry());
    assert!(!session.is_password_input());
    session.apply(SessionState::Authenticating {
        username: Some("alice".into()),
    });
    assert!(session.is_password_input());
}

// --- Further cases ---

#[test]
fn world_list_pads_names_to_common_column() {
    let reg = WorldRegistry::new(vec![
        WorldMetadata::new("a", "Alpha", "First"),
        WorldMetadata::new("b", "Be", "Second"),
    ]);
    let output = format_world_list(reg.worlds());
    assert_eq!(
        output,
        "Available worlds:\r\n  1. Alpha First\r\n  2. Be    Second\r\n"
    );
}

#[test]
fn world_list_pads_by_bytes_then_chars() {
    // The column is one more than the longest name in bytes; padding counts
    // characters, so a name with multi-byte characters gets more padding.
    let reg = WorldRegistry::new(vec![WorldMetadata::new("s", "\u{804a}\u{9f4b}", "Studio")]);
    let output = format_world_list(reg.worlds());
    assert_eq!(
        output,
        "Available worlds:\r\n  1. \u{804a}\u{9f4b}     Studio\r\n"
    );
}

#[test]
fn username_is_trimmed() {
    let session = Session::new(test_registry());
    match session.handle_input("  bob \t") {
        Transition::Advance { next, output } => {
            assert_eq!(next, SessionState::Authenticating { username: Some("bob".into()) });
            assert_eq!(output, "Password: ");
        }
        other => panic!("expected Advance, got {other:?}"),
    }
}

#[test]
fn welcome_output_is_exact() {
    let reg = Arc::new(WorldRegistry::new(vec![WorldMetadata::new("a", "Alpha", "First")]));
    let session = Session::new(reg);
    match session.complete_auth(Some(Account::new("alice"))) {
        Transition::Advance { output, .. } => {
            assert_eq!(
                output,
                "Welcome, alice.\r\n\r\nAvailable worlds:\r\n  1. Alpha First\r\n\r\nSelect a world (1-1, or 'quit'): "
            );
        }
        other => panic!("expected Advance, got {other:?}"),
    }
}

#[test]
fn world_selection_accepts_plus_sign_and_spaces() {
    let mut session = Session::new(test_registry());
    session.apply(SessionState::WorldSelection { account: Account::new("alice") });
    match session.handle_input(" +2 ") {
        Transition::Disconnect { goodbye } => {
            assert_eq!(
                goodbye,
                "\r\nIn v0.1, you would now be in The Mountain Trail. Disconnecting.\r\n"
            );
        }
        other => panic!("expected Disconnect, got {other:?}"),
    }
}

#[test]
fn world_selection_overflowing_number_is_non_numeric() {
    let mut session = Session::new(test_registry());
    session.apply(SessionState::WorldSelection { account: Account::new("alice") });
    match session.handle_input("99999999999999999999999") {
        Transition::Stay { output } => {
            assert_eq!(
                output,
                "Please enter a number.\r\nSelect a world (1-3, or 'quit'): "
            );
        }
        other => panic!("expected Stay, got {other:?}"),
    }
}

#[test]
fn out_of_range_message_is_exact() {
    let mut session = Session::new(test_registry());
    session.apply(SessionState::WorldSelection { account: Account::new("alice") });
    match session.handle_input("7") {
        Transition::Stay { output } => {
            assert_eq!(
                output,
                "Please enter a number between 1 and 3.\r\nSelect a world (1-3, or 'quit'): "
            );
        }
        other => panic!("expected Stay, got {other:?}"),
    }
}

#[test]
fn initial_prompt_asks_for_username() {
    assert_eq!(Session::initial_prompt(), "Username: ");
}

#[test]
fn terminator_with_unicode_space() {
    assert!(is_session_terminator("\u{3000}bye\u{a0}"));
    assert!(!is_session_terminator("q uit"));
}
