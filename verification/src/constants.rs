//! Shared constants: version, banner, network defaults, client messages.

use vstd::prelude::*;

verus! {

/// Project version.
pub const VERSION: &'static str = "0.1.0";

/// Connection banner shown to clients on accept; it embeds [`VERSION`].
pub const BANNER: &'static str = "\r\n  Liaozhai MUX \u{804a}\u{9f4b} \u{2014} v0.1.0\r\n  Multi-User eXegesis\r\n\r\n";

/// Default TCP port.
pub const DEFAULT_PORT: u16 = 4444;

/// Default bind address.
pub const DEFAULT_BIND_ADDRESS: &'static str = "127.0.0.1";

/// Default maximum concurrent connections.
pub const DEFAULT_MAX_CONNECTIONS: usize = 100;

/// Default logging filter.
pub const DEFAULT_LOG_FILTER: &'static str = "info";

/// Default path of the account database.
pub const DEFAULT_DB_PATH: &'static str = "./data/accounts.db";

/// Default path of the world registry file.
pub const DEFAULT_REGISTRY_PATH: &'static str = "./data/worlds.toml";

/// Maximum length of a single input line, in bytes (post-IAC-stripping).
pub const MAX_LINE_LENGTH: usize = 4096;

/// Maximum per-connection buffer size before forced disconnect, in bytes.
pub const MAX_BUFFER_SIZE: usize = 10 * 1024 * 1024;

/// Message sent to client when a line exceeds `MAX_LINE_LENGTH`.
pub const LINE_TOO_LONG_MSG: &'static str = "Line too long; ignored.\r\n";

/// Message sent to client when buffer exceeds `MAX_BUFFER_SIZE`.
pub const BUFFER_OVERFLOW_MSG: &'static str = "Buffer overflow; disconnecting.\r\n";

/// Goodbye message sent on session-terminating command.
pub const GOODBYE_MSG: &'static str = "Until the next strange tale.\r\n";

/// Prompt shown when requesting the client's username.
pub const USERNAME_PROMPT: &'static str = "Username: ";

/// Prompt shown when requesting the client's password.
pub const PASSWORD_PROMPT: &'static str = "Password: ";

/// Header line above the world list.
pub const WORLDS_HEADER: &'static str = "Available worlds:";

/// Error message for empty username input.
pub const EMPTY_USERNAME_MSG: &'static str = "Username cannot be empty.\r\n";

/// Error message for empty password input.
pub const EMPTY_PASSWORD_MSG: &'static str = "Password cannot be empty.\r\n";

/// Error message for non-numeric world selection input.
pub const WORLD_SELECTION_NON_NUMERIC_MSG: &'static str = "Please enter a number.\r\n";

/// Error message template for out-of-range world selection; `{n}` stands
/// for the registry size.
pub const WORLD_SELECTION_OUT_OF_RANGE_MSG: &'static str = "Please enter a number between 1 and {n}.\r\n";

/// Welcome message template; `{username}` stands for the account name.
pub const WELCOME_TEMPLATE: &'static str = "Welcome, {username}.\r\n\r\n";

/// Message template for a chosen world; `{world}` stands for its name.
pub const WORLD_SELECTED_TEMPLATE: &'static str = "In v0.1, you would now be in {world}. Disconnecting.\r\n";

/// World selection prompt template; `{n}` stands for the registry size.
pub const WORLD_SELECT_PROMPT_TEMPLATE: &'static str = "Select a world (1-{n}, or 'quit'): ";

/// Error message for failed authentication (does not tell whether the user exists).
pub const AUTH_FAILED_MSG: &'static str = "Authentication failed.\r\n";

/// Disconnect message after exceeding the per-connection retry limit.
pub const AUTH_MAX_RETRIES_MSG: &'static str = "Too many failed attempts. Disconnecting.\r\n";

/// Disconnect message when the per-IP rate limiter triggers.
pub const AUTH_RATE_LIMITED_MSG: &'static str = "Too many failed attempts from your IP. Try again later.\r\n";

/// Error message when the account store itself fails.
pub const AUTH_INTERNAL_ERROR_MSG: &'static str = "Authentication error. Please try again later.\r\n";

/// Message sent to a client turned away because the server is at capacity.
pub const SERVER_FULL_MSG: &'static str = "Server is full. Try again later.\r\n";

/// Message sent to connected clients when the server shuts down.
pub const SHUTDOWN_MSG: &'static str = "The studio closes for now. Until the next strange tale.\r\n";

/// IAC WILL ECHO: the server takes over echo (the client should stop echoing).
pub const IAC_WILL_ECHO: [u8; 3] = [0xFF, 0xFB, 0x01];

/// IAC WONT ECHO: the server stops echoing (the client should echo again).
pub const IAC_WONT_ECHO: [u8; 3] = [0xFF, 0xFC, 0x01];

/// Default time, in seconds, that a shutdown waits for open connections.
pub const DEFAULT_SHUTDOWN_DRAIN_SECS: u64 = 10;

/// Default maximum number of addresses the login rate limiter tracks.
pub const DEFAULT_RATE_LIMITER_MAX_ENTRIES: usize = 10_000;

/// Default maximum login attempts per connection.
pub const DEFAULT_MAX_LOGIN_ATTEMPTS: u32 = 3;

/// Default argon2 memory cost in KiB (19 MiB).
pub const DEFAULT_ARGON2_MEMORY_COST: u32 = 19456;

/// Default argon2 time cost (iterations).
pub const DEFAULT_ARGON2_TIME_COST: u32 = 2;

/// Default argon2 parallelism (lanes).
pub const DEFAULT_ARGON2_PARALLELISM: u32 = 1;

/// Default rate-limiter window duration in seconds.
pub const DEFAULT_RATE_LIMIT_WINDOW_SECS: u64 = 60;

/// Default maximum failures per IP within the rate-limit window.
pub const DEFAULT_RATE_LIMIT_MAX_FAILURES: usize = 10;

/// The banner embeds the version, after the project's name.
pub proof fn lemma_banner_embeds_version()
    ensures
        BANNER@ == "\r\n  Liaozhai MUX \u{804a}\u{9f4b} \u{2014} v"@ + VERSION@
            + "\r\n  Multi-User eXegesis\r\n\r\n"@,
{
    reveal_strlit("\r\n  Liaozhai MUX \u{804a}\u{9f4b} \u{2014} v0.1.0\r\n  Multi-User eXegesis\r\n\r\n");
    reveal_strlit("0.1.0");
    reveal_strlit("\r\n  Liaozhai MUX \u{804a}\u{9f4b} \u{2014} v");
    reveal_strlit("\r\n  Multi-User eXegesis\r\n\r\n");
    assert(BANNER@ =~= "\r\n  Liaozhai MUX \u{804a}\u{9f4b} \u{2014} v"@ + VERSION@
        + "\r\n  Multi-User eXegesis\r\n\r\n"@);
}

/// The echo negotiation sequences, byte by byte.
pub proof fn lemma_echo_sequences()
    ensures
        IAC_WILL_ECHO@ == seq![0xFFu8, 0xFBu8, 0x01u8],
        IAC_WONT_ECHO@ == seq![0xFFu8, 0xFCu8, 0x01u8],
{
    assert(IAC_WILL_ECHO@ =~= seq![0xFFu8, 0xFBu8, 0x01u8]);
    assert(IAC_WONT_ECHO@ =~= seq![0xFFu8, 0xFCu8, 0x01u8]);
}

} // verus!
