//! Connection session state machine.
//!
//! Drives a connection through username → password → world list → world
//! selection → goodbye. The session is pure logic: it never performs I/O.
//! Credential checking happens outside, through [`Transition::AuthPending`]
//! and [`Session::complete_auth`].

use std::sync::Arc;
use vstd::prelude::*;
use vstd::string::StringExecFns;

use crate::account::Account;
use crate::constants;
use crate::metadata::WorldMetadata;
use crate::registry::WorldRegistry;
use crate::text;
use crate::text::{ascii_lower_seq, decimal, parse_usize_spec, replaced, spaces, trimmed};

verus! {

broadcast use vstd::string::group_string_axioms;

/// The current state of a client session.
#[derive(Debug, Clone, PartialEq)]
pub enum SessionState {
    /// Collecting credentials: `username: None` waits for the username,
    /// `username: Some(name)` waits for the password.
    Authenticating { username: Option<String> },
    /// Authenticated; showing the world list and awaiting a selection.
    WorldSelection { account: Account },
}

/// The result of processing one line of client input.
#[derive(Debug, Clone, PartialEq)]
pub enum Transition {
    /// Stay in the current state; write the output to the client.
    Stay { output: String },
    /// Advance to a new state; write the output (which ends with the new
    /// state's prompt) to the client.
    Advance { next: SessionState, output: String },
    /// End the session; write the goodbye message and disconnect.
    Disconnect { goodbye: String },
    /// Credentials are complete and must be checked; the caller checks them
    /// and hands the outcome to [`Session::complete_auth`].
    AuthPending { username: String, password: String },
}

/// Is `s` (already lower-cased) one of the words that end a session?
pub open spec fn is_terminator_word(s: Seq<char>) -> bool {
    s == "quit"@ || s == "exit"@ || s == "bye"@ || s == "disconnect"@
}

/// Does a line of input end the session (`quit`, `exit`, `bye`,
/// `disconnect`, in any ASCII case, with surrounding white space)?
pub open spec fn ends_session(line: Seq<char>) -> bool {
    is_terminator_word(ascii_lower_seq(trimmed(line)))
}

/// The world selection prompt for a registry of `n` worlds: its template
/// with `{n}` replaced by the count.
pub open spec fn select_prompt(n: nat) -> Seq<char> {
    replaced(constants::WORLD_SELECT_PROMPT_TEMPLATE@, "{n}"@, decimal(n))
}

/// The message for a selection outside `1..=n`: its template with `{n}`
/// replaced by the count.
pub open spec fn out_of_range_msg(n: nat) -> Seq<char> {
    replaced(constants::WORLD_SELECTION_OUT_OF_RANGE_MSG@, "{n}"@, decimal(n))
}

/// The goodbye text after choosing the world named `name`: a blank line,
/// then its template with `{world}` replaced by the name.
pub open spec fn world_chosen_msg(name: Seq<char>) -> Seq<char> {
    "\r\n"@ + replaced(constants::WORLD_SELECTED_TEMPLATE@, "{world}"@, name)
}

/// The welcome text for the account named `name`: its template with
/// `{username}` replaced by the name.
pub open spec fn welcome_msg(name: Seq<char>) -> Seq<char> {
    replaced(constants::WELCOME_TEMPLATE@, "{username}"@, name)
}

/// The welcome text, spelled out: the template holds `{username}` once.
pub proof fn lemma_welcome_text(name: Seq<char>)
    ensures
        welcome_msg(name) == "Welcome, "@ + name + ".\r\n\r\n"@,
{
    reveal_strlit("Welcome, {username}.\r\n\r\n");
    reveal_strlit("{username}");
    reveal_strlit("Welcome, ");
    reveal_strlit(".\r\n\r\n");
    let t = constants::WELCOME_TEMPLATE@;
    assert(t.subrange(9, 19) =~= "{username}"@);
    text::lemma_replaced_once(t, "{username}"@, name, 9);
    assert(t.take(9) =~= "Welcome, "@);
    assert(t.skip(19) =~= ".\r\n\r\n"@);
}

/// The world selection prompt, spelled out: the template holds `{n}` once.
pub proof fn lemma_select_prompt_text(n: nat)
    ensures
        select_prompt(n) == "Select a world (1-"@ + decimal(n) + ", or 'quit'): "@,
{
    reveal_strlit("Select a world (1-{n}, or 'quit'): ");
    reveal_strlit("{n}");
    reveal_strlit("Select a world (1-");
    reveal_strlit(", or 'quit'): ");
    let t = constants::WORLD_SELECT_PROMPT_TEMPLATE@;
    assert(t.subrange(18, 21) =~= "{n}"@);
    text::lemma_replaced_once(t, "{n}"@, decimal(n), 18);
    assert(t.take(18) =~= "Select a world (1-"@);
    assert(t.skip(21) =~= ", or 'quit'): "@);
}

/// The out-of-range message, spelled out: the template holds `{n}` once.
pub proof fn lemma_out_of_range_text(n: nat)
    ensures
        out_of_range_msg(n) == "Please enter a number between 1 and "@ + decimal(n) + ".\r\n"@,
{
    reveal_strlit("Please enter a number between 1 and {n}.\r\n");
    reveal_strlit("{n}");
    reveal_strlit("Please enter a number between 1 and ");
    reveal_strlit(".\r\n");
    let t = constants::WORLD_SELECTION_OUT_OF_RANGE_MSG@;
    assert(t.subrange(36, 39) =~= "{n}"@);
    text::lemma_replaced_once(t, "{n}"@, decimal(n), 36);
    assert(t.take(36) =~= "Please enter a number between 1 and "@);
    assert(t.skip(39) =~= ".\r\n"@);
}

/// The goodbye after a world choice, spelled out: the template holds
/// `{world}` once.
pub proof fn lemma_world_chosen_text(name: Seq<char>)
    ensures
        world_chosen_msg(name) == "\r\n"@ + "In v0.1, you would now be in "@ + name
            + ". Disconnecting.\r\n"@,
{
    reveal_strlit("In v0.1, you would now be in {world}. Disconnecting.\r\n");
    reveal_strlit("{world}");
    reveal_strlit("In v0.1, you would now be in ");
    reveal_strlit(". Disconnecting.\r\n");
    let t = constants::WORLD_SELECTED_TEMPLATE@;
    assert(t.subrange(29, 36) =~= "{world}"@);
    text::lemma_replaced_once(t, "{world}"@, name, 29);
    assert(t.take(29) =~= "In v0.1, you would now be in "@);
    assert(t.skip(36) =~= ". Disconnecting.\r\n"@);
}

/// The byte length of a world's name as `str::len` reports it.
pub open spec fn name_bytes(w: WorldMetadata) -> usize {
    vstd::utf8::encode_utf8(w.name_text()).len() as usize
}

/// The longest name (in bytes) of the worlds, 0 for none.
pub open spec fn max_name_bytes(ws: Seq<WorldMetadata>) -> usize
    decreases ws.len(),
{
    if ws.len() == 0 {
        0
    } else {
        let m = max_name_bytes(ws.drop_last());
        if name_bytes(ws.last()) > m {
            name_bytes(ws.last())
        } else {
            m
        }
    }
}

/// The width of the name column: one more than the longest name.
pub open spec fn name_column(ws: Seq<WorldMetadata>) -> usize {
    let m = max_name_bytes(ws);
    if m == usize::MAX {
        m
    } else {
        (m + 1) as usize
    }
}

/// `s` left-aligned in a field of `width` characters.
pub open spec fn pad_right(s: Seq<char>, width: nat) -> Seq<char> {
    if s.len() < width {
        s + spaces((width - s.len()) as nat)
    } else {
        s
    }
}

/// The list line of the world at 0-based position `i`.
pub open spec fn world_line(i: nat, w: WorldMetadata, width: nat) -> Seq<char> {
    "  "@ + decimal(i + 1) + ". "@ + pad_right(w.name_text(), width) + w.description_text()
        + "\r\n"@
}

/// The list lines of the first `k` worlds.
pub open spec fn world_lines(ws: Seq<WorldMetadata>, width: nat, k: nat) -> Seq<char>
    decreases k,
{
    if k == 0 {
        Seq::empty()
    } else {
        world_lines(ws, width, (k - 1) as nat) + world_line((k - 1) as nat, ws[k - 1], width)
    }
}

/// The rendered world list: a header line, then one numbered line per world
/// with names padded to a common column.
pub open spec fn world_list(ws: Seq<WorldMetadata>) -> Seq<char> {
    "Available worlds:"@ + "\r\n"@ + world_lines(ws, name_column(ws) as nat, ws.len())
}

/// What the session answers to `input` while waiting for the username.
pub open spec fn username_step(input: Seq<char>, t: Transition) -> bool {
    let line = trimmed(input);
    if ends_session(line) {
        t matches Transition::Disconnect { goodbye } && goodbye@ == constants::GOODBYE_MSG@
    } else if line.len() == 0 {
        t matches Transition::Stay { output } && output@ == constants::EMPTY_USERNAME_MSG@
            + constants::USERNAME_PROMPT@
    } else {
        t matches Transition::Advance {
            next: SessionState::Authenticating { username: Some(u) },
            output,
        } && u@ == line && output@ == constants::PASSWORD_PROMPT@
    }
}

/// What the session answers to `input` while waiting for the password of
/// `username`.
pub open spec fn password_step(username: Seq<char>, input: Seq<char>, t: Transition) -> bool {
    let line = trimmed(input);
    if ends_session(line) {
        t matches Transition::Disconnect { goodbye } && goodbye@ == constants::GOODBYE_MSG@
    } else if line.len() == 0 {
        t matches Transition::Stay { output } && output@ == constants::EMPTY_PASSWORD_MSG@
            + constants::PASSWORD_PROMPT@
    } else {
        t matches Transition::AuthPending { username: u, password: p } && u@ == username && p@
            == line
    }
}

/// What the session answers to `input` at the world selection, with the
/// registry's worlds `ws`.
pub open spec fn selection_step(ws: Seq<WorldMetadata>, input: Seq<char>, t: Transition) -> bool {
    let line = trimmed(input);
    let n = ws.len();
    if ends_session(line) {
        t matches Transition::Disconnect { goodbye } && goodbye@ == constants::GOODBYE_MSG@
    } else {
        match parse_usize_spec(line) {
            Some(k) => if 1 <= k <= n {
                t matches Transition::Disconnect { goodbye } && goodbye@ == world_chosen_msg(
                    ws[k - 1].name_text(),
                )
            } else {
                t matches Transition::Stay { output } && output@ == out_of_range_msg(n)
                    + select_prompt(n)
            },
            None => t matches Transition::Stay { output } && output@
                == constants::WORLD_SELECTION_NON_NUMERIC_MSG@ + select_prompt(n),
        }
    }
}

/// What the session answers in state `st` to `input`.
pub open spec fn input_step(
    st: SessionState,
    ws: Seq<WorldMetadata>,
    input: Seq<char>,
    t: Transition,
) -> bool {
    match st {
        SessionState::Authenticating { username: None } => username_step(input, t),
        SessionState::Authenticating { username: Some(u) } => password_step(u@, input, t),
        SessionState::WorldSelection { .. } => selection_step(ws, input, t),
    }
}

/// What the session answers to the outcome of a credential check.
pub open spec fn auth_step(ws: Seq<WorldMetadata>, outcome: Option<Account>, t: Transition) -> bool {
    match outcome {
        Some(a) => t matches Transition::Advance {
            next: SessionState::WorldSelection { account },
            output,
        } && account == a && output@ == welcome_msg(a.name()) + world_list(ws) + "\r\n"@
            + select_prompt(ws.len()),
        None => t matches Transition::Advance {
            next: SessionState::Authenticating { username: None },
            output,
        } && output@ == constants::AUTH_FAILED_MSG@ + constants::USERNAME_PROMPT@,
    }
}

/// A terminator word (`quit`, `exit`, `bye`, `disconnect`, in any ASCII
/// case, with surrounding white space) ends the session with the goodbye
/// message, whatever state the session is in.
pub proof fn lemma_terminator_ends_session(
    st: SessionState,
    ws: Seq<WorldMetadata>,
    input: Seq<char>,
    t: Transition,
)
    requires
        input_step(st, ws, input, t),
        ends_session(input),
    ensures
        t matches Transition::Disconnect { goodbye } && goodbye@ == constants::GOODBYE_MSG@,
{
    text::lemma_trimmed_idempotent(input);
}

/// A client session.
pub struct Session {
    state: SessionState,
    registry: Arc<WorldRegistry>,
}

impl Session {
    /// The session's current state.
    pub closed spec fn current(&self) -> SessionState {
        self.state
    }

    /// The worlds the session offers.
    pub closed spec fn worlds(&self) -> Seq<WorldMetadata> {
        self.registry@
    }

    /// A session waiting for the username, offering the registry's worlds.
    pub fn new(registry: Arc<WorldRegistry>) -> (s: Self)
        ensures
            s.current() == (SessionState::Authenticating { username: None }),
            s.worlds() == registry@,
    {
        Self { state: SessionState::Authenticating { username: None }, registry }
    }

    /// The prompt shown right after the banner.
    pub fn initial_prompt() -> (s: &'static str)
        ensures
            s@ == constants::USERNAME_PROMPT@,
    {
        constants::USERNAME_PROMPT
    }

    /// Process one line of client input in the current state.
    pub fn handle_input(&self, input: &str) -> (t: Transition)
        ensures
            input_step(self.current(), self.worlds(), input@, t),
    {
        match &self.state {
            SessionState::Authenticating { username } => match username {
                None => Self::handle_username_input(input),
                Some(name) => Self::handle_password_input(name.as_str(), input),
            },
            SessionState::WorldSelection { account } => self.handle_world_selection_input(input),
        }
    }

    /// Move to state `next`.
    pub fn apply(&mut self, next: SessionState)
        ensures
            final(self).current() == next,
            final(self).worlds() == old(self).worlds(),
    {
        self.state = next;
    }

    /// The current state.
    pub fn state(&self) -> (s: &SessionState)
        ensures
            *s == self.current(),
    {
        &self.state
    }

    /// Is the session waiting for a password (so input must not be echoed
    /// or logged)?
    pub fn is_password_input(&self) -> (b: bool)
        ensures
            b == (self.current() matches SessionState::Authenticating { username: Some(_) }),
    {
        match &self.state {
            SessionState::Authenticating { username: Some(_) } => true,
            _ => false,
        }
    }

    /// Complete an authentication attempt with the outcome of the credential
    /// check: on success, welcome the account and show the worlds; on
    /// failure, report it and ask for the username again.
    pub fn complete_auth(&self, auth_result: Option<Account>) -> (t: Transition)
        ensures
            auth_step(self.worlds(), auth_result, t),
    {
        match auth_result {
            Some(account) => {
                proof {
                    reveal_strlit("{username}");
                }
                let mut output = text::replace_all(
                    constants::WELCOME_TEMPLATE,
                    "{username}",
                    account.username(),
                );
                let listing = format_world_list(self.registry.worlds());
                output.append(listing.as_str());
                output.append("\r\n");
                let prompt = format_world_select_prompt(self.registry.len());
                output.append(prompt.as_str());
                let ghost a = account;
                assert(output@ =~= welcome_msg(a.name()) + world_list(self.worlds()) + "\r\n"@
                    + select_prompt(self.worlds().len()));
                Transition::Advance { next: SessionState::WorldSelection { account }, output }
            },
            None => {
                let mut output = String::from_str(constants::AUTH_FAILED_MSG);
                output.append(constants::USERNAME_PROMPT);
                Transition::Advance {
                    next: SessionState::Authenticating { username: None },
                    output,
                }
            },
        }
    }

    fn handle_username_input(input: &str) -> (t: Transition)
        ensures
            username_step(input@, t),
    {
        let trimmed = text::trim(input);
        if is_session_terminator(trimmed) {
            return Transition::Disconnect { goodbye: String::from_str(constants::GOODBYE_MSG) };
        }
        if trimmed.is_empty() {
            let mut output = String::from_str(constants::EMPTY_USERNAME_MSG);
            output.append(constants::USERNAME_PROMPT);
            return Transition::Stay { output };
        }
        Transition::Advance {
            next: SessionState::Authenticating { username: Some(String::from_str(trimmed)) },
            output: String::from_str(constants::PASSWORD_PROMPT),
        }
    }

    fn handle_password_input(username: &str, input: &str) -> (t: Transition)
        ensures
            password_step(username@, input@, t),
    {
        let trimmed = text::trim(input);
        if is_session_terminator(trimmed) {
            return Transition::Disconnect { goodbye: String::from_str(constants::GOODBYE_MSG) };
        }
        if trimmed.is_empty() {
            let mut output = String::from_str(constants::EMPTY_PASSWORD_MSG);
            output.append(constants::PASSWORD_PROMPT);
            return Transition::Stay { output };
        }
        Transition::AuthPending {
            username: String::from_str(username),
            password: String::from_str(trimmed),
        }
    }

    fn handle_world_selection_input(&self, input: &str) -> (t: Transition)
        ensures
            selection_step(self.worlds(), input@, t),
    {
        let trimmed = text::trim(input);
        let n = self.registry.len();
        if is_session_terminator(trimmed) {
            return Transition::Disconnect { goodbye: String::from_str(constants::GOODBYE_MSG) };
        }
        match text::parse_usize(trimmed) {
            Some(k) => match self.registry.get_by_position(k) {
                Some(world) => {
                    proof {
                        reveal_strlit("{world}");
                    }
                    let mut goodbye = String::from_str("\r\n");
                    let text = text::replace_all(
                        constants::WORLD_SELECTED_TEMPLATE,
                        "{world}",
                        world.name(),
                    );
                    goodbye.append(text.as_str());
                    assert(goodbye@ =~= world_chosen_msg(self.worlds()[k - 1].name_text()));
                    Transition::Disconnect { goodbye }
                },
                None => {
                    let count = text::decimal_string(n);
                    proof {
                        reveal_strlit("{n}");
                    }
                    let mut output = text::replace_all(
                        constants::WORLD_SELECTION_OUT_OF_RANGE_MSG,
                        "{n}",
                        count.as_str(),
                    );
                    let prompt = format_world_select_prompt(n);
                    output.append(prompt.as_str());
                    assert(output@ =~= out_of_range_msg(n as nat) + select_prompt(n as nat));
                    Transition::Stay { output }
                },
            },
            None => {
                let mut output = String::from_str(constants::WORLD_SELECTION_NON_NUMERIC_MSG);
                let prompt = format_world_select_prompt(n);
                output.append(prompt.as_str());
                Transition::Stay { output }
            },
        }
    }
}

/// Does a line end the session: `quit`, `exit`, `bye` or `disconnect`, in
/// any ASCII case, with surrounding white space allowed?
pub fn is_session_terminator(line: &str) -> (b: bool)
    ensures
        b == ends_session(line@),
{
    let t = text::trim(line);
    let v = text::chars_of(t);
    text::eq_ignore_ascii_case(&v, "quit") || text::eq_ignore_ascii_case(&v, "exit")
        || text::eq_ignore_ascii_case(&v, "bye") || text::eq_ignore_ascii_case(&v, "disconnect")
}

/// Render the world list for display to the client: the header line, then
/// one numbered line per world, names padded to the longest name plus one.
/// An empty registry gives just the header line.
pub fn format_world_list(worlds: &[WorldMetadata]) -> (s: String)
    ensures
        s@ == world_list(worlds@),
{
    let mut max: usize = 0;
    let mut i: usize = 0;
    while i < worlds.len()
        invariant
            i <= worlds@.len(),
            max == max_name_bytes(worlds@.take(i as int)),
        decreases worlds@.len() - i,
    {
        let b = worlds[i].name().len();
        assert(worlds@.take(i + 1).drop_last() =~= worlds@.take(i as int));
        if b > max {
            max = b;
        }
        i = i + 1;
    }
    assert(worlds@.take(worlds@.len() as int) =~= worlds@);
    let width: usize = if max == usize::MAX {
        max
    } else {
        max + 1
    };
    let mut output = String::from_str(constants::WORLDS_HEADER);
    output.append("\r\n");
    let ghost head = output@;
    let mut k: usize = 0;
    while k < worlds.len()
        invariant
            k <= worlds@.len(),
            width == name_column(worlds@),
            head == "Available worlds:"@ + "\r\n"@,
            output@ == head + world_lines(worlds@, width as nat, k as nat),
        decreases worlds@.len() - k,
    {
        let w = &worlds[k];
        let ghost before = output@;
        output.append("  ");
        text::append_decimal(&mut output, k + 1);
        output.append(". ");
        let name = w.name();
        output.append(name);
        let chars = text::chars_of(name).len();
        if chars < width {
            text::append_spaces(&mut output, width - chars);
        }
        output.append(w.short_description());
        output.append("\r\n");
        assert(output@ =~= before + world_line(k as nat, worlds@[k as int], width as nat));
        k = k + 1;
    }
    output
}

/// The world selection prompt for a registry of `count` worlds.
pub fn format_world_select_prompt(count: usize) -> (s: String)
    ensures
        s@ == select_prompt(count as nat),
{
    let n = text::decimal_string(count);
    proof {
        reveal_strlit("{n}");
    }
    text::replace_all(constants::WORLD_SELECT_PROMPT_TEMPLATE, "{n}", n.as_str())
}

} // verus!
