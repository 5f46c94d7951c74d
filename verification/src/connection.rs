//! The decisions of one client connection, apart from its I/O.
//!
//! A [`Connection`] receives what was read from the client (decoded by the
//! telnet codec) and the outcome of credential checks, and answers with the
//! [`Action`]s to perform: bytes to send, a credential check to run,
//! rate-limiter updates, a login to record, or closing the connection. The
//! caller performs the actions and feeds the results back.

use std::sync::Arc;
use vstd::prelude::*;
use vstd::string::StrSliceExecFns;
use vstd::string::StringExecFns;

use crate::account::Account;
use crate::codec::{CodecItem, TelnetCodecError};
use crate::constants;
use crate::error::Error;
use crate::ids::AccountId;
use crate::metadata::WorldMetadata;
use crate::registry::WorldRegistry;
use crate::session::{auth_step, input_step, Session, SessionState, Transition};

verus! {

broadcast use vstd::string::group_string_axioms;

/// Something the caller must do for the connection.
#[derive(Debug)]
pub enum Action {
    /// Send these bytes to the client.
    Send(Vec<u8>),
    /// Check these credentials and report the outcome with
    /// [`Connection::on_credentials`].
    CheckCredentials { username: String, password: String },
    /// Clear the failure history of the client's address.
    ResetRateLimit,
    /// Record a failed login for the client's address.
    RecordFailure,
    /// Record a successful login of this account.
    RecordLogin(AccountId),
    /// Close the connection.
    Close,
}

/// Where a connection stands.
#[derive(Debug, Clone, Copy, PartialEq, Eq, Structural)]
pub enum Phase {
    /// Waiting for client input.
    Reading,
    /// Waiting for the outcome of a credential check.
    CheckingCredentials,
    /// Finished; nothing more happens.
    Closed,
}

/// IAC WILL ECHO: the server takes over echo.
pub open spec fn will_echo() -> Seq<u8> {
    constants::IAC_WILL_ECHO@
}

/// IAC WONT ECHO: the server gives echo back to the client.
pub open spec fn wont_echo() -> Seq<u8> {
    constants::IAC_WONT_ECHO@
}

/// The UTF-8 bytes of a text.
pub open spec fn utf8(s: Seq<char>) -> Seq<u8> {
    vstd::utf8::encode_utf8(s)
}

/// Does action `a` send exactly `bytes`?
pub open spec fn sends(a: Action, bytes: Seq<u8>) -> bool {
    a matches Action::Send(b) && b@ == bytes
}

/// The echo negotiation that goes before the output of a move to `next`:
/// the server takes over echo when a password is next, and gives it back
/// at the world selection.
pub open spec fn echo_prefix(next: SessionState) -> Seq<u8> {
    match next {
        SessionState::Authenticating { username: Some(_) } => will_echo(),
        SessionState::WorldSelection { .. } => wont_echo(),
        _ => Seq::empty(),
    }
}

/// How the connection answers a session transition `t`, coming from state
/// `from`: the actions, the next session state and the next phase.
pub open spec fn answers(
    t: Transition,
    from: SessionState,
    acts: Seq<Action>,
    next: SessionState,
    phase: Phase,
) -> bool {
    match t {
        Transition::Stay { output } => {
            &&& acts.len() == 1
            &&& sends(acts[0], utf8(output@))
            &&& next == from
            &&& phase == Phase::Reading
        },
        Transition::Advance { next: n, output } => {
            &&& acts.len() == 1
            &&& sends(acts[0], echo_prefix(n) + utf8(output@))
            &&& next == n
            &&& phase == Phase::Reading
        },
        Transition::AuthPending { username, password } => {
            &&& acts.len() == 2
            &&& sends(acts[0], wont_echo())
            &&& acts[1] matches Action::CheckCredentials { username: u, password: p }
            &&& u@ == username@
            &&& p@ == password@
            &&& next == from
            &&& phase == Phase::CheckingCredentials
        },
        Transition::Disconnect { goodbye } => {
            &&& next == from
            &&& phase == Phase::Closed
            &&& if from matches SessionState::Authenticating { username: Some(_) } {
                &&& acts.len() == 3
                &&& sends(acts[0], wont_echo())
                &&& sends(acts[1], utf8(goodbye@))
                &&& acts[2] is Close
            } else {
                &&& acts.len() == 2
                &&& sends(acts[0], utf8(goodbye@))
                &&& acts[1] is Close
            }
        },
    }
}

/// The decision state of one client connection.
pub struct Connection {
    session: Session,
    auth_failures: u32,
    max_login_attempts: u32,
    phase: Phase,
}

impl Connection {
    /// The session state.
    pub closed spec fn session_state(&self) -> SessionState {
        self.session.current()
    }

    /// The worlds offered.
    pub closed spec fn worlds(&self) -> Seq<WorldMetadata> {
        self.session.worlds()
    }

    /// Failed credential checks so far.
    pub closed spec fn failures(&self) -> u32 {
        self.auth_failures
    }

    /// Failed credential checks allowed before disconnecting.
    pub closed spec fn attempt_limit(&self) -> u32 {
        self.max_login_attempts
    }

    /// Where the connection stands.
    pub closed spec fn stage(&self) -> Phase {
        self.phase
    }

    /// The connection's invariant: while it is open, fewer failures than the
    /// limit have been seen (or none at all).
    pub closed spec fn wf(&self) -> bool {
        &&& self.phase != Phase::Closed ==> (self.auth_failures == 0 || self.auth_failures
            < self.max_login_attempts)
        &&& self.max_login_attempts >= 1 ==> self.auth_failures <= self.max_login_attempts
    }

    /// The retry law over a whole connection: with a limit of at least one
    /// attempt, a connection never sees more failed credential checks than
    /// the limit, and one that has seen as many is closed.
    pub proof fn lemma_retry_limit(&self)
        requires
            self.wf(),
            self.attempt_limit() >= 1,
        ensures
            self.failures() <= self.attempt_limit(),
            self.failures() == self.attempt_limit() ==> self.stage() == Phase::Closed,
    {
    }

    /// A new connection. A client whose address is throttled is told so and
    /// turned away; any other gets the banner and the username prompt.
    pub fn open(registry: Arc<WorldRegistry>, max_login_attempts: u32, throttled: bool) -> (r: (
        Self,
        Vec<Action>,
    ))
        ensures
            r.0.wf(),
            r.0.worlds() == registry@,
            r.0.session_state() == (SessionState::Authenticating { username: None }),
            r.0.failures() == 0,
            r.0.attempt_limit() == max_login_attempts,
            throttled ==> {
                &&& r.0.stage() == Phase::Closed
                &&& r.1@.len() == 2
                &&& sends(r.1@[0], utf8(constants::AUTH_RATE_LIMITED_MSG@))
                &&& r.1@[1] is Close
            },
            !throttled ==> {
                &&& r.0.stage() == Phase::Reading
                &&& r.1@.len() == 1
                &&& sends(r.1@[0], utf8(constants::BANNER@ + constants::USERNAME_PROMPT@))
            },
    {
        let session = Session::new(registry);
        let mut actions: Vec<Action> = Vec::new();
        if throttled {
            actions.push(Action::Send(constants::AUTH_RATE_LIMITED_MSG.as_bytes_vec()));
            actions.push(Action::Close);
            let c = Connection { session, auth_failures: 0, max_login_attempts, phase: Phase::Closed };
            (c, actions)
        } else {
            let mut greeting = String::from_str(constants::BANNER);
            greeting.append(Session::initial_prompt());
            actions.push(Action::Send(greeting.as_str().as_bytes_vec()));
            let c = Connection {
                session,
                auth_failures: 0,
                max_login_attempts,
                phase: Phase::Reading,
            };
            (c, actions)
        }
    }

    /// Is the session waiting for a password (so input must not be logged)?
    pub fn is_password_input(&self) -> (b: bool)
        ensures
            b == (self.session_state() matches SessionState::Authenticating { username: Some(_) }),
    {
        self.session.is_password_input()
    }

    /// Where the connection stands.
    pub fn phase(&self) -> (p: Phase)
        ensures
            p == self.stage(),
    {
        self.phase
    }

    /// Answer what was read from the client: a line goes to the session; an
    /// over-long line is reported; a buffer overflow is reported and closes;
    /// a read error or the end of input closes.
    pub fn on_input(&mut self, read: Option<core::result::Result<CodecItem, TelnetCodecError>>) -> (acts: Vec<Action>)
        requires
            old(self).wf(),
            old(self).stage() == Phase::Reading,
        ensures
            final(self).wf(),
            final(self).worlds() == old(self).worlds(),
            final(self).failures() == old(self).failures(),
            final(self).attempt_limit() == old(self).attempt_limit(),
            match read {
                Some(Ok(CodecItem::Line(line))) => exists|t: Transition|
                    input_step(old(self).session_state(), old(self).worlds(), line@, t) && answers(
                        t,
                        old(self).session_state(),
                        acts@,
                        final(self).session_state(),
                        final(self).stage(),
                    ),
                Some(Ok(CodecItem::LineTooLong)) => {
                    &&& acts@.len() == 1
                    &&& sends(acts@[0], utf8(constants::LINE_TOO_LONG_MSG@))
                    &&& final(self).stage() == Phase::Reading
                    &&& final(self).session_state() == old(self).session_state()
                },
                Some(Err(TelnetCodecError::BufferOverflow { .. })) => {
                    &&& acts@.len() == 2
                    &&& sends(acts@[0], utf8(constants::BUFFER_OVERFLOW_MSG@))
                    &&& acts@[1] is Close
                    &&& final(self).stage() == Phase::Closed
                },
                _ => {
                    &&& acts@.len() == 1
                    &&& acts@[0] is Close
                    &&& final(self).stage() == Phase::Closed
                },
            },
    {
        let mut actions: Vec<Action> = Vec::new();
        match read {
            Some(Ok(CodecItem::Line(line))) => {
                return self.on_line(line.as_str());
            },
            Some(Ok(CodecItem::LineTooLong)) => {
                actions.push(Action::Send(constants::LINE_TOO_LONG_MSG.as_bytes_vec()));
            },
            Some(Err(TelnetCodecError::BufferOverflow { .. })) => {
                actions.push(Action::Send(constants::BUFFER_OVERFLOW_MSG.as_bytes_vec()));
                actions.push(Action::Close);
                self.phase = Phase::Closed;
            },
            _ => {
                actions.push(Action::Close);
                self.phase = Phase::Closed;
            },
        }
        actions
    }

    /// Answer the outcome of a credential check. A store failure is reported
    /// and closes. A success clears the address's failure history, records
    /// the login and moves to the world selection. A failure is recorded for
    /// the address; at the attempt limit the client is told and the
    /// connection closes, otherwise the username is asked for again.
    pub fn on_credentials(&mut self, result: core::result::Result<Option<Account>, Error>) -> (acts: Vec<Action>)
        requires
            old(self).wf(),
            old(self).stage() == Phase::CheckingCredentials,
        ensures
            final(self).wf(),
            final(self).worlds() == old(self).worlds(),
            final(self).attempt_limit() == old(self).attempt_limit(),
            match result {
                Err(_) => {
                    &&& acts@.len() == 2
                    &&& sends(acts@[0], utf8(constants::AUTH_INTERNAL_ERROR_MSG@))
                    &&& acts@[1] is Close
                    &&& final(self).stage() == Phase::Closed
                    &&& final(self).failures() == old(self).failures()
                },
                Ok(Some(account)) => {
                    &&& acts@.len() == 3
                    &&& acts@[0] is ResetRateLimit
                    &&& acts@[1] matches Action::RecordLogin(id) && id == account.ident()
                    &&& exists|t: Transition|
                        auth_step(old(self).worlds(), Some(account), t) && (t matches Transition::Advance { next, output }
                            && sends(acts@[2], utf8(output@)) && final(self).session_state() == next)
                    &&& final(self).stage() == Phase::Reading
                    &&& final(self).failures() == old(self).failures()
                },
                Ok(None) => {
                    &&& final(self).failures() == old(self).failures() + 1
                    &&& acts@[0] is RecordFailure
                    &&& if old(self).failures() + 1 >= old(self).attempt_limit() {
                        &&& acts@.len() == 3
                        &&& sends(acts@[1], utf8(constants::AUTH_MAX_RETRIES_MSG@))
                        &&& acts@[2] is Close
                        &&& final(self).stage() == Phase::Closed
                    } else {
                        &&& acts@.len() == 2
                        &&& sends(
                            acts@[1],
                            utf8(constants::AUTH_FAILED_MSG@ + constants::USERNAME_PROMPT@),
                        )
                        &&& final(self).session_state() == (SessionState::Authenticating {
                            username: None,
                        })
                        &&& final(self).stage() == Phase::Reading
                    }
                },
            },
    {
        let mut actions: Vec<Action> = Vec::new();
        match result {
            Err(_) => {
                actions.push(Action::Send(constants::AUTH_INTERNAL_ERROR_MSG.as_bytes_vec()));
                actions.push(Action::Close);
                self.phase = Phase::Closed;
                actions
            },
            Ok(Some(account)) => {
                actions.push(Action::ResetRateLimit);
                actions.push(Action::RecordLogin(account.id()));
                let ghost a = account;
                let t = self.session.complete_auth(Some(account));
                let ghost tv = t;
                match t {
                    Transition::Advance { next, output } => {
                        actions.push(Action::Send(output.as_str().as_bytes_vec()));
                        self.session.apply(next);
                    },
                    _ => {
                        assert(false);
                    },
                }
                self.phase = Phase::Reading;
                assert(auth_step(self.worlds(), Some(a), tv) && (tv matches Transition::Advance {
                    next,
                    output,
                } && sends(actions@[2], utf8(output@)) && self.session_state() == next));
                actions
            },
            Ok(None) => {
                self.auth_failures = self.auth_failures + 1;
                actions.push(Action::RecordFailure);
                if self.auth_failures >= self.max_login_attempts {
                    actions.push(Action::Send(constants::AUTH_MAX_RETRIES_MSG.as_bytes_vec()));
                    actions.push(Action::Close);
                    self.phase = Phase::Closed;
                    return actions;
                }
                let t = self.session.complete_auth(None);
                match t {
                    Transition::Advance { next, output } => {
                        actions.push(Action::Send(output.as_str().as_bytes_vec()));
                        self.session.apply(next);
                    },
                    _ => {
                        assert(false);
                    },
                }
                self.phase = Phase::Reading;
                actions
            },
        }
    }

    /// Answer one line of client input through the session.
    fn on_line(&mut self, line: &str) -> (acts: Vec<Action>)
        requires
            old(self).wf(),
            old(self).stage() == Phase::Reading,
        ensures
            final(self).wf(),
            final(self).worlds() == old(self).worlds(),
            final(self).failures() == old(self).failures(),
            final(self).attempt_limit() == old(self).attempt_limit(),
            exists|t: Transition|
                input_step(old(self).session_state(), old(self).worlds(), line@, t) && answers(
                    t,
                    old(self).session_state(),
                    acts@,
                    final(self).session_state(),
                    final(self).stage(),
                ),
    {
        let mut actions: Vec<Action> = Vec::new();
        let ghost from = self.session_state();
        let was_password = self.session.is_password_input();
        let t = self.session.handle_input(line);
        let ghost tv = t;
        match t {
            Transition::Stay { output } => {
                actions.push(Action::Send(output.as_str().as_bytes_vec()));
            },
            Transition::Advance { next, output } => {
                let mut frame: Vec<u8> = Vec::new();
                let ghost prefix = echo_prefix(next);
                match &next {
                    SessionState::Authenticating { username: Some(_) } => {
                        frame.extend_from_slice(&constants::IAC_WILL_ECHO);
                    },
                    SessionState::WorldSelection { .. } => {
                        frame.extend_from_slice(&constants::IAC_WONT_ECHO);
                    },
                    _ => {},
                }
                assert(frame@ =~= prefix);
                let mut body = output.as_str().as_bytes_vec();
                frame.append(&mut body);
                actions.push(Action::Send(frame));
                self.session.apply(next);
            },
            Transition::AuthPending { username, password } => {
                actions.push(Action::Send(wont_echo_bytes()));
                actions.push(Action::CheckCredentials { username, password });
                self.phase = Phase::CheckingCredentials;
            },
            Transition::Disconnect { goodbye } => {
                if was_password {
                    actions.push(Action::Send(wont_echo_bytes()));
                }
                actions.push(Action::Send(goodbye.as_str().as_bytes_vec()));
                actions.push(Action::Close);
                self.phase = Phase::Closed;
            },
        }
        assert(self.worlds() == old(self).worlds());
        assert(input_step(from, old(self).worlds(), line@, tv) && answers(
            tv,
            from,
            actions@,
            self.session_state(),
            self.stage(),
        ));
            actions
    }

    /// The server is shutting down: tell the client and close.
    pub fn on_shutdown(&mut self) -> (acts: Vec<Action>)
        requires
            old(self).wf(),
        ensures
            final(self).wf(),
            final(self).stage() == Phase::Closed,
            old(self).stage() != Phase::Closed ==> {
                &&& acts@.len() == 2
                &&& sends(acts@[0], utf8(constants::SHUTDOWN_MSG@))
                &&& acts@[1] is Close
            },
            old(self).stage() == Phase::Closed ==> acts@.len() == 0,
    {
        let mut actions: Vec<Action> = Vec::new();
        if self.phase != Phase::Closed {
            actions.push(Action::Send(constants::SHUTDOWN_MSG.as_bytes_vec()));
            actions.push(Action::Close);
            self.phase = Phase::Closed;
        }
        actions
    }
}

/// The bytes of IAC WONT ECHO.
fn wont_echo_bytes() -> (v: Vec<u8>)
    ensures
        v@ == wont_echo(),
{
    let mut v: Vec<u8> = Vec::new();
    v.extend_from_slice(&constants::IAC_WONT_ECHO);
    assert(v@ =~= wont_echo());
    v
}

} // verus!
