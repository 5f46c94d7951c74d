//! Account records.

use vstd::prelude::*;
use vstd::string::StringExecFns;

use crate::clock;
use crate::ids::AccountId;

verus! {

/// An account in the system.
///
/// Never carries the password hash: that stays with the account store.
#[derive(Debug, Clone, PartialEq)]
pub struct Account {
    id: AccountId,
    username: String,
    created_at: i64,
    last_login_at: Option<i64>,
}

impl Account {
    /// The account's identifier.
    pub closed spec fn ident(&self) -> AccountId {
        self.id
    }

    /// The account's user name.
    pub closed spec fn name(&self) -> Seq<char> {
        self.username@
    }

    /// When the account was created (Unix seconds).
    pub closed spec fn created(&self) -> i64 {
        self.created_at
    }

    /// When the account last logged in (Unix seconds), if ever.
    pub closed spec fn last_login(&self) -> Option<i64> {
        self.last_login_at
    }

    /// An in-memory account with a fresh identifier, created now, never
    /// logged in.
    pub fn new(username: &str) -> (a: Self)
        ensures
            a.name() == username@,
            a.created() >= 0,
            a.last_login() is None,
    {
        let now = clock::unix_now();
        Self {
            id: AccountId::new(),
            username: String::from_str(username),
            created_at: now,
            last_login_at: None,
        }
    }

    /// An account from stored fields.
    pub fn from_row(
        id: AccountId,
        username: String,
        created_at: i64,
        last_login_at: Option<i64>,
    ) -> (a: Self)
        ensures
            a.ident() == id,
            a.name() == username@,
            a.created() == created_at,
            a.last_login() == last_login_at,
    {
        Self { id, username, created_at, last_login_at }
    }

    /// The account's identifier.
    pub fn id(&self) -> (id: AccountId)
        ensures
            id == self.ident(),
    {
        self.id
    }

    /// The account's user name.
    pub fn username(&self) -> (s: &str)
        ensures
            s@ == self.name(),
    {
        self.username.as_str()
    }

    /// When the account was created (Unix seconds).
    pub fn created_at(&self) -> (t: i64)
        ensures
            t == self.created(),
    {
        self.created_at
    }

    /// When the account last logged in (Unix seconds), if ever.
    pub fn last_login_at(&self) -> (t: Option<i64>)
        ensures
            t == self.last_login(),
    {
        self.last_login_at
    }
}

} // verus!
