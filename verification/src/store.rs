//! Account storage logic: argon2id password hashing, credential checking,
//! and the mapping of stored rows and storage failures. The database
//! itself is driven by the caller, which hands rows in and takes errors out.
//!
//! Credential checking always runs an argon2 verification, even for an
//! unknown user (against a dummy hash), so that "no such user" and "wrong
//! password" take about the same time.

use password_hash::Error as PasswordHashError;
use password_hash::{PasswordHasher, PasswordVerifier};
use vstd::prelude::*;
use vstd::string::StringExecFns;

use crate::account::Account;
use crate::error::Error;
use crate::ids::{uuid_parse, AccountId};
use crate::text::decimal;
use crate::params::{argon2_costs, argon2_error_text, argon2_params_valid, Argon2Params};

verus! {

broadcast use vstd::string::group_string_axioms;

/// `password_hash::SaltString`, carried through unchanged.
#[verifier::external_type_specification]
#[verifier::external_body]
pub struct ExSaltString(password_hash::SaltString);

/// `password_hash::PasswordHash`, carried through unchanged.
#[verifier::external_type_specification]
#[verifier::external_body]
pub struct ExPasswordHash<'a>(password_hash::PasswordHash<'a>);

/// `password_hash::Error`, carried through unchanged.
#[verifier::external_type_specification]
#[verifier::external_body]
pub struct ExPasswordHashError(PasswordHashError);

/// Whether `password_hash::PasswordHash::new` accepts a text as a PHC string.
pub uninterp spec fn phc_parses(s: Seq<char>) -> bool;

/// Whether argon2 verification (a secretless `argon2::Argon2`, which takes
/// algorithm, version and costs from the hash itself) accepts `password`
/// against the PHC string `phc`.
pub uninterp spec fn password_matches(phc: Seq<char>, password: Seq<char>) -> bool;

/// Does the PHC string `phc` record argon2id, version 19 (0x13) and the
/// costs `costs` (memory, time, parallelism)?
pub open spec fn records_costs(phc: Seq<char>, costs: (u32, u32, u32)) -> bool {
    let head = "$argon2id$v=19$m="@ + decimal(costs.0 as nat) + ",t="@ + decimal(costs.1 as nat)
        + ",p="@ + decimal(costs.2 as nat) + "$"@;
    phc.len() > head.len() && phc.take(head.len() as int) == head
}

/// A salt made by `random_salt`.
struct GeneratedSalt {
    salt: password_hash::SaltString,
}

/// Calls `PasswordHasher::hash_password` of an argon2id (version 0x13)
/// hasher with the given costs, on the password's bytes and the salt, and
/// renders the hash as its PHC string. The salt is random and is not
/// stated. It succeeds for a password of at most `u32::MAX` bytes: the
/// costs of an `argon2::Params` are valid, and a generated salt has 16
/// bytes. The PHC string records the algorithm, version and costs, it
/// parses back, and verification accepts the password it was made from
/// (the verifier recomputes the hash with what the string records).
#[verifier::external_body]
fn hash_with_salt(
    params: argon2::Params,
    password: &str,
    salt: &GeneratedSalt,
) -> (r: core::result::Result<String, PasswordHashError>)
    ensures
        vstd::utf8::encode_utf8(password@).len() <= 0xFFFF_FFFF ==> r is Ok,
        r matches Ok(phc) ==> phc_parses(phc@) && password_matches(phc@, password@)
            && records_costs(phc@, argon2_costs(params)),
{
    argon2::Argon2::new(argon2::Algorithm::Argon2id, argon2::Version::V0x13, params)
        .hash_password(password.as_bytes(), &salt.salt)
        .map(|h| h.to_string())
}

/// Calls `password_hash::SaltString::generate` with the operating system's
/// random source: 16 random bytes, in B64. Nothing else is stated of it.
#[verifier::external_body]
fn random_salt() -> GeneratedSalt {
    GeneratedSalt { salt: password_hash::SaltString::generate(&mut password_hash::rand_core::OsRng) }
}

/// Calls `password_hash::PasswordHash::new`, which parses a PHC string.
#[verifier::external_body]
fn parse_phc<'a>(phc: &'a str) -> (r: core::result::Result<
    password_hash::PasswordHash<'a>,
    PasswordHashError,
>)
    ensures
        r.is_ok() == phc_parses(phc@),
{
    password_hash::PasswordHash::new(phc)
}

/// A parsed PHC string, kept with the text it was parsed from.
struct ParsedHash<'a> {
    text: &'a str,
    hash: password_hash::PasswordHash<'a>,
}

/// Parses a PHC string, keeping its text beside the parse.
fn parse_hash<'a>(text: &'a str) -> (r: core::result::Result<ParsedHash<'a>, PasswordHashError>)
    ensures
        r is Ok <==> phc_parses(text@),
        r matches Ok(p) ==> p.text@ == text@,
{
    match parse_phc(text) {
        Ok(hash) => Ok(ParsedHash { text, hash }),
        Err(e) => Err(e),
    }
}

/// Calls `PasswordVerifier::verify_password` of a default (secretless)
/// `argon2::Argon2` with the password's bytes and the parsed hash, and tells
/// whether it succeeded. A `ParsedHash` is only made by `parse_hash`, so the
/// hash is the parse of its text.
#[verifier::external_body]
fn verify_with(password: &str, parsed: &ParsedHash<'_>) -> (b: bool)
    ensures
        b == password_matches(parsed.text@, password@),
{
    argon2::Argon2::default().verify_password(password.as_bytes(), &parsed.hash).is_ok()
}

/// Calls the `Display` impl of `password_hash::Error`; nothing is stated of
/// the text.
#[verifier::external_body]
fn password_hash_error_text(e: &PasswordHashError) -> String {
    format!("{e}")
}

/// An authentication error whose text is `prefix` followed by `detail`.
fn auth_error(prefix: &str, detail: &str) -> (e: Error)
    ensures
        e matches Error::Auth(m) && m@ == prefix@ + detail@,
{
    let mut m = String::from_str(prefix);
    m.append(detail);
    Error::Auth(m)
}

/// Does an authentication error's text start with `prefix`?
pub open spec fn auth_error_with(e: Error, prefix: Seq<char>) -> bool {
    e matches Error::Auth(m) && m@.len() >= prefix.len() && m@.take(prefix.len() as int)
        == prefix
}

proof fn lemma_prefix(prefix: Seq<char>, detail: Seq<char>)
    ensures
        (prefix + detail).take(prefix.len() as int) == prefix,
{
    assert((prefix + detail).take(prefix.len() as int) =~= prefix);
}

/// Hashes a password with argon2id (version 19) under the given costs and
/// a fresh random salt, giving its PHC string, which records those costs
/// and which verification then accepts for this password. Fails when argon2
/// rejects the costs; with valid costs it succeeds for any password of at
/// most `u32::MAX` bytes.
pub fn generate_hash(password: &str, params: &Argon2Params) -> (r: core::result::Result<
    String,
    Error,
>)
    ensures
        !argon2_params_valid(params.m_cost, params.t_cost, params.p_cost) ==> (r matches Err(e)
            && auth_error_with(e, "invalid argon2 params: "@)),
        argon2_params_valid(params.m_cost, params.t_cost, params.p_cost)
            && vstd::utf8::encode_utf8(password@).len() <= 0xFFFF_FFFF ==> r is Ok,
        argon2_params_valid(params.m_cost, params.t_cost, params.p_cost) ==> (r is Ok || (
        r matches Err(e) && auth_error_with(e, "hashing password: "@))),
        r matches Ok(phc) ==> phc_parses(phc@) && password_matches(phc@, password@)
            && records_costs(phc@, (params.m_cost, params.t_cost, params.p_cost)),
{
    match params.to_argon2_params() {
        Err(e) => {
            let text = argon2_error_text(&e);
            let err = auth_error("invalid argon2 params: ", text.as_str());
            proof {
                lemma_prefix("invalid argon2 params: "@, text@);
            }
            Err(err)
        },
        Ok(p) => {
            let salt = random_salt();
            match hash_with_salt(p, password, &salt) {
                Ok(phc) => Ok(phc),
                Err(e) => {
                    let text = password_hash_error_text(&e);
                    let err = auth_error("hashing password: ", text.as_str());
                    proof {
                        lemma_prefix("hashing password: "@, text@);
                    }
                    Err(err)
                },
            }
        },
    }
}

/// An account row as the database stores it.
#[derive(Debug, Clone)]
pub struct StoredAccount {
    pub id: String,
    pub username: String,
    pub password_hash: String,
    pub created_at: i64,
    pub last_login_at: Option<i64>,
}

/// An account row as listed (without its password hash).
#[derive(Debug, Clone)]
pub struct ListedAccount {
    pub id: String,
    pub username: String,
    pub created_at: i64,
    pub last_login_at: Option<i64>,
}

/// Does `a` carry the fields of a row whose id reads as `v`?
pub open spec fn account_of(
    a: Account,
    v: u128,
    username: Seq<char>,
    created_at: i64,
    last_login_at: Option<i64>,
) -> bool {
    &&& a.ident() == (AccountId { value: v })
    &&& a.name() == username
    &&& a.created() == created_at
    &&& a.last_login() == last_login_at
}

/// The account of a listed row; fails when its id is no UUID.
pub fn account_from_listed(row: ListedAccount) -> (r: core::result::Result<Account, Error>)
    ensures
        match uuid_parse(row.id@) {
            Some(v) => r matches Ok(a) && account_of(
                a,
                v,
                row.username@,
                row.created_at,
                row.last_login_at,
            ),
            None => r matches Err(e) && auth_error_with(e, "parsing account ID: "@),
        },
{
    match AccountId::parse(row.id.as_str()) {
        Ok(id) => Ok(Account::from_row(id, row.username, row.created_at, row.last_login_at)),
        Err(text) => {
            proof {
                lemma_prefix("parsing account ID: "@, text@);
            }
            Err(auth_error("parsing account ID: ", text.as_str()))
        },
    }
}

/// The outcome of a credential check for a stored row, given whether the
/// password matched its hash: the account on a match (its id read from the
/// row), nothing otherwise.
pub fn credential_outcome(row: StoredAccount, password_matches: bool) -> (r: core::result::Result<
    Option<Account>,
    Error,
>)
    ensures
        credential_outcome_spec(row, password_matches, r),
{
    if !password_matches {
        return Ok(None);
    }
    let listed = ListedAccount {
        id: row.id,
        username: row.username,
        created_at: row.created_at,
        last_login_at: row.last_login_at,
    };
    match account_from_listed(listed) {
        Ok(a) => Ok(Some(a)),
        Err(e) => Err(e),
    }
}

/// Checks a password against the stored row of a user (`None`: no such
/// user). Always runs an argon2 verification: against the row's hash, or
/// against `dummy_hash` for an unknown user, which then gets `Ok(None)`.
/// A known user gets the account exactly when verification accepts the
/// password. Fails when a stored hash does not parse.
pub fn check_credentials(row: Option<StoredAccount>, password: &str, dummy_hash: &str) -> (r:
    core::result::Result<Option<Account>, Error>)
    ensures
        match row {
            None => if phc_parses(dummy_hash@) {
                r matches Ok(None)
            } else {
                r matches Err(e) && auth_error_with(e, "parsing dummy hash: "@)
            },
            Some(stored) => if !phc_parses(stored.password_hash@) {
                r matches Err(e) && auth_error_with(e, "parsing stored hash: "@)
            } else {
                credential_outcome_spec(
                    stored,
                    password_matches(stored.password_hash@, password@),
                    r,
                )
            },
        },
{
    match row {
        None => match parse_hash(dummy_hash) {
            Err(e) => {
                let text = password_hash_error_text(&e);
                proof {
                    lemma_prefix("parsing dummy hash: "@, text@);
                }
                Err(auth_error("parsing dummy hash: ", text.as_str()))
            },
            Ok(parsed) => {
                let _ = verify_with(password, &parsed);
                Ok(None)
            },
        },
        Some(stored) => {
            let matched = match parse_hash(stored.password_hash.as_str()) {
                Err(e) => {
                    let text = password_hash_error_text(&e);
                    proof {
                        lemma_prefix("parsing stored hash: "@, text@);
                    }
                    return Err(auth_error("parsing stored hash: ", text.as_str()));
                },
                Ok(parsed) => verify_with(password, &parsed),
            };
            credential_outcome(stored, matched)
        },
    }
}

/// What [`credential_outcome`] returns for `stored` when the password
/// `matched` or not.
pub open spec fn credential_outcome_spec(
    stored: StoredAccount,
    matched: bool,
    r: core::result::Result<Option<Account>, Error>,
) -> bool {
    if matched {
        match uuid_parse(stored.id@) {
            Some(v) => r matches Ok(Some(a)) && account_of(
                a,
                v,
                stored.username@,
                stored.created_at,
                stored.last_login_at,
            ),
            None => r matches Err(e) && auth_error_with(e, "parsing account ID: "@),
        }
    } else {
        r matches Ok(None)
    }
}

/// The error for a failed account insert: a uniqueness violation means the
/// name is taken; anything else is reported with the database's text.
pub fn insert_error(constraint_violation: bool, username: &str, detail: &str) -> (e: Error)
    ensures
        constraint_violation ==> (e matches Error::Auth(m) && m@ == "Account '"@ + username@
            + "' already exists"@),
        !constraint_violation ==> (e matches Error::Auth(m) && m@ == "creating account: "@
            + detail@),
{
    if constraint_violation {
        let mut m = String::from_str("Account '");
        m.append(username);
        m.append("' already exists");
        Error::Auth(m)
    } else {
        auth_error("creating account: ", detail)
    }
}

/// The error for any other failed store operation: `what` names the
/// operation, `detail` is the underlying text.
pub fn store_error(what: &str, detail: &str) -> (e: Error)
    ensures
        e matches Error::Auth(m) && m@ == what@ + ": "@ + detail@,
{
    let mut m = String::from_str(what);
    m.append(": ");
    m.append(detail);
    Error::Auth(m)
}

} // verus!
