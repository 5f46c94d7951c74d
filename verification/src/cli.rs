//! The account-management commands' checks and text layout.

use vstd::prelude::*;
use vstd::string::StringExecFns;

use crate::session::pad_right;
use crate::text;
use crate::text::{signed_decimal, trimmed};

verus! {

broadcast use vstd::string::group_string_axioms;

/// `time::OffsetDateTime`, carried through unchanged.
#[verifier::external_type_specification]
#[verifier::external_body]
pub struct ExOffsetDateTime(time::OffsetDateTime);

/// `time::format_description::BorrowedFormatItem`, carried through unchanged.
#[verifier::external_type_specification]
#[verifier::external_body]
pub struct ExBorrowedFormatItem<'a>(time::format_description::BorrowedFormatItem<'a>);

/// The first Unix time (-9999-01-01 00:00:00 UTC) of the dates that
/// `time::Date` always supports.
pub const FIRST_SUPPORTED_TIMESTAMP: i64 = -377705203200;

/// The last Unix time (9999-12-31 23:59:59 UTC) of the dates that
/// `time::Date` always supports.
pub const LAST_SUPPORTED_TIMESTAMP: i64 = 253402300799;

/// The first Unix time (-999999-01-01 00:00:00 UTC) that `time::Date` can
/// hold with any of its features.
pub const FIRST_POSSIBLE_TIMESTAMP: i64 = -31619087683200;

/// The last Unix time (999999-12-31 23:59:59 UTC) that `time::Date` can
/// hold with any of its features.
pub const LAST_POSSIBLE_TIMESTAMP: i64 = 31494784780799;

/// The layout of a rendered time.
pub const TIMESTAMP_LAYOUT: &'static str = "[year]-[month]-[day] [hour]:[minute]:[second]";

/// Whether `time::OffsetDateTime::from_unix_timestamp` accepts a Unix time.
pub uninterp spec fn unix_in_range(secs: i64) -> bool;

/// What `time::OffsetDateTime::format` gives, with the items of
/// [`TIMESTAMP_LAYOUT`], for the UTC date and time at Unix time `secs`
/// (`None` on its error).
pub uninterp spec fn formatted_utc(secs: i64) -> Option<Seq<char>>;

/// A UTC date and time, kept with the Unix time it was made from.
struct UtcDateTime {
    secs: i64,
    dt: time::OffsetDateTime,
}

/// The parsed items of [`TIMESTAMP_LAYOUT`].
struct TimestampLayout {
    items: Vec<time::format_description::BorrowedFormatItem<'static>>,
}

/// Calls `time::OffsetDateTime::from_unix_timestamp`; `None` on its error,
/// which it gives exactly for times outside the dates it holds. Those
/// always include the years -9999 to 9999, and never go past the years
/// -999999 and 999999 (the `large-dates` feature decides between the two).
#[verifier::external_body]
fn datetime_from_unix(secs: i64) -> (r: Option<UtcDateTime>)
    ensures
        r.is_some() == unix_in_range(secs),
        r matches Some(t) ==> t.secs == secs,
        FIRST_SUPPORTED_TIMESTAMP <= secs <= LAST_SUPPORTED_TIMESTAMP ==> r.is_some(),
        secs < FIRST_POSSIBLE_TIMESTAMP || secs > LAST_POSSIBLE_TIMESTAMP ==> r.is_none(),
{
    time::OffsetDateTime::from_unix_timestamp(secs).ok().map(|dt| UtcDateTime { secs, dt })
}

/// Calls `time::format_description::parse` on [`TIMESTAMP_LAYOUT`], a valid
/// description, which it accepts.
#[verifier::external_body]
fn timestamp_layout() -> (r: Option<TimestampLayout>)
    ensures
        r.is_some(),
{
    time::format_description::parse(TIMESTAMP_LAYOUT).ok().map(|items| TimestampLayout { items })
}

/// Calls `time::OffsetDateTime::format` with the parsed layout; `None` on
/// its error. A `UtcDateTime` is only made by `datetime_from_unix` and a
/// `TimestampLayout` only by `timestamp_layout`, so the text is
/// `formatted_utc` of the time.
#[verifier::external_body]
fn format_datetime(t: &UtcDateTime, layout: &TimestampLayout) -> (r: Option<String>)
    ensures
        match r {
            Some(text) => formatted_utc(t.secs) == Some(text@),
            None => formatted_utc(t.secs) is None,
        },
{
    t.dt.format(layout.items.as_slice()).ok()
}

/// The decimal number of seconds, for a time that cannot be rendered as a
/// date.
fn seconds_text(epoch_secs: i64) -> (s: String)
    ensures
        s@ == signed_decimal(epoch_secs as int),
{
    let mut s = String::new();
    text::append_signed_decimal(&mut s, epoch_secs);
    s
}

/// How a Unix time is rendered: its UTC date and time in
/// [`TIMESTAMP_LAYOUT`] when the `time` crate holds and formats it, else
/// its number of seconds.
pub open spec fn timestamp_text(secs: i64) -> Seq<char> {
    if unix_in_range(secs) {
        match formatted_utc(secs) {
            Some(text) => text,
            None => signed_decimal(secs as int),
        }
    } else {
        signed_decimal(secs as int)
    }
}

/// Renders a Unix time as `YYYY-MM-DD HH:MM:SS` (UTC) through the `time`
/// crate; a time that crate cannot represent or format is rendered as its
/// number of seconds.
pub fn format_timestamp(epoch_secs: i64) -> (s: String)
    ensures
        s@ == timestamp_text(epoch_secs),
        FIRST_SUPPORTED_TIMESTAMP <= epoch_secs <= LAST_SUPPORTED_TIMESTAMP ==> unix_in_range(
            epoch_secs,
        ),
        epoch_secs < FIRST_POSSIBLE_TIMESTAMP || epoch_secs > LAST_POSSIBLE_TIMESTAMP ==> s@
            == signed_decimal(epoch_secs as int),
{
    match datetime_from_unix(epoch_secs) {
        None => seconds_text(epoch_secs),
        Some(t) => match timestamp_layout() {
            None => seconds_text(epoch_secs),
            Some(layout) => match format_datetime(&t, &layout) {
                Some(text) => text,
                None => seconds_text(epoch_secs),
            },
        },
    }
}

/// Checks the user name given to `account create`: it is trimmed, and must
/// not be empty.
pub fn check_new_username(username: &str) -> (r: Result<String, String>)
    ensures
        trimmed(username@).len() == 0 ==> (r matches Err(m) && m@ == "Username cannot be empty."@),
        trimmed(username@).len() > 0 ==> (r matches Ok(u) && u@ == trimmed(username@)),
{
    let t = text::trim(username);
    if t.is_empty() {
        Err(String::from_str("Username cannot be empty."))
    } else {
        Ok(String::from_str(t))
    }
}

/// Checks the password given to `account create` and its confirmation: they
/// must match, and must not be empty.
pub fn check_new_password(password: &str, confirm: &str) -> (r: Result<(), String>)
    ensures
        password@ != confirm@ ==> (r matches Err(m) && m@ == "Passwords do not match."@),
        password@ == confirm@ && password@.len() == 0 ==> (r matches Err(m) && m@
            == "Password cannot be empty."@),
        password@ == confirm@ && password@.len() > 0 ==> r is Ok,
{
    if !text::same_text(password, confirm) {
        return Err(String::from_str("Passwords do not match."));
    }
    if password.is_empty() {
        return Err(String::from_str("Password cannot be empty."));
    }
    Ok(())
}

/// `s` without trailing copies of `c` (`str::trim_end_matches` with a char).
pub open spec fn trim_end_char(s: Seq<char>, c: char) -> Seq<char>
    decreases s.len(),
{
    if s.len() > 0 && s.last() == c {
        trim_end_char(s.drop_last(), c)
    } else {
        s
    }
}

fn trim_end_matching(s: &str, c: char) -> (r: &str)
    ensures
        r@ == trim_end_char(s@, c),
{
    let v = text::chars_of(s);
    let mut end: usize = v.len();
    assert(s@.take(end as int) =~= s@);
    while end > 0 && v[end - 1] == c
        invariant
            v@ == s@,
            end <= v@.len(),
            trim_end_char(s@.take(end as int), c) == trim_end_char(s@, c),
        decreases end,
    {
        assert(s@.take(end as int).drop_last() =~= s@.take(end - 1));
        end = end - 1;
    }
    assert(s@.take(end as int) =~= s@.subrange(0, end as int));
    proof {
        if end > 0 {
            assert(s@.take(end as int).last() == v@[end - 1]);
        }
    }
    use_substring(s, end)
}

fn use_substring(s: &str, end: usize) -> (r: &str)
    requires
        end <= s@.len(),
    ensures
        r@ == s@.subrange(0, end as int),
{
    vstd::string::StrSliceExecFns::substring_char(s, 0, end)
}

/// A line read from standard input without its line ending: trailing `\n`s,
/// then trailing `\r`s, are dropped.
pub fn strip_line_ending(line: &str) -> (r: &str)
    ensures
        r@ == trim_end_char(trim_end_char(line@, '\n'), '\r'),
{
    let a = trim_end_matching(line, '\n');
    trim_end_matching(a, '\r')
}

fn append_padded(out: &mut String, s: &str, width: usize)
    ensures
        final(out)@ == old(out)@ + pad_right(s@, width as nat),
{
    out.append(s);
    let n = text::chars_of(s).len();
    if n < width {
        text::append_spaces(out, width - n);
    }
    assert(final(out)@ =~= old(out)@ + pad_right(s@, width as nat));
}

/// One line of the account listing: identifier, user name and creation time
/// in columns of 38, 16 and 21 characters, then the last login.
pub open spec fn account_row_text(
    id: Seq<char>,
    username: Seq<char>,
    created: Seq<char>,
    last_login: Seq<char>,
) -> Seq<char> {
    pad_right(id, 38) + " "@ + pad_right(username, 16) + " "@ + pad_right(created, 21) + " "@
        + last_login
}

/// The header line of the account listing.
pub fn account_list_header() -> (s: String)
    ensures
        s@ == account_row_text("ID"@, "USERNAME"@, "CREATED"@, "LAST LOGIN"@),
{
    account_list_row("ID", "USERNAME", "CREATED", "LAST LOGIN")
}

/// One line of the account listing.
pub fn account_list_row(id: &str, username: &str, created: &str, last_login: &str) -> (s: String)
    ensures
        s@ == account_row_text(id@, username@, created@, last_login@),
{
    let mut s = String::new();
    append_padded(&mut s, id, 38);
    s.append(" ");
    append_padded(&mut s, username, 16);
    s.append(" ");
    append_padded(&mut s, created, 21);
    s.append(" ");
    s.append(last_login);
    assert(s@ =~= account_row_text(id@, username@, created@, last_login@));
    s
}

/// The last-login column: the formatted time, or `(never)`.
pub fn last_login_text(t: Option<i64>) -> (s: String)
    ensures
        t is None ==> s@ == "(never)"@,
        t matches Some(secs) ==> s@ == timestamp_text(secs),
{
    match t {
        None => String::from_str("(never)"),
        Some(secs) => format_timestamp(secs),
    }
}

/// The confirmation after creating an account.
pub fn account_created_message(username: &str) -> (s: String)
    ensures
        s@ == "Account '"@ + username@ + "' created."@,
{
    let mut s = String::from_str("Account '");
    s.append(username);
    s.append("' created.");
    s
}

} // verus!
