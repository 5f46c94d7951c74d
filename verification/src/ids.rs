//! Identifier newtypes for accounts, worlds and connections (UUIDs held as
//! their 128-bit value).

use vstd::prelude::*;

verus! {

/// The lower-case hex digit of `d` (< 16).
pub open spec fn hex_lower(d: int) -> char {
    if d < 10 {
        (48 + d) as char
    } else {
        (87 + d) as char
    }
}

/// The `k`-th hex digit of `v`, counted from the most significant (0..32).
pub open spec fn uuid_nibble(v: u128, k: int) -> int {
    ((v >> ((124 - 4 * k) as u128)) & 15u128) as int
}

/// The canonical hyphenated lower-case text of a UUID:
/// `xxxxxxxx-xxxx-xxxx-xxxx-xxxxxxxxxxxx`.
pub open spec fn uuid_text(v: u128) -> Seq<char> {
    Seq::new(
        36,
        |i: int|
            if i == 8 || i == 13 || i == 18 || i == 23 {
                '-'
            } else {
                let k = if i < 8 {
                    i
                } else if i < 13 {
                    i - 1
                } else if i < 18 {
                    i - 2
                } else if i < 23 {
                    i - 3
                } else {
                    i - 4
                };
                hex_lower(uuid_nibble(v, k))
            },
    )
}

proof fn lemma_hex_lower_injective(x: int, y: int)
    requires
        0 <= x < 16,
        0 <= y < 16,
        hex_lower(x) == hex_lower(y),
    ensures
        x == y,
{
    assert(hex_lower(x) as int == if x < 10 { 48 + x } else { 87 + x });
    assert(hex_lower(y) as int == if y < 10 { 48 + y } else { 87 + y });
}

proof fn lemma_top_nibble(v: u128)
    ensures
        v >> 124u128 == (v >> 124u128) & 15u128,
        v >> 0u128 == v,
{
    assert(v >> 124u128 == (v >> 124u128) & 15u128) by (bit_vector);
    assert(v >> 0u128 == v) by (bit_vector);
}

/// Two values that agree above bit `s + 4` and on the hex digit at bit `s`
/// agree above bit `s`.
proof fn lemma_shift_step(a: u128, b: u128, s: u128, t: u128)
    requires
        s <= 120,
        t == s + 4,
        a >> t == b >> t,
        (a >> s) & 15u128 == (b >> s) & 15u128,
    ensures
        a >> s == b >> s,
{
    assert(a >> s == b >> s) by (bit_vector)
        requires
            s <= 120,
            t == s + 4,
            a >> t == b >> t,
            (a >> s) & 15u128 == (b >> s) & 15u128,
    ;
}

/// Values with the same first `k` hex digits agree above their last
/// `32 - k` digits.
proof fn lemma_upper_digits(a: u128, b: u128, k: int)
    requires
        1 <= k <= 32,
        forall|j: int| 0 <= j < k ==> #[trigger] uuid_nibble(a, j) == uuid_nibble(b, j),
    ensures
        a >> ((128 - 4 * k) as u128) == b >> ((128 - 4 * k) as u128),
    decreases k,
{
    if k == 1 {
        assert(uuid_nibble(a, 0) == uuid_nibble(b, 0));
        lemma_top_nibble(a);
        lemma_top_nibble(b);
    } else {
        lemma_upper_digits(a, b, k - 1);
        assert(uuid_nibble(a, k - 1) == uuid_nibble(b, k - 1));
        lemma_shift_step(a, b, (128 - 4 * k) as u128, (132 - 4 * k) as u128);
    }
}

proof fn lemma_nibble_small(v: u128, sh: u128)
    ensures
        (v >> sh) & 15u128 < 16,
{
    assert((v >> sh) & 15u128 < 16) by (bit_vector);
}

/// Different values have different texts.
pub proof fn lemma_uuid_text_injective(a: u128, b: u128)
    requires
        uuid_text(a) == uuid_text(b),
    ensures
        a == b,
{
    assert forall|k: int| 0 <= k < 32 implies uuid_nibble(a, k) == uuid_nibble(b, k) by {
        let i = if k < 8 {
            k
        } else if k < 12 {
            k + 1
        } else if k < 16 {
            k + 2
        } else if k < 20 {
            k + 3
        } else {
            k + 4
        };
        assert(uuid_text(a)[i] == uuid_text(b)[i]);
        lemma_nibble_small(a, (124 - 4 * k) as u128);
        lemma_nibble_small(b, (124 - 4 * k) as u128);
        assert(uuid_text(a)[i] == hex_lower(uuid_nibble(a, k)));
        assert(uuid_text(b)[i] == hex_lower(uuid_nibble(b, k)));
        lemma_hex_lower_injective(uuid_nibble(a, k), uuid_nibble(b, k));
    }
    lemma_upper_digits(a, b, 32);
    lemma_top_nibble(a);
    lemma_top_nibble(b);
}

/// The UUID that `uuid::Uuid::parse_str` reads from a text, if any.
pub uninterp spec fn uuid_parse(s: Seq<char>) -> Option<u128>;

/// Is `v` a random (version 4) UUID of the RFC 4122 variant? Its text's
/// version digit (the 13th hex digit) is `4`, and its variant digit (the
/// 17th) is `8`, `9`, `a` or `b`.
pub open spec fn is_random_uuid(v: u128) -> bool {
    &&& uuid_nibble(v, 12) == 4
    &&& 8 <= uuid_nibble(v, 16) <= 11
}

/// Calls `uuid::Uuid::new_v4` and takes its 128-bit value. The value is
/// random; `new_v4` sets the version bits to 4 and the variant bits to the
/// RFC 4122 variant, and that is all that is stated.
#[verifier::external_body]
fn random_uuid_value() -> (v: u128)
    ensures
        is_random_uuid(v),
{
    uuid::Uuid::new_v4().as_u128()
}

/// Calls the `Display` impl of `uuid::Uuid` (`Uuid::from_u128(v)`), which
/// writes the hyphenated lower-case form.
#[verifier::external_body]
fn uuid_value_text(v: u128) -> (s: String)
    ensures
        s@ == uuid_text(v),
{
    uuid::Uuid::from_u128(v).to_string()
}

/// Calls `uuid::Uuid::parse_str`: the 128-bit value it reads, or the text
/// of its error. It accepts the hyphenated form among others, so the
/// hyphenated text of a value reads back as that value. Nothing is stated
/// of the error's text.
#[verifier::external_body]
fn parse_uuid_value(s: &str) -> (r: Result<u128, String>)
    ensures
        r.is_ok() == uuid_parse(s@).is_some(),
        r.is_ok() ==> uuid_parse(s@) == Some(r.unwrap()),
        (exists|w: u128| s@ == uuid_text(w)) ==> (r.is_ok() && s@ == uuid_text(r.unwrap())),
{
    uuid::Uuid::parse_str(s).map(|u| u.as_u128()).map_err(|e| e.to_string())
}

/// Identifies an account.
#[derive(Clone, Copy, Debug, PartialEq, Eq, Hash, Structural)]
pub struct AccountId {
    pub value: u128,
}

/// Identifies a world.
#[derive(Clone, Copy, Debug, PartialEq, Eq, Hash, Structural)]
pub struct WorldId {
    pub value: u128,
}

/// Identifies a connection.
#[derive(Clone, Copy, Debug, PartialEq, Eq, Hash, Structural)]
pub struct ConnectionId {
    pub value: u128,
}

impl AccountId {
    /// A fresh random (v4) identifier.
    pub fn new() -> (id: Self)
        ensures
            is_random_uuid(id.value),
    {
        AccountId { value: random_uuid_value() }
    }

    /// The identifier with the given UUID value.
    pub fn from_u128(value: u128) -> (id: Self)
        ensures
            id.value == value,
    {
        AccountId { value }
    }

    /// The UUID value.
    pub fn as_u128(&self) -> (v: u128)
        ensures
            v == self.value,
    {
        self.value
    }

    /// The hyphenated text of the identifier.
    pub fn to_text(&self) -> (s: String)
        ensures
            s@ == uuid_text(self.value),
    {
        uuid_value_text(self.value)
    }

    /// Reads an identifier from its text; on failure, the UUID parser's
    /// account of what is wrong.
    pub fn parse(s: &str) -> (r: Result<Self, String>)
        ensures
            match uuid_parse(s@) {
                Some(v) => r == Ok::<AccountId, String>(AccountId { value: v }),
                None => r is Err,
            },
            forall|v: u128|
                s@ == #[trigger] uuid_text(v) ==> r == Ok::<AccountId, String>(
                    AccountId { value: v },
                ),
    {
        let r = parse_uuid_value(s);
        proof {
            assert forall|v: u128| s@ == #[trigger] uuid_text(v) implies r == Ok::<u128, String>(
                v,
            ) by {
                lemma_uuid_text_injective(v, r.unwrap());
            }
        }
        match r {
            Ok(v) => Ok(AccountId { value: v }),
            Err(e) => Err(e),
        }
    }
}

impl WorldId {
    /// A fresh random (v4) identifier.
    pub fn new() -> (id: Self)
        ensures
            is_random_uuid(id.value),
    {
        WorldId { value: random_uuid_value() }
    }

    /// The UUID value.
    pub fn as_u128(&self) -> (v: u128)
        ensures
            v == self.value,
    {
        self.value
    }

    /// The hyphenated text of the identifier.
    pub fn to_text(&self) -> (s: String)
        ensures
            s@ == uuid_text(self.value),
    {
        uuid_value_text(self.value)
    }
}

impl ConnectionId {
    /// A fresh random (v4) identifier.
    pub fn new() -> (id: Self)
        ensures
            is_random_uuid(id.value),
    {
        ConnectionId { value: random_uuid_value() }
    }

    /// The hyphenated text of the identifier.
    pub fn to_text(&self) -> (s: String)
        ensures
            s@ == uuid_text(self.value),
    {
        uuid_value_text(self.value)
    }
}

} // verus!
