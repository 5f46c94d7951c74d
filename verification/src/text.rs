//! Character-level text helpers: Unicode trimming, ASCII case folding,
//! decimal rendering and parsing, and space padding.

use vstd::prelude::*;
use vstd::string::StrSliceExecFns;
use vstd::string::StringExecFns;

verus! {

broadcast use vstd::string::group_string_axioms;

/// The Unicode `White_Space` property, which `char::is_whitespace` and
/// `str::trim` use.
pub open spec fn is_white_space(c: char) -> bool {
    let u = c as u32;
    ||| (0x09 <= u && u <= 0x0D)
    ||| u == 0x20
    ||| u == 0x85
    ||| u == 0xA0
    ||| u == 0x1680
    ||| (0x2000 <= u && u <= 0x200A)
    ||| u == 0x2028
    ||| u == 0x2029
    ||| u == 0x202F
    ||| u == 0x205F
    ||| u == 0x3000
}

/// `s` without its leading white space.
pub open spec fn trim_start(s: Seq<char>) -> Seq<char>
    decreases s.len(),
{
    if s.len() > 0 && is_white_space(s[0]) {
        trim_start(s.drop_first())
    } else {
        s
    }
}

/// `s` without its trailing white space.
pub open spec fn trim_end(s: Seq<char>) -> Seq<char>
    decreases s.len(),
{
    if s.len() > 0 && is_white_space(s.last()) {
        trim_end(s.drop_last())
    } else {
        s
    }
}

/// `s` without leading and trailing white space, as `str::trim` gives it.
pub open spec fn trimmed(s: Seq<char>) -> Seq<char> {
    trim_end(trim_start(s))
}

/// ASCII lower-casing of one character, as `char::to_ascii_lowercase` does it.
pub open spec fn ascii_lower(c: char) -> char {
    if 'A' <= c && c <= 'Z' {
        ((c as u32) + 32) as char
    } else {
        c
    }
}

/// ASCII lower-casing of a whole sequence, as `str::to_ascii_lowercase` does it.
pub open spec fn ascii_lower_seq(s: Seq<char>) -> Seq<char> {
    s.map_values(|c: char| ascii_lower(c))
}

/// The character of a decimal digit.
pub open spec fn digit_char(d: nat) -> char
    recommends
        d < 10,
{
    ((d + 48) as u32) as char
}

/// The decimal rendering of `n`, without sign or leading zeros.
pub open spec fn decimal(n: nat) -> Seq<char>
    decreases n,
{
    if n < 10 {
        seq![digit_char(n)]
    } else {
        decimal(n / 10).push(digit_char(n % 10))
    }
}

/// `n` spaces.
pub open spec fn spaces(n: nat) -> Seq<char> {
    Seq::new(n, |i: int| ' ')
}

/// Is `c` an ASCII decimal digit?
pub open spec fn is_digit(c: char) -> bool {
    '0' <= c && c <= '9'
}

/// The number that a sequence of decimal digits denotes.
pub open spec fn digits_value(s: Seq<char>) -> nat
    decreases s.len(),
{
    if s.len() == 0 {
        0
    } else {
        digits_value(s.drop_last()) * 10 + ((s.last() as u32) - 48) as nat
    }
}

/// The digits part of a number: `s` without one leading `+`.
pub open spec fn unsigned_digits(s: Seq<char>) -> Seq<char> {
    if s.len() > 0 && s[0] == '+' {
        s.drop_first()
    } else {
        s
    }
}

/// Is every character of `s` a decimal digit?
pub open spec fn all_digits(s: Seq<char>) -> bool {
    forall|i: int| 0 <= i < s.len() ==> is_digit(#[trigger] s[i])
}

/// What `usize::from_str` accepts: an optional `+` followed by at least one
/// decimal digit, denoting a value that fits in `usize`.
pub open spec fn parse_usize_spec(s: Seq<char>) -> Option<nat> {
    let digits = unsigned_digits(s);
    if digits.len() > 0 && all_digits(digits) && digits_value(digits) <= usize::MAX {
        Some(digits_value(digits))
    } else {
        None
    }
}

/// The characters of a string slice, in order.
pub fn chars_of(s: &str) -> (v: Vec<char>)
    ensures
        v@ == s@,
{
    let mut v: Vec<char> = Vec::new();
    for c in it: s.chars()
        invariant
            it.seq() == s@,
            v@ == it.seq().take(it.index() as int),
    {
        v.push(c);
    }
    v
}

/// Whether `c` has the Unicode `White_Space` property (`char::is_whitespace`).
pub fn is_whitespace_char(c: char) -> (b: bool)
    ensures
        b == is_white_space(c),
{
    let u = c as u32;
    (0x09 <= u && u <= 0x0D) || u == 0x20 || u == 0x85 || u == 0xA0 || u == 0x1680 || (0x2000
        <= u && u <= 0x200A) || u == 0x2028 || u == 0x2029 || u == 0x202F || u == 0x205F || u
        == 0x3000
}

proof fn lemma_trim_start_skip(s: Seq<char>, i: int)
    requires
        0 <= i <= s.len(),
        forall|j: int| 0 <= j < i ==> is_white_space(#[trigger] s[j]),
    ensures
        trim_start(s) == trim_start(s.subrange(i, s.len() as int)),
    decreases i,
{
    if i > 0 {
        assert(s.drop_first().subrange(i - 1, s.drop_first().len() as int) =~= s.subrange(
            i,
            s.len() as int,
        ));
        lemma_trim_start_skip(s.drop_first(), i - 1);
    } else {
        assert(s.subrange(0, s.len() as int) =~= s);
    }
}

proof fn lemma_trim_end_cut(s: Seq<char>, k: int)
    requires
        0 <= k <= s.len(),
        forall|j: int| k <= j < s.len() ==> is_white_space(#[trigger] s[j]),
    ensures
        trim_end(s) == trim_end(s.subrange(0, k)),
    decreases s.len() - k,
{
    if k < s.len() {
        assert(s.drop_last().subrange(0, k) =~= s.subrange(0, k));
        lemma_trim_end_cut(s.drop_last(), k);
    } else {
        assert(s.subrange(0, k) =~= s);
    }
}

proof fn lemma_trim_start_front(s: Seq<char>)
    ensures
        trim_start(s).len() == 0 || !is_white_space(trim_start(s)[0]),
    decreases s.len(),
{
    if s.len() > 0 && is_white_space(s[0]) {
        lemma_trim_start_front(s.drop_first());
    }
}

proof fn lemma_trim_end_shape(s: Seq<char>)
    ensures
        trim_end(s).len() <= s.len(),
        trim_end(s) == s.take(trim_end(s).len() as int),
        trim_end(s).len() == 0 || !is_white_space(trim_end(s).last()),
    decreases s.len(),
{
    if s.len() > 0 && is_white_space(s.last()) {
        lemma_trim_end_shape(s.drop_last());
        assert(s.drop_last().take(trim_end(s).len() as int) =~= s.take(trim_end(s).len() as int));
    } else {
        assert(s.take(s.len() as int) =~= s);
    }
}

/// Trimming twice is trimming once.
pub proof fn lemma_trimmed_idempotent(s: Seq<char>)
    ensures
        trimmed(trimmed(s)) == trimmed(s),
{
    let t = trim_start(s);
    let u = trim_end(t);
    lemma_trim_start_front(s);
    lemma_trim_end_shape(t);
    if u.len() > 0 {
        assert(u[0] == t[0]);
    }
    assert(trim_start(u) == u);
    assert(trim_end(u) == u);
}

/// `str::trim`: the slice without leading and trailing Unicode white space.
pub fn trim(s: &str) -> (r: &str)
    ensures
        r@ == trimmed(s@),
{
    let v = chars_of(s);
    let n = v.len();
    let mut start: usize = 0;
    while start < n && is_whitespace_char(v[start])
        invariant
            v@ == s@,
            n == v.len(),
            start <= n,
            forall|j: int| 0 <= j < start ==> is_white_space(#[trigger] v@[j]),
        decreases n - start,
    {
        start = start + 1;
    }
    proof {
        lemma_trim_start_skip(s@, start as int);
    }
    let ghost rest = s@.subrange(start as int, n as int);
    let mut end: usize = n;
    while end > start && is_whitespace_char(v[end - 1])
        invariant
            v@ == s@,
            n == v.len(),
            start <= end <= n,
            rest == s@.subrange(start as int, n as int),
            forall|j: int| end <= j < n ==> is_white_space(#[trigger] v@[j]),
        decreases end - start,
    {
        end = end - 1;
    }
    proof {
        if start < n {
            assert(!is_white_space(rest[0]));
        }
        assert(trim_start(rest) == rest);
        assert forall|j: int| end - start <= j < rest.len() implies is_white_space(
            #[trigger] rest[j],
        ) by {
            assert(rest[j] == v@[j + start]);
        }
        lemma_trim_end_cut(rest, end - start);
        assert(rest.subrange(0, end - start) =~= s@.subrange(start as int, end as int));
        if end > start {
            assert(!is_white_space(s@[end - 1]));
        }
    }
    s.substring_char(start, end)
}

/// `char::to_ascii_lowercase`.
pub fn lower_char(c: char) -> (r: char)
    ensures
        r == ascii_lower(c),
{
    if 'A' <= c && c <= 'Z' {
        let u = (c as u32) + 32;
        proof {
            assert(u == (c as u32) + 32);
        }
        char_from_ascii_code(u)
    } else {
        c
    }
}

/// The character whose code is `u`, for `u` in the ASCII range.
fn char_from_ascii_code(u: u32) -> (c: char)
    requires
        u < 128,
    ensures
        c == u as char,
{
    let b = u as u8;
    b as char
}

/// Does `v`, read case-insensitively in ASCII, spell `word`? (`word` is lower case)
pub fn eq_ignore_ascii_case(v: &Vec<char>, word: &str) -> (b: bool)
    ensures
        b == (ascii_lower_seq(v@) == word@),
{
    let w = chars_of(word);
    if v.len() != w.len() {
        assert(ascii_lower_seq(v@).len() != word@.len());
        return false;
    }
    let mut i: usize = 0;
    while i < v.len()
        invariant
            w@ == word@,
            v.len() == w.len(),
            i <= v.len(),
            forall|j: int| 0 <= j < i ==> ascii_lower(#[trigger] v@[j]) == w@[j],
        decreases v.len() - i,
    {
        if lower_char(v[i]) != w[i] {
            assert(ascii_lower_seq(v@)[i as int] != word@[i as int]);
            return false;
        }
        i = i + 1;
    }
    assert(ascii_lower_seq(v@) =~= word@);
    true
}

/// Do two string slices hold the same characters?
pub fn same_text(a: &str, b: &str) -> (r: bool)
    ensures
        r == (a@ == b@),
{
    let x = chars_of(a);
    let y = chars_of(b);
    if x.len() != y.len() {
        return false;
    }
    let mut i: usize = 0;
    while i < x.len()
        invariant
            x@ == a@,
            y@ == b@,
            x.len() == y.len(),
            i <= x.len(),
            forall|j: int| 0 <= j < i ==> x@[j] == y@[j],
        decreases x.len() - i,
    {
        if x[i] != y[i] {
            return false;
        }
        i = i + 1;
    }
    assert(x@ =~= y@);
    true
}

/// The one-character string of a decimal digit.
fn digit_str(d: usize) -> (r: &'static str)
    requires
        d < 10,
    ensures
        r@ == seq![digit_char(d as nat)],
{
    proof {
        reveal_strlit("0");
        reveal_strlit("1");
        reveal_strlit("2");
        reveal_strlit("3");
        reveal_strlit("4");
        reveal_strlit("5");
        reveal_strlit("6");
        reveal_strlit("7");
        reveal_strlit("8");
        reveal_strlit("9");
    }
    let r = if d == 0 {
        "0"
    } else if d == 1 {
        "1"
    } else if d == 2 {
        "2"
    } else if d == 3 {
        "3"
    } else if d == 4 {
        "4"
    } else if d == 5 {
        "5"
    } else if d == 6 {
        "6"
    } else if d == 7 {
        "7"
    } else if d == 8 {
        "8"
    } else {
        "9"
    };
    assert(r@ =~= seq![digit_char(d as nat)]);
    r
}

/// Appends the decimal rendering of `n` to `out`.
pub fn append_decimal_u64(out: &mut String, n: u64)
    ensures
        final(out)@ == old(out)@ + decimal(n as nat),
    decreases n,
{
    if n >= 10 {
        append_decimal_u64(out, n / 10);
    }
    out.append(digit_str((n % 10) as usize));
    proof {
        if n >= 10 {
            assert(decimal(n as nat) == decimal((n / 10) as nat).push(digit_char((n % 10) as nat)));
        }
    }
    assert(final(out)@ =~= old(out)@ + decimal(n as nat));
}

/// Appends the decimal rendering of `n` to `out`.
pub fn append_decimal(out: &mut String, n: usize)
    ensures
        final(out)@ == old(out)@ + decimal(n as nat),
{
    append_decimal_u64(out, n as u64);
}

/// The decimal rendering of a signed number, with `-` when negative.
pub open spec fn signed_decimal(x: int) -> Seq<char> {
    if x < 0 {
        seq!['-'] + decimal((-x) as nat)
    } else {
        decimal(x as nat)
    }
}

/// Appends the decimal rendering of the signed `x` to `out` (`i64::to_string`).
pub fn append_signed_decimal(out: &mut String, x: i64)
    ensures
        final(out)@ == old(out)@ + signed_decimal(x as int),
{
    if x < 0 {
        proof {
            reveal_strlit("-");
        }
        let ghost before = out@;
        out.append("-");
        let m: u64 = if x == i64::MIN {
            9223372036854775808u64
        } else {
            (-x) as u64
        };
        append_decimal_u64(out, m);
        assert(out@ =~= before + signed_decimal(x as int));
    } else {
        append_decimal_u64(out, x as u64);
    }
}

/// The decimal rendering of `n` (`usize::to_string`).
pub fn decimal_string(n: usize) -> (s: String)
    ensures
        s@ == decimal(n as nat),
{
    let mut s = String::new();
    append_decimal(&mut s, n);
    assert(s@ =~= decimal(n as nat));
    s
}

/// Appends `n` spaces to `out`.
pub fn append_spaces(out: &mut String, n: usize)
    ensures
        final(out)@ == old(out)@ + spaces(n as nat),
{
    proof {
        reveal_strlit(" ");
    }
    let mut i: usize = 0;
    while i < n
        invariant
            i <= n,
            out@ == old(out)@ + spaces(i as nat),
        decreases n - i,
    {
        proof {
            reveal_strlit(" ");
        }
        out.append(" ");
        i = i + 1;
        assert(" "@ =~= seq![' ']);
        assert(out@ =~= old(out)@ + spaces(i as nat));
    }
}

proof fn lemma_digits_value_push(s: Seq<char>, c: char)
    ensures
        digits_value(s.push(c)) == digits_value(s) * 10 + ((c as u32) - 48) as nat,
{
    assert(s.push(c).drop_last() =~= s);
}

/// `usize::from_str`: an optional `+` and decimal digits; `None` on anything
/// else or on overflow.
pub fn parse_usize(s: &str) -> (r: Option<usize>)
    ensures
        match parse_usize_spec(s@) {
            Some(n) => r == Some(n as usize),
            None => r.is_none(),
        },
{
    let v = chars_of(s);
    let mut i: usize = 0;
    if v.len() > 0 && v[0] == '+' {
        i = 1;
    }
    let ghost digits = unsigned_digits(s@);
    assert(digits =~= s@.subrange(i as int, s@.len() as int));
    if i >= v.len() {
        return None;
    }
    let start = i;
    let mut acc: usize = 0;
    while i < v.len()
        invariant
            v@ == s@,
            start <= i <= v.len(),
            start < v.len(),
            digits == s@.subrange(start as int, s@.len() as int),
            digits == unsigned_digits(s@),
            forall|j: int| start <= j < i ==> is_digit(#[trigger] v@[j]),
            acc == digits_value(s@.subrange(start as int, i as int)),
        decreases v.len() - i,
    {
        let c = v[i];
        if !('0' <= c && c <= '9') {
            assert(digits[i - start] == v@[i as int]);
            assert(!is_digit(digits[i - start]));
            return None;
        }
        let d = (c as u32 - 48) as usize;
        proof {
            assert(s@.subrange(start as int, i + 1) =~= s@.subrange(start as int, i as int).push(
                c,
            ));
            lemma_digits_value_push(s@.subrange(start as int, i as int), c);
        }
        if acc > (usize::MAX - d) / 10 {
            proof {
                assert(acc * 10 + d > usize::MAX) by (nonlinear_arith)
                    requires
                        acc > (usize::MAX - d) / 10,
                        d < 10,
                ;
                if all_digits(digits) {
                    lemma_prefix_value_bound(digits, (i - start + 1) as int);
                    assert(digits.subrange(0, (i - start + 1) as int) =~= s@.subrange(
                        start as int,
                        i + 1,
                    ));
                }
            }
            return None;
        }
        proof {
            assert(acc * 10 + d <= usize::MAX) by (nonlinear_arith)
                requires
                    acc <= (usize::MAX - d) / 10,
                    d < 10,
            ;
        }
        acc = acc * 10 + d;
        i = i + 1;
    }
    assert(s@.subrange(start as int, i as int) =~= digits);
    Some(acc)
}

proof fn lemma_prefix_value_bound(s: Seq<char>, k: int)
    requires
        0 <= k <= s.len(),
        forall|i: int| 0 <= i < s.len() ==> is_digit(#[trigger] s[i]),
    ensures
        digits_value(s.subrange(0, k)) <= digits_value(s),
    decreases s.len() - k,
{
    if k < s.len() {
        lemma_prefix_value_bound(s.drop_last(), k);
        assert(s.drop_last().subrange(0, k) =~= s.subrange(0, k));
        assert(digits_value(s) == digits_value(s.drop_last()) * 10 + ((s.last() as u32)
            - 48) as nat);
        assert(digits_value(s.drop_last()) <= digits_value(s)) by (nonlinear_arith)
            requires
                digits_value(s) == digits_value(s.drop_last()) * 10 + ((s.last() as u32)
                    - 48) as nat,
        ;
    } else {
        assert(s.subrange(0, k) =~= s);
    }
}

/// `t` with every occurrence of `p` replaced by `v`, scanning from the left
/// without overlaps, as `str::replace` does it (for a non-empty `p`).
#[verifier::opaque]
pub open spec fn replaced(t: Seq<char>, p: Seq<char>, v: Seq<char>) -> Seq<char>
    decreases t.len(),
{
    if p.len() == 0 || t.len() < p.len() {
        t
    } else if t.take(p.len() as int) == p {
        v + replaced(t.skip(p.len() as int), p, v)
    } else {
        seq![t[0]] + replaced(t.drop_first(), p, v)
    }
}

proof fn lemma_replaced_plain(t: Seq<char>, p: Seq<char>, v: Seq<char>)
    requires
        p.len() > 0,
        forall|j: int| 0 <= j < t.len() ==> t[j] != p[0],
    ensures
        replaced(t, p, v) == t,
    decreases t.len(),
{
    reveal(replaced);
    if t.len() >= p.len() {
        assert(t.take(p.len() as int)[0] != p[0]);
        lemma_replaced_plain(t.drop_first(), p, v);
        assert(seq![t[0]] + t.drop_first() =~= t);
    }
}

proof fn lemma_replaced_prefix(t: Seq<char>, p: Seq<char>, v: Seq<char>, k: int)
    requires
        p.len() > 0,
        0 <= k <= t.len(),
        forall|j: int| 0 <= j < k ==> t[j] != p[0],
    ensures
        replaced(t, p, v) == t.take(k) + replaced(t.skip(k), p, v),
    decreases k,
{
    reveal(replaced);
    if k == 0 {
        assert(t.skip(0) =~= t);
        assert(t.take(0) + t =~= t);
    } else if t.len() < p.len() {
        assert(t.take(k) + t.skip(k) =~= t);
    } else {
        assert(t.take(p.len() as int)[0] != p[0]);
        lemma_replaced_prefix(t.drop_first(), p, v, k - 1);
        assert(t.drop_first().skip(k - 1) =~= t.skip(k));
        assert(seq![t[0]] + t.drop_first().take(k - 1) =~= t.take(k));
    }
}

/// A text in which the pattern's first character occurs only once, where
/// the pattern itself stands, has that one occurrence replaced.
pub proof fn lemma_replaced_once(t: Seq<char>, p: Seq<char>, v: Seq<char>, k: int)
    requires
        p.len() > 0,
        0 <= k,
        k + p.len() <= t.len(),
        t.subrange(k, k + p.len()) == p,
        forall|j: int| 0 <= j < t.len() && j != k ==> t[j] != p[0],
    ensures
        replaced(t, p, v) == t.take(k) + v + t.skip(k + p.len()),
{
    reveal(replaced);
    lemma_replaced_prefix(t, p, v, k);
    let rest = t.skip(k);
    assert(rest.take(p.len() as int) =~= p);
    assert(rest.skip(p.len() as int) =~= t.skip(k + p.len()));
    lemma_replaced_plain(t.skip(k + p.len()), p, v);
}

/// Does `p` occur in `t` at position `i`?
fn occurs_at(t: &Vec<char>, i: usize, p: &Vec<char>) -> (b: bool)
    requires
        i <= t@.len(),
    ensures
        b == (i + p@.len() <= t@.len() && t@.skip(i as int).take(p@.len() as int) == p@),
{
    if p.len() > t.len() - i {
        return false;
    }
    let mut j: usize = 0;
    while j < p.len()
        invariant
            i + p@.len() <= t.len(),
            j <= p@.len(),
            forall|k: int| 0 <= k < j ==> t@[i + k] == p@[k],
        decreases p@.len() - j,
    {
        if t[i + j] != p[j] {
            assert(t@.skip(i as int).take(p@.len() as int)[j as int] != p@[j as int]);
            return false;
        }
        j = j + 1;
    }
    assert(t@.skip(i as int).take(p@.len() as int) =~= p@);
    true
}

/// `str::replace` for a non-empty pattern: `t` with every occurrence of `p`
/// replaced by `v`.
pub fn replace_all(t: &str, p: &str, v: &str) -> (r: String)
    requires
        p@.len() > 0,
    ensures
        r@ == replaced(t@, p@, v@),
{
    reveal(replaced);
    let tc = chars_of(t);
    let pc = chars_of(p);
    let mut out = String::new();
    let mut i: usize = 0;
    assert(t@.skip(0) =~= t@);
    while i < tc.len()
        invariant
            tc@ == t@,
            pc@ == p@,
            p@.len() > 0,
            i <= t@.len(),
            out@ + replaced(t@.skip(i as int), p@, v@) == replaced(t@, p@, v@),
        decreases t@.len() - i,
    {
        let ghost rest = t@.skip(i as int);
        proof {
            reveal(replaced);
        }
        if occurs_at(&tc, i, &pc) {
            out.append(v);
            assert(rest.skip(p@.len() as int) =~= t@.skip(i + p@.len()));
            i = i + pc.len();
        } else {
            out.append(t.substring_char(i, i + 1));
            proof {
                assert(rest.drop_first() =~= t@.skip(i + 1));
                assert(t@.subrange(i as int, i + 1) =~= seq![rest[0]]);
                if rest.len() >= p@.len() {
                    assert(rest.take(p@.len() as int) != p@);
                }
            }
            i = i + 1;
        }
    }
    assert(t@.skip(i as int).len() == 0);
    out
}

} // verus!
