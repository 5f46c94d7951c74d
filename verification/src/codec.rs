//! Telnet line codec: IAC stripping, line splitting, overflow protection.
//!
//! The codec reads telnet-framed, line-oriented input from a byte buffer
//! that the caller keeps filling. It strips IAC command sequences
//! (including sub-negotiations, possibly split across reads), splits lines
//! on CRLF, LF or a lone CR, and decodes each line as UTF-8 (lossily).

use vstd::prelude::*;

use crate::constants;
use crate::error::{io_error_text, Error};
use crate::text;
use crate::text::decimal;
use vstd::string::StringExecFns;

verus! {

/// Interpret-as-command.
pub const IAC: u8 = 0xFF;

/// Sub-negotiation begin.
pub const SB: u8 = 0xFA;

/// Sub-negotiation end.
pub const SE: u8 = 0xF0;

/// Option verb WILL.
pub const WILL: u8 = 0xFB;

/// Option verb WONT.
pub const WONT: u8 = 0xFC;

/// Option verb DO.
pub const DO: u8 = 0xFD;

/// Option verb DONT.
pub const DONT: u8 = 0xFE;

/// The result of lossy UTF-8 decoding (`String::from_utf8_lossy`).
pub uninterp spec fn utf8_lossy(bytes: Seq<u8>) -> Seq<char>;

/// Calls `String::from_utf8_lossy`. Its documentation promises that valid
/// UTF-8 comes back unchanged; on other input each invalid sequence becomes
/// U+FFFD, which is left to the name `utf8_lossy`.
#[verifier::external_body]
fn decode_utf8_lossy(bytes: &[u8]) -> (s: String)
    ensures
        s@ == utf8_lossy(bytes@),
        vstd::utf8::valid_utf8(bytes@) ==> s@ == vstd::utf8::decode_utf8(bytes@),
{
    String::from_utf8_lossy(bytes).into_owned()
}

/// Is `b` one of the option verbs WILL, WONT, DO, DONT (three-byte commands)?
pub open spec fn is_option_verb(b: u8) -> bool {
    b == WILL || b == WONT || b == DO || b == DONT
}

/// Telnet command stripping of newly read input `rest`, starting in the
/// given sub-negotiation state. Returns the data bytes kept, the unread tail
/// (an incomplete command at the very end, left for the next read), and the
/// final state (in sub-negotiation, IAC pending inside it).
///
/// Outside a sub-negotiation, ordinary bytes are kept, `IAC IAC` keeps one
/// literal `IAC` byte, `IAC verb option` and `IAC cmd` are dropped, and
/// `IAC SB` enters a sub-negotiation. Inside a sub-negotiation every byte is
/// dropped: `IAC SE` ends it, and any other byte after an `IAC` (an escaped
/// `IAC IAC` among them) is data of the sub-negotiation.
pub open spec fn strip_spec(sub: bool, pend: bool, rest: Seq<u8>) -> (
    Seq<u8>,
    Seq<u8>,
    bool,
    bool,
)
    decreases rest.len(),
{
    if rest.len() == 0 {
        (Seq::empty(), Seq::empty(), sub, pend)
    } else if sub {
        if pend && rest[0] == SE {
            strip_spec(false, false, rest.drop_first())
        } else if pend {
            strip_spec(true, false, rest.drop_first())
        } else if rest[0] == IAC {
            strip_spec(true, true, rest.drop_first())
        } else {
            strip_spec(true, false, rest.drop_first())
        }
    } else if rest[0] != IAC {
        let r = strip_spec(false, pend, rest.drop_first());
        (seq![rest[0]] + r.0, r.1, r.2, r.3)
    } else if rest.len() == 1 {
        (Seq::empty(), rest, false, pend)
    } else if rest[1] == IAC {
        let r = strip_spec(false, pend, rest.subrange(2, rest.len() as int));
        (seq![IAC] + r.0, r.1, r.2, r.3)
    } else if is_option_verb(rest[1]) {
        if rest.len() < 3 {
            (Seq::empty(), rest, false, pend)
        } else {
            strip_spec(false, pend, rest.subrange(3, rest.len() as int))
        }
    } else if rest[1] == SB {
        strip_spec(true, false, rest.subrange(2, rest.len() as int))
    } else {
        strip_spec(false, pend, rest.subrange(2, rest.len() as int))
    }
}

/// Is `b` a line terminator byte (LF or CR)?
pub open spec fn is_terminator(b: u8) -> bool {
    b == 0x0A || b == 0x0D
}

/// Does `s` hold a line terminator?
pub open spec fn has_terminator(s: Seq<u8>) -> bool {
    exists|i: int| 0 <= i < s.len() && is_terminator(#[trigger] s[i])
}

/// The position of the first line terminator in `s`.
pub open spec fn first_terminator(s: Seq<u8>) -> int {
    choose|i: int|
        0 <= i < s.len() && is_terminator(s[i]) && forall|j: int|
            0 <= j < i ==> !is_terminator(#[trigger] s[j])
}

/// Where the line ending at `pos` stops: after `CRLF`, or after the single
/// terminator byte.
pub open spec fn terminator_end(s: Seq<u8>, pos: int) -> int {
    if s[pos] == 0x0D && pos + 1 < s.len() && s[pos + 1] == 0x0A {
        pos + 2
    } else {
        pos + 1
    }
}

/// The plain state of a codec.
#[derive(Clone, Copy, Debug, PartialEq, Eq)]
pub struct CodecState {
    pub max_line_length: usize,
    pub max_buffer_size: usize,
    pub discarding: bool,
    pub in_subnegotiation: bool,
    pub subneg_iac_pending: bool,
}

/// What one decoding step yields, in bytes.
pub enum DecodeStep {
    /// The input is over the buffer cap.
    Overflow,
    /// No item yet.
    Pending,
    /// A complete line (its bytes, without the terminator).
    Line(Seq<u8>),
    /// An over-long line was dropped.
    TooLong,
}

/// Line splitting of the stripped data `data` held by a codec in state `st`,
/// with `tail` bytes of an incomplete command still unread after it: what
/// it yields, the next state, the data still held, and whether the unread
/// tail is kept. An unterminated line is measured together with the unread
/// tail; when it is over the line limit, or while discarding, both go.
#[verifier::opaque]
pub open spec fn scan_spec(st: CodecState, data: Seq<u8>, tail: nat) -> (
    DecodeStep,
    CodecState,
    Seq<u8>,
    bool,
)
    decreases data.len(),
{
    if has_terminator(data) {
        let pos = first_terminator(data);
        let end = terminator_end(data, pos);
        if st.discarding {
            proof {
                lemma_first_terminator(data);
            }
            scan_spec(
                CodecState { discarding: false, ..st },
                data.subrange(end, data.len() as int),
                tail,
            )
        } else {
            (DecodeStep::Line(data.take(pos)), st, data.subrange(end, data.len() as int), true)
        }
    } else if st.discarding {
        (DecodeStep::Pending, st, Seq::empty(), false)
    } else if data.len() + tail > st.max_line_length {
        (DecodeStep::TooLong, CodecState { discarding: true, ..st }, Seq::empty(), false)
    } else {
        (DecodeStep::Pending, st, data, true)
    }
}

/// One decoding step of a codec in state `st` that holds the stripped data
/// `stored`, on newly read input `buf`: what it yields, the next state, the
/// data it then holds, and what stays unread in `buf` (an incomplete command
/// at its end, unless it went with a dropped line). Stored data is never
/// stripped again.
pub open spec fn decode_spec(st: CodecState, stored: Seq<u8>, buf: Seq<u8>) -> (
    DecodeStep,
    CodecState,
    Seq<u8>,
    Seq<u8>,
) {
    if stored.len() + buf.len() > st.max_buffer_size {
        (DecodeStep::Overflow, st, stored, buf)
    } else {
        let r = strip_spec(st.in_subnegotiation, st.subneg_iac_pending, buf);
        let st1 = CodecState { in_subnegotiation: r.2, subneg_iac_pending: r.3, ..st };
        let s = scan_spec(st1, stored + r.0, r.1.len());
        (s.0, s.1, s.2, if s.3 { r.1 } else { Seq::empty() })
    }
}

/// The decoding step at end of input: a normal step, and if it yields
/// nothing, the data still held becomes a last line (unless the codec was
/// discarding or inside a sub-negotiation); an incomplete command left
/// unread is dropped. Nothing is held afterwards.
pub open spec fn decode_eof_spec(st: CodecState, stored: Seq<u8>, buf: Seq<u8>) -> (
    DecodeStep,
    CodecState,
    Seq<u8>,
    Seq<u8>,
) {
    let d = decode_spec(st, stored, buf);
    let st1 = d.1;
    let data = d.2;
    match d.0 {
        DecodeStep::Pending => {
            if data.len() == 0 || st1.discarding {
                (
                    DecodeStep::Pending,
                    CodecState { discarding: false, ..st1 },
                    Seq::empty(),
                    Seq::empty(),
                )
            } else if st1.in_subnegotiation {
                (
                    DecodeStep::Pending,
                    CodecState { in_subnegotiation: false, subneg_iac_pending: false, ..st1 },
                    Seq::empty(),
                    Seq::empty(),
                )
            } else {
                (DecodeStep::Line(data), st1, Seq::empty(), Seq::empty())
            }
        },
        _ => d,
    }
}

/// Stripping never lengthens the input.
pub proof fn lemma_strip_len(sub: bool, pend: bool, rest: Seq<u8>)
    ensures
        strip_spec(sub, pend, rest).0.len() + strip_spec(sub, pend, rest).1.len() <= rest.len(),
    decreases rest.len(),
{
    if rest.len() > 0 {
        lemma_strip_len(false, false, rest.drop_first());
        lemma_strip_len(true, true, rest.drop_first());
        lemma_strip_len(true, false, rest.drop_first());
        lemma_strip_len(false, pend, rest.drop_first());
        if rest.len() >= 2 {
            lemma_strip_len(false, pend, rest.subrange(2, rest.len() as int));
            lemma_strip_len(true, false, rest.subrange(2, rest.len() as int));
        }
        if rest.len() >= 3 {
            lemma_strip_len(false, pend, rest.subrange(3, rest.len() as int));
        }
    }
}

/// The first terminator of a buffer that has one is well defined.
pub proof fn lemma_first_terminator(s: Seq<u8>)
    requires
        has_terminator(s),
    ensures
        0 <= first_terminator(s) < s.len(),
        is_terminator(s[first_terminator(s)]),
        forall|j: int| 0 <= j < first_terminator(s) ==> !is_terminator(#[trigger] s[j]),
        first_terminator(s) < terminator_end(s, first_terminator(s)) <= s.len(),
{
    let w = choose|i: int| 0 <= i < s.len() && is_terminator(#[trigger] s[i]);
    lemma_least_terminator(s, w);
}

proof fn lemma_least_terminator(s: Seq<u8>, w: int)
    requires
        0 <= w < s.len(),
        is_terminator(s[w]),
    ensures
        exists|i: int|
            0 <= i < s.len() && is_terminator(s[i]) && forall|j: int|
                0 <= j < i ==> !is_terminator(#[trigger] s[j]),
    decreases w,
{
    if exists|j: int| 0 <= j < w && is_terminator(#[trigger] s[j]) {
        let j = choose|j: int| 0 <= j < w && is_terminator(#[trigger] s[j]);
        lemma_least_terminator(s, j);
    }
}

/// Outside a sub-negotiation, input without IAC bytes passes through
/// stripping unchanged, with nothing left unread.
pub proof fn lemma_plain_input_unchanged(pend: bool, rest: Seq<u8>)
    requires
        !rest.contains(IAC),
    ensures
        strip_spec(false, pend, rest) == (rest, Seq::<u8>::empty(), false, pend),
    decreases rest.len(),
{
    if rest.len() > 0 {
        assert(rest[0] != IAC);
        assert(!rest.drop_first().contains(IAC)) by {
            if rest.drop_first().contains(IAC) {
                let i = choose|i: int| 0 <= i < rest.drop_first().len() && rest.drop_first()[i] == IAC;
                assert(rest[i + 1] == IAC);
            }
        }
        lemma_plain_input_unchanged(pend, rest.drop_first());
        assert(seq![rest[0]] + rest.drop_first() =~= rest);
    }
}

/// Line splitting never overflows.
proof fn lemma_scan_no_overflow(st: CodecState, data: Seq<u8>, tail: nat)
    ensures
        !(scan_spec(st, data, tail).0 is Overflow),
    decreases data.len(),
{
    reveal(scan_spec);
    if has_terminator(data) && st.discarding {
        lemma_first_terminator(data);
        let end = terminator_end(data, first_terminator(data));
        lemma_scan_no_overflow(
            CodecState { discarding: false, ..st },
            data.subrange(end, data.len() as int),
            tail,
        );
    }
}

/// The buffer-overflow error comes exactly when the stored data and the new
/// input together are over the codec's cap, and it leaves everything as it
/// was.
pub proof fn lemma_overflow_exactly_over_cap(st: CodecState, stored: Seq<u8>, buf: Seq<u8>)
    ensures
        (decode_spec(st, stored, buf).0 is Overflow) <==> stored.len() + buf.len()
            > st.max_buffer_size,
        stored.len() + buf.len() > st.max_buffer_size ==> decode_spec(st, stored, buf) == (
            DecodeStep::Overflow,
            st,
            stored,
            buf,
        ),
{
    let r = strip_spec(st.in_subnegotiation, st.subneg_iac_pending, buf);
    let st1 = CodecState { in_subnegotiation: r.2, subneg_iac_pending: r.3, ..st };
    lemma_scan_no_overflow(st1, stored + r.0, r.1.len());
}

/// A line that splitting yields never holds a line terminator byte.
pub proof fn lemma_scan_lines_hold_no_terminator(st: CodecState, data: Seq<u8>, tail: nat)
    ensures
        scan_spec(st, data, tail).0 matches DecodeStep::Line(line) ==> !has_terminator(line),
    decreases data.len(),
{
    reveal(scan_spec);
    if has_terminator(data) {
        lemma_first_terminator(data);
        let pos = first_terminator(data);
        if st.discarding {
            let end = terminator_end(data, pos);
            lemma_scan_lines_hold_no_terminator(
                CodecState { discarding: false, ..st },
                data.subrange(end, data.len() as int),
                tail,
            );
        } else {
            assert forall|i: int| 0 <= i < data.take(pos).len() implies !is_terminator(
                #[trigger] data.take(pos)[i],
            ) by {
                assert(data.take(pos)[i] == data[i]);
            }
        }
    }
}

/// A decoded line never holds a line terminator byte.
pub proof fn lemma_lines_hold_no_terminator(st: CodecState, stored: Seq<u8>, buf: Seq<u8>)
    ensures
        decode_spec(st, stored, buf).0 matches DecodeStep::Line(line) ==> !has_terminator(line),
{
    let r = strip_spec(st.in_subnegotiation, st.subneg_iac_pending, buf);
    let st1 = CodecState { in_subnegotiation: r.2, subneg_iac_pending: r.3, ..st };
    lemma_scan_lines_hold_no_terminator(st1, stored + r.0, r.1.len());
}

proof fn lemma_scan_too_long(st: CodecState, data: Seq<u8>, tail: nat)
    ensures
        scan_spec(st, data, tail).0 is TooLong ==> {
            &&& scan_spec(st, data, tail).1.discarding
            &&& scan_spec(st, data, tail).2.len() == 0
            &&& !scan_spec(st, data, tail).3
        },
        scan_spec(st, data, tail).0 is TooLong && !st.discarding ==> {
            &&& !has_terminator(data)
            &&& data.len() + tail > st.max_line_length
        },
    decreases data.len(),
{
    reveal(scan_spec);
    if has_terminator(data) && st.discarding {
        lemma_first_terminator(data);
        let end = terminator_end(data, first_terminator(data));
        lemma_scan_too_long(
            CodecState { discarding: false, ..st },
            data.subrange(end, data.len() as int),
            tail,
        );
    }
}

/// After `LineTooLong` the codec is discarding and holds nothing, and
/// nothing stays unread; from a codec that was not discarding,
/// `LineTooLong` comes only when the held data, with the new input
/// stripped, is an unterminated line that, together with an incomplete
/// command left unread after it, is longer than the line limit.
pub proof fn lemma_too_long_starts_discarding(st: CodecState, stored: Seq<u8>, buf: Seq<u8>)
    ensures
        decode_spec(st, stored, buf).0 is TooLong ==> {
            &&& decode_spec(st, stored, buf).1.discarding
            &&& decode_spec(st, stored, buf).2.len() == 0
            &&& decode_spec(st, stored, buf).3.len() == 0
        },
        decode_spec(st, stored, buf).0 is TooLong && !st.discarding ==> {
            let r = strip_spec(st.in_subnegotiation, st.subneg_iac_pending, buf);
            &&& !has_terminator(stored + r.0)
            &&& (stored + r.0).len() + r.1.len() > st.max_line_length
        },
{
    let r = strip_spec(st.in_subnegotiation, st.subneg_iac_pending, buf);
    let st1 = CodecState { in_subnegotiation: r.2, subneg_iac_pending: r.3, ..st };
    lemma_scan_too_long(st1, stored + r.0, r.1.len());
}

/// Decoding a terminated plain line (no IAC, no terminator inside, codec
/// idle and holding nothing, input within the cap) yields exactly that line
/// and holds what follows its terminator.
pub proof fn lemma_plain_line_roundtrip(st: CodecState, line: Seq<u8>, rest: Seq<u8>)
    requires
        !st.discarding,
        !st.in_subnegotiation,
        !line.contains(IAC),
        !rest.contains(IAC),
        !has_terminator(line),
        line.len() + 1 + rest.len() <= st.max_buffer_size,
    ensures
        decode_spec(st, Seq::empty(), line + seq![0x0Au8] + rest) == (
            DecodeStep::Line(line),
            st,
            rest,
            Seq::<u8>::empty(),
        ),
{
    reveal(scan_spec);
    let buf = line + seq![0x0Au8] + rest;
    assert(!buf.contains(IAC)) by {
        if buf.contains(IAC) {
            let i = choose|i: int| 0 <= i < buf.len() && buf[i] == IAC;
            if i < line.len() {
                assert(line[i] == IAC);
            } else if i > line.len() {
                assert(rest[i - line.len() - 1] == IAC);
            }
        }
    }
    lemma_plain_input_unchanged(st.subneg_iac_pending, buf);
    assert(Seq::<u8>::empty() + buf =~= buf);
    assert(is_terminator(buf[line.len() as int]));
    lemma_first_terminator(buf);
    let p = first_terminator(buf);
    if p < line.len() {
        assert(buf[p] == line[p]);
        assert(!is_terminator(line[p]));
    }
    assert(p == line.len());
    assert(buf.take(p) =~= line);
    assert(buf.subrange(p + 1, buf.len() as int) =~= rest);
}

/// How IAC-free input is split into reads does not matter: outside a
/// sub-negotiation, a step on held data `stored` and new input `more` is the
/// step on held data `stored + more` with nothing new (and within the cap
/// it leaves the codec the same).
pub proof fn lemma_reads_split_freely(st: CodecState, stored: Seq<u8>, more: Seq<u8>)
    requires
        !st.in_subnegotiation,
        !more.contains(IAC),
    ensures
        decode_spec(st, stored, more).0 == decode_spec(st, stored + more, Seq::empty()).0,
        decode_spec(st, stored, more).1 == decode_spec(st, stored + more, Seq::empty()).1,
        stored.len() + more.len() <= st.max_buffer_size ==> decode_spec(st, stored, more)
            == decode_spec(st, stored + more, Seq::empty()),
{
    lemma_plain_input_unchanged(st.subneg_iac_pending, more);
    let e = Seq::<u8>::empty();
    let r1 = strip_spec(st.in_subnegotiation, st.subneg_iac_pending, more);
    let r2 = strip_spec(st.in_subnegotiation, st.subneg_iac_pending, e);
    assert(r2 == (e, e, st.in_subnegotiation, st.subneg_iac_pending));
    assert(r1.0 == more && r1.1 == e && r1.2 == r2.2 && r1.3 == r2.3);
    assert(stored + more + e =~= stored + more);
    assert((stored + more).len() + e.len() == stored.len() + more.len());
    let st1 = CodecState { in_subnegotiation: r1.2, subneg_iac_pending: r1.3, ..st };
    let st2 = CodecState { in_subnegotiation: r2.2, subneg_iac_pending: r2.3, ..st };
    assert(st1 == st2);
    assert(stored + r1.0 == stored + more + r2.0);
    if stored.len() + more.len() <= st.max_buffer_size {
        assert(decode_spec(st, stored, more) == (
            scan_spec(st1, stored + more, 0).0,
            scan_spec(st1, stored + more, 0).1,
            scan_spec(st1, stored + more, 0).2,
            e,
        ));
        assert(decode_spec(st, stored + more, e) == (
            scan_spec(st1, stored + more, 0).0,
            scan_spec(st1, stored + more, 0).1,
            scan_spec(st1, stored + more, 0).2,
            e,
        ));
    }
}

/// Two reads of IAC-free input, the first of which yields nothing from a
/// codec that is not discarding, decode as one read of both: the codec holds
/// the first read's bytes unchanged, and the step on the second read yields
/// what a step on their concatenation yields, in the same state (holding
/// the same data, within the buffer cap).
pub proof fn lemma_two_reads_as_one(st: CodecState, stored: Seq<u8>, a: Seq<u8>, b: Seq<u8>)
    requires
        !st.in_subnegotiation,
        !st.discarding,
        !a.contains(IAC),
        !b.contains(IAC),
        decode_spec(st, stored, a).0 is Pending,
    ensures
        decode_spec(st, stored, a).1 == st,
        decode_spec(st, stored, a).2 == stored + a,
        decode_spec(st, stored, a).3.len() == 0,
        decode_spec(decode_spec(st, stored, a).1, decode_spec(st, stored, a).2, b).0
            == decode_spec(st, stored, a + b).0,
        decode_spec(decode_spec(st, stored, a).1, decode_spec(st, stored, a).2, b).1
            == decode_spec(st, stored, a + b).1,
        stored.len() + a.len() + b.len() <= st.max_buffer_size ==> decode_spec(
            decode_spec(st, stored, a).1,
            decode_spec(st, stored, a).2,
            b,
        ) == decode_spec(st, stored, a + b),
{
    reveal(scan_spec);
    lemma_plain_input_unchanged(st.subneg_iac_pending, a);
    assert(!(a + b).contains(IAC)) by {
        if (a + b).contains(IAC) {
            let i = choose|i: int| 0 <= i < (a + b).len() && (a + b)[i] == IAC;
            if i < a.len() {
                assert(a[i] == IAC);
            } else {
                assert(b[i - a.len()] == IAC);
            }
        }
    }
    lemma_reads_split_freely(st, stored + a, b);
    lemma_reads_split_freely(st, stored, a + b);
    assert(stored + a + b =~= stored + (a + b));
}

/// Errors produced by the telnet line codec.
///
/// Only fatal errors that require disconnecting; a line that is too long is
/// reported through [`CodecItem::LineTooLong`] instead.
#[derive(Debug)]
pub enum TelnetCodecError {
    /// An underlying I/O error (raised by the reader that feeds the codec).
    Io(std::io::Error),
    /// The per-connection buffer has exceeded its cap.
    BufferOverflow { max: usize },
}

impl TelnetCodecError {
    /// The human-readable text of the error (what `Display` shows).
    pub fn message(&self) -> (s: String)
        ensures
            match self {
                TelnetCodecError::Io(_) => s@.len() >= 11 && s@.take(11) == "I/O error: "@,
                TelnetCodecError::BufferOverflow { max } => s@ == "buffer overflow (max "@
                    + decimal(*max as nat) + " bytes)"@,
            },
    {
        match self {
            TelnetCodecError::Io(e) => {
                let mut s = String::from_str("I/O error: ");
                proof {
                    reveal_strlit("I/O error: ");
                }
                let ghost before = s@;
                let detail = io_error_text(e);
                s.append(detail.as_str());
                assert(s@.take(11) =~= before);
                s
            },
            TelnetCodecError::BufferOverflow { max } => {
                let mut s = String::from_str("buffer overflow (max ");
                text::append_decimal(&mut s, *max);
                s.append(" bytes)");
                s
            },
        }
    }

    /// The project-wide error for this codec error: an I/O error stays one,
    /// any other becomes a codec error with this error's text.
    pub fn into_error(self) -> (e: Error)
        ensures
            match self {
                TelnetCodecError::Io(io) => e == Error::Io(io),
                TelnetCodecError::BufferOverflow { max } => e matches Error::Codec(m) && m@
                    == "buffer overflow (max "@ + decimal(max as nat) + " bytes)"@,
            },
    {
        match self {
            TelnetCodecError::Io(io) => Error::Io(io),
            TelnetCodecError::BufferOverflow { max } => {
                let other = TelnetCodecError::BufferOverflow { max };
                Error::Codec(other.message())
            },
        }
    }
}

/// Items produced by the telnet line codec.
#[derive(Debug, Clone, PartialEq, Eq)]
pub enum CodecItem {
    /// A complete line of input.
    Line(String),
    /// A line exceeded the maximum length and was discarded.
    LineTooLong,
}

/// The item a decoding step yields, as the codec returns it.
pub open spec fn step_result(
    step: DecodeStep,
    st: CodecState,
    r: Result<Option<CodecItem>, TelnetCodecError>,
) -> bool {
    match step {
        DecodeStep::Overflow => r matches Err(TelnetCodecError::BufferOverflow { max }) && max
            == st.max_buffer_size,
        DecodeStep::Pending => r matches Ok(None),
        DecodeStep::Line(bytes) => r matches Ok(Some(CodecItem::Line(s))) && s@ == utf8_lossy(
            bytes,
        ) && (vstd::utf8::valid_utf8(bytes) ==> s@ == vstd::utf8::decode_utf8(bytes)),
        DecodeStep::TooLong => r matches Ok(Some(CodecItem::LineTooLong)),
    }
}

/// A telnet line codec.
///
/// Strips IAC sequences, splits on line endings (CRLF, LF, or lone CR),
/// and returns lines as UTF-8 strings (lossy). Input is stripped once, as
/// it is read; the stripped data not yet returned as a line is held by the
/// codec.
#[derive(Debug)]
pub struct TelnetLineCodec {
    max_line_length: usize,
    max_buffer_size: usize,
    discarding: bool,
    in_subnegotiation: bool,
    subneg_iac_pending: bool,
    stored: Vec<u8>,
}

impl View for TelnetLineCodec {
    type V = CodecState;

    closed spec fn view(&self) -> CodecState {
        CodecState {
            max_line_length: self.max_line_length,
            max_buffer_size: self.max_buffer_size,
            discarding: self.discarding,
            in_subnegotiation: self.in_subnegotiation,
            subneg_iac_pending: self.subneg_iac_pending,
        }
    }
}

impl TelnetLineCodec {
    /// The stripped data held, not yet returned as a line.
    pub closed spec fn held(&self) -> Seq<u8> {
        self.stored@
    }

    /// A codec with the default limits (`MAX_LINE_LENGTH`, `MAX_BUFFER_SIZE`).
    pub fn new() -> (c: Self)
        ensures
            c@ == (CodecState {
                max_line_length: constants::MAX_LINE_LENGTH,
                max_buffer_size: constants::MAX_BUFFER_SIZE,
                discarding: false,
                in_subnegotiation: false,
                subneg_iac_pending: false,
            }),
            c.held().len() == 0,
    {
        Self::with_limits(constants::MAX_LINE_LENGTH, constants::MAX_BUFFER_SIZE)
    }

    /// A codec with the given line and buffer limits.
    pub fn with_limits(max_line_length: usize, max_buffer_size: usize) -> (c: Self)
        ensures
            c@ == (CodecState {
                max_line_length,
                max_buffer_size,
                discarding: false,
                in_subnegotiation: false,
                subneg_iac_pending: false,
            }),
            c.held().len() == 0,
    {
        Self {
            max_line_length,
            max_buffer_size,
            discarding: false,
            in_subnegotiation: false,
            subneg_iac_pending: false,
            stored: Vec::new(),
        }
    }

    /// Strip telnet IAC sequences from newly read `buf`: returns the data
    /// bytes and leaves in `buf` only an incomplete command at its end.
    fn strip_iac(&mut self, buf: &mut Vec<u8>) -> (out: Vec<u8>)
        ensures
            ({
                let r = strip_spec(
                    old(self).in_subnegotiation,
                    old(self).subneg_iac_pending,
                    old(buf)@,
                );
                &&& out@ == r.0
                &&& final(buf)@ == r.1
                &&& final(self)@ == (CodecState {
                    in_subnegotiation: r.2,
                    subneg_iac_pending: r.3,
                    ..old(self)@
                })
                &&& final(self).held() == old(self).held()
            }),
    {
        let ghost target = strip_spec(self.in_subnegotiation, self.subneg_iac_pending, buf@);
        let ghost orig = buf@;
        let len = buf.len();
        let mut out: Vec<u8> = Vec::new();
        let mut read: usize = 0;
        let mut done = false;
        assert(orig.subrange(0, len as int) =~= orig);
        while read < len && !done
            invariant
                buf@ == orig,
                len == orig.len(),
                read <= len,
                self.max_line_length == old(self).max_line_length,
                self.max_buffer_size == old(self).max_buffer_size,
                self.discarding == old(self).discarding,
                self.stored@ == old(self).stored@,
                target == strip_spec(
                    old(self).in_subnegotiation,
                    old(self).subneg_iac_pending,
                    orig,
                ),
                !done ==> ({
                    let r = strip_spec(
                        self.in_subnegotiation,
                        self.subneg_iac_pending,
                        orig.subrange(read as int, len as int),
                    );
                    target.0 == out@ + r.0 && target.1 == r.1 && target.2 == r.2 && target.3
                        == r.3
                }),
                done ==> target.0 == out@ && target.1 == orig.subrange(read as int, len as int)
                    && target.2 == self.in_subnegotiation && target.3 == self.subneg_iac_pending,
            decreases (len - read) * 2 + (if done { 0int } else { 1int }),
        {
            let ghost rest = orig.subrange(read as int, len as int);
            assert(rest.drop_first() =~= orig.subrange(read + 1, len as int));
            let b = buf[read];
            assert(b == rest[0]);
            if self.in_subnegotiation {
                if self.subneg_iac_pending {
                    self.subneg_iac_pending = false;
                    if b == SE {
                        self.in_subnegotiation = false;
                    }
                } else if b == IAC {
                    self.subneg_iac_pending = true;
                }
                read = read + 1;
            } else if b != IAC {
                out.push(b);
                read = read + 1;
                assert(out@ + strip_spec(
                    self.in_subnegotiation,
                    self.subneg_iac_pending,
                    orig.subrange(read as int, len as int),
                ).0 =~= out@.drop_last() + (seq![b] + strip_spec(
                    self.in_subnegotiation,
                    self.subneg_iac_pending,
                    orig.subrange(read as int, len as int),
                ).0));
            } else if read + 1 >= len {
                done = true;
                assert(out@ + Seq::<u8>::empty() =~= out@);
            } else {
                let cmd = buf[read + 1];
                assert(cmd == rest[1]);
                assert(rest.subrange(2, rest.len() as int) =~= orig.subrange(
                    read + 2,
                    len as int,
                ));
                if cmd == IAC {
                    out.push(IAC);
                    read = read + 2;
                    assert(out@ + strip_spec(
                        self.in_subnegotiation,
                        self.subneg_iac_pending,
                        orig.subrange(read as int, len as int),
                    ).0 =~= out@.drop_last() + (seq![IAC] + strip_spec(
                        self.in_subnegotiation,
                        self.subneg_iac_pending,
                        orig.subrange(read as int, len as int),
                    ).0));
                } else if cmd == WILL || cmd == WONT || cmd == DO || cmd == DONT {
                    if read + 2 >= len {
                        done = true;
                        assert(out@ + Seq::<u8>::empty() =~= out@);
                    } else {
                        assert(rest.subrange(3, rest.len() as int) =~= orig.subrange(
                            read + 3,
                            len as int,
                        ));
                        read = read + 3;
                    }
                } else if cmd == SB {
                    self.in_subnegotiation = true;
                    self.subneg_iac_pending = false;
                    read = read + 2;
                } else {
                    read = read + 2;
                }
            }
        }
        proof {
            if !done {
                assert(orig.subrange(read as int, len as int) =~= Seq::<u8>::empty());
                assert(out@ + Seq::<u8>::empty() =~= out@);
            }
        }
        let tail = buf.split_off(read);
        *buf = tail;
        out
    }

    /// Split the held data into the next item; `tail` is the incomplete
    /// command left unread after it, which goes with a dropped line.
    fn scan(&mut self, tail: &mut Vec<u8>) -> (r: Result<Option<CodecItem>, TelnetCodecError>)
        requires
            old(self).held().len() + old(tail)@.len() <= usize::MAX,
        ensures
            ({
                let s = scan_spec(old(self)@, old(self).held(), old(tail)@.len());
                &&& step_result(s.0, old(self)@, r)
                &&& final(self)@ == s.1
                &&& final(self).held() == s.2
                &&& final(tail)@ == if s.3 {
                    old(tail)@
                } else {
                    Seq::empty()
                }
            }),
        decreases old(self).held().len(),
    {
        reveal(scan_spec);
        let ghost s = self.stored@;
        match find_line_terminator(&self.stored) {
            Some(term_pos) => {
                proof {
                    lemma_first_terminator(s);
                }
                let consume_len = consume_terminator(&self.stored, term_pos);
                if self.discarding {
                    let rest = self.stored.split_off(consume_len);
                    self.stored = rest;
                    self.discarding = false;
                    return self.scan(tail);
                }
                let rest = self.stored.split_off(consume_len);
                let mut line_bytes = rest;
                core::mem::swap(&mut self.stored, &mut line_bytes);
                line_bytes.truncate(term_pos);
                assert(line_bytes@ =~= s.take(term_pos as int));
                let line = decode_utf8_lossy(line_bytes.as_slice());
                Ok(Some(CodecItem::Line(line)))
            },
            None => {
                if self.discarding {
                    self.stored.clear();
                    tail.clear();
                    return Ok(None);
                }
                if self.stored.len() + tail.len() > self.max_line_length {
                    self.stored.clear();
                    tail.clear();
                    self.discarding = true;
                    return Ok(Some(CodecItem::LineTooLong));
                }
                Ok(None)
            },
        }
    }

    /// Decode the next item, with `buf` holding newly read input (the
    /// caller keeps filling it).
    ///
    /// Fails with `BufferOverflow` when the held data and `buf` together are
    /// over the cap. Otherwise strips telnet commands from `buf` (leaving in
    /// it only an incomplete command at its end) and adds the data to what
    /// the codec holds; then returns the first complete line (dropping it
    /// and its terminator), `LineTooLong` when an unterminated line has
    /// grown past the line limit (the codec then drops input up to the next
    /// terminator), or nothing yet.
    pub fn decode(&mut self, buf: &mut Vec<u8>) -> (r: Result<
        Option<CodecItem>,
        TelnetCodecError,
    >)
        ensures
            ({
                let d = decode_spec(old(self)@, old(self).held(), old(buf)@);
                &&& step_result(d.0, old(self)@, r)
                &&& final(self)@ == d.1
                &&& final(self).held() == d.2
                &&& final(buf)@ == d.3
            }),
    {
        if self.stored.len() > self.max_buffer_size || buf.len() > self.max_buffer_size
            - self.stored.len() {
            return Err(TelnetCodecError::BufferOverflow { max: self.max_buffer_size });
        }
        let ghost st0 = self@;
        let ghost h0 = self.stored@;
        let mut out = self.strip_iac(buf);
        self.stored.append(&mut out);
        proof {
            let r = strip_spec(st0.in_subnegotiation, st0.subneg_iac_pending, old(buf)@);
            assert(self.stored@ == h0 + r.0);
            lemma_strip_len(st0.in_subnegotiation, st0.subneg_iac_pending, old(buf)@);
        }
        self.scan(buf)
    }

    /// Decode at end of input: like [`Self::decode`], and when that yields
    /// nothing, the data still held becomes a last line (unless the codec
    /// was discarding or inside a sub-negotiation), and an incomplete
    /// command left unread is dropped. Nothing is held afterwards.
    pub fn decode_eof(&mut self, buf: &mut Vec<u8>) -> (r: Result<
        Option<CodecItem>,
        TelnetCodecError,
    >)
        ensures
            ({
                let d = decode_eof_spec(old(self)@, old(self).held(), old(buf)@);
                &&& step_result(d.0, old(self)@, r)
                &&& final(self)@ == d.1
                &&& final(self).held() == d.2
                &&& final(buf)@ == d.3
            }),
    {
        let first = self.decode(buf);
        match first {
            Err(e) => Err(e),
            Ok(Some(item)) => Ok(Some(item)),
            Ok(None) => {
                if self.stored.len() == 0 || self.discarding {
                    self.stored.clear();
                    buf.clear();
                    self.discarding = false;
                    Ok(None)
                } else if self.in_subnegotiation {
                    self.stored.clear();
                    buf.clear();
                    self.in_subnegotiation = false;
                    self.subneg_iac_pending = false;
                    Ok(None)
                } else {
                    let mut line_bytes: Vec<u8> = Vec::new();
                    core::mem::swap(&mut self.stored, &mut line_bytes);
                    buf.clear();
                    let line = decode_utf8_lossy(line_bytes.as_slice());
                    Ok(Some(CodecItem::Line(line)))
                }
            },
        }
    }
}

impl Default for TelnetLineCodec {
    fn default() -> (c: Self)
        ensures
            c@ == (CodecState {
                max_line_length: constants::MAX_LINE_LENGTH,
                max_buffer_size: constants::MAX_BUFFER_SIZE,
                discarding: false,
                in_subnegotiation: false,
                subneg_iac_pending: false,
            }),
            c.held().len() == 0,
    {
        Self::new()
    }
}

/// The position of the first line terminator in `buf`, if any.
fn find_line_terminator(buf: &Vec<u8>) -> (r: Option<usize>)
    ensures
        r is Some <==> has_terminator(buf@),
        r matches Some(p) ==> p == first_terminator(buf@),
{
    let mut i: usize = 0;
    while i < buf.len()
        invariant
            i <= buf.len(),
            forall|j: int| 0 <= j < i ==> !is_terminator(#[trigger] buf@[j]),
        decreases buf.len() - i,
    {
        if buf[i] == 0x0A || buf[i] == 0x0D {
            proof {
                lemma_first_terminator(buf@);
                let f = first_terminator(buf@);
                if f < i {
                    assert(!is_terminator(buf@[f]));
                }
                if f > i {
                    assert(!is_terminator(buf@[i as int]));
                }
            }
            return Some(i);
        }
        i = i + 1;
    }
    None
}

/// The end of the line terminator starting at `pos` (CRLF counts as one).
fn consume_terminator(buf: &Vec<u8>, pos: usize) -> (end: usize)
    requires
        pos < buf.len(),
    ensures
        end == terminator_end(buf@, pos as int),
{
    if buf[pos] == 0x0D && pos + 1 < buf.len() && buf[pos + 1] == 0x0A {
        pos + 2
    } else {
        pos + 1
    }
}

} // verus!
