//! How the telnet line codec behaves over successive reads: what a caller
//! gets by decoding until nothing more comes after each read, and the law
//! that, for plain input, how the input is split into reads does not change
//! the lines.

use vstd::prelude::*;

use crate::codec::{
    decode_spec, first_terminator, has_terminator, is_terminator, lemma_first_terminator,
    lemma_reads_split_freely, lemma_strip_len, scan_spec, strip_spec, terminator_end, CodecState,
    DecodeStep, IAC,
};

verus! {

/// Is `x` plain input: no IAC byte and no carriage return?
pub open spec fn is_plain(x: Seq<u8>) -> bool {
    forall|i: int| 0 <= i < x.len() ==> x[i] != IAC && x[i] != 0x0Du8
}

/// The lines that end in `x` (each without its terminator), in order.
pub open spec fn lines_of(x: Seq<u8>) -> Seq<Seq<u8>>
    decreases x.len(),
{
    if has_terminator(x) {
        proof {
            lemma_first_terminator(x);
        }
        let p = first_terminator(x);
        seq![x.take(p)] + lines_of(x.subrange(terminator_end(x, p), x.len() as int))
    } else {
        Seq::empty()
    }
}

/// What follows the last line ending in `x` (all of `x` if none).
pub open spec fn tail_of(x: Seq<u8>) -> Seq<u8>
    decreases x.len(),
{
    if has_terminator(x) {
        proof {
            lemma_first_terminator(x);
        }
        let p = first_terminator(x);
        tail_of(x.subrange(terminator_end(x, p), x.len() as int))
    } else {
        x
    }
}

/// Does every line of `x`, ended or not, have at most `m` bytes?
pub open spec fn lines_fit(x: Seq<u8>, m: nat) -> bool
    decreases x.len(),
{
    if has_terminator(x) {
        proof {
            lemma_first_terminator(x);
        }
        let p = first_terminator(x);
        p <= m && lines_fit(x.subrange(terminator_end(x, p), x.len() as int), m)
    } else {
        x.len() <= m
    }
}

/// The steps that yield `lines`, in order.
pub open spec fn line_steps(lines: Seq<Seq<u8>>) -> Seq<DecodeStep> {
    lines.map_values(|l: Seq<u8>| DecodeStep::Line(l))
}

/// A line or an over-long line uses up input.
pub proof fn lemma_scan_shrinks(st: CodecState, data: Seq<u8>, tail: nat)
    ensures
        scan_spec(st, data, tail).0 is Line ==> scan_spec(st, data, tail).2.len() < data.len()
            && scan_spec(st, data, tail).3,
        scan_spec(st, data, tail).0 is TooLong ==> scan_spec(st, data, tail).2.len() == 0
            && !scan_spec(st, data, tail).3 && data.len() + tail > 0,
    decreases data.len(),
{
    reveal(scan_spec);
    if has_terminator(data) {
        lemma_first_terminator(data);
        if st.discarding {
            let end = terminator_end(data, first_terminator(data));
            lemma_scan_shrinks(
                CodecState { discarding: false, ..st },
                data.subrange(end, data.len() as int),
                tail,
            );
        }
    }
}

/// A step that yields a line or an over-long line uses up input.
pub proof fn lemma_step_shrinks(st: CodecState, held: Seq<u8>, buf: Seq<u8>)
    ensures
        (decode_spec(st, held, buf).0 is Line || decode_spec(st, held, buf).0 is TooLong)
            ==> decode_spec(st, held, buf).2.len() + decode_spec(st, held, buf).3.len()
            < held.len() + buf.len(),
{
    let r = strip_spec(st.in_subnegotiation, st.subneg_iac_pending, buf);
    let st1 = CodecState { in_subnegotiation: r.2, subneg_iac_pending: r.3, ..st };
    lemma_strip_len(st.in_subnegotiation, st.subneg_iac_pending, buf);
    lemma_scan_shrinks(st1, held + r.0, r.1.len());
}

/// Decoding until nothing more comes (or the buffer overflows), from a
/// codec in state `st` holding `held`, with `buf` newly read: the items
/// yielded, the state, the data held and the unread input afterwards.
pub open spec fn drain(st: CodecState, held: Seq<u8>, buf: Seq<u8>) -> (
    Seq<DecodeStep>,
    CodecState,
    Seq<u8>,
    Seq<u8>,
)
    decreases held.len() + buf.len(),
{
    let d = decode_spec(st, held, buf);
    if d.0 is Pending {
        (Seq::empty(), d.1, d.2, d.3)
    } else if d.0 is Overflow {
        (seq![d.0], d.1, d.2, d.3)
    } else {
        proof {
            lemma_step_shrinks(st, held, buf);
        }
        let r = drain(d.1, d.2, d.3);
        (seq![d.0] + r.0, r.1, r.2, r.3)
    }
}

/// Feeding reads `chunks` one after another, decoding until nothing more
/// comes after each: everything yielded, and the state, held data and
/// unread input at the end.
pub open spec fn feed(st: CodecState, held: Seq<u8>, buf: Seq<u8>, chunks: Seq<Seq<u8>>) -> (
    Seq<DecodeStep>,
    CodecState,
    Seq<u8>,
    Seq<u8>,
)
    decreases chunks.len(),
{
    if chunks.len() == 0 {
        (Seq::empty(), st, held, buf)
    } else {
        let r = drain(st, held, buf + chunks[0]);
        let rest = feed(r.1, r.2, r.3, chunks.drop_first());
        (r.0 + rest.0, rest.1, rest.2, rest.3)
    }
}

proof fn lemma_plain_no_iac(x: Seq<u8>)
    requires
        is_plain(x),
    ensures
        !x.contains(IAC),
{
    if x.contains(IAC) {
        let i = choose|i: int| 0 <= i < x.len() && x[i] == IAC;
        assert(x[i] != IAC);
    }
}

/// In plain input a line ends at its line feed, one byte.
proof fn lemma_plain_end(x: Seq<u8>)
    requires
        is_plain(x),
        has_terminator(x),
    ensures
        terminator_end(x, first_terminator(x)) == first_terminator(x) + 1,
        is_plain(x.subrange(first_terminator(x) + 1, x.len() as int)),
{
    lemma_first_terminator(x);
    let p = first_terminator(x);
    assert(x[p] != 0x0Du8);
    let rest = x.subrange(p + 1, x.len() as int);
    assert forall|i: int| 0 <= i < rest.len() implies rest[i] != IAC && rest[i] != 0x0Du8 by {
        assert(rest[i] == x[p + 1 + i]);
    }
}

/// The first terminator is the one before which there is none.
proof fn lemma_first_terminator_at(s: Seq<u8>, i: int)
    requires
        0 <= i < s.len(),
        is_terminator(s[i]),
        forall|j: int| 0 <= j < i ==> !is_terminator(#[trigger] s[j]),
    ensures
        has_terminator(s),
        first_terminator(s) == i,
{
    assert(is_terminator(s[i]));
    lemma_first_terminator(s);
    let f = first_terminator(s);
    if f < i {
        assert(!is_terminator(s[f]));
    }
    if f > i {
        assert(!is_terminator(s[i]));
    }
}

/// The tail has no line ending.
proof fn lemma_tail_unterminated(x: Seq<u8>)
    ensures
        !has_terminator(tail_of(x)),
        tail_of(x).len() <= x.len(),
    decreases x.len(),
{
    if has_terminator(x) {
        lemma_first_terminator(x);
        let p = first_terminator(x);
        lemma_tail_unterminated(x.subrange(terminator_end(x, p), x.len() as int));
    }
}

/// Lines and tail of a concatenation: the lines of the first part, then
/// those of its tail followed by the second.
proof fn lemma_concat(a: Seq<u8>, b: Seq<u8>, m: nat)
    requires
        is_plain(a),
    ensures
        lines_of(a + b) == lines_of(a) + lines_of(tail_of(a) + b),
        tail_of(a + b) == tail_of(tail_of(a) + b),
        lines_fit(a + b, m) ==> lines_fit(tail_of(a) + b, m),
        lines_fit(a + b, m) && is_plain(b) ==> lines_fit(a, m),
    decreases a.len(),
{
    if has_terminator(a) {
        lemma_plain_end(a);
        lemma_first_terminator(a);
        let p = first_terminator(a);
        let ab = a + b;
        assert(ab[p] == a[p]);
        assert forall|j: int| 0 <= j < p implies !is_terminator(#[trigger] ab[j]) by {
            assert(ab[j] == a[j]);
        }
        lemma_first_terminator_at(ab, p);
        assert(ab[p] != 0x0Du8);
        let ra = a.subrange(p + 1, a.len() as int);
        assert(ab.subrange(p + 1, ab.len() as int) =~= ra + b);
        assert(ab.take(p) =~= a.take(p));
        lemma_concat(ra, b, m);
        assert(lines_of(a) == seq![a.take(p)] + lines_of(ra));
        assert(lines_of(ab) == seq![a.take(p)] + lines_of(ra + b));
        assert(seq![a.take(p)] + lines_of(ra) + lines_of(tail_of(ra) + b) =~= seq![a.take(p)]
            + (lines_of(ra) + lines_of(tail_of(ra) + b)));
    } else {
        assert(lines_of(a) + lines_of(a + b) =~= lines_of(a + b));
        if lines_fit(a + b, m) && is_plain(b) {
            lemma_fit_prefix(a, b, m);
        }
    }
}

/// An unterminated first part fits within the first line of the whole.
proof fn lemma_fit_prefix(a: Seq<u8>, b: Seq<u8>, m: nat)
    requires
        !has_terminator(a),
        lines_fit(a + b, m),
    ensures
        a.len() <= m,
{
    let ab = a + b;
    if has_terminator(ab) {
        lemma_first_terminator(ab);
        let p = first_terminator(ab);
        if p < a.len() {
            assert(ab[p] == a[p]);
        }
    }
}

/// Draining plain data that the codec holds, with no new input, yields its
/// lines in order and leaves the codec holding its tail.
proof fn lemma_drain_held(st: CodecState, data: Seq<u8>)
    requires
        !st.discarding,
        !st.in_subnegotiation,
        is_plain(data),
        lines_fit(data, st.max_line_length as nat),
        data.len() <= st.max_buffer_size,
    ensures
        drain(st, data, Seq::empty()) == (
            line_steps(lines_of(data)),
            st,
            tail_of(data),
            Seq::<u8>::empty(),
        ),
    decreases data.len(),
{
    reveal(scan_spec);
    let e = Seq::<u8>::empty();
    let r = strip_spec(st.in_subnegotiation, st.subneg_iac_pending, e);
    assert(r == (e, e, st.in_subnegotiation, st.subneg_iac_pending));
    let st1 = CodecState { in_subnegotiation: r.2, subneg_iac_pending: r.3, ..st };
    assert(st1 == st);
    assert(data + e =~= data);
    if has_terminator(data) {
        lemma_plain_end(data);
        lemma_first_terminator(data);
        let p = first_terminator(data);
        let rest = data.subrange(p + 1, data.len() as int);
        assert(decode_spec(st, data, e) == (DecodeStep::Line(data.take(p)), st, rest, e));
        lemma_drain_held(st, rest);
        assert(line_steps(lines_of(data)) =~= seq![DecodeStep::Line(data.take(p))] + line_steps(
            lines_of(rest),
        ));
    } else {
        assert(decode_spec(st, data, e) == (DecodeStep::Pending, st, data, e));
        assert(line_steps(lines_of(data)) =~= Seq::<DecodeStep>::empty());
    }
}

/// A drain on held data and new plain input is the drain on both held.
proof fn lemma_drain_split(st: CodecState, held: Seq<u8>, more: Seq<u8>)
    requires
        !st.in_subnegotiation,
        is_plain(more),
        held.len() + more.len() <= st.max_buffer_size,
    ensures
        drain(st, held, more) == drain(st, held + more, Seq::empty()),
{
    lemma_plain_no_iac(more);
    lemma_reads_split_freely(st, held, more);
}

/// How plain input is split into reads does not change the lines: from a
/// codec that is not discarding and not inside a sub-negotiation, holding
/// an unterminated `held`, feeding reads `chunks` (decoding until nothing
/// more comes after each) yields, in order, the lines that end in
/// `held` followed by the reads, and leaves the codec in the same state
/// holding what follows the last line ending, with nothing unread. This
/// holds for plain input (no IAC, no carriage return) whose every line fits
/// the line limit and which fits the buffer cap; it is what a single read of
/// all of it gives.
#[verifier::rlimit(50)]
pub proof fn lemma_reads_do_not_change_lines(
    st: CodecState,
    held: Seq<u8>,
    chunks: Seq<Seq<u8>>,
)
    requires
        !st.discarding,
        !st.in_subnegotiation,
        !has_terminator(held),
        is_plain(held + chunks.flatten()),
        lines_fit(held + chunks.flatten(), st.max_line_length as nat),
        (held + chunks.flatten()).len() <= st.max_buffer_size,
    ensures
        feed(st, held, Seq::empty(), chunks) == (
            line_steps(lines_of(held + chunks.flatten())),
            st,
            tail_of(held + chunks.flatten()),
            Seq::<u8>::empty(),
        ),
        feed(st, held, Seq::empty(), chunks) == feed(
            st,
            held,
            Seq::empty(),
            seq![chunks.flatten()],
        ),
    decreases chunks.len(),
{
    let e = Seq::<u8>::empty();
    let x = held + chunks.flatten();
    if chunks.len() == 0 {
        assert(x =~= held);
        assert(lines_of(held) == Seq::<Seq<u8>>::empty());
        assert(line_steps(Seq::<Seq<u8>>::empty()) =~= Seq::<DecodeStep>::empty());
        assert(tail_of(held) == held);
    } else {
        let c = chunks[0];
        let rest = chunks.drop_first();
        let a = held + c;
        let b = rest.flatten();
        assert(x =~= a + b);
        assert(is_plain(a) && is_plain(b)) by {
            assert forall|i: int| 0 <= i < a.len() implies a[i] != IAC && a[i] != 0x0Du8 by {
                assert(a[i] == x[i]);
            }
            assert forall|i: int| 0 <= i < b.len() implies b[i] != IAC && b[i] != 0x0Du8 by {
                assert(b[i] == x[a.len() + i]);
            }
        }
        assert(is_plain(c)) by {
            assert forall|i: int| 0 <= i < c.len() implies c[i] != IAC && c[i] != 0x0Du8 by {
                assert(c[i] == a[held.len() + i]);
            }
        }
        lemma_concat(a, b, st.max_line_length as nat);
        assert(a.len() <= x.len());
        lemma_feed_first(st, held, chunks);
        lemma_tail_unterminated(a);
        let t = tail_of(a);
        assert(is_plain(t + b)) by {
            lemma_tail_suffix(a);
            assert forall|i: int| 0 <= i < (t + b).len() implies (t + b)[i] != IAC && (t
                + b)[i] != 0x0Du8 by {
                if i < t.len() {
                    assert((t + b)[i] == t[i]);
                } else {
                    assert((t + b)[i] == b[i - t.len()]);
                }
            }
        }
        lemma_reads_do_not_change_lines(st, t, rest);
        assert(line_steps(lines_of(a)) + line_steps(lines_of(t + b)) =~= line_steps(
            lines_of(a) + lines_of(t + b),
        ));
    }
    lemma_single_read(st, held, chunks.flatten());
}

/// One read: feeding a single plain read yields the lines that end in the
/// held data followed by it, and leaves the codec holding their tail.
proof fn lemma_single_read(st: CodecState, held: Seq<u8>, c: Seq<u8>)
    requires
        !st.discarding,
        !st.in_subnegotiation,
        is_plain(held + c),
        lines_fit(held + c, st.max_line_length as nat),
        (held + c).len() <= st.max_buffer_size,
    ensures
        feed(st, held, Seq::empty(), seq![c]) == (
            line_steps(lines_of(held + c)),
            st,
            tail_of(held + c),
            Seq::<u8>::empty(),
        ),
{
    let e = Seq::<u8>::empty();
    let one = seq![c];
    assert(one.drop_first() =~= Seq::<Seq<u8>>::empty());
    assert(e + one[0] =~= c);
    assert(is_plain(c)) by {
        assert forall|i: int| 0 <= i < c.len() implies c[i] != IAC && c[i] != 0x0Du8 by {
            assert(c[i] == (held + c)[held.len() + i]);
        }
    }
    lemma_feed_first(st, held, one);
    assert(feed(st, tail_of(held + c), e, one.drop_first()) == (
        Seq::<DecodeStep>::empty(),
        st,
        tail_of(held + c),
        e,
    ));
    assert(line_steps(lines_of(held + c)) + Seq::<DecodeStep>::empty() =~= line_steps(
        lines_of(held + c),
    ));
}

/// Feeding starts with draining the first read on top of the held data.
proof fn lemma_feed_first(st: CodecState, held: Seq<u8>, chunks: Seq<Seq<u8>>)
    requires
        chunks.len() > 0,
        !st.discarding,
        !st.in_subnegotiation,
        is_plain(held + chunks[0]),
        lines_fit(held + chunks[0], st.max_line_length as nat),
        (held + chunks[0]).len() <= st.max_buffer_size,
    ensures
        ({
            let rest = feed(st, tail_of(held + chunks[0]), Seq::empty(), chunks.drop_first());
            feed(st, held, Seq::empty(), chunks) == (
                line_steps(lines_of(held + chunks[0])) + rest.0,
                rest.1,
                rest.2,
                rest.3,
            )
        }),
{
    let e = Seq::<u8>::empty();
    let c = chunks[0];
    assert(e + c =~= c);
    assert(is_plain(c)) by {
        assert forall|i: int| 0 <= i < c.len() implies c[i] != IAC && c[i] != 0x0Du8 by {
            assert(c[i] == (held + c)[held.len() + i]);
        }
    }
    lemma_drain_split(st, held, c);
    lemma_drain_held(st, held + c);
    assert(drain(st, held, e + c) == (
        line_steps(lines_of(held + c)),
        st,
        tail_of(held + c),
        e,
    ));
}

/// The tail of plain input is plain.
proof fn lemma_tail_suffix(x: Seq<u8>)
    requires
        is_plain(x),
    ensures
        is_plain(tail_of(x)),
    decreases x.len(),
{
    if has_terminator(x) {
        lemma_first_terminator(x);
        lemma_plain_end(x);
        lemma_tail_suffix(x.subrange(first_terminator(x) + 1, x.len() as int));
    }
}

} // verus!
