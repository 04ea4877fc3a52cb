//! The transfer encodings of a message: quoted-printable bodies, base64
//! attachments and Q-encoded header words.

use base64::Engine;
use vstd::prelude::*;

use crate::text::{hex_digit_of, push_bytes, push_crlf};

verus! {

/// Maximum line length per RFC 2045.
pub const MAX_LINE_LENGTH: usize = 76;

/// Number of raw bytes that fill one line of base64 text.
pub const MAX_RAW: usize = 57;

// ---------------------------------------------------------------------------
// Quoted-printable
// ---------------------------------------------------------------------------

/// The escape of one byte: `=` and two upper-case hexadecimal digits.
pub open spec fn escape(b: u8) -> Seq<u8> {
    seq![
        61u8,
        crate::text::hex_digit(b as int / 16, true),
        crate::text::hex_digit(b as int % 16, true),
    ]
}

/// Whether `b` is a printable character that stands for itself anywhere in a
/// quoted-printable line.
pub open spec fn qp_printable(b: u8) -> bool {
    0x21 <= b <= 0x7e && b != 61
}

/// Whether `b` is a space or a tab.
pub open spec fn qp_blank(b: u8) -> bool {
    b == 32 || b == 9
}

/// Whether the first byte of `data` is followed by the end of its line.
pub open spec fn at_line_end(data: Seq<u8>) -> bool {
    data.len() <= 1 || data[1] == 10 || data[1] == 13
}

/// Whether the first byte of `data` is written as it is, without an escape.
pub open spec fn qp_literal(data: Seq<u8>) -> bool {
    qp_printable(data[0]) || (qp_blank(data[0]) && !at_line_end(data))
}

/// Number of bytes of the line break at the start of `data`: two for CRLF, one
/// for a lone CR or LF, and zero where there is none.
pub open spec fn break_len(data: Seq<u8>) -> int {
    if data.len() == 0 {
        0
    } else if data[0] == 13 {
        if data.len() > 1 && data[1] == 10 {
            2
        } else {
            1
        }
    } else if data[0] == 10 {
        1
    } else {
        0
    }
}

/// A soft line break: it ends the line and stands for nothing.
pub open spec fn soft_break() -> Seq<u8> {
    seq![61u8, 13u8, 10u8]
}

/// The quoted-printable text of `data` where `col` columns of the current line
/// are taken.
pub open spec fn quoted_printable(data: Seq<u8>, col: int) -> Seq<u8>
    decreases data.len(),
{
    if data.len() == 0 {
        Seq::empty()
    } else if break_len(data) > 0 {
        crate::text::crlf() + quoted_printable(data.skip(break_len(data)), 0)
    } else {
        let literal = qp_literal(data);
        let width: int = if literal {
            1
        } else {
            3
        };
        let wrap = col >= MAX_LINE_LENGTH - width;
        (if wrap {
            soft_break()
        } else {
            Seq::empty()
        }) + (if literal {
            seq![data[0]]
        } else {
            escape(data[0])
        }) + quoted_printable(
            data.skip(1),
            (if wrap {
                0
            } else {
                col
            }) + width,
        )
    }
}

/// Appends the escape of `b`.
fn push_escape(out: &mut Vec<u8>, b: u8)
    ensures
        final(out)@ == old(out)@ + escape(b),
{
    out.push(61);
    out.push(hex_digit_of(b / 16, true));
    out.push(hex_digit_of(b % 16, true));
    assert(out@ == old(out)@ + escape(b));
}

/// Appends a soft line break.
fn push_soft_break(out: &mut Vec<u8>)
    ensures
        final(out)@ == old(out)@ + soft_break(),
{
    out.push(61);
    out.push(13);
    out.push(10);
    assert(out@ == old(out)@ + soft_break());
}

/// Quoted-printable encodes `data` into `out`, converting bare line breaks to
/// CRLF, escaping `=` and non-printable bytes as `=XX`, escaping white space at
/// the end of a line, and soft-wrapping at 76 columns.
pub fn qp_encode(out: &mut Vec<u8>, data: &[u8])
    ensures
        final(out)@ == old(out)@ + quoted_printable(data@, 0),
{
    let mut line_len: usize = 0;
    let mut i: usize = 0;
    assert(data@.skip(0) == data@);
    while i < data.len()
        invariant
            i <= data@.len(),
            line_len < MAX_LINE_LENGTH,
            out@ + quoted_printable(data@.skip(i as int), line_len as int) == old(out)@
                + quoted_printable(data@, 0),
        decreases data@.len() - i,
    {
        let b = data[i];
        let ghost rest = data@.skip(i as int);
        let ghost before = out@;
        let ghost col = line_len as int;
        if b == 13 || b == 10 {
            push_crlf(out);
            line_len = 0;
            if b == 13 && i + 1 < data.len() && data[i + 1] == 10 {
                assert(rest.skip(2) == data@.skip(i + 2));
                i += 2;
            } else {
                assert(rest.skip(1) == data@.skip(i + 1));
                i += 1;
            }
            assert(before + (crate::text::crlf() + quoted_printable(data@.skip(i as int), 0)) == (
            before + crate::text::crlf()) + quoted_printable(data@.skip(i as int), 0));
        } else {
            let is_printable = 0x21 <= b && b <= 0x7e && b != 61;
            let is_ws = b == 32 || b == 9;
            let next_is_break = i + 1 >= data.len() || data[i + 1] == 10 || data[i + 1] == 13;
            let literal = is_printable || (is_ws && !next_is_break);
            assert(literal == qp_literal(rest));
            let width: usize = if literal {
                1
            } else {
                3
            };
            if line_len >= MAX_LINE_LENGTH - width {
                push_soft_break(out);
                line_len = 0;
            }
            if literal {
                out.push(b);
            } else {
                push_escape(out, b);
            }
            line_len += width;
            assert(rest.skip(1) == data@.skip(i + 1));
            i += 1;
            assert(before + quoted_printable(rest, col) == out@ + quoted_printable(
                data@.skip(i as int),
                line_len as int,
            ));
        }
    }
    assert(out@ + quoted_printable(data@.skip(i as int), line_len as int) == out@);
}

/// The value of a hexadecimal digit.
pub open spec fn hex_value(d: u8) -> int {
    if 48 <= d <= 57 {
        d - 48
    } else {
        d - 55
    }
}

/// The bytes that a quoted-printable text stands for: an escape for its byte, a
/// soft line break for nothing, and any other byte for itself.
pub open spec fn qp_decode(t: Seq<u8>) -> Seq<u8>
    decreases t.len(),
{
    if t.len() == 0 {
        Seq::empty()
    } else if t[0] == 61 && t.len() >= 3 {
        if t[1] == 13 && t[2] == 10 {
            qp_decode(t.skip(3))
        } else {
            seq![(16 * hex_value(t[1]) + hex_value(t[2])) as u8] + qp_decode(t.skip(3))
        }
    } else {
        seq![t[0]] + qp_decode(t.skip(1))
    }
}

/// `data` with each line break, be it CR, LF or CRLF, written as CRLF.
pub open spec fn normalize_breaks(data: Seq<u8>) -> Seq<u8>
    decreases data.len(),
{
    if data.len() == 0 {
        Seq::empty()
    } else if break_len(data) > 0 {
        crate::text::crlf() + normalize_breaks(data.skip(break_len(data)))
    } else {
        seq![data[0]] + normalize_breaks(data.skip(1))
    }
}

/// The two digits of an escape give its byte back.
proof fn lemma_escape_value(b: u8)
    ensures
        escape(b)[1] != 13,
        16 * hex_value(escape(b)[1]) + hex_value(escape(b)[2]) == b,
{
}

/// Law: decoding a quoted-printable body gives the message back, with its line
/// breaks normalized to CRLF.
pub proof fn law_qp_round_trip(data: Seq<u8>, col: int)
    ensures
        qp_decode(quoted_printable(data, col)) == normalize_breaks(data),
    decreases data.len(),
{
    let t = quoted_printable(data, col);
    if data.len() == 0 {
    } else if break_len(data) > 0 {
        let tail = quoted_printable(data.skip(break_len(data)), 0);
        law_qp_round_trip(data.skip(break_len(data)), 0);
        assert(t.skip(1)[0] == 10);
        assert(t.skip(1).skip(1) == tail);
        assert(qp_decode(t.skip(1)) == seq![10u8] + qp_decode(tail));
        assert(seq![13u8] + (seq![10u8] + qp_decode(tail)) == crate::text::crlf() + qp_decode(
            tail,
        ));
    } else {
        let literal = qp_literal(data);
        let width: int = if literal {
            1
        } else {
            3
        };
        let wrap = col >= MAX_LINE_LENGTH - width;
        let next = (if wrap {
            0
        } else {
            col
        }) + width;
        let tail = quoted_printable(data.skip(1), next);
        law_qp_round_trip(data.skip(1), next);
        let unit = if literal {
            seq![data[0]]
        } else {
            escape(data[0])
        };
        let body = unit + tail;
        if wrap {
            assert(t == soft_break() + body);
            assert(t.skip(3) == body);
            assert(qp_decode(t) == qp_decode(body));
        } else {
            assert(t == body);
        }
        if literal {
            assert(body.skip(1) == tail);
        } else {
            lemma_escape_value(data[0]);
            assert(body.skip(3) == tail);
            assert(body[1] == escape(data[0])[1]);
            assert(body[2] == escape(data[0])[2]);
        }
        assert(qp_decode(body) == seq![data[0]] + qp_decode(tail));
    }
}

/// A line break behind a body is encoded behind its text.
proof fn lemma_qp_then_break(data: Seq<u8>, col: int)
    ensures
        quoted_printable(data.push(13), col) == quoted_printable(data, col) + crate::text::crlf(),
        normalize_breaks(data.push(13)) == normalize_breaks(data) + crate::text::crlf(),
    decreases data.len(),
{
    let longer = data.push(13);
    if data.len() == 0 {
        assert(longer.skip(1) == Seq::<u8>::empty());
        assert(quoted_printable(longer.skip(1), 0) == Seq::<u8>::empty());
        assert(normalize_breaks(longer.skip(1)) == Seq::<u8>::empty());
        assert(quoted_printable(longer, col) == crate::text::crlf());
        assert(normalize_breaks(longer) == crate::text::crlf());
    } else if break_len(data) > 0 {
        let n = break_len(data);
        assert(longer.skip(n) == data.skip(n).push(13));
        lemma_qp_then_break(data.skip(n), 0);
        assert(quoted_printable(longer, col) == quoted_printable(data, col) + crate::text::crlf());
        assert(normalize_breaks(longer) == normalize_breaks(data) + crate::text::crlf());
    } else {
        let width: int = if qp_literal(data) {
            1
        } else {
            3
        };
        let next = (if col >= MAX_LINE_LENGTH - width {
            0
        } else {
            col
        }) + width;
        assert(longer.skip(1) == data.skip(1).push(13));
        lemma_qp_then_break(data.skip(1), next);
        assert(qp_literal(longer) == qp_literal(data));
        assert(quoted_printable(longer, col) == quoted_printable(data, col) + crate::text::crlf());
        assert(normalize_breaks(longer) == normalize_breaks(data) + crate::text::crlf());
    }
}

/// Law: decoding a quoted-printable body together with the line ending of the
/// delimiter behind it gives the message back, with its line breaks normalized to
/// CRLF, and that line ending.
pub proof fn law_qp_part_round_trip(data: Seq<u8>)
    ensures
        qp_decode(quoted_printable(data, 0) + crate::text::crlf()) == normalize_breaks(data)
            + crate::text::crlf(),
{
    lemma_qp_then_break(data, 0);
    law_qp_round_trip(data.push(13), 0);
}

/// Whether every line of `t` is at most [`MAX_LINE_LENGTH`] bytes long, its CRLF
/// not counted, where `col` bytes of the first line stand before `t`.
pub open spec fn lines_fit(t: Seq<u8>, col: int) -> bool
    decreases t.len(),
{
    if t.len() == 0 {
        true
    } else if t.len() >= 2 && t[0] == 13 && t[1] == 10 {
        lines_fit(t.skip(2), 0)
    } else {
        col < MAX_LINE_LENGTH && lines_fit(t.skip(1), col + 1)
    }
}

/// Bytes other than CR lengthen the current line.
proof fn lemma_lines_fit_run(run: Seq<u8>, t: Seq<u8>, col: int)
    requires
        forall|i: int| 0 <= i < run.len() ==> run[i] != 13,
        col + run.len() <= MAX_LINE_LENGTH,
        lines_fit(t, col + run.len()),
    ensures
        lines_fit(run + t, col),
    decreases run.len(),
{
    if run.len() == 0 {
        assert(run + t == t);
    } else {
        assert((run + t).skip(1) == run.skip(1) + t);
        lemma_lines_fit_run(run.skip(1), t, col + 1);
    }
}

/// Law: no line of a quoted-printable body is longer than [`MAX_LINE_LENGTH`].
pub proof fn law_qp_lines_fit(data: Seq<u8>, col: int)
    requires
        0 <= col < MAX_LINE_LENGTH,
    ensures
        lines_fit(quoted_printable(data, col), col),
    decreases data.len(),
{
    let t = quoted_printable(data, col);
    if data.len() == 0 {
    } else if break_len(data) > 0 {
        let tail = quoted_printable(data.skip(break_len(data)), 0);
        law_qp_lines_fit(data.skip(break_len(data)), 0);
        assert(t.skip(2) == tail);
    } else {
        let literal = qp_literal(data);
        let width: int = if literal {
            1
        } else {
            3
        };
        let wrap = col >= MAX_LINE_LENGTH - width;
        let start: int = if wrap {
            0
        } else {
            col
        };
        let tail = quoted_printable(data.skip(1), start + width);
        law_qp_lines_fit(data.skip(1), start + width);
        let unit = if literal {
            seq![data[0]]
        } else {
            escape(data[0])
        };
        lemma_lines_fit_run(unit, tail, start);
        let body = unit + tail;
        if wrap {
            assert(t == soft_break() + body);
            assert(t.skip(1).skip(2) == body);
            assert(lines_fit(t.skip(1), col + 1));
        } else {
            assert(t == body);
        }
    }
}

/// Law: a quoted-printable body is made of printable ASCII, blanks and line
/// breaks, and no blank stands at the end of a line.
pub proof fn law_qp_clean(data: Seq<u8>, col: int)
    ensures
        forall|i: int|
            0 <= i < quoted_printable(data, col).len() ==> {
                let b = #[trigger] quoted_printable(data, col)[i];
                0x21 <= b <= 0x7e || qp_blank(b) || b == 13 || b == 10
            },
        forall|i: int|
            0 <= i < quoted_printable(data, col).len() && qp_blank(
                #[trigger] quoted_printable(data, col)[i],
            ) ==> i + 1 < quoted_printable(data, col).len() && quoted_printable(data, col)[i + 1]
                != 13,
        data.len() > 0 && break_len(data) == 0 ==> quoted_printable(data, col).len() > 0
            && quoted_printable(data, col)[0] != 13,
    decreases data.len(),
{
    let t = quoted_printable(data, col);
    if data.len() == 0 {
    } else if break_len(data) > 0 {
        let tail = quoted_printable(data.skip(break_len(data)), 0);
        law_qp_clean(data.skip(break_len(data)), 0);
        assert forall|i: int| 2 <= i < t.len() implies t[i] == #[trigger] tail[i - 2] by {}
    } else {
        let literal = qp_literal(data);
        let width: int = if literal {
            1
        } else {
            3
        };
        let wrap = col >= MAX_LINE_LENGTH - width;
        let next = (if wrap {
            0
        } else {
            col
        }) + width;
        let tail = quoted_printable(data.skip(1), next);
        law_qp_clean(data.skip(1), next);
        let lead: int = if wrap {
            3 + width
        } else {
            width
        };
        assert(t.len() == lead + tail.len());
        assert forall|i: int| lead <= i < t.len() implies t[i] == #[trigger] tail[i - lead] by {}
    }
}

// ---------------------------------------------------------------------------
// Base64
// ---------------------------------------------------------------------------

/// The character of the standard base64 alphabet for a value below 64.
pub open spec fn base64_digit(v: int) -> u8 {
    (if v < 26 {
        65 + v
    } else if v < 52 {
        71 + v
    } else if v < 62 {
        v - 4
    } else if v == 62 {
        43
    } else {
        47
    }) as u8
}

/// The standard base64 text of `b`, padded with `=`: four characters, of six
/// bits each, for three bytes.
pub open spec fn base64(b: Seq<u8>) -> Seq<u8>
    decreases b.len(),
{
    if b.len() == 0 {
        Seq::empty()
    } else if b.len() == 1 {
        seq![base64_digit(b[0] as int / 4), base64_digit(b[0] as int % 4 * 16), 61u8, 61u8]
    } else if b.len() == 2 {
        seq![
            base64_digit(b[0] as int / 4),
            base64_digit(b[0] as int % 4 * 16 + b[1] as int / 16),
            base64_digit(b[1] as int % 16 * 4),
            61u8,
        ]
    } else {
        seq![
            base64_digit(b[0] as int / 4),
            base64_digit(b[0] as int % 4 * 16 + b[1] as int / 16),
            base64_digit(b[1] as int % 16 * 4 + b[2] as int / 64),
            base64_digit(b[2] as int % 64),
        ] + base64(b.skip(3))
    }
}

/// `Engine::encode` of the `base64` crate, on its `STANDARD` engine: the result
/// is the text that RFC 4648 gives for the standard alphabet with padding. The
/// crate panics where the length of that text is no `usize`.
#[verifier::external_body]
fn base64_encode(b: &[u8]) -> (r: Vec<u8>)
    requires
        4 * ((b@.len() + 2) / 3) <= usize::MAX,
    ensures
        r@ == base64(b@),
{
    base64::engine::general_purpose::STANDARD.encode(b).into_bytes()
}

/// The base64 text of `b` in lines of [`MAX_LINE_LENGTH`] characters, each
/// ended by CRLF; the last line holds what is left.
pub open spec fn base64_lines(b: Seq<u8>) -> Seq<u8>
    decreases b.len(),
{
    if b.len() >= MAX_RAW {
        base64(b.take(MAX_RAW as int)) + crate::text::crlf() + base64_lines(b.skip(MAX_RAW as int))
    } else if b.len() > 0 {
        base64(b) + crate::text::crlf()
    } else {
        Seq::empty()
    }
}

/// Base64-encodes `b`, wrapping at 76 characters per RFC 2045, writing to
/// `buff`.
pub fn base64_wrap(buff: &mut Vec<u8>, b: &[u8])
    ensures
        final(buff)@ == old(buff)@ + base64_lines(b@),
{
    let mut i: usize = 0;
    assert(b@.skip(0) == b@);
    while b.len() - i >= MAX_RAW
        invariant
            i <= b@.len(),
            buff@ + base64_lines(b@.skip(i as int)) == old(buff)@ + base64_lines(b@),
        decreases b@.len() - i,
    {
        let ghost before = buff@;
        let ghost rest = b@.skip(i as int);
        let chunk = vstd::slice::slice_subrange(b, i, i + MAX_RAW);
        assert(chunk@ == rest.take(MAX_RAW as int));
        push_bytes(buff, base64_encode(chunk).as_slice());
        push_crlf(buff);
        assert(rest.skip(MAX_RAW as int) == b@.skip(i + MAX_RAW));
        i += MAX_RAW;
        assert(before + base64_lines(rest) == buff@ + base64_lines(b@.skip(i as int)));
    }
    let ghost rest = b@.skip(i as int);
    let ghost before = buff@;
    if i < b.len() {
        let chunk = vstd::slice::slice_subrange(b, i, b.len());
        assert(chunk@ == rest);
        push_bytes(buff, base64_encode(chunk).as_slice());
        push_crlf(buff);
    }
    assert(buff@ == before + base64_lines(rest));
}

/// The value of a character of the standard base64 alphabet.
pub open spec fn base64_value(d: u8) -> int {
    if 65 <= d <= 90 {
        d - 65
    } else if 97 <= d <= 122 {
        d - 71
    } else if 48 <= d <= 57 {
        d + 4
    } else if d == 43 {
        62
    } else {
        63
    }
}

/// The bytes that a padded base64 text stands for.
pub open spec fn base64_decode(t: Seq<u8>) -> Seq<u8>
    decreases t.len(),
{
    if t.len() < 4 {
        Seq::empty()
    } else {
        let a = base64_value(t[0]);
        let b = base64_value(t[1]);
        let c = base64_value(t[2]);
        let d = base64_value(t[3]);
        (if t[2] == 61 {
            seq![(a * 4 + b / 16) as u8]
        } else if t[3] == 61 {
            seq![(a * 4 + b / 16) as u8, (b % 16 * 16 + c / 4) as u8]
        } else {
            seq![(a * 4 + b / 16) as u8, (b % 16 * 16 + c / 4) as u8, (c % 4 * 64 + d) as u8]
        }) + base64_decode(t.skip(4))
    }
}

/// A base64 character gives its value back, and none is the padding.
proof fn lemma_base64_digit(v: int)
    requires
        0 <= v < 64,
    ensures
        base64_value(base64_digit(v)) == v,
        base64_digit(v) != 61,
{
}

/// The first group of a base64 text decodes to the first bytes.
proof fn lemma_base64_group(b: Seq<u8>)
    requires
        b.len() > 0,
    ensures
        base64(b).len() >= 4,
        base64_decode(base64(b)) == (if b.len() > 3 {
            b.take(3)
        } else {
            b
        }) + base64_decode(base64(b).skip(4)),
{
    let t = base64(b);
    let b0 = b[0] as int;
    lemma_base64_digit(b0 / 4);
    if b.len() == 1 {
        lemma_base64_digit(b0 % 4 * 16);
        assert(b == seq![b[0]]);
    } else if b.len() == 2 {
        let b1 = b[1] as int;
        lemma_base64_digit(b0 % 4 * 16 + b1 / 16);
        lemma_base64_digit(b1 % 16 * 4);
        assert(b == seq![b[0], b[1]]);
    } else {
        let b1 = b[1] as int;
        let b2 = b[2] as int;
        lemma_base64_digit(b0 % 4 * 16 + b1 / 16);
        lemma_base64_digit(b1 % 16 * 4 + b2 / 64);
        lemma_base64_digit(b2 % 64);
        assert(t[0] == base64_digit(b0 / 4));
        assert(t[1] == base64_digit(b0 % 4 * 16 + b1 / 16));
        assert(t[2] == base64_digit(b1 % 16 * 4 + b2 / 64));
        assert(t[3] == base64_digit(b2 % 64));
        assert(b.take(3) == seq![b[0], b[1], b[2]]);
        assert(b.len() == 3 ==> b.take(3) == b);
    }
}

/// Law: decoding the base64 text of `b` gives `b` back.
pub proof fn law_base64_round_trip(b: Seq<u8>)
    ensures
        base64_decode(base64(b)) == b,
    decreases b.len(),
{
    let t = base64(b);
    if b.len() > 0 {
        lemma_base64_group(b);
        if b.len() <= 2 {
            assert(t.skip(4) == Seq::<u8>::empty());
            assert(base64_decode(t.skip(4)) == Seq::<u8>::empty());
        } else {
            law_base64_round_trip(b.skip(3));
            assert(t.skip(4) == base64(b.skip(3)));
            assert(b.take(3) + b.skip(3) == b);
            assert(b.len() == 3 ==> b.take(3) == b);
        }
    }
}

/// The length of a base64 text, and the bytes that it is made of.
proof fn lemma_base64_shape(b: Seq<u8>)
    ensures
        base64(b).len() == 4 * ((b.len() + 2) / 3),
        forall|i: int| 0 <= i < base64(b).len() ==> (#[trigger] base64(b)[i]) > 13,
    decreases b.len(),
{
    if b.len() > 2 {
        lemma_base64_shape(b.skip(3));
    }
}

/// The base64 text of whole groups of three bytes is followed by that of the
/// rest.
proof fn lemma_base64_split(b: Seq<u8>, groups: nat)
    requires
        3 * groups <= b.len(),
    ensures
        base64(b) == base64(b.take(3 * groups as int)) + base64(b.skip(3 * groups as int)),
    decreases groups,
{
    let k = 3 * groups as int;
    if groups == 0 {
        assert(b.skip(0) == b);
    } else {
        lemma_base64_split(b.skip(3), (groups - 1) as nat);
        assert(b.skip(3).take(k - 3) == b.take(k).skip(3));
        assert(b.skip(3).skip(k - 3) == b.skip(k));
        assert(base64(b) == base64(b.take(k)) + base64(b.skip(k)));
    }
}

/// Law: no line of a wrapped base64 text is longer than [`MAX_LINE_LENGTH`].
pub proof fn law_base64_lines_fit(b: Seq<u8>)
    ensures
        lines_fit(base64_lines(b), 0),
    decreases b.len(),
{
    if b.len() >= MAX_RAW {
        let rest = base64_lines(b.skip(MAX_RAW as int));
        law_base64_lines_fit(b.skip(MAX_RAW as int));
        let line = base64(b.take(MAX_RAW as int));
        lemma_base64_shape(b.take(MAX_RAW as int));
        assert((crate::text::crlf() + rest).skip(2) == rest);
        lemma_lines_fit_run(line, crate::text::crlf() + rest, 0);
        assert(base64_lines(b) == line + (crate::text::crlf() + rest));
    } else if b.len() > 0 {
        lemma_base64_shape(b);
        assert(crate::text::crlf().skip(2) == Seq::<u8>::empty());
        assert(lines_fit(crate::text::crlf().skip(2), 0));
        lemma_lines_fit_run(base64(b), crate::text::crlf(), 0);
    }
}

/// `t` without its CR and LF bytes.
pub open spec fn without_breaks(t: Seq<u8>) -> Seq<u8>
    decreases t.len(),
{
    if t.len() == 0 {
        Seq::empty()
    } else if t[0] == 13 || t[0] == 10 {
        without_breaks(t.skip(1))
    } else {
        seq![t[0]] + without_breaks(t.skip(1))
    }
}

/// A line is kept, and its CRLF dropped.
proof fn lemma_without_breaks_line(line: Seq<u8>, t: Seq<u8>)
    requires
        forall|i: int| 0 <= i < line.len() ==> line[i] > 13,
    ensures
        without_breaks(line + crate::text::crlf() + t) == line + without_breaks(t),
    decreases line.len(),
{
    let u = line + crate::text::crlf() + t;
    if line.len() == 0 {
        assert(u.skip(1).skip(1) == t);
        assert(without_breaks(u.skip(1)) == without_breaks(t));
        assert(line + without_breaks(t) == without_breaks(t));
    } else {
        assert(u.skip(1) == line.skip(1) + crate::text::crlf() + t);
        lemma_without_breaks_line(line.skip(1), t);
        assert(seq![line[0]] + (line.skip(1) + without_breaks(t)) == line + without_breaks(t));
    }
}

/// Law: the lines of a wrapped base64 text, joined, are the base64 text of the
/// whole content, so that decoding them gives the content back.
pub proof fn law_base64_wrap_round_trip(b: Seq<u8>)
    ensures
        without_breaks(base64_lines(b)) == base64(b),
        base64_decode(without_breaks(base64_lines(b))) == b,
    decreases b.len(),
{
    law_base64_round_trip(b);
    if b.len() >= MAX_RAW {
        let k = MAX_RAW as int;
        law_base64_wrap_round_trip(b.skip(k));
        lemma_base64_split(b, 19);
        lemma_base64_shape(b.take(k));
        lemma_without_breaks_line(base64(b.take(k)), base64_lines(b.skip(k)));
    } else if b.len() > 0 {
        lemma_base64_shape(b);
        lemma_without_breaks_line(base64(b), Seq::empty());
        assert(base64(b) + crate::text::crlf() + Seq::<u8>::empty() == base64_lines(b));
        assert(base64(b) + without_breaks(Seq::empty()) == base64(b));
    }
}

/// A line break behind a text is dropped with the others.
proof fn lemma_without_last_break(t: Seq<u8>)
    ensures
        without_breaks(t + crate::text::crlf()) == without_breaks(t),
    decreases t.len(),
{
    let u = t + crate::text::crlf();
    if t.len() == 0 {
        assert(u.skip(1).skip(1) == Seq::<u8>::empty());
        assert(without_breaks(u.skip(1).skip(1)) == Seq::<u8>::empty());
        assert(without_breaks(u.skip(1)) == Seq::<u8>::empty());
    } else {
        assert(u.skip(1) == t.skip(1) + crate::text::crlf());
        lemma_without_last_break(t.skip(1));
    }
}

/// Law: decoding the lines of a wrapped base64 text together with the line ending of
/// the delimiter behind them gives the content back, and nothing of that line
/// ending.
pub proof fn law_base64_part_round_trip(b: Seq<u8>)
    ensures
        base64_decode(without_breaks(base64_lines(b) + crate::text::crlf())) == b,
{
    lemma_without_last_break(base64_lines(b));
    law_base64_wrap_round_trip(b);
}

// ---------------------------------------------------------------------------
// Q-encoded header words
// ---------------------------------------------------------------------------

/// Whether `b` is an ASCII letter or digit.
pub open spec fn is_alphanumeric(b: u8) -> bool {
    48 <= b <= 57 || 65 <= b <= 90 || 97 <= b <= 122
}

/// How a byte is written in a Q-encoded word.
pub open spec fn q_unit(b: u8) -> Seq<char> {
    if b == 32 {
        seq!['_']
    } else if is_alphanumeric(b) {
        seq![b as char]
    } else {
        seq![
            '=',
            crate::text::hex_digit(b as int / 16, true) as char,
            crate::text::hex_digit(b as int % 16, true) as char,
        ]
    }
}

/// How a string of bytes is written in a Q-encoded word.
pub open spec fn q_units(bytes: Seq<u8>) -> Seq<char>
    decreases bytes.len(),
{
    if bytes.len() == 0 {
        Seq::empty()
    } else {
        q_unit(bytes[0]) + q_units(bytes.skip(1))
    }
}

/// The RFC 2047 encoded word for a text, in UTF-8 and "Q" encoding.
pub open spec fn q_word(s: Seq<char>) -> Seq<char> {
    "=?utf-8?q?"@ + q_units(crate::text::utf8(s)) + "?="@
}

/// Whether `b` is an ASCII letter or digit.
pub fn is_ascii_alphanumeric(b: u8) -> (r: bool)
    ensures
        r == is_alphanumeric(b),
{
    (48 <= b && b <= 57) || (65 <= b && b <= 90) || (97 <= b && b <= 122)
}

/// RFC 2047 "Q" encoded-word for a UTF-8 string, as a single word.
pub fn q_encode_word(s: &str) -> (r: String)
    ensures
        r@ == q_word(s@),
{
    let mut enc = "=?utf-8?q?".to_string();
    let bytes = s.as_bytes();
    let mut i: usize = 0;
    assert(bytes@.skip(0) == bytes@);
    while i < bytes.len()
        invariant
            bytes@ == crate::text::utf8(s@),
            i <= bytes@.len(),
            enc@ + q_units(bytes@.skip(i as int)) == "=?utf-8?q?"@ + q_units(bytes@),
        decreases bytes@.len() - i,
    {
        let b = bytes[i];
        let ghost before = enc@;
        let ghost rest = bytes@.skip(i as int);
        if b == 32 {
            enc.push('_');
        } else if is_ascii_alphanumeric(b) {
            enc.push(b as char);
        } else {
            enc.push('=');
            enc.push(hex_digit_of(b / 16, true) as char);
            enc.push(hex_digit_of(b % 16, true) as char);
        }
        assert(enc@ == before + q_unit(b));
        assert(rest.skip(1) == bytes@.skip(i + 1));
        i += 1;
        assert(before + q_units(rest) == enc@ + q_units(bytes@.skip(i as int)));
    }
    assert(enc@ + q_units(bytes@.skip(i as int)) == enc@);
    enc.append("?=");
    enc
}

/// Whether a byte of a header value keeps the value from being written as it is.
pub open spec fn q_unsafe(b: u8) -> bool {
    !(0x20 <= b <= 0x7e) && b != 9
}

/// Whether a header value has to be Q-encoded.
pub open spec fn q_needed(s: Seq<char>) -> bool {
    exists|i: int| 0 <= i < crate::text::utf8(s).len() && q_unsafe(#[trigger] crate::text::utf8(s)[i])
}

/// A header value as it is written.
pub open spec fn q_value(s: Seq<char>) -> Seq<char> {
    if q_needed(s) {
        q_word(s)
    } else {
        s
    }
}

/// Q-encodes the whole value as one encoded-word if it contains bytes outside
/// printable ASCII (tab excepted); otherwise returns it unchanged.
pub fn q_encode_if_needed(s: &str) -> (r: String)
    ensures
        r@ == q_value(s@),
{
    let bytes = s.as_bytes();
    let mut i: usize = 0;
    while i < bytes.len()
        invariant
            bytes@ == crate::text::utf8(s@),
            i <= bytes@.len(),
            forall|j: int| 0 <= j < i ==> !q_unsafe(#[trigger] bytes@[j]),
        decreases bytes@.len() - i,
    {
        let b = bytes[i];
        if !(0x20 <= b && b <= 0x7e) && b != 9 {
            assert(q_unsafe(crate::text::utf8(s@)[i as int]));
            return q_encode_word(s);
        }
        i += 1;
    }
    s.to_string()
}

/// The bytes that the characters between the marks of a Q-encoded word stand for.
pub open spec fn q_decode(t: Seq<char>) -> Seq<u8>
    decreases t.len(),
{
    if t.len() == 0 {
        Seq::empty()
    } else if t[0] == '=' && t.len() >= 3 {
        seq![(16 * hex_value(t[1] as u8) + hex_value(t[2] as u8)) as u8] + q_decode(t.skip(3))
    } else if t[0] == '_' {
        seq![32u8] + q_decode(t.skip(1))
    } else {
        seq![t[0] as u8] + q_decode(t.skip(1))
    }
}

/// Law: decoding a Q-encoded word gives its UTF-8 bytes back.
pub proof fn law_q_round_trip(bytes: Seq<u8>)
    ensures
        q_decode(q_units(bytes)) == bytes,
    decreases bytes.len(),
{
    if bytes.len() > 0 {
        let b = bytes[0];
        let t = q_units(bytes);
        let tail = q_units(bytes.skip(1));
        law_q_round_trip(bytes.skip(1));
        if b == 32 || is_alphanumeric(b) {
            assert(t.skip(1) == tail);
        } else {
            lemma_escape_value(b);
            assert(t.skip(3) == tail);
            assert(t[1] as u8 == escape(b)[1]);
            assert(t[2] as u8 == escape(b)[2]);
        }
        assert(q_decode(t) == seq![b] + q_decode(tail));
        assert(seq![b] + bytes.skip(1) == bytes);
    }
}

/// The characters of a Q-encoded word are printable ASCII.
proof fn lemma_q_units_clean(bytes: Seq<u8>)
    ensures
        forall|i: int|
            0 <= i < q_units(bytes).len() ==> ' ' < (#[trigger] q_units(bytes)[i]) <= '~',
    decreases bytes.len(),
{
    if bytes.len() > 0 {
        lemma_q_units_clean(bytes.skip(1));
        let unit = q_unit(bytes[0]);
        let tail = q_units(bytes.skip(1));
        assert forall|i: int| 0 <= i < q_units(bytes).len() implies ' ' < (
        #[trigger] q_units(bytes)[i]) <= '~' by {
            if i >= unit.len() {
                assert(q_units(bytes)[i] == tail[i - unit.len()]);
            } else {
                assert(q_units(bytes)[i] == unit[i]);
            }
        }
    }
}

/// Law: a header value is written in printable ASCII and tabs, whatever it
/// holds, so that it never ends its line.
pub proof fn law_q_value_clean(s: Seq<char>)
    ensures
        forall|i: int|
            0 <= i < crate::text::utf8(q_value(s)).len() ==> !q_unsafe(
                #[trigger] crate::text::utf8(q_value(s))[i],
            ),
{
    if q_needed(s) {
        reveal_strlit("=?utf-8?q?");
        reveal_strlit("?=");
        lemma_q_units_clean(crate::text::utf8(s));
        let w = q_word(s);
        assert forall|i: int| 0 <= i < w.len() implies ' ' < (#[trigger] w[i]) <= '~' by {
            let body = q_units(crate::text::utf8(s));
            if 10 <= i < 10 + body.len() {
                assert(w[i] == body[i - 10]);
            }
        }
        assert(vstd::utf8::is_ascii_chars(w));
        vstd::utf8::is_ascii_chars_encode_utf8(w);
    }
}

// ---------------------------------------------------------------------------
// Laws on what is left as it is
// ---------------------------------------------------------------------------

/// Bytes that need no escape are written as they are, as far as the line has room for
/// them.
proof fn lemma_qp_run(run: Seq<u8>, rest: Seq<u8>, col: int)
    requires
        forall|i: int|
            0 <= i < run.len() ==> 0x20 <= #[trigger] run[i] <= 0x7e && run[i] != 61 || run[i] == 9,
        run.len() > 0 && (run.last() == 32 || run.last() == 9) ==> rest.len() > 0 && rest[0] != 13
            && rest[0] != 10,
        0 <= col,
        col + run.len() <= 75,
    ensures
        quoted_printable(run + rest, col) == run + quoted_printable(rest, col + run.len()),
    decreases run.len(),
{
    let all = run + rest;
    if run.len() == 0 {
        assert(all == rest);
        assert(run + quoted_printable(rest, col) == quoted_printable(rest, col));
    } else {
        let tail = run.skip(1);
        assert forall|i: int| 0 <= i < tail.len() implies 0x20 <= #[trigger] tail[i] <= 0x7e
            && tail[i] != 61 || tail[i] == 9 by {
            assert(tail[i] == run[i + 1]);
        }
        lemma_qp_run(tail, rest, col + 1);
        assert(all[0] == run[0]);
        assert(all.skip(1) == tail + rest);
        if run.len() > 1 {
            assert(all[1] == run[1]);
        } else {
            assert(run.last() == run[0]);
            assert(rest.len() > 0 ==> all[1] == rest[0]);
        }
        assert(qp_literal(all));
        assert(break_len(all) == 0);
        assert(seq![run[0]] + (tail + quoted_printable(rest, col + run.len())) == run
            + quoted_printable(rest, col + run.len()));
        assert(quoted_printable(all, col) == seq![run[0]] + quoted_printable(all.skip(1), col + 1));
    }
}

/// Law: a text of printable bytes that fits in a line and ends in no blank is written as
/// it is: nothing in it is escaped but the equals sign.
pub proof fn law_qp_keeps_printable(data: Seq<u8>)
    requires
        forall|i: int|
            0 <= i < data.len() ==> 0x20 <= #[trigger] data[i] <= 0x7e && data[i] != 61 || data[i]
                == 9,
        data.len() > 0 ==> data.last() != 32 && data.last() != 9,
        data.len() <= 75,
    ensures
        quoted_printable(data, 0) == data,
{
    lemma_qp_run(data, Seq::empty(), 0);
    assert(data + Seq::<u8>::empty() == data);
    assert(quoted_printable(Seq::<u8>::empty(), data.len() as int) == Seq::<u8>::empty());
}

/// Law: a line that goes on behind 75 printable bytes is broken there and nowhere before.
pub proof fn law_qp_breaks_full_lines(line: Seq<u8>, rest: Seq<u8>)
    requires
        forall|i: int|
            0 <= i < line.len() ==> 0x20 <= #[trigger] line[i] <= 0x7e && line[i] != 61 || line[i]
                == 9,
        line.len() == 75,
        rest.len() > 0,
        0x21 <= rest[0] <= 0x7e,
        rest[0] != 61,
    ensures
        quoted_printable(line + rest, 0) == line + seq![61u8, 13u8, 10u8] + quoted_printable(
            rest,
            0,
        ),
{
    lemma_qp_run(line, rest, 0);
    assert(break_len(rest) == 0);
    assert(qp_literal(rest));
    let tail = quoted_printable(rest.skip(1), 1);
    assert(quoted_printable(rest, 75) == soft_break() + seq![rest[0]] + tail);
    assert(quoted_printable(rest, 0) == Seq::<u8>::empty() + seq![rest[0]] + tail);
    assert(line + (soft_break() + seq![rest[0]] + tail) == line + seq![61u8, 13u8, 10u8]
        + quoted_printable(rest, 0));
}

/// Law: a line break of whichever kind is written as CRLF, and the next line starts anew;
/// a byte that is not printable, and an equals sign, is written as an equals sign and its
/// two upper-case hexadecimal digits; and so is a blank at the end of a line.
pub proof fn law_qp_breaks_and_escapes(rest: Seq<u8>, b: u8, col: int)
    requires
        0 <= col <= 72,
    ensures
        quoted_printable(seq![13u8, 10u8] + rest, col) == seq![13u8, 10u8] + quoted_printable(
            rest,
            0,
        ),
        quoted_printable(seq![10u8] + rest, col) == seq![13u8, 10u8] + quoted_printable(rest, 0),
        rest.len() == 0 || rest[0] != 10 ==> quoted_printable(seq![13u8] + rest, col) == seq![
            13u8,
            10u8,
        ] + quoted_printable(rest, 0),
        (b < 32 && b != 9 && b != 10 && b != 13) || b > 126 || b == 61 || ((b == 32 || b == 9) && (
        rest.len() == 0 || rest[0] == 13 || rest[0] == 10)) ==> quoted_printable(
            seq![b] + rest,
            col,
        ) == seq![
            61u8,
            (if b / 16 < 10 {
                48 + b / 16
            } else {
                55 + b / 16
            }) as u8,
            (if b % 16 < 10 {
                48 + b % 16
            } else {
                55 + b % 16
            }) as u8,
        ] + quoted_printable(rest, col + 3),
{
    let crlf = seq![13u8, 10u8] + rest;
    assert(crlf.skip(2) == rest);
    assert(break_len(crlf) == 2);
    let lf = seq![10u8] + rest;
    assert(lf.skip(1) == rest);
    assert(break_len(lf) == 1);
    let cr = seq![13u8] + rest;
    assert(cr.skip(1) == rest);
    if rest.len() == 0 || rest[0] != 10 {
        assert(cr.len() > 1 ==> cr[1] == rest[0]);
        assert(break_len(cr) == 1);
    }
    let one = seq![b] + rest;
    assert(one.skip(1) == rest);
    assert(rest.len() > 0 ==> one[1] == rest[0]);
    if (b < 32 && b != 9 && b != 10 && b != 13) || b > 126 || b == 61 || ((b == 32 || b == 9) && (
    rest.len() == 0 || rest[0] == 13 || rest[0] == 10)) {
        assert(break_len(one) == 0);
        assert(!qp_literal(one));
        assert(quoted_printable(one, col) == Seq::<u8>::empty() + escape(b) + quoted_printable(
            rest,
            col + 3,
        ));
        assert(Seq::<u8>::empty() + escape(b) == escape(b));
    }
}

/// Law: a quoted-printable text holds printable ASCII, tabs and CRLF alone.
pub proof fn law_qp_bytes(data: Seq<u8>, i: int)
    requires
        0 <= i < quoted_printable(data, 0).len(),
    ensures
        0x20 <= quoted_printable(data, 0)[i] <= 0x7e || quoted_printable(data, 0)[i] == 9
            || quoted_printable(data, 0)[i] == 13 || quoted_printable(data, 0)[i] == 10,
{
    law_qp_clean(data, 0);
}

/// Law: normalizing changes nothing but line breaks: a line up to its end stays, its
/// ending becomes CRLF, of whichever kind it was, and so on with the next line.
pub proof fn law_normalize_breaks(line: Seq<u8>, rest: Seq<u8>)
    requires
        forall|i: int| 0 <= i < line.len() ==> #[trigger] line[i] != 13 && line[i] != 10,
    ensures
        normalize_breaks(line) == line,
        normalize_breaks(line + seq![13u8, 10u8] + rest) == line + seq![13u8, 10u8]
            + normalize_breaks(rest),
        normalize_breaks(line + seq![10u8] + rest) == line + seq![13u8, 10u8] + normalize_breaks(
            rest,
        ),
        rest.len() == 0 || rest[0] != 10 ==> normalize_breaks(line + seq![13u8] + rest) == line
            + seq![13u8, 10u8] + normalize_breaks(rest),
    decreases line.len(),
{
    let crlf = line + seq![13u8, 10u8] + rest;
    let lf = line + seq![10u8] + rest;
    let cr = line + seq![13u8] + rest;
    if line.len() == 0 {
        assert(crlf.skip(2) == rest);
        assert(lf.skip(1) == rest);
        assert(cr.skip(1) == rest);
        assert(break_len(crlf) == 2);
        assert(break_len(lf) == 1);
        assert(rest.len() > 0 ==> cr[1] == rest[0]);
        assert(line + seq![13u8, 10u8] + normalize_breaks(rest) == seq![13u8, 10u8]
            + normalize_breaks(rest));
    } else {
        let tail = line.skip(1);
        assert forall|i: int| 0 <= i < tail.len() implies #[trigger] tail[i] != 13 && tail[i]
            != 10 by {
            assert(tail[i] == line[i + 1]);
        }
        assert(line[0] != 13 && line[0] != 10);
        law_normalize_breaks(tail, rest);
        assert(crlf[0] == line[0] && lf[0] == line[0] && cr[0] == line[0]);
        assert(crlf.skip(1) == tail + seq![13u8, 10u8] + rest);
        assert(lf.skip(1) == tail + seq![10u8] + rest);
        assert(cr.skip(1) == tail + seq![13u8] + rest);
        assert(seq![line[0]] + tail == line);
        assert(seq![line[0]] + (tail + seq![13u8, 10u8] + normalize_breaks(rest)) == line + seq![
            13u8,
            10u8,
        ] + normalize_breaks(rest));
    }
}

/// Law: wrapped base64 text has four characters for every three bytes or part of them,
/// and a CRLF behind every 76 characters or part of them; it is made of letters, digits,
/// `+`, `/` and `=`, and of CRLF.
pub proof fn law_base64_lines_shape(b: Seq<u8>)
    ensures
        base64_lines(b).len() == 4 * ((b.len() + 2) / 3) + 2 * ((b.len() + 56) / 57),
        forall|i: int|
            0 <= i < base64_lines(b).len() ==> is_base64_byte(#[trigger] base64_lines(b)[i]),
        b.len() > 0 ==> base64_lines(b)[base64_lines(b).len() - 1] == 10,
    decreases b.len(),
{
    let t = base64_lines(b);
    if b.len() >= MAX_RAW {
        let k = MAX_RAW as int;
        let tail = base64_lines(b.skip(k));
        let line = base64(b.take(k));
        law_base64_lines_shape(b.skip(k));
        lemma_base64_shape(b.take(k));
        lemma_base64_alphabet(b.take(k));
        assert(line.len() == 76);
        assert forall|i: int| 0 <= i < t.len() implies is_base64_byte(#[trigger] t[i]) by {
            if i < 76 {
                assert(t[i] == line[i]);
            } else if i >= 78 {
                assert(t[i] == tail[i - 78]);
            }
        }
        assert(b.len() == k ==> t[77] == 10);
    } else if b.len() > 0 {
        let line = base64(b);
        lemma_base64_shape(b);
        lemma_base64_alphabet(b);
        assert forall|i: int| 0 <= i < t.len() implies is_base64_byte(#[trigger] t[i]) by {
            if i < line.len() {
                assert(t[i] == line[i]);
            }
        }
        assert((b.len() + 56) / 57 == 1);
    }
}

/// Whether `c` may stand in wrapped base64 text: a letter, a digit, `+`, `/`, `=`, or a
/// part of CRLF.
pub open spec fn is_base64_byte(c: u8) -> bool {
    65 <= c <= 90 || 97 <= c <= 122 || 48 <= c <= 57 || c == 43 || c == 47 || c == 61 || c == 13
        || c == 10
}

proof fn lemma_base64_alphabet(b: Seq<u8>)
    ensures
        forall|i: int| 0 <= i < base64(b).len() ==> is_base64_byte(#[trigger] base64(b)[i]),
    decreases b.len(),
{
    let t = base64(b);
    if b.len() > 2 {
        let tail = base64(b.skip(3));
        lemma_base64_alphabet(b.skip(3));
        assert forall|i: int| 4 <= i < t.len() implies #[trigger] t[i] == tail[i - 4] by {}
        assert(t[0] == base64_digit(b[0] as int / 4));
        assert(t[1] == base64_digit(b[0] as int % 4 * 16 + b[1] as int / 16));
        assert(t[2] == base64_digit(b[1] as int % 16 * 4 + b[2] as int / 64));
        assert(t[3] == base64_digit(b[2] as int % 64));
        assert forall|i: int| 0 <= i < t.len() implies is_base64_byte(#[trigger] t[i]) by {
            if i >= 4 {
                assert(t[i] == tail[i - 4]);
            }
        }
    }
}

/// Law: a header value of printable ASCII and tabs is written as it is; any other is
/// written as a Q-encoded word that is decoded to the value in UTF-8. What is written is
/// printable ASCII and tabs in any case, so that no value can end its line.
pub proof fn law_q_value(s: Seq<char>)
    ensures
        (forall|i: int| 0 <= i < s.len() ==> ' ' <= #[trigger] s[i] <= '~' || s[i] == '\t')
            ==> q_value(s) == s,
        q_value(s) == s || exists|word: Seq<char>|
            q_value(s) == "=?utf-8?q?"@ + word + "?="@ && #[trigger] q_decode(word)
                == crate::text::utf8(s),
        forall|i: int|
            0 <= i < crate::text::utf8(q_value(s)).len() ==> 0x20 <= #[trigger] crate::text::utf8(
                q_value(s),
            )[i] <= 0x7e || crate::text::utf8(q_value(s))[i] == 9,
{
    law_q_value_clean(s);
    if forall|i: int| 0 <= i < s.len() ==> ' ' <= #[trigger] s[i] <= '~' || s[i] == '\t' {
        assert(vstd::utf8::is_ascii_chars(s));
        vstd::utf8::is_ascii_chars_encode_utf8(s);
        assert forall|i: int| 0 <= i < crate::text::utf8(s).len() implies !q_unsafe(
            #[trigger] crate::text::utf8(s)[i],
        ) by {
            assert(crate::text::utf8(s)[i] == s[i] as u8);
        }
    }
    if q_needed(s) {
        law_q_round_trip(crate::text::utf8(s));
        let word = q_units(crate::text::utf8(s));
        assert(q_decode(word) == crate::text::utf8(s));
    }
}

/// Law: in a Q-encoded word a letter or digit stands for itself, a blank is an underscore,
/// and any other byte is an equals sign and its two upper-case hexadecimal digits; and the
/// word stands between its marks.
pub proof fn law_q_units(bytes: Seq<u8>, b: u8, s: Seq<char>)
    ensures
        q_units(seq![b] + bytes) == (if b == 32 {
            seq!['_']
        } else if 48 <= b <= 57 || 65 <= b <= 90 || 97 <= b <= 122 {
            seq![b as char]
        } else {
            seq!['=', "0123456789ABCDEF"@[b as int / 16], "0123456789ABCDEF"@[b as int % 16]]
        }) + q_units(bytes),
        q_units(Seq::empty()) == Seq::<char>::empty(),
        q_word(s) == "=?utf-8?q?"@ + q_units(crate::text::utf8(s)) + "?="@,
{
    reveal_strlit("0123456789ABCDEF");
    let all = seq![b] + bytes;
    assert(all.skip(1) == bytes);
    let hi = b as int / 16;
    let lo = b as int % 16;
    assert(crate::text::hex_digit(hi, true) as char == "0123456789ABCDEF"@[hi]);
    assert(crate::text::hex_digit(lo, true) as char == "0123456789ABCDEF"@[lo]);
}

/// Law: encoding a text appends to what is there bytes that are decoded to the text, with
/// its line breaks normalized to CRLF.
pub proof fn law_qp_encode(out: &mut Vec<u8>, data: &[u8])
    requires
        call_ensures(qp_encode, (out, data), ()),
    ensures
        final(out)@.len() >= old(out)@.len(),
        final(out)@.take(old(out)@.len() as int) == old(out)@,
        qp_decode(final(out)@.skip(old(out)@.len() as int)) == normalize_breaks(data@),
{
    law_qp_round_trip(data@, 0);
    let n = old(out)@.len() as int;
    assert(final(out)@.skip(n) == quoted_printable(data@, 0));
    assert(final(out)@.take(n) == old(out)@);
}

/// Law: wrapping a file as base64 appends to what is there lines that are decoded to the
/// file, byte for byte.
pub proof fn law_base64_wrap(out: &mut Vec<u8>, b: &[u8])
    requires
        call_ensures(base64_wrap, (out, b), ()),
    ensures
        final(out)@.len() >= old(out)@.len(),
        final(out)@.take(old(out)@.len() as int) == old(out)@,
        base64_decode(without_breaks(final(out)@.skip(old(out)@.len() as int))) == b@,
{
    law_base64_wrap_round_trip(b@);
    let n = old(out)@.len() as int;
    assert(final(out)@.skip(n) == base64_lines(b@));
    assert(final(out)@.take(n) == old(out)@);
}

/// Law: a header value is written as it is where it is printable, and else as a word that
/// is decoded to it.
pub proof fn law_q_encode(s: &str, r: String)
    requires
        call_ensures(q_encode_if_needed, (s,), r),
    ensures
        (forall|i: int| 0 <= i < s@.len() ==> ' ' <= #[trigger] s@[i] <= '~' || s@[i] == '\t')
            ==> r@ == s@,
        r@ == s@ || exists|word: Seq<char>|
            r@ == "=?utf-8?q?"@ + word + "?="@ && #[trigger] q_decode(word) == crate::text::utf8(
                s@,
            ),
{
    law_q_value(s@);
}

} // verus!
