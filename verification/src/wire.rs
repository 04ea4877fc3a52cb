//! What a reader of MIME messages finds in the bytes of a message, told without regard
//! to how they were written: header fields up to an empty line, then a body, which for
//! a container is cut at its delimiters. The laws say that the bytes of a rendered
//! message are read as the message that they were rendered from.

use vstd::prelude::*;

use crate::email::{AttachmentView, EmailView};
use crate::header::HeaderView;
use crate::parse::PartView;
use crate::render::Entity;
use crate::stamp::StampView;

verus! {

// ---------------------------------------------------------------------------
// Finding
// ---------------------------------------------------------------------------

/// Whether `t` starts with `p`.
pub open spec fn starts<T>(t: Seq<T>, p: Seq<T>) -> bool {
    p.len() <= t.len() && t.take(p.len() as int) == p
}

/// Index of the first place in `t` at which `p` starts; the length of `t` where there is
/// none.
pub open spec fn first_at<T>(t: Seq<T>, p: Seq<T>) -> nat
    decreases t.len(),
{
    if t.len() == 0 || starts(t, p) {
        0
    } else {
        1 + first_at(t.skip(1), p)
    }
}

/// Whether `p` stands somewhere in `t`.
pub open spec fn occurs<T>(t: Seq<T>, p: Seq<T>) -> bool {
    exists|i: int| 0 <= i <= t.len() && starts(#[trigger] t.skip(i), p)
}

/// `p` is found where it stands and does not start before.
proof fn lemma_first_at<T>(x: Seq<T>, p: Seq<T>, y: Seq<T>)
    requires
        p.len() > 0,
        forall|i: int| 0 <= i < x.len() ==> !starts(#[trigger] (x + p + y).skip(i), p),
    ensures
        first_at(x + p + y, p) == x.len(),
    decreases x.len(),
{
    let t = x + p + y;
    if x.len() == 0 {
        assert(t.take(p.len() as int) == p);
    } else {
        assert(t.skip(0) == t);
        let rest = x.skip(1);
        assert(t.skip(1) == rest + p + y);
        assert forall|i: int| 0 <= i < rest.len() implies !starts(
            #[trigger] (rest + p + y).skip(i),
            p,
        ) by {
            assert((rest + p + y).skip(i) == t.skip(i + 1));
        }
        lemma_first_at(rest, p, y);
    }
}

/// `p` is found behind what does not hold its first element.
proof fn lemma_first_unlike<T>(x: Seq<T>, p: Seq<T>, y: Seq<T>)
    requires
        p.len() > 0,
        forall|i: int| 0 <= i < x.len() ==> #[trigger] x[i] != p[0],
    ensures
        first_at(x + p + y, p) == x.len(),
{
    let t = x + p + y;
    assert forall|i: int| 0 <= i < x.len() implies !starts(#[trigger] t.skip(i), p) by {
        if starts(t.skip(i), p) {
            assert(t.skip(i).take(p.len() as int)[0] == t[i]);
            assert(t[i] == x[i]);
        }
    }
    lemma_first_at(x, p, y);
}

// ---------------------------------------------------------------------------
// Fields
// ---------------------------------------------------------------------------

/// Whether `b` is a blank or a tab.
pub open spec fn is_blank(b: u8) -> bool {
    b == 32 || b == 9
}

/// Index of the first CRLF in `t` that ends its field: no blank follows, which would
/// continue it.
pub open spec fn line_end(t: Seq<u8>) -> nat
    decreases t.len(),
{
    if t.len() == 0 || (starts(t, crate::text::crlf()) && !(t.len() > 2 && is_blank(t[2]))) {
        0
    } else {
        1 + line_end(t.skip(1))
    }
}

/// The fields that `raw` starts with, up to an empty line, each as its key and its value,
/// and what comes behind that line.
pub open spec fn read_fields(raw: Seq<u8>) -> (Seq<(Seq<u8>, Seq<u8>)>, Seq<u8>)
    decreases raw.len(),
{
    let key = first_at(raw, seq![58u8, 32u8]);
    let rest = raw.skip(key + 2int);
    let val = line_end(rest);
    if starts(raw, crate::text::crlf()) {
        (Seq::empty(), raw.skip(2))
    } else if key + 2 > raw.len() || val + 2 > rest.len() {
        (Seq::empty(), Seq::empty())
    } else {
        let (fields, body) = read_fields(rest.skip(val + 2int));
        (seq![(raw.take(key as int), rest.take(val as int))] + fields, body)
    }
}

/// Fields as lines.
pub open spec fn lines(fields: Seq<(Seq<u8>, Seq<u8>)>) -> Seq<u8>
    decreases fields.len(),
{
    if fields.len() == 0 {
        Seq::empty()
    } else {
        lines(fields.drop_last()) + fields.last().0 + seq![58u8, 32u8] + fields.last().1
            + crate::text::crlf()
    }
}

/// Whether `key` can stand before the colon of a field.
pub open spec fn is_clean_key(key: Seq<u8>) -> bool {
    &&& key.len() > 0
    &&& key[0] != 13
    &&& !is_blank(key[0])
    &&& forall|i: int| 0 <= i < key.len() ==> #[trigger] key[i] != 58
}

/// Whether each CRLF in `val` is followed by a blank.
pub open spec fn is_clean_value(val: Seq<u8>) -> bool {
    forall|i: int|
        0 <= i < val.len() - 1 && #[trigger] val[i] == 13 && val[i + 1] == 10 ==> i + 2 < val.len()
            && is_blank(val[i + 2])
}

proof fn lemma_lines_append(a: Seq<(Seq<u8>, Seq<u8>)>, b: Seq<(Seq<u8>, Seq<u8>)>)
    ensures
        lines(a + b) == lines(a) + lines(b),
    decreases b.len(),
{
    if b.len() == 0 {
        assert(a + b == a);
        assert(lines(a) + lines(b) == lines(a));
    } else {
        lemma_lines_append(a, b.drop_last());
        assert((a + b).drop_last() == a + b.drop_last());
        assert(lines(a + b) == lines(a) + lines(b));
    }
}

proof fn lemma_one_line(f: (Seq<u8>, Seq<u8>))
    ensures
        lines(seq![f]) == f.0 + seq![58u8, 32u8] + f.1 + crate::text::crlf(),
{
    assert(seq![f].drop_last() == Seq::<(Seq<u8>, Seq<u8>)>::empty());
    assert(lines(seq![f].drop_last()) == Seq::<u8>::empty());
    assert(lines(seq![f]) == f.0 + seq![58u8, 32u8] + f.1 + crate::text::crlf());
}

proof fn lemma_line_end(val: Seq<u8>, y: Seq<u8>)
    requires
        is_clean_value(val),
        y.len() > 0,
        !is_blank(y[0]),
    ensures
        line_end(val + crate::text::crlf() + y) == val.len(),
    decreases val.len(),
{
    let t = val + crate::text::crlf() + y;
    if val.len() == 0 {
        assert(t.take(2) == crate::text::crlf());
        assert(t[2] == y[0]);
    } else {
        let rest = val.skip(1);
        assert(t.skip(1) == rest + crate::text::crlf() + y);
        assert forall|i: int|
            0 <= i < rest.len() - 1 && #[trigger] rest[i] == 13 && rest[i + 1] == 10 implies i + 2
            < rest.len() && is_blank(rest[i + 2]) by {
            assert(val[i + 1] == 13);
        }
        lemma_line_end(rest, y);
        if starts(t, crate::text::crlf()) {
            assert(t.take(2)[0] == 13 && t.take(2)[1] == 10);
            assert(t[0] == val[0]);
            if val.len() > 1 {
                assert(t[1] == val[1]);
                assert(t[2] == val[2]);
            }
        }
    }
}

/// Law: lines of fields, an empty line and a body are read as these fields and this body.
/// A key holds no colon, starts with no blank and with no line break; and a line break in
/// a value is followed by a blank.
pub proof fn law_fields_read(fields: Seq<(Seq<u8>, Seq<u8>)>, body: Seq<u8>)
    requires
        forall|i: int|
            0 <= i < fields.len() ==> is_clean_key((#[trigger] fields[i]).0) && is_clean_value(
                fields[i].1,
            ),
    ensures
        read_fields(lines(fields) + crate::text::crlf() + body) == (fields, body),
    decreases fields.len(),
{
    let raw = lines(fields) + crate::text::crlf() + body;
    if fields.len() == 0 {
        assert(raw.take(2) == crate::text::crlf());
        assert(raw.skip(2) == body);
        assert(fields == Seq::<(Seq<u8>, Seq<u8>)>::empty());
    } else {
        let (key, val) = fields[0];
        let others = fields.skip(1);
        let sep = seq![58u8, 32u8];
        let tail = lines(others) + crate::text::crlf() + body;
        assert forall|i: int| 0 <= i < others.len() implies is_clean_key((#[trigger] others[i]).0)
            && is_clean_value(others[i].1) by {
            assert(others[i] == fields[i + 1]);
        }
        law_fields_read(others, body);
        lemma_lines_append(seq![fields[0]], others);
        lemma_one_line(fields[0]);
        assert(seq![fields[0]] + others == fields);
        let after = val + crate::text::crlf() + tail;
        assert(raw == key + sep + after);
        if others.len() > 0 {
            lemma_lines_append(seq![others[0]], others.skip(1));
            lemma_one_line(others[0]);
            assert(seq![others[0]] + others.skip(1) == others);
            assert(is_clean_key(others[0].0));
            assert(tail[0] == others[0].0[0]);
        } else {
            assert(lines(others) == Seq::<u8>::empty());
            assert(tail[0] == 13);
        }
        assert(is_clean_key(fields[0].0) && is_clean_value(fields[0].1));
        lemma_first_unlike(key, sep, after);
        lemma_line_end(val, tail);
        assert(raw.skip(key.len() + 2int) == after);
        assert(after.skip(val.len() + 2int) == tail);
        assert(raw.take(key.len() as int) == key);
        assert(after.take(val.len() as int) == val);
        if starts(raw, crate::text::crlf()) {
            assert(raw.take(2)[0] == 13);
            assert(raw[0] == key[0]);
        }
        assert(read_fields(raw) == (seq![(key, val)] + others, body));
    }
}

// ---------------------------------------------------------------------------
// Values
// ---------------------------------------------------------------------------

/// Whether `t` has the form of a Q-encoded word.
pub open spec fn is_word(t: Seq<char>) -> bool {
    t.len() >= 12 && starts(t, "=?utf-8?q?"@) && t.skip(t.len() - 2) == "?="@
}

/// The text of a field's value, with an encoded word undone.
pub open spec fn value_text(val: Seq<u8>) -> Seq<char> {
    let t = vstd::utf8::decode_utf8(val);
    if is_word(t) {
        vstd::utf8::decode_utf8(crate::encoding::q_decode(t.subrange(10, t.len() - 2)))
    } else {
        t
    }
}

/// The fields as texts.
pub open spec fn field_texts(fields: Seq<(Seq<u8>, Seq<u8>)>) -> Seq<(Seq<char>, Seq<char>)> {
    fields.map_values(
        |f: (Seq<u8>, Seq<u8>)| (vstd::utf8::decode_utf8(f.0), value_text(f.1)),
    )
}

/// The value of the first field with the key `key`; empty where there is none.
pub open spec fn lookup(fields: Seq<(Seq<char>, Seq<char>)>, key: Seq<char>) -> Seq<char>
    decreases fields.len(),
{
    if fields.len() == 0 {
        Seq::empty()
    } else if fields[0].0 == key {
        fields[0].1
    } else {
        lookup(fields.skip(1), key)
    }
}

/// Texts as fields, encoded where `shown` says that they are written so.
pub open spec fn field_bytes(pairs: Seq<(Seq<char>, Seq<char>)>, shown: bool) -> Seq<
    (Seq<u8>, Seq<u8>),
> {
    pairs.map_values(
        |p: (Seq<char>, Seq<char>)|
            (
                crate::text::utf8(p.0),
                crate::text::utf8(
                    if shown {
                        crate::fields::shown_value(p.0, p.1)
                    } else {
                        p.1
                    },
                ),
            ),
    )
}

/// Law: the value that a header field is written with is read as the value that it has,
/// unless that value has itself the form of an encoded word.
pub proof fn law_value_read(field: Seq<char>, val: Seq<char>)
    requires
        !is_word(val),
    ensures
        value_text(crate::text::utf8(crate::fields::shown_value(field, val))) == val,
        value_text(crate::text::utf8(val)) == val,
{
    let shown = crate::fields::shown_value(field, val);
    crate::fields::law_shown_value(field, val);
    vstd::utf8::encode_utf8_decode_utf8(shown);
    vstd::utf8::encode_utf8_decode_utf8(val);
    if shown != val {
        let word = choose|word: Seq<char>|
            shown == "=?utf-8?q?"@ + word + "?="@ && #[trigger] crate::encoding::q_decode(word)
                == crate::text::utf8(val);
        reveal_strlit("=?utf-8?q?");
        reveal_strlit("?=");
        assert(shown.take(10) == "=?utf-8?q?"@);
        assert(shown.skip(shown.len() - 2) == "?="@);
        assert(shown.subrange(10, shown.len() - 2) == word);
    }
}

/// The bytes between the key and the value of a field.
proof fn lemma_separator()
    ensures
        crate::text::utf8(": "@) == seq![58u8, 32u8],
{
    reveal_strlit(": ");
    assert(vstd::utf8::is_ascii_chars(": "@));
    vstd::utf8::is_ascii_chars_encode_utf8(": "@);
    assert(": "@[0] == ':' && ": "@[1] == ' ');
    assert(crate::text::utf8(": "@) == seq![58u8, 32u8]);
}

proof fn lemma_shown_lines(key: Seq<char>, vals: Seq<Seq<char>>)
    ensures
        crate::fields::shown_lines(key, vals) == lines(
            field_bytes(crate::readback::field_pairs(key, vals), true),
        ),
        crate::multipart::field_lines(key, vals) == lines(
            field_bytes(crate::readback::field_pairs(key, vals), false),
        ),
    decreases vals.len(),
{
    lemma_separator();
    let pairs = crate::readback::field_pairs(key, vals);
    if vals.len() > 0 {
        let init = crate::readback::field_pairs(key, vals.drop_last());
        lemma_shown_lines(key, vals.drop_last());
        assert(field_bytes(pairs, true).drop_last() == field_bytes(init, true));
        assert(field_bytes(pairs, false).drop_last() == field_bytes(init, false));
        assert(field_bytes(pairs, true).last() == (
            crate::text::utf8(key),
            crate::text::utf8(crate::fields::shown_value(key, vals.last())),
        ));
        assert(field_bytes(pairs, false).last() == (
            crate::text::utf8(key),
            crate::text::utf8(vals.last()),
        ));
    }
}

/// Law: the lines of a header are those of its fields, one for each value, with the value
/// as it is shown; and those of the header of a part are the same with the values as they
/// are.
pub proof fn law_header_lines(h: HeaderView)
    ensures
        crate::fields::header_lines(h) == lines(
            field_bytes(crate::readback::header_pairs(h), true),
        ),
        crate::multipart::part_lines(h) == lines(
            field_bytes(crate::readback::header_pairs(h), false),
        ),
    decreases h.len(),
{
    let pairs = crate::readback::header_pairs(h);
    if h.len() > 0 {
        let init = crate::readback::header_pairs(h.drop_last());
        let last = crate::readback::field_pairs(h.last().0, h.last().1);
        law_header_lines(h.drop_last());
        lemma_shown_lines(h.last().0, h.last().1);
        lemma_lines_append(field_bytes(init, true), field_bytes(last, true));
        lemma_lines_append(field_bytes(init, false), field_bytes(last, false));
        assert(field_bytes(pairs, true) == field_bytes(init, true) + field_bytes(last, true));
        assert(field_bytes(pairs, false) == field_bytes(init, false) + field_bytes(last, false));
    }
}

/// Whether a field is read as it is: its key has nothing that ends it, its value has not
/// the form of an encoded word, and it is written with no line break but before a blank.
pub open spec fn is_readable_field(key: Seq<char>, val: Seq<char>, shown: bool) -> bool {
    &&& is_clean_key(crate::text::utf8(key))
    &&& !is_word(val)
    &&& is_clean_value(
        crate::text::utf8(
            if shown {
                crate::fields::shown_value(key, val)
            } else {
                val
            },
        ),
    )
}

/// Whether all fields of a header are read as they are.
pub open spec fn is_readable_header(h: HeaderView, shown: bool) -> bool {
    forall|i: int, j: int|
        0 <= i < h.len() && 0 <= j < h[i].1.len() ==> is_readable_field(
            h[i].0,
            #[trigger] h[i].1[j],
            shown,
        )
}

proof fn lemma_readable_pairs(h: HeaderView, shown: bool, k: int)
    requires
        is_readable_header(h, shown),
        0 <= k < crate::readback::header_pairs(h).len(),
    ensures
        is_readable_field(
            crate::readback::header_pairs(h)[k].0,
            crate::readback::header_pairs(h)[k].1,
            shown,
        ),
    decreases h.len(),
{
    let init = h.drop_last();
    let before = crate::readback::header_pairs(init);
    let pairs = crate::readback::header_pairs(h);
    if k < before.len() {
        assert forall|i: int, j: int|
            0 <= i < init.len() && 0 <= j < init[i].1.len() implies is_readable_field(
            init[i].0,
            #[trigger] init[i].1[j],
            shown,
        ) by {
            assert(h[i].1[j] == init[i].1[j]);
        }
        lemma_readable_pairs(init, shown, k);
        assert(pairs[k] == before[k]);
    } else {
        let n = h.len() - 1;
        assert(h[n].1[k - before.len()] == h.last().1[k - before.len()]);
        assert(pairs[k] == (h[n].0, h[n].1[k - before.len()]));
    }
}

/// Law: the header of a message, and that of a part, is read as its fields, key by key
/// and value by value, and what stands behind it as its body.
pub proof fn law_header_read(h: HeaderView, shown: bool, body: Seq<u8>)
    requires
        is_readable_header(h, shown),
    ensures
        ({
            let raw = (if shown {
                crate::fields::header_lines(h)
            } else {
                crate::multipart::part_lines(h)
            }) + crate::text::crlf() + body;
            &&& field_texts(read_fields(raw).0) == crate::readback::header_pairs(h)
            &&& read_fields(raw).1 == body
        }),
{
    let pairs = crate::readback::header_pairs(h);
    let fields = field_bytes(pairs, shown);
    law_header_lines(h);
    assert forall|i: int| 0 <= i < fields.len() implies is_clean_key((#[trigger] fields[i]).0)
        && is_clean_value(fields[i].1) by {
        lemma_readable_pairs(h, shown, i);
    }
    law_fields_read(fields, body);
    let texts = field_texts(fields);
    assert forall|i: int| 0 <= i < pairs.len() implies #[trigger] texts[i] == pairs[i] by {
        lemma_readable_pairs(h, shown, i);
        law_value_read(pairs[i].0, pairs[i].1);
        vstd::utf8::encode_utf8_decode_utf8(pairs[i].0);
    }
    assert(texts == pairs);
}

// ---------------------------------------------------------------------------
// Containers
// ---------------------------------------------------------------------------

/// What starts each delimiter of a container, together with the line ending before it.
pub open spec fn delimiter_start(boundary: Seq<char>) -> Seq<u8> {
    crate::text::crlf() + crate::text::utf8("--"@) + crate::text::utf8(boundary)
}

/// The pieces of `t` that end at `delim`, each with the line ending that `delim` starts
/// with; the last one is the one behind which no line ending follows upon `delim`.
pub open spec fn split(t: Seq<u8>, delim: Seq<u8>) -> Seq<Seq<u8>>
    decreases t.len(),
{
    let i = first_at(t, delim);
    let rest = t.skip(i + delim.len() as int);
    if i + delim.len() > t.len() {
        Seq::empty()
    } else if starts(rest, crate::text::crlf()) {
        seq![t.take(i + 2int)] + split(rest.skip(2), delim)
    } else {
        seq![t.take(i + 2int)]
    }
}

/// Pieces with `delim` and a line ending between them.
pub open spec fn glue(raws: Seq<Seq<u8>>, delim: Seq<u8>) -> Seq<u8>
    decreases raws.len(),
{
    if raws.len() == 0 {
        Seq::empty()
    } else if raws.len() == 1 {
        raws[0]
    } else {
        glue(raws.drop_last(), delim) + delim + crate::text::crlf() + raws.last()
    }
}

/// The pieces, each with a line ending.
pub open spec fn ended(raws: Seq<Seq<u8>>) -> Seq<Seq<u8>> {
    raws.map_values(|r: Seq<u8>| r + crate::text::crlf())
}

proof fn lemma_glue_front(raws: Seq<Seq<u8>>, delim: Seq<u8>)
    requires
        raws.len() > 1,
    ensures
        glue(raws, delim) == raws[0] + delim + crate::text::crlf() + glue(raws.skip(1), delim),
    decreases raws.len(),
{
    let init = raws.drop_last();
    if raws.len() == 2 {
        assert(init[0] == raws[0]);
        assert(glue(init, delim) == raws[0]);
        assert(raws.skip(1)[0] == raws.last());
        assert(glue(raws.skip(1), delim) == raws.last());
    } else {
        lemma_glue_front(init, delim);
        assert(raws.skip(1).drop_last() == init.skip(1));
        assert(glue(raws, delim) == raws[0] + delim + crate::text::crlf() + glue(
            raws.skip(1),
            delim,
        ));
    }
}

proof fn lemma_glue_len(raws: Seq<Seq<u8>>, delim: Seq<u8>, i: int)
    requires
        0 <= i < raws.len(),
    ensures
        raws[i].len() <= glue(raws, delim).len(),
    decreases raws.len(),
{
    if raws.len() > 1 && i < raws.len() - 1 {
        lemma_glue_len(raws.drop_last(), delim, i);
    }
}

/// Whether `delim` starts with CRLF and holds no other CR.
pub open spec fn is_delimiter(delim: Seq<u8>) -> bool {
    &&& delim.len() >= 2
    &&& delim[0] == 13
    &&& delim[1] == 10
    &&& forall|j: int| 0 < j < delim.len() ==> #[trigger] delim[j] != 13
}

/// A piece ends at the delimiter behind it.
proof fn lemma_piece(x: Seq<u8>, delim: Seq<u8>, y: Seq<u8>)
    requires
        is_delimiter(delim),
        !occurs(x, delim),
    ensures
        first_at(x + delim + y, delim) == x.len(),
{
    let t = x + delim + y;
    assert forall|i: int| 0 <= i < x.len() implies !starts(#[trigger] t.skip(i), delim) by {
        if starts(t.skip(i), delim) {
            let found = t.skip(i).take(delim.len() as int);
            if i + delim.len() <= x.len() {
                assert(x.skip(i).take(delim.len() as int) == found);
                assert(starts(x.skip(i), delim));
            } else {
                let j = x.len() - i;
                assert(found[j] == t[x.len() as int]);
                assert(t[x.len() as int] == delim[0]);
                assert(delim[j] == 13);
            }
        }
    }
    lemma_first_at(x, delim, y);
}

/// Law: pieces that do not hold the delimiter are cut apart where it stands between them
/// and behind the last.
pub proof fn law_split(raws: Seq<Seq<u8>>, delim: Seq<u8>, tail: Seq<u8>)
    requires
        raws.len() > 0,
        is_delimiter(delim),
        forall|i: int| 0 <= i < raws.len() ==> !occurs(#[trigger] raws[i], delim),
        !starts(tail, crate::text::crlf()),
    ensures
        split(glue(raws, delim) + delim + tail, delim) == ended(raws),
    decreases raws.len(),
{
    let x = raws[0];
    let t = glue(raws, delim) + delim + tail;
    assert(!occurs(raws[0], delim));
    if raws.len() == 1 {
        lemma_piece(x, delim, tail);
        assert(t.skip(x.len() + delim.len() as int) == tail);
        assert(t.take(x.len() + 2int) == x + crate::text::crlf());
        assert(ended(raws) == seq![x + crate::text::crlf()]);
    } else {
        let others = raws.skip(1);
        let next = glue(others, delim) + delim + tail;
        lemma_glue_front(raws, delim);
        assert forall|i: int| 0 <= i < others.len() implies !occurs(
            #[trigger] others[i],
            delim,
        ) by {
            assert(others[i] == raws[i + 1]);
        }
        law_split(others, delim, tail);
        let y = crate::text::crlf() + next;
        assert(t == x + delim + y);
        lemma_piece(x, delim, y);
        assert(t.skip(x.len() + delim.len() as int) == y);
        assert(y.take(2) == crate::text::crlf());
        assert(y.skip(2) == next);
        assert(t.take(x.len() + 2int) == x + crate::text::crlf());
        assert(ended(raws) == seq![x + crate::text::crlf()] + ended(others));
    }
}

/// A part as it stands between the delimiters.
pub open spec fn raw_part(t: Entity) -> Seq<u8> {
    crate::multipart::part_lines(
        crate::readback::written_header(t, Seq::empty(), true),
    ) + crate::text::crlf() + crate::render::entity_body(t)
}

/// Parts as they stand between the delimiters.
pub open spec fn raw_parts(parts: Seq<Entity>) -> Seq<Seq<u8>> {
    parts.map_values(|t: Entity| raw_part(t))
}

/// A container holds its parts with delimiters between them.
proof fn lemma_parts_glued(boundary: Seq<char>, parts: Seq<Entity>)
    requires
        parts.len() > 0,
    ensures
        crate::render::parts_bytes(boundary, true, parts) == crate::text::utf8("--"@)
            + crate::text::utf8(boundary) + crate::text::crlf() + glue(
            raw_parts(parts),
            delimiter_start(boundary),
        ),
    decreases parts.len(),
{
    let init = parts.drop_last();
    let last = parts.last();
    let raws = raw_parts(parts);
    let dashes = crate::text::utf8("--"@);
    let b = crate::text::utf8(boundary);
    let crlf = crate::text::crlf();
    let delim = delimiter_start(boundary);
    let head = crate::multipart::part_lines(
        crate::readback::written_header(last, Seq::empty(), true),
    );
    let body = crate::render::entity_body(last);
    assert(raws.last() == head + crlf + body);
    if parts.len() == 1 {
        let none = Seq::<u8>::empty();
        assert(crate::render::parts_bytes(boundary, true, init) == none);
        assert(none + dashes == dashes);
        lemma_regroup_first(dashes + b + crlf, head, crlf, body);
    } else {
        lemma_parts_glued(boundary, init);
        assert(raws.drop_last() == raw_parts(init));
        lemma_regroup(
            dashes + b + crlf,
            glue(raw_parts(init), delim),
            delim,
            crlf,
            head,
            body,
        );
    }
}

proof fn lemma_regroup_first(start: Seq<u8>, head: Seq<u8>, crlf: Seq<u8>, body: Seq<u8>)
    ensures
        Seq::<u8>::empty() + (start + head + crlf) + body == start + (head + crlf + body),
{
    assert(Seq::<u8>::empty() + (start + head + crlf) + body == start + (head + crlf + body));
}

proof fn lemma_regroup(
    start: Seq<u8>,
    before: Seq<u8>,
    delim: Seq<u8>,
    crlf: Seq<u8>,
    head: Seq<u8>,
    body: Seq<u8>,
)
    ensures
        start + before + (delim + crlf + head + crlf) + body == start + (before + delim + crlf + (
        head + crlf + body)),
{
    assert(start + before + (delim + crlf + head + crlf) + body == start + (before + delim + crlf + (
    head + crlf + body)));
}

/// Law: the body of a container is cut at its delimiters into its parts, each as it
/// stands between them, with the line ending of the delimiter behind it; whatever follows
/// upon the container has no part in that.
pub proof fn law_container_read(
    kind: Seq<char>,
    boundary: Seq<char>,
    parts: Seq<Entity>,
    after: Seq<u8>,
)
    requires
        parts.len() > 0,
        is_delimiter(delimiter_start(boundary)),
        forall|i: int|
            0 <= i < parts.len() ==> !occurs(
                raw_part(#[trigger] parts[i]),
                delimiter_start(boundary),
            ),
    ensures
        ({
            let body = crate::render::entity_body(Entity::Multi { kind, boundary, parts }) + after;
            let delim = delimiter_start(boundary);
            &&& body.len() > delim.len()
            &&& split(body.skip(delim.len() as int), delim) == ended(raw_parts(parts))
            &&& forall|i: int|
                0 <= i < parts.len() ==> raw_part(#[trigger] parts[i]).len() + 2 < body.len()
        }),
{
    reveal_strlit("--");
    assert(vstd::utf8::is_ascii_chars("--"@));
    vstd::utf8::is_ascii_chars_encode_utf8("--"@);
    assert("--"@[0] == '-');
    let dashes = crate::text::utf8("--"@);
    assert(dashes[0] == 45);
    let b = crate::text::utf8(boundary);
    let crlf = crate::text::crlf();
    let delim = delimiter_start(boundary);
    let raws = raw_parts(parts);
    let tail = dashes + crlf + after;
    let body = crate::render::entity_body(Entity::Multi { kind, boundary, parts }) + after;
    lemma_parts_glued(boundary, parts);
    assert(body == (dashes + b + crlf + glue(raws, delim)) + (crlf + dashes + b + dashes + crlf)
        + after);
    assert(body.skip(delim.len() as int) == glue(raws, delim) + delim + tail);
    if starts(tail, crlf) {
        assert(tail.take(2)[0] == tail[0]);
    }
    assert forall|i: int| 0 <= i < raws.len() implies !occurs(#[trigger] raws[i], delim) by {
        assert(raws[i] == raw_part(parts[i]));
    }
    law_split(raws, delim, tail);
    assert forall|i: int| 0 <= i < parts.len() implies raw_part(#[trigger] parts[i]).len() + 2
        < body.len() by {
        lemma_glue_len(raws, delim, i);
        assert(raws[i] == raw_part(parts[i]));
    }
}

// ---------------------------------------------------------------------------
// Messages
// ---------------------------------------------------------------------------

/// The MIME type that a Content-Type starts with.
pub open spec fn media_of(typed: Seq<char>) -> Seq<char> {
    typed.take(first_at(typed, ";"@) as int)
}

/// The boundary that a Content-Type ends with.
pub open spec fn boundary_of(typed: Seq<char>) -> Seq<char> {
    typed.skip(first_at(typed, "boundary="@) + 9int)
}

/// The parameters of a Content-Disposition: the quoted name of a file, if it has one.
pub open spec fn disposition_of(val: Seq<char>) -> Seq<(Seq<char>, Seq<char>)> {
    let i = first_at(val, "filename=\""@);
    if i >= val.len() {
        Seq::empty()
    } else {
        let rest = val.skip(i + 10int);
        seq![("filename"@, rest.take(first_at(rest, "\""@) as int))]
    }
}

/// The parts of a message or of a part of one: first itself, and if it is a container then
/// all that it contains.
pub open spec fn read_part(raw: Seq<u8>) -> Seq<PartView>
    decreases raw.len() + 1, 0nat,
{
    let body = read_fields(raw).1;
    let headers = field_texts(read_fields(raw).0);
    let typed = lookup(headers, "Content-Type"@);
    if starts(typed, "multipart/"@) {
        let delim = delimiter_start(boundary_of(typed));
        let pieces = split(body.skip(delim.len() as int), delim);
        seq![
            PartView {
                subparts: pieces.len(),
                mimetype: media_of(typed),
                headers,
                body: None,
                is_base64: false,
                disposition: Seq::empty(),
            },
        ] + read_pieces(pieces, raw.len())
    } else {
        let is_base64 = lookup(headers, "Content-Transfer-Encoding"@) == "base64"@;
        seq![
            PartView {
                subparts: 0,
                mimetype: media_of(typed),
                headers,
                body: Some(
                    if is_base64 {
                        crate::encoding::base64_decode(crate::encoding::without_breaks(body))
                    } else {
                        crate::encoding::qp_decode(body)
                    },
                ),
                is_base64,
                disposition: disposition_of(lookup(headers, "Content-Disposition"@)),
            },
        ]
    }
}

/// The parts in the pieces of a container, each shorter than `limit`.
pub open spec fn read_pieces(pieces: Seq<Seq<u8>>, limit: nat) -> Seq<PartView>
    decreases limit, pieces.len(),
{
    if pieces.len() == 0 {
        Seq::empty()
    } else if pieces.last().len() >= limit {
        read_pieces(pieces.drop_last(), limit)
    } else {
        read_pieces(pieces.drop_last(), limit) + read_part(pieces.last())
    }
}

/// The first value of `key` in `h`; empty where there is none.
pub open spec fn first_value(h: HeaderView, key: Seq<char>) -> Seq<char> {
    match crate::header::header_values(h, key) {
        Some(vals) => vals[0],
        None => Seq::empty(),
    }
}

/// The MIME type that the header of an attachment says.
pub open spec fn file_type(file: AttachmentView) -> Seq<char> {
    media_of(first_value(file.header, "Content-Type"@))
}

/// The MIME types that the headers of attachments say.
pub open spec fn file_types() -> spec_fn(AttachmentView) -> Seq<char> {
    |file: AttachmentView| file_type(file)
}

/// Whether the header of an attachment says what it is: a file in base64, under its name,
/// and no container.
pub open spec fn is_described(file: AttachmentView) -> bool {
    &&& crate::header::header_wf(file.header)
    &&& is_readable_header(file.header, false)
    &&& !starts(first_value(file.header, "Content-Type"@), "multipart/"@)
    &&& first_value(file.header, "Content-Transfer-Encoding"@) == "base64"@
    &&& disposition_of(first_value(file.header, "Content-Disposition"@)) == seq![
        ("filename"@, file.filename),
    ]
}

/// Whether `t` is read as it is: each attachment says what it is, and each container is of
/// a known kind and has parts, none of which holds its boundary, and a boundary of
/// letters and digits.
pub open spec fn is_readable(t: Entity) -> bool
    decreases t,
{
    match t {
        Entity::Text { media, body } => crate::readback::is_text_type(media),
        Entity::File { file } => is_described(file),
        Entity::Multi { kind, boundary, parts } => {
            &&& is_kind(kind)
            &&& is_plain_boundary(boundary)
            &&& parts.len() > 0
            &&& all_readable(parts, delimiter_start(boundary))
        },
    }
}

/// Whether all of `parts` are read as they are and none holds `delim`.
pub open spec fn all_readable(parts: Seq<Entity>, delim: Seq<u8>) -> bool
    decreases parts,
{
    if parts.len() == 0 {
        true
    } else {
        all_readable(parts.drop_last(), delim) && is_readable(parts.last()) && !occurs(
            raw_part(parts.last()),
            delim,
        )
    }
}

/// Whether `kind` is the type of a container.
pub open spec fn is_kind(kind: Seq<char>) -> bool {
    kind == crate::names::CONTENT_TYPE_MULTIPART_MIXED@ || kind
        == crate::names::CONTENT_TYPE_MULTIPART_ALT@ || kind
        == crate::names::CONTENT_TYPE_MULTIPART_RELATED@
}

/// Whether `boundary` is made of ASCII letters and digits.
pub open spec fn is_plain_boundary(boundary: Seq<char>) -> bool {
    forall|i: int|
        0 <= i < boundary.len() ==> '0' <= #[trigger] boundary[i] <= '9' || 'a' <= boundary[i]
            <= 'z' || 'A' <= boundary[i] <= 'Z'
}

// Lookups.

proof fn lemma_lookup_append(
    a: Seq<(Seq<char>, Seq<char>)>,
    b: Seq<(Seq<char>, Seq<char>)>,
    key: Seq<char>,
)
    ensures
        (exists|i: int| 0 <= i < a.len() && (#[trigger] a[i]).0 == key) ==> lookup(a + b, key)
            == lookup(a, key),
        (forall|i: int| 0 <= i < a.len() ==> (#[trigger] a[i]).0 != key) ==> lookup(a + b, key)
            == lookup(b, key),
    decreases a.len(),
{
    if a.len() == 0 {
        assert(a + b == b);
    } else {
        let rest = a.skip(1);
        lemma_lookup_append(rest, b, key);
        assert((a + b).skip(1) == rest + b);
        assert((a + b)[0] == a[0]);
        if a[0].0 != key {
            if exists|i: int| 0 <= i < a.len() && (#[trigger] a[i]).0 == key {
                let i = choose|i: int| 0 <= i < a.len() && (#[trigger] a[i]).0 == key;
                assert(rest[i - 1] == a[i]);
            }
            if forall|i: int| 0 <= i < a.len() ==> (#[trigger] a[i]).0 != key {
                assert forall|i: int| 0 <= i < rest.len() implies (#[trigger] rest[i]).0 != key by {
                    assert(rest[i] == a[i + 1]);
                }
            }
        }
    }
}

/// The first field with a key has the first value of that key.
proof fn lemma_lookup(h: HeaderView, key: Seq<char>)
    requires
        forall|i: int| 0 <= i < h.len() ==> (#[trigger] h[i]).1.len() > 0,
    ensures
        match crate::header::find(h, key) {
            Some(i) => lookup(crate::readback::header_pairs(h), key) == h[i].1[0] && exists|k: int|
                0 <= k < crate::readback::header_pairs(h).len()
                    && (#[trigger] crate::readback::header_pairs(h)[k]).0 == key,
            None => lookup(crate::readback::header_pairs(h), key).len() == 0 && forall|k: int|
                0 <= k < crate::readback::header_pairs(h).len() ==> (
                #[trigger] crate::readback::header_pairs(h)[k]).0 != key,
        },
    decreases h.len(),
{
    if h.len() > 0 {
        let init = h.drop_last();
        let (last, vals) = h.last();
        assert(vals == h[h.len() - 1].1);
        assert forall|i: int| 0 <= i < init.len() implies (#[trigger] init[i]).1.len() > 0 by {
            assert(init[i] == h[i]);
        }
        lemma_lookup(init, key);
        crate::header::lemma_find(init, key);
        let a = crate::readback::header_pairs(init);
        let b = crate::readback::field_pairs(last, vals);
        let pairs = crate::readback::header_pairs(h);
        assert(pairs == a + b);
        lemma_lookup_append(a, b, key);
        assert(b[0] == (last, vals[0]));
        if let Some(i) = crate::header::find(init, key) {
            let k = choose|k: int| 0 <= k < a.len() && (#[trigger] a[k]).0 == key;
            assert(pairs[k] == a[k]);
        } else if last == key {
            assert(pairs[a.len() as int] == b[0]);
        } else {
            lemma_lookup_absent(b, key);
            assert forall|k: int| 0 <= k < pairs.len() implies (#[trigger] pairs[k]).0 != key by {
                if k < a.len() {
                    assert(pairs[k] == a[k]);
                } else {
                    assert(pairs[k] == b[k - a.len()]);
                }
            }
        }
    }
}

proof fn lemma_lookup_absent(fields: Seq<(Seq<char>, Seq<char>)>, key: Seq<char>)
    requires
        forall|i: int| 0 <= i < fields.len() ==> (#[trigger] fields[i]).0 != key,
    ensures
        lookup(fields, key).len() == 0,
    decreases fields.len(),
{
    if fields.len() > 0 {
        let rest = fields.skip(1);
        assert forall|i: int| 0 <= i < rest.len() implies (#[trigger] rest[i]).0 != key by {
            assert(rest[i] == fields[i + 1]);
        }
        lemma_lookup_absent(rest, key);
    }
}

/// The fields that say what a body is are looked up by names in canonical form.
proof fn lemma_content_names()
    ensures
        crate::header::canonical("Content-Type"@) == "Content-Type"@,
        crate::header::canonical("Content-Transfer-Encoding"@) == "Content-Transfer-Encoding"@,
        crate::header::canonical("Content-Disposition"@) == "Content-Disposition"@,
        "Content-Type"@.len() == 12,
        "Content-Transfer-Encoding"@.len() == 25,
        "Content-Disposition"@.len() == 19,
{
    reveal_strlit("Content-Type");
    reveal_strlit("Content-Transfer-Encoding");
    reveal_strlit("Content-Disposition");
    crate::fields::lemma_ascii_canonical("Content-Type"@, true);
    crate::fields::lemma_ascii_canonical("Content-Transfer-Encoding"@, true);
    crate::fields::lemma_ascii_canonical("Content-Disposition"@, true);
    assert(crate::header::canonical("Content-Type"@) == "Content-Type"@);
    assert(crate::header::canonical("Content-Transfer-Encoding"@) == "Content-Transfer-Encoding"@);
    assert(crate::header::canonical("Content-Disposition"@) == "Content-Disposition"@);
}

/// What is looked up in the fields of a header is its first value.
proof fn lemma_lookup_value(h: HeaderView, key: Seq<char>)
    requires
        crate::header::header_wf(h),
        crate::header::canonical(key) == key,
    ensures
        lookup(crate::readback::header_pairs(h), key) == first_value(h, key),
{
    lemma_lookup(h, key);
    assert(crate::header::find(h, key) is None ==> lookup(crate::readback::header_pairs(h), key)
        == Seq::<char>::empty());
}

// Content types.

/// What is read of the Content-Type of a text.
proof fn lemma_text_type(media: Seq<char>)
    requires
        crate::readback::is_text_type(media),
    ensures
        media_of(media + "; charset=UTF-8"@) == media,
        !starts(media + "; charset=UTF-8"@, "multipart/"@),
{
    reveal_strlit("text/plain");
    reveal_strlit("text/html");
    reveal_strlit("; charset=UTF-8");
    reveal_strlit(";");
    reveal_strlit("multipart/");
    let typed = media + "; charset=UTF-8"@;
    let rest = "; charset=UTF-8"@.skip(1);
    assert(";"@ + rest == "; charset=UTF-8"@);
    assert(typed == media + ";"@ + rest);
    lemma_first_unlike(media, ";"@, rest);
    assert(typed.take(media.len() as int) == media);
    if starts(typed, "multipart/"@) {
        assert(typed.take(10)[0] == typed[0]);
        assert("multipart/"@[0] == 'm');
        assert(typed[0] == 't');
    }
}

/// The kinds of containers, character by character.
proof fn lemma_kind(kind: Seq<char>)
    requires
        is_kind(kind),
    ensures
        starts(kind, "multipart/"@),
        kind.len() > 0,
        forall|i: int|
            0 <= i < kind.len() ==> {
                let c = #[trigger] kind[i];
                ('a' <= c <= 'z' || c == '/') && c != 'b'
            },
{
    reveal_strlit("multipart/mixed");
    reveal_strlit("multipart/alternative");
    reveal_strlit("multipart/related");
    reveal_strlit("multipart/");
    assert(kind.take(10) == "multipart/"@);
}

/// What is read of the Content-Type of a container.
proof fn lemma_multi_type(kind: Seq<char>, boundary: Seq<char>)
    requires
        is_kind(kind),
    ensures
        ({
            let typed = kind + ";\r\n boundary="@ + boundary;
            &&& media_of(typed) == kind
            &&& boundary_of(typed) == boundary
            &&& starts(typed, "multipart/"@)
        }),
{
    lemma_kind(kind);
    reveal_strlit(";\r\n boundary=");
    reveal_strlit(";");
    reveal_strlit("boundary=");
    reveal_strlit("multipart/");
    let typed = kind + ";\r\n boundary="@ + boundary;
    let rest = ";\r\n boundary="@.skip(1) + boundary;
    assert(typed == kind + ";"@ + rest);
    lemma_first_unlike(kind, ";"@, rest);
    assert(typed.take(kind.len() as int) == kind);
    let before = kind + ";\r\n boundary="@.take(4);
    assert(typed == before + "boundary="@ + boundary);
    assert forall|i: int| 0 <= i < before.len() implies #[trigger] before[i] != "boundary="@[0] by {
        if i < kind.len() {
            assert(before[i] == kind[i]);
        }
    }
    lemma_first_unlike(before, "boundary="@, boundary);
    assert(typed.skip(before.len() + 9int) == boundary);
    assert(typed.take(10) == kind.take(10));
}

/// A boundary of letters and digits makes a delimiter.
proof fn lemma_delimiter(boundary: Seq<char>)
    requires
        is_plain_boundary(boundary),
    ensures
        is_delimiter(delimiter_start(boundary)),
{
    reveal_strlit("--");
    assert(vstd::utf8::is_ascii_chars("--"@));
    vstd::utf8::is_ascii_chars_encode_utf8("--"@);
    assert(vstd::utf8::is_ascii_chars(boundary));
    vstd::utf8::is_ascii_chars_encode_utf8(boundary);
    let dashes = crate::text::utf8("--"@);
    let b = crate::text::utf8(boundary);
    let delim = delimiter_start(boundary);
    assert("--"@[0] == '-' && "--"@[1] == '-');
    assert(dashes[0] == 45 && dashes[1] == 45);
    assert forall|j: int| 0 < j < delim.len() implies #[trigger] delim[j] != 13 by {
        if j >= 4 {
            assert(delim[j] == b[j - 4]);
            assert(b[j - 4] == boundary[j - 4] as u8);
        } else if j >= 2 {
            assert(delim[j] == dashes[j - 2]);
        }
    }
}

// Reading what was written.

/// Whether the header `h` says what `t` is.
pub open spec fn describes(h: HeaderView, t: Entity) -> bool {
    &&& crate::header::header_wf(h)
    &&& match t {
        Entity::Text { media, body } => {
            &&& first_value(h, "Content-Type"@) == media + "; charset=UTF-8"@
            &&& first_value(h, "Content-Transfer-Encoding"@) == "quoted-printable"@
            &&& first_value(h, "Content-Disposition"@).len() == 0
        },
        Entity::File { file } => {
            &&& first_value(h, "Content-Type"@) == first_value(file.header, "Content-Type"@)
            &&& first_value(h, "Content-Transfer-Encoding"@) == first_value(
                file.header,
                "Content-Transfer-Encoding"@,
            )
            &&& first_value(h, "Content-Disposition"@) == first_value(
                file.header,
                "Content-Disposition"@,
            )
        },
        Entity::Multi { kind, boundary, parts } => first_value(h, "Content-Type"@) == kind
            + ";\r\n boundary="@ + boundary,
    }
}

/// A text in ASCII whose line breaks are followed by blanks is a clean value.
proof fn lemma_ascii_value(val: Seq<char>)
    requires
        vstd::utf8::is_ascii_chars(val),
        forall|i: int|
            0 <= i < val.len() - 1 && #[trigger] val[i] == '\r' && val[i + 1] == '\n' ==> i + 2
                < val.len() && val[i + 2] == ' ',
    ensures
        is_clean_value(crate::text::utf8(val)),
{
    let b = crate::text::utf8(val);
    vstd::utf8::is_ascii_chars_encode_utf8(val);
    assert forall|i: int| 0 <= i < b.len() - 1 && #[trigger] b[i] == 13 && b[i + 1] == 10 implies i
        + 2 < b.len() && is_blank(b[i + 2]) by {
        assert(b[i] == val[i] as u8);
        assert(b[i + 1] == val[i + 1] as u8);
        assert(val[i] == '\r' && val[i + 1] == '\n');
        assert(b[i + 2] == val[i + 2] as u8);
    }
}

/// A name in ASCII letters and hyphens is a clean key.
proof fn lemma_ascii_key(key: Seq<char>)
    requires
        key.len() > 0,
        forall|i: int|
            0 <= i < key.len() ==> 'a' <= #[trigger] key[i] <= 'z' || 'A' <= key[i] <= 'Z' || key[i]
                == '-',
    ensures
        is_clean_key(crate::text::utf8(key)),
{
    let b = crate::text::utf8(key);
    assert(vstd::utf8::is_ascii_chars(key));
    vstd::utf8::is_ascii_chars_encode_utf8(key);
    assert(b[0] == key[0] as u8);
    assert forall|i: int| 0 <= i < b.len() implies #[trigger] b[i] != 58 by {
        assert(b[i] == key[i] as u8);
    }
}

proof fn lemma_clean_names()
    ensures
        is_clean_key(crate::text::utf8("Content-Type"@)),
        is_clean_key(crate::text::utf8("Content-Transfer-Encoding"@)),
        is_clean_key(crate::text::utf8("Content-Disposition"@)),
        is_clean_key(crate::text::utf8("Content-Id"@)),
{
    reveal_strlit("Content-Type");
    reveal_strlit("Content-Transfer-Encoding");
    reveal_strlit("Content-Disposition");
    reveal_strlit("Content-Id");
    lemma_ascii_key("Content-Type"@);
    lemma_ascii_key("Content-Transfer-Encoding"@);
    lemma_ascii_key("Content-Disposition"@);
    lemma_ascii_key("Content-Id"@);
}

/// Setting a field that is read as it is keeps a header so.
proof fn lemma_set_readable(h: HeaderView, key: Seq<char>, val: Seq<char>, shown: bool)
    requires
        is_readable_header(h, shown),
        is_readable_field(crate::header::canonical(key), val, shown),
    ensures
        is_readable_header(crate::header::header_set(h, key, val), shown),
{
    let s = crate::header::header_set(h, key, val);
    crate::header::lemma_find(h, crate::header::canonical(key));
    assert forall|i: int, j: int|
        0 <= i < s.len() && 0 <= j < s[i].1.len() implies is_readable_field(
        s[i].0,
        #[trigger] s[i].1[j],
        shown,
    ) by {
        if i < h.len() && s[i] == h[i] {
            assert(h[i].1[j] == s[i].1[j]);
        }
    }
}

/// A text that starts with a letter has not the form of an encoded word.
proof fn lemma_no_word(t: Seq<char>)
    requires
        t.len() > 0,
        t[0] != '=',
    ensures
        !is_word(t),
{
    reveal_strlit("=?utf-8?q?");
    if is_word(t) {
        assert(t.take(10)[0] == t[0]);
        assert("=?utf-8?q?"@[0] == '=');
    }
}

/// The header of a text or of a container that stands in one is read as it is.
proof fn lemma_part_header(t: Entity)
    requires
        is_readable(t),
    ensures
        crate::header::header_wf(crate::render::entity_header(Seq::empty(), t)),
        is_readable_header(crate::render::entity_header(Seq::empty(), t), false),
{
    let none: HeaderView = Seq::empty();
    lemma_content_names();
    lemma_clean_names();
    assert(is_readable_header(none, false));
    match t {
        Entity::Text { media, body } => {
            reveal_strlit("text/plain");
            reveal_strlit("text/html");
            reveal_strlit("; charset=");
            reveal_strlit("UTF-8");
            reveal_strlit("quoted-printable");
            let typed = media + "; charset="@ + crate::names::DEFAULT_CHAR_ENCODING@;
            assert(typed[0] == 't');
            assert forall|i: int| 0 <= i < typed.len() implies '\0' <= #[trigger] typed[i]
                <= '\u{7f}' && typed[i] != '\r' by {
                if i < media.len() {
                    assert(typed[i] == media[i]);
                }
            }
            assert(vstd::utf8::is_ascii_chars(typed));
            lemma_ascii_value(typed);
            lemma_no_word(typed);
            let coded = "quoted-printable"@;
            assert(vstd::utf8::is_ascii_chars(coded));
            assert(coded[0] == 'q');
            lemma_ascii_value(coded);
            lemma_no_word(coded);
            lemma_set_readable(none, "Content-Type"@, typed, false);
            crate::header::lemma_set_wf(none, "Content-Type"@, typed);
            let mid = crate::header::header_set(none, "Content-Type"@, typed);
            lemma_set_readable(mid, "Content-Transfer-Encoding"@, coded, false);
            crate::header::lemma_set_wf(mid, "Content-Transfer-Encoding"@, coded);
        },
        Entity::File { file } => {},
        Entity::Multi { kind, boundary, parts } => {
            lemma_kind(kind);
            reveal_strlit(";\r\n boundary=");
            let typed = kind + ";\r\n boundary="@ + boundary;
            let n = kind.len() as int;
            assert(typed[0] == kind[0]);
            assert forall|i: int| 0 <= i < typed.len() implies '\0' <= #[trigger] typed[i]
                <= '\u{7f}' && (typed[i] == '\r' ==> i == n + 1) by {
                if i < n {
                    assert(typed[i] == kind[i]);
                } else if i >= n + 13 {
                    assert(typed[i] == boundary[i - n - 13]);
                }
            }
            assert(typed[n + 3] == ' ');
            assert(vstd::utf8::is_ascii_chars(typed));
            lemma_ascii_value(typed);
            lemma_no_word(typed);
            lemma_set_readable(none, "Content-Type"@, typed, false);
            crate::header::lemma_set_wf(none, "Content-Type"@, typed);
        },
    }
}

/// The header that is written for `t` says what it is.
proof fn lemma_written_describes(t: Entity, h: HeaderView, nested: bool)
    requires
        crate::header::header_wf(crate::render::entity_header(h, t)),
        t is Text ==> crate::header::header_values(h, "Content-Disposition"@) is None,
    ensures
        describes(crate::readback::written_header(t, h, nested), t),
{
    let own = crate::render::entity_header(h, t);
    lemma_content_names();
    crate::readback::lemma_sorted_values(own, "Content-Type"@);
    crate::readback::lemma_sorted_values(own, "Content-Transfer-Encoding"@);
    crate::readback::lemma_sorted_values(own, "Content-Disposition"@);
    let none = Seq::<Entity>::empty();
    match t {
        Entity::Text { media, body } => {
            let b = Seq::<char>::empty();
            crate::render::law_entity_fields(h, media, body, b, none, "Content-Type"@);
            crate::render::law_entity_fields(h, media, body, b, none, "Content-Transfer-Encoding"@);
            crate::render::law_entity_fields(h, media, body, b, none, "Content-Disposition"@);
        },
        Entity::File { file } => {},
        Entity::Multi { kind, boundary, parts } => {
            crate::render::law_entity_fields(
                h,
                kind,
                Seq::empty(),
                boundary,
                parts,
                "Content-Type"@,
            );
        },
    }
}

/// What is read of bytes that are the header and the body of `t`.
proof fn lemma_read_described(raw: Seq<u8>, h: HeaderView, t: Entity, nested: bool)
    requires
        is_readable(t),
        describes(crate::readback::written_header(t, h, nested), t),
        field_texts(read_fields(raw).0) == crate::readback::header_pairs(
            crate::readback::written_header(t, h, nested),
        ),
        read_fields(raw).1 == crate::readback::body_bytes(t, nested),
        raw.len() > crate::readback::body_bytes(t, nested).len(),
    ensures
        read_part(raw) == crate::readback::written(t, h, nested, file_types()),
    decreases t, 0nat,
{
    let hdr = crate::readback::written_header(t, h, nested);
    let headers = crate::readback::header_pairs(hdr);
    lemma_content_names();
    lemma_lookup_value(hdr, "Content-Type"@);
    lemma_lookup_value(hdr, "Content-Transfer-Encoding"@);
    lemma_lookup_value(hdr, "Content-Disposition"@);
    match t {
        Entity::Text { media, body } => {
            lemma_text_type(media);
            reveal_strlit("quoted-printable");
            reveal_strlit("base64");
            assert("quoted-printable"@.len() != "base64"@.len());
            assert(disposition_of(first_value(hdr, "Content-Disposition"@)) == Seq::<
                (Seq<char>, Seq<char>),
            >::empty());
            assert(read_part(raw) == crate::readback::written(t, h, nested, file_types()));
        },
        Entity::File { file } => {
            assert(read_part(raw) == crate::readback::written(t, h, nested, file_types()));
        },
        Entity::Multi { kind, boundary, parts } => {
            lemma_multi_type(kind, boundary);
            lemma_delimiter(boundary);
            let delim = delimiter_start(boundary);
            lemma_all_readable(parts, delim);
            let after = if nested {
                crate::text::crlf()
            } else {
                Seq::empty()
            };
            assert(crate::readback::body_bytes(t, nested) == crate::render::entity_body(t) + after);
            law_container_read(kind, boundary, parts, after);
            lemma_read_pieces(parts, delim, raw.len());
            assert(ended(raw_parts(parts)).len() == parts.len());
            assert(read_part(raw) == crate::readback::written(t, h, nested, file_types()));
        },
    }
}

/// What is read of a part in a container.
proof fn lemma_read_nested(t: Entity)
    requires
        is_readable(t),
    ensures
        read_part(raw_part(t) + crate::text::crlf()) == crate::readback::written(
            t,
            Seq::empty(),
            true,
            file_types(),
        ),
    decreases t, 1nat,
{
    let none: HeaderView = Seq::empty();
    let own = crate::render::entity_header(none, t);
    let hdr = crate::readback::written_header(t, none, true);
    let body = crate::readback::body_bytes(t, true);
    lemma_part_header(t);
    lemma_sorted_readable(own);
    assert(crate::header::header_values(none, "Content-Disposition"@) is None);
    lemma_written_describes(t, none, true);
    law_header_read(hdr, false, body);
    let raw = raw_part(t) + crate::text::crlf();
    assert(raw == crate::multipart::part_lines(hdr) + crate::text::crlf() + body);
    lemma_read_described(raw, none, t, true);
}

/// What is read of the parts of a container.
proof fn lemma_read_pieces(parts: Seq<Entity>, delim: Seq<u8>, limit: nat)
    requires
        all_readable(parts, delim),
        forall|i: int| 0 <= i < parts.len() ==> raw_part(#[trigger] parts[i]).len() + 2 < limit,
    ensures
        read_pieces(ended(raw_parts(parts)), limit) == crate::readback::written_all(
            parts,
            file_types(),
        ),
    decreases parts, 0nat,
{
    let pieces = ended(raw_parts(parts));
    if parts.len() > 0 {
        let init = parts.drop_last();
        let last = parts.last();
        assert forall|i: int| 0 <= i < init.len() implies raw_part(#[trigger] init[i]).len() + 2
            < limit by {
            assert(init[i] == parts[i]);
        }
        lemma_read_pieces(init, delim, limit);
        lemma_read_nested(last);
        assert(last == parts[parts.len() - 1]);
        assert(pieces.drop_last() == ended(raw_parts(init)));
        assert(pieces.last() == raw_part(last) + crate::text::crlf());
    }
}

proof fn lemma_all_readable(parts: Seq<Entity>, delim: Seq<u8>)
    requires
        all_readable(parts, delim),
    ensures
        forall|i: int| 0 <= i < parts.len() ==> !occurs(raw_part(#[trigger] parts[i]), delim),
    decreases parts.len(),
{
    if parts.len() > 0 {
        let init = parts.drop_last();
        lemma_all_readable(init, delim);
        assert forall|i: int| 0 <= i < parts.len() implies !occurs(
            raw_part(#[trigger] parts[i]),
            delim,
        ) by {
            if i < init.len() {
                assert(init[i] == parts[i]);
            }
        }
    }
}

/// Putting the keys in order keeps a header as readable as it is.
proof fn lemma_sorted_readable(h: HeaderView)
    requires
        is_readable_header(h, false),
    ensures
        is_readable_header(crate::multipart::sorted_entries(h), false),
{
    broadcast use vstd::seq_lib::group_to_multiset_ensures;

    let sorted = crate::multipart::sorted_entries(h);
    crate::multipart::law_sorted_entries(h);
    assert forall|i: int, j: int|
        0 <= i < sorted.len() && 0 <= j < sorted[i].1.len() implies is_readable_field(
        sorted[i].0,
        #[trigger] sorted[i].1[j],
        false,
    ) by {
        assert(sorted.contains(sorted[i]));
        assert(sorted.to_multiset().count(sorted[i]) > 0);
        assert(h.contains(sorted[i]));
        let a = choose|a: int| 0 <= a < h.len() && h[a] == sorted[i];
        assert(h[a].1[j] == sorted[i].1[j]);
    }
}

/// Law: the bytes of a rendered message are read as the parts that it was written as,
/// each with its header fields and with its body decoded.
pub proof fn law_rendered_read(e: EmailView, s: StampView, h: HeaderView, raw: Seq<u8>)
    requires
        crate::render::rendered(e, s) == Ok::<Seq<u8>, crate::render::Fault>(raw),
        crate::fields::message_headers(e, s.message_id, s.date) == Ok::<HeaderView, Seq<char>>(h),
        crate::header::header_wf(crate::render::entity_header(h, crate::render::message_entity(e, s))),
        is_readable_header(
            crate::render::entity_header(h, crate::render::message_entity(e, s)),
            true,
        ),
        crate::header::header_values(h, "Content-Disposition"@) is None,
        is_readable(crate::render::message_entity(e, s)),
    ensures
        read_part(raw) == crate::readback::written(
            crate::render::message_entity(e, s),
            h,
            false,
            file_types(),
        ),
{
    let t = crate::render::message_entity(e, s);
    let hdr = crate::render::entity_header(h, t);
    lemma_written_describes(t, h, false);
    law_header_read(hdr, true, crate::render::entity_body(t));
    lemma_read_described(raw, h, t, false);
}

/// Law: a message that was rendered is read back from its bytes as it was: its texts with
/// their line breaks normalized to CRLF, its attachments, the embedded ones first, each
/// with its name and its content, byte for byte, and the fields of its header. Left out
/// are a custom Content-Disposition, an attachment with the MIME type of a text, which is
/// read as one, and a part that holds a boundary.
pub proof fn law_message_read_back(e: EmailView, s: StampView, h: HeaderView, raw: Seq<u8>)
    requires
        crate::render::rendered(e, s) == Ok::<Seq<u8>, crate::render::Fault>(raw),
        crate::fields::message_headers(e, s.message_id, s.date) == Ok::<HeaderView, Seq<char>>(h),
        crate::fields::is_tidy(e.headers),
        !crate::header::header_has(e.headers, "Content-Disposition"@),
        is_readable_header(
            crate::render::entity_header(h, crate::render::message_entity(e, s)),
            true,
        ),
        is_readable(crate::render::message_entity(e, s)),
        crate::readback::no_text_type(e.attachments, file_types()),
    ensures
        ({
            let r = crate::parse::email_of(read_part(raw));
            &&& r.text == crate::encoding::normalize_breaks(e.text)
            &&& r.html == crate::encoding::normalize_breaks(e.html)
            &&& r.attachments == crate::readback::read_attachments(
                crate::email::select(e.attachments, true) + crate::email::select(
                    e.attachments,
                    false,
                ),
            )
            &&& r.subject == crate::parse::last_or_empty(
                crate::readback::sent_values(e, s, "Subject"@),
            )
            &&& r.from == crate::parse::last_or_empty(crate::readback::sent_values(e, s, "From"@))
            &&& r.to == crate::readback::sent_values(e, s, "To"@)
            &&& r.cc == crate::readback::sent_values(e, s, "Cc"@)
            &&& r.bcc == crate::readback::sent_values(e, s, "Bcc"@)
        }),
        !crate::header::header_has(e.headers, "Subject"@) && e.subject.len() > 0
            ==> crate::parse::email_of(read_part(raw)).subject == e.subject,
        !crate::header::header_has(e.headers, "Bcc"@) ==> crate::parse::email_of(
            read_part(raw),
        ).bcc.len() == 0,
{
    let t = crate::render::message_entity(e, s);
    let cd = "Content-Disposition"@;
    lemma_content_names();
    crate::fields::lemma_field_names();
    crate::fields::law_message_headers_tidy(e, s.message_id, s.date);
    crate::fields::law_message_headers(e, s.message_id, s.date, cd);
    lemma_entity_header_wf(h, t);
    law_rendered_read(e, s, h, raw);
    crate::readback::law_read_back(e, s, h, file_types());
    crate::readback::law_fields_read_back(e, s, h, file_types());
}

proof fn lemma_entity_header_wf(h: HeaderView, t: Entity)
    requires
        crate::header::header_wf(h),
        !(t is File),
    ensures
        crate::header::header_wf(crate::render::entity_header(h, t)),
{
    match t {
        Entity::Text { media, body } => {
            let typed = media + "; charset="@ + crate::names::DEFAULT_CHAR_ENCODING@;
            crate::header::lemma_set_wf(h, crate::names::HDR_CONTENT_TYPE@, typed);
            crate::header::lemma_set_wf(
                crate::header::header_set(h, crate::names::HDR_CONTENT_TYPE@, typed),
                crate::names::HDR_CONTENT_TRANSFER_ENCODING@,
                crate::names::CONTENT_ENC_QUOTED_PRINTABLE@,
            );
        },
        Entity::File { file } => {},
        Entity::Multi { kind, boundary, parts } => {
            crate::header::lemma_set_wf(
                h,
                crate::names::HDR_CONTENT_TYPE@,
                kind + ";\r\n boundary="@ + boundary,
            );
        },
    }
}

/// Law: a file that was attached under a name of printable ASCII without quotes says what
/// it is, so that it can be read back from the bytes of a message.
pub proof fn law_attached_described(
    content: Seq<u8>,
    filename: Seq<char>,
    content_type: Seq<char>,
)
    requires
        forall|i: int|
            0 <= i < filename.len() ==> ' ' <= #[trigger] filename[i] <= '~' && filename[i] != '"',
        forall|i: int| 0 <= i < content_type.len() ==> ' ' <= #[trigger] content_type[i] <= '~',
        content_type.len() > 0 ==> content_type[0] != '=',
        !starts(content_type, "multipart/"@),
    ensures
        is_described(crate::email::attached(content, filename, content_type)),
{
    lemma_content_names();
    lemma_clean_names();
    reveal_strlit("Content-ID");
    reveal_strlit("Content-Id");
    crate::fields::lemma_ascii_canonical("Content-ID"@, true);
    assert(crate::header::canonical("Content-ID"@) == "Content-Id"@);
    let file = crate::email::attached(content, filename, content_type);
    crate::email::law_attached(content, filename, content_type, "Content-Type"@);
    crate::email::law_attached(content, filename, content_type, "Content-Transfer-Encoding"@);
    crate::email::law_attached(content, filename, content_type, "Content-Disposition"@);
    reveal_strlit("application/octet-stream");
    reveal_strlit("attachment;\r\n filename=\"");
    reveal_strlit("filename=\"");
    reveal_strlit("\"");
    reveal_strlit("<");
    reveal_strlit(">");
    reveal_strlit("base64");
    reveal_strlit("multipart/");
    let none: HeaderView = Seq::empty();
    // Each value is clean.
    let media = if content_type.len() == 0 {
        "application/octet-stream"@
    } else {
        content_type
    };
    assert(vstd::utf8::is_ascii_chars(media));
    assert(media.len() > 0 && media[0] != '=');
    lemma_ascii_value(media);
    lemma_no_word(media);
    let lead = "attachment;\r\n filename=\""@;
    let disposition = lead + filename + "\""@;
    assert(lead.len() == 24);
    assert forall|i: int| 0 <= i < disposition.len() implies '\0' <= #[trigger] disposition[i]
        <= '\u{7f}' && (disposition[i] == '\r' ==> i == 11) by {
        if 24 <= i < 24 + filename.len() {
            assert(disposition[i] == filename[i - 24]);
        } else if i < 24 {
            assert(disposition[i] == lead[i]);
        }
    }
    assert(disposition[0] == lead[0] && disposition[13] == lead[13]);
    assert(vstd::utf8::is_ascii_chars(disposition));
    lemma_ascii_value(disposition);
    lemma_no_word(disposition);
    let id = "<"@ + filename + ">"@;
    assert forall|i: int| 0 <= i < id.len() implies '\0' <= #[trigger] id[i] <= '\u{7f}' && id[i]
        != '\r' by {
        if 1 <= i < 1 + filename.len() {
            assert(id[i] == filename[i - 1]);
        }
    }
    assert(id[0] == '<');
    assert(vstd::utf8::is_ascii_chars(id));
    lemma_ascii_value(id);
    lemma_no_word(id);
    let coded = "base64"@;
    assert(vstd::utf8::is_ascii_chars(coded));
    assert(coded[0] == 'b');
    lemma_ascii_value(coded);
    lemma_no_word(coded);
    // So is the header.
    let h1 = crate::header::header_set(none, "Content-Type"@, media);
    let h2 = crate::header::header_set(h1, "Content-Disposition"@, disposition);
    let h3 = crate::header::header_set(h2, "Content-ID"@, id);
    assert(is_readable_header(none, false));
    lemma_set_readable(none, "Content-Type"@, media, false);
    lemma_set_readable(h1, "Content-Disposition"@, disposition, false);
    lemma_set_readable(h2, "Content-ID"@, id, false);
    lemma_set_readable(h3, "Content-Transfer-Encoding"@, coded, false);
    crate::header::lemma_set_wf(none, "Content-Type"@, media);
    crate::header::lemma_set_wf(h1, "Content-Disposition"@, disposition);
    crate::header::lemma_set_wf(h2, "Content-ID"@, id);
    crate::header::lemma_set_wf(h3, "Content-Transfer-Encoding"@, coded);
    // The name is read.
    let before = lead.take(14);
    assert(lead == before + "filename=\""@);
    assert(disposition == before + "filename=\""@ + (filename + "\""@));
    assert forall|i: int| 0 <= i < before.len() implies #[trigger] before[i]
        != "filename=\""@[0] by {
        assert(before[i] == lead[i]);
    }
    lemma_first_unlike(before, "filename=\""@, filename + "\""@);
    let rest = disposition.skip(24);
    assert(rest == filename + "\""@ + Seq::<char>::empty());
    lemma_first_unlike(filename, "\""@, Seq::empty());
    assert(rest.take(filename.len() as int) == filename);
    // It is no container.
    if starts(media, "multipart/"@) {
        assert(media.take(10)[0] == media[0]);
        assert("multipart/"@[0] == 'm');
        if content_type.len() == 0 {
            assert(media[0] == 'a');
        }
    }
}

/// The value that a field other than the content ones is written with is clean.
proof fn lemma_shown_clean(key: Seq<char>, val: Seq<char>)
    requires
        key != "Content-Type"@,
        key != "Content-Disposition"@,
    ensures
        is_clean_value(crate::text::utf8(crate::fields::shown_value(key, val))),
{
    crate::fields::law_shown_value(key, val);
}

/// An address as it is written ends with an angle bracket, and so do joined ones.
proof fn lemma_addresses_end(list: Seq<Seq<char>>)
    ensures
        crate::address::formatted_addresses(list) matches Ok(shown) ==> list.len() > 0
            ==> crate::address::comma_joined(shown).len() > 0 && crate::address::comma_joined(
            shown,
        ).last() == '>',
{
    reveal_strlit(">");
    if let Ok(shown) = crate::address::formatted_addresses(list) {
        if list.len() > 0 {
            crate::address::law_addresses_valid(list);
            let n = list.len() - 1;
            assert(crate::address::formatted_address(list[n]) == Ok::<Seq<char>, Seq<char>>(
                shown[n],
            ));
            assert(shown[n].last() == '>');
            assert(shown.last() == shown[n]);
        }
    }
}

/// A text that ends with an angle bracket has not the form of an encoded word.
proof fn lemma_bracketed_no_word(t: Seq<char>)
    requires
        t.len() > 0,
        t.last() == '>',
    ensures
        !is_word(t),
{
    reveal_strlit("?=");
    if is_word(t) {
        assert(t.skip(t.len() - 2)[1] == t.last());
        assert("?="@[1] == '=');
    }
}

/// Filling in a field that is read as it is keeps a header so.
proof fn lemma_fill_readable(h: HeaderView, key: Seq<char>, val: Seq<char>)
    requires
        is_readable_header(h, true),
        is_clean_key(crate::text::utf8(crate::header::canonical(key))),
        crate::header::canonical(key) != "Content-Type"@,
        crate::header::canonical(key) != "Content-Disposition"@,
        !is_word(val),
    ensures
        is_readable_header(crate::fields::fill(h, key, val), true),
        is_readable_header(crate::header::header_set(h, key, val), true),
{
    lemma_shown_clean(crate::header::canonical(key), val);
    lemma_set_readable(h, key, val, true);
}

proof fn lemma_own_names()
    ensures
        is_own_name("Reply-To"@),
        is_own_name("To"@),
        is_own_name("Cc"@),
        is_own_name("From"@),
        is_own_name("Subject"@),
        is_own_name("Date"@),
        is_own_name("Message-Id"@),
        is_own_name("MIME-Version"@),
{
    reveal_strlit("Content-Type");
    reveal_strlit("Content-Disposition");
    reveal_strlit("Reply-To");
    reveal_strlit("To");
    reveal_strlit("Cc");
    reveal_strlit("From");
    reveal_strlit("Subject");
    reveal_strlit("Date");
    reveal_strlit("Message-Id");
    reveal_strlit("MIME-Version");
    lemma_own_name("Reply-To"@);
    lemma_own_name("To"@);
    lemma_own_name("Cc"@);
    lemma_own_name("From"@);
    lemma_own_name("Subject"@);
    lemma_own_name("Date"@);
    lemma_own_name("Message-Id"@);
    lemma_own_name("MIME-Version"@);
}

/// Whether `key` is the name of a field that a message brings itself.
spec fn is_own_name(key: Seq<char>) -> bool {
    &&& is_clean_key(crate::text::utf8(crate::header::canonical(key)))
    &&& crate::header::canonical(key) != "Content-Type"@
    &&& crate::header::canonical(key) != "Content-Disposition"@
}

proof fn lemma_own_name(key: Seq<char>)
    requires
        key.len() > 0,
        key[0] != 'C' && key[0] != 'c' || key.len() < 12,
        "Content-Type"@.len() == 12,
        "Content-Disposition"@.len() == 19,
        "Content-Type"@[0] == 'C',
        "Content-Disposition"@[0] == 'C',
        forall|i: int|
            0 <= i < key.len() ==> 'a' <= #[trigger] key[i] <= 'z' || 'A' <= key[i] <= 'Z' || key[i]
                == '-',
    ensures
        is_own_name(key),
{
    crate::fields::lemma_ascii_canonical(key, true);
    let c = crate::header::canonical(key);
    assert forall|i: int| 0 <= i < c.len() implies 'a' <= #[trigger] c[i] <= 'z' || 'A' <= c[i]
        <= 'Z' || c[i] == '-' by {
        assert('a' <= key[i] <= 'z' || 'A' <= key[i] <= 'Z' || key[i] == '-');
    }
    lemma_ascii_key(c);
    assert(c[0] == crate::header::ascii_upper(key[0]));
}

proof fn lemma_fill_addresses_readable(h: HeaderView, key: Seq<char>, list: Seq<Seq<char>>)
    requires
        is_readable_header(h, true),
        is_own_name(key),
    ensures
        crate::fields::fill_addresses(h, key, list) matches Ok(r) ==> is_readable_header(r, true),
{
    lemma_addresses_end(list);
    if let Ok(shown) = crate::address::formatted_addresses(list) {
        if list.len() > 0 {
            lemma_bracketed_no_word(crate::address::comma_joined(shown));
            lemma_fill_readable(h, key, crate::address::comma_joined(shown));
        }
    }
}

/// Law: of a message without custom headers whose subject, Message-ID and date have not
/// the form of encoded words, all header fields are read as they are.
pub proof fn law_own_header_readable(e: EmailView, s: StampView, h: HeaderView)
    requires
        e.headers.len() == 0,
        crate::fields::message_headers(e, s.message_id, s.date) == Ok::<HeaderView, Seq<char>>(h),
        is_readable(crate::render::message_entity(e, s)),
        !is_word(e.subject),
        !is_word(s.message_id),
        !is_word(s.date),
    ensures
        is_readable_header(
            crate::render::entity_header(h, crate::render::message_entity(e, s)),
            true,
        ),
{
    lemma_own_names();
    let none: HeaderView = Seq::empty();
    assert(e.headers == none);
    assert(is_readable_header(none, true));
    assert(crate::fields::pulled(none) == none);
    let r1 = crate::fields::fill_addresses(none, "Reply-To"@, e.reply_to)->Ok_0;
    lemma_fill_addresses_readable(none, "Reply-To"@, e.reply_to);
    let r2 = crate::fields::fill_addresses(r1, "To"@, e.to)->Ok_0;
    lemma_fill_addresses_readable(r1, "To"@, e.to);
    let r3 = crate::fields::fill_addresses(r2, "Cc"@, e.cc)->Ok_0;
    lemma_fill_addresses_readable(r2, "Cc"@, e.cc);
    let r4 = if e.subject.len() == 0 {
        r3
    } else {
        crate::fields::fill(r3, "Subject"@, e.subject)
    };
    lemma_fill_readable(r3, "Subject"@, e.subject);
    let r5 = crate::fields::fill(r4, "Message-Id"@, s.message_id);
    lemma_fill_readable(r4, "Message-Id"@, s.message_id);
    let r6 = crate::fields::fill_address(r5, "From"@, e.from)->Ok_0;
    if let Ok(shown) = crate::address::formatted_address(e.from) {
        reveal_strlit(">");
        assert(shown.last() == '>');
        lemma_bracketed_no_word(shown);
        lemma_fill_readable(r5, "From"@, shown);
    }
    assert(is_readable_header(r6, true));
    let r7 = crate::fields::fill(r6, "Date"@, s.date);
    lemma_fill_readable(r6, "Date"@, s.date);
    let r8 = crate::fields::fill(r7, "MIME-Version"@, "1.0"@);
    reveal_strlit("1.0");
    lemma_fill_readable(r7, "MIME-Version"@, "1.0"@);
    assert(h == r8);
    lemma_entity_readable(h, crate::render::message_entity(e, s));
}

/// The fields that say what a message is are read as they are.
proof fn lemma_entity_readable(h: HeaderView, t: Entity)
    requires
        is_readable_header(h, true),
        is_readable(t),
        !(t is File),
    ensures
        is_readable_header(crate::render::entity_header(h, t), true),
{
    lemma_content_names();
    lemma_clean_names();
    let none: HeaderView = Seq::empty();
    lemma_part_header(t);
    match t {
        Entity::Text { media, body } => {
            let typed = media + "; charset="@ + crate::names::DEFAULT_CHAR_ENCODING@;
            let coded = "quoted-printable"@;
            let mid = crate::header::header_set(none, "Content-Type"@, typed);
            let part = crate::header::header_set(mid, "Content-Transfer-Encoding"@, coded);
            assert(mid[0] == ("Content-Type"@, seq![typed]));
            crate::header::lemma_find(mid, "Content-Transfer-Encoding"@);
            assert(part[0] == ("Content-Type"@, seq![typed]));
            assert(part[0].1[0] == typed);
            assert(part[1] == ("Content-Transfer-Encoding"@, seq![coded]));
            assert(part[1].1[0] == coded);
            crate::fields::law_shown_value("Content-Type"@, typed);
            lemma_shown_clean("Content-Transfer-Encoding"@, coded);
            lemma_set_readable(h, "Content-Type"@, typed, true);
            lemma_set_readable(
                crate::header::header_set(h, "Content-Type"@, typed),
                "Content-Transfer-Encoding"@,
                coded,
                true,
            );
        },
        Entity::File { file } => {},
        Entity::Multi { kind, boundary, parts } => {
            let typed = kind + ";\r\n boundary="@ + boundary;
            let part = crate::header::header_set(none, "Content-Type"@, typed);
            assert(part[0] == ("Content-Type"@, seq![typed]));
            assert(part[0].1[0] == typed);
            crate::fields::law_shown_value("Content-Type"@, typed);
            lemma_set_readable(h, "Content-Type"@, typed, true);
        },
    }
}

/// Law: the body of a container is its parts, each behind a delimiter line, and the
/// closing delimiter line.
pub proof fn law_container_bytes(kind: Seq<char>, boundary: Seq<char>, parts: Seq<Entity>)
    requires
        parts.len() > 0,
    ensures
        crate::render::entity_body(Entity::Multi { kind, boundary, parts }) == (crate::text::utf8(
            "--"@,
        ) + crate::text::utf8(boundary) + crate::text::crlf() + glue(
            raw_parts(parts),
            delimiter_start(boundary),
        )) + (crate::text::crlf() + crate::text::utf8("--"@) + crate::text::utf8(boundary)
            + crate::text::utf8("--"@) + crate::text::crlf()),
{
    lemma_parts_glued(boundary, parts);
}

} // verus!
