//! Text primitives shared by the message layers: strings as character
//! sequences, trimming, comparison, and decimal and hexadecimal rendering.

use vstd::prelude::*;

verus! {

/// `String::push` of the standard library: the string grows by the one
/// character `c`, at its end.
pub assume_specification[ String::push ](s: &mut String, c: char)
    ensures
        final(s)@ == old(s)@.push(c),
;

// ---------------------------------------------------------------------------
// Bytes and characters
// ---------------------------------------------------------------------------

/// The line ending of the wire format.
pub open spec fn crlf() -> Seq<u8> {
    seq![13u8, 10u8]
}

/// The UTF-8 bytes of a text.
pub open spec fn utf8(s: Seq<char>) -> Seq<u8> {
    vstd::utf8::encode_utf8(s)
}

/// Appends the line ending of the wire format.
pub fn push_crlf(out: &mut Vec<u8>)
    ensures
        final(out)@ == old(out)@ + crlf(),
{
    out.push(13);
    out.push(10);
    assert(out@ == old(out)@ + crlf());
}

/// Appends the UTF-8 bytes of `s`.
pub fn push_text(out: &mut Vec<u8>, s: &str)
    ensures
        final(out)@ == old(out)@ + utf8(s@),
{
    let bytes = s.as_bytes();
    out.extend_from_slice(bytes);
    assert(out@ == old(out)@ + utf8(s@));
}

/// Appends all of `bytes`.
pub fn push_bytes(out: &mut Vec<u8>, bytes: &[u8])
    ensures
        final(out)@ == old(out)@ + bytes@,
{
    out.extend_from_slice(bytes);
    assert(out@ == old(out)@ + bytes@);
}

/// A copy of `bytes`.
pub fn copy_bytes(bytes: &[u8]) -> (r: Vec<u8>)
    ensures
        r@ == bytes@,
{
    let mut out: Vec<u8> = Vec::new();
    push_bytes(&mut out, bytes);
    assert(out@ == bytes@);
    out
}

/// The characters of `s`.
pub fn chars_of(s: &str) -> (r: Vec<char>)
    ensures
        r@ == s@,
{
    let mut out: Vec<char> = Vec::new();
    for c in it: s.chars()
        invariant
            it.seq() == s@,
            out@ == s@.take(it.index() as int),
    {
        out.push(c);
        assert(out@ == s@.take(it.index() + 1));
    }
    assert(s@.take(s@.len() as int) == s@);
    out
}

/// The string made of `chars`.
pub fn string_of(chars: &[char]) -> (r: String)
    ensures
        r@ == chars@,
{
    let mut out = String::new();
    let mut i: usize = 0;
    while i < chars.len()
        invariant
            i <= chars@.len(),
            out@ == chars@.take(i as int),
        decreases chars@.len() - i,
    {
        out.push(chars[i]);
        i += 1;
        assert(out@ == chars@.take(i as int));
    }
    assert(chars@.take(chars@.len() as int) == chars@);
    out
}

/// `a` followed by `b`.
pub fn join2(a: &str, b: &str) -> (r: String)
    ensures
        r@ == a@ + b@,
{
    let mut out = a.to_string();
    out.append(b);
    out
}

/// `a`, `b` and `c`, one after another.
pub fn join3(a: &str, b: &str, c: &str) -> (r: String)
    ensures
        r@ == a@ + b@ + c@,
{
    let mut out = join2(a, b);
    out.append(c);
    out
}

/// The texts that `list` refers to.
pub open spec fn texts(list: Seq<&String>) -> Seq<Seq<char>> {
    list.map_values(|s: &String| s@)
}

/// Appends references to all strings of `list`.
pub fn push_all<'a>(out: &mut Vec<&'a String>, list: &'a Vec<String>)
    ensures
        texts(final(out)@) == texts(old(out)@) + list.deep_view(),
{
    let mut i: usize = 0;
    assert(texts(out@) == texts(old(out)@) + list.deep_view().take(0));
    while i < list.len()
        invariant
            i <= list@.len(),
            texts(out@) == texts(old(out)@) + list.deep_view().take(i as int),
        decreases list@.len() - i,
    {
        let ghost before = texts(out@);
        out.push(&list[i]);
        assert(texts(out@) == before.push(list@[i as int]@));
        i += 1;
        assert(list.deep_view().take(i as int) == list.deep_view().take(i - 1).push(
            list@[i - 1]@,
        ));
    }
    assert(list.deep_view().take(i as int) == list.deep_view());
}

// ---------------------------------------------------------------------------
// Comparison
// ---------------------------------------------------------------------------

/// Two texts with the same UTF-8 bytes are the same text.
pub proof fn lemma_utf8_injective(a: Seq<char>, b: Seq<char>)
    ensures
        utf8(a) == utf8(b) ==> a == b,
{
    vstd::utf8::encode_utf8_decode_utf8(a);
    vstd::utf8::encode_utf8_decode_utf8(b);
}

/// Whether `a` and `b` are the same text.
pub fn same_text(a: &str, b: &str) -> (r: bool)
    ensures
        r == (a@ == b@),
{
    let x = a.as_bytes();
    let y = b.as_bytes();
    proof {
        lemma_utf8_injective(a@, b@);
    }
    if x.len() != y.len() {
        return false;
    }
    let mut i: usize = 0;
    while i < x.len()
        invariant
            x@ == utf8(a@),
            y@ == utf8(b@),
            x@.len() == y@.len(),
            i <= x@.len(),
            forall|j: int| 0 <= j < i ==> x@[j] == y@[j],
        decreases x@.len() - i,
    {
        if x[i] != y[i] {
            return false;
        }
        i += 1;
    }
    assert(x@ =~= y@);
    true
}

/// Lexicographic order of byte strings.
pub open spec fn bytes_le(a: Seq<u8>, b: Seq<u8>) -> bool
    decreases a.len(),
{
    if a.len() == 0 {
        true
    } else if b.len() == 0 {
        false
    } else if a[0] != b[0] {
        a[0] < b[0]
    } else {
        bytes_le(a.skip(1), b.skip(1))
    }
}

/// Order of texts: that of their UTF-8 bytes.
pub open spec fn text_le(a: Seq<char>, b: Seq<char>) -> bool {
    bytes_le(utf8(a), utf8(b))
}

/// Of two byte strings one comes before the other or they are equal.
pub proof fn lemma_bytes_le_total(a: Seq<u8>, b: Seq<u8>)
    ensures
        bytes_le(a, b) || bytes_le(b, a),
    decreases a.len(),
{
    if a.len() > 0 && b.len() > 0 && a[0] == b[0] {
        lemma_bytes_le_total(a.skip(1), b.skip(1));
    }
}

/// The lexicographic order of byte strings is transitive.
pub proof fn lemma_bytes_le_transitive(a: Seq<u8>, b: Seq<u8>, c: Seq<u8>)
    requires
        bytes_le(a, b),
        bytes_le(b, c),
    ensures
        bytes_le(a, c),
    decreases a.len(),
{
    if a.len() > 0 && b.len() > 0 && c.len() > 0 && a[0] == b[0] && b[0] == c[0] {
        lemma_bytes_le_transitive(a.skip(1), b.skip(1), c.skip(1));
    }
}

/// Whether `a` comes before `b` or equals it, by UTF-8 bytes.
pub fn text_at_most(a: &str, b: &str) -> (r: bool)
    ensures
        r == text_le(a@, b@),
{
    let x = a.as_bytes();
    let y = b.as_bytes();
    let mut i: usize = 0;
    assert(x@.skip(0) == x@);
    assert(y@.skip(0) == y@);
    while i < x.len() && i < y.len()
        invariant
            x@ == utf8(a@),
            y@ == utf8(b@),
            i <= x@.len(),
            i <= y@.len(),
            bytes_le(x@, y@) == bytes_le(x@.skip(i as int), y@.skip(i as int)),
        decreases x@.len() - i,
    {
        if x[i] != y[i] {
            return x[i] < y[i];
        }
        assert(x@.skip(i as int).skip(1) == x@.skip(i + 1));
        assert(y@.skip(i as int).skip(1) == y@.skip(i + 1));
        i += 1;
    }
    i == x.len()
}

// ---------------------------------------------------------------------------
// Character classes and trimming
// ---------------------------------------------------------------------------

/// The Unicode `White_Space` property.
pub open spec fn is_white_space(c: char) -> bool {
    let v = c as u32;
    ||| 0x9 <= v <= 0xd
    ||| v == 0x20
    ||| v == 0x85
    ||| v == 0xa0
    ||| v == 0x1680
    ||| 0x2000 <= v <= 0x200a
    ||| v == 0x2028
    ||| v == 0x2029
    ||| v == 0x202f
    ||| v == 0x205f
    ||| v == 0x3000
}

/// Whether `c` has the Unicode `White_Space` property.
pub fn white_space(c: char) -> (r: bool)
    ensures
        r == is_white_space(c),
{
    let v = c as u32;
    (0x9 <= v && v <= 0xd) || v == 0x20 || v == 0x85 || v == 0xa0 || v == 0x1680 || (0x2000 <= v
        && v <= 0x200a) || v == 0x2028 || v == 0x2029 || v == 0x202f || v == 0x205f || v == 0x3000
}

/// What is trimmed off the ends of a text.
#[derive(Clone, Copy)]
pub enum Trim {
    /// White space.
    WhiteSpace,
    /// Double quotes.
    Quotes,
}

/// Whether `c` is trimmed off.
pub open spec fn trimmable(c: char, what: Trim) -> bool {
    match what {
        Trim::WhiteSpace => is_white_space(c),
        Trim::Quotes => c == '"',
    }
}

/// `s` without the trimmable characters at its start.
pub open spec fn trim_start(s: Seq<char>, what: Trim) -> Seq<char>
    decreases s.len(),
{
    if s.len() > 0 && trimmable(s[0], what) {
        trim_start(s.skip(1), what)
    } else {
        s
    }
}

/// `s` without the trimmable characters at its end.
pub open spec fn trim_end(s: Seq<char>, what: Trim) -> Seq<char>
    decreases s.len(),
{
    if s.len() > 0 && trimmable(s.last(), what) {
        trim_end(s.drop_last(), what)
    } else {
        s
    }
}

/// `s` without the trimmable characters at either end.
pub open spec fn trim(s: Seq<char>, what: Trim) -> Seq<char> {
    trim_end(trim_start(s, what), what)
}

fn is_trimmable(c: char, what: Trim) -> (r: bool)
    ensures
        r == trimmable(c, what),
{
    match what {
        Trim::WhiteSpace => white_space(c),
        Trim::Quotes => c == '"',
    }
}

/// `chars` without the trimmable characters at either end.
pub fn trimmed(chars: &[char], what: Trim) -> (r: Vec<char>)
    ensures
        r@ == trim(chars@, what),
{
    let mut lo: usize = 0;
    assert(chars@.skip(0) == chars@);
    while lo < chars.len() && is_trimmable(chars[lo], what)
        invariant
            lo <= chars@.len(),
            trim_start(chars@.skip(lo as int), what) == trim_start(chars@, what),
        decreases chars@.len() - lo,
    {
        assert(chars@.skip(lo as int).skip(1) == chars@.skip(lo + 1));
        lo += 1;
    }
    let ghost start = chars@.skip(lo as int);
    assert(trim_start(chars@, what) == start);
    let mut hi: usize = chars.len();
    assert(chars@.subrange(lo as int, hi as int) == start);
    while hi > lo && is_trimmable(chars[hi - 1], what)
        invariant
            lo <= hi <= chars@.len(),
            trim_end(chars@.subrange(lo as int, hi as int), what) == trim_end(start, what),
        decreases hi,
    {
        assert(chars@.subrange(lo as int, hi as int).drop_last() == chars@.subrange(
            lo as int,
            hi - 1,
        ));
        hi -= 1;
    }
    let part = vstd::slice::slice_subrange(chars, lo, hi);
    vstd::slice::slice_to_vec(part)
}

/// Trimming leaves a piece of the text.
pub proof fn lemma_trim_piece(s: Seq<char>, what: Trim) -> (lo: int)
    ensures
        0 <= lo,
        lo + trim(s, what).len() <= s.len(),
        trim(s, what) == s.subrange(lo, lo + trim(s, what).len()),
        trim(s, what).len() > 0 ==> !trimmable(trim(s, what)[0], what) && !trimmable(
            trim(s, what).last(),
            what,
        ),
{
    let lo = lemma_trim_start_piece(s, what);
    let t = trim_start(s, what);
    lemma_trim_end_piece(t, what);
    assert(trim(s, what) == s.subrange(lo, lo + trim(s, what).len()));
    lo
}

proof fn lemma_trim_start_piece(s: Seq<char>, what: Trim) -> (lo: int)
    ensures
        0 <= lo <= s.len(),
        trim_start(s, what) == s.skip(lo),
        trim_start(s, what).len() > 0 ==> !trimmable(trim_start(s, what)[0], what),
    decreases s.len(),
{
    if s.len() > 0 && trimmable(s[0], what) {
        let lo = lemma_trim_start_piece(s.skip(1), what);
        assert(s.skip(1).skip(lo) == s.skip(lo + 1));
        lo + 1
    } else {
        assert(s.skip(0) == s);
        0
    }
}

proof fn lemma_trim_end_piece(s: Seq<char>, what: Trim)
    ensures
        trim_end(s, what).len() <= s.len(),
        trim_end(s, what) == s.take(trim_end(s, what).len() as int),
        trim_end(s, what).len() > 0 ==> !trimmable(trim_end(s, what).last(), what) && trim_end(
            s,
            what,
        )[0] == s[0],
    decreases s.len(),
{
    if s.len() > 0 && trimmable(s.last(), what) {
        lemma_trim_end_piece(s.drop_last(), what);
        let n = trim_end(s, what).len() as int;
        assert(s.drop_last().take(n) == s.take(n));
    } else {
        assert(s.take(s.len() as int) == s);
    }
}

/// A text that neither starts nor ends with a trimmable character is left
/// as it is.
pub proof fn lemma_trim_unchanged(s: Seq<char>, what: Trim)
    requires
        s.len() > 0 ==> !trimmable(s[0], what) && !trimmable(s.last(), what),
    ensures
        trim(s, what) == s,
{
}

// ---------------------------------------------------------------------------
// Numbers
// ---------------------------------------------------------------------------

/// The decimal digit of `v`.
pub open spec fn decimal_digit(v: nat) -> char {
    (('0' as u32 + v) as u32) as char
}

/// `n` in decimal, without leading zeros.
pub open spec fn decimal(n: nat) -> Seq<char>
    decreases n,
{
    if n < 10 {
        seq![decimal_digit(n)]
    } else {
        decimal(n / 10).push(decimal_digit(n % 10))
    }
}

/// `n` in decimal.
pub fn decimal_string(n: u128) -> (r: String)
    ensures
        r@ == decimal(n as nat),
    decreases n,
{
    let mut out = if n < 10 {
        String::new()
    } else {
        decimal_string(n / 10)
    };
    let d: u8 = (n % 10) as u8;
    let c = (48u8 + d) as char;
    out.push(c);
    assert(out@ == decimal(n as nat));
    out
}

/// The hexadecimal digit of `v`, with `A` to `F` or `a` to `f` above nine.
pub open spec fn hex_digit(v: int, upper: bool) -> u8 {
    (if v < 10 {
        48 + v
    } else if upper {
        55 + v
    } else {
        87 + v
    }) as u8
}

/// The hexadecimal digit of `v`.
pub fn hex_digit_of(v: u8, upper: bool) -> (r: u8)
    requires
        v < 16,
    ensures
        r == hex_digit(v as int, upper),
{
    if v < 10 {
        48 + v
    } else if upper {
        55 + v
    } else {
        87 + v
    }
}

// ---------------------------------------------------------------------------
// Laws
// ---------------------------------------------------------------------------

/// The number that decimal digits stand for.
pub open spec fn decimal_value(digits: Seq<char>) -> int
    decreases digits.len(),
{
    if digits.len() == 0 {
        0
    } else {
        10 * decimal_value(digits.drop_last()) + (digits.last() as int - '0' as int)
    }
}

/// Law: a number in decimal stands for itself, in digits alone, and starts with no zero
/// unless it is zero.
pub proof fn law_decimal(n: nat)
    ensures
        decimal_value(decimal(n)) == n,
        decimal(n).len() > 0,
        forall|i: int| 0 <= i < decimal(n).len() ==> '0' <= #[trigger] decimal(n)[i] <= '9',
        n > 0 ==> decimal(n)[0] != '0',
    decreases n,
{
    let t = decimal(n);
    if n < 10 {
        assert(t.drop_last() == Seq::<char>::empty());
        assert(decimal_value(t.drop_last()) == 0);
    } else {
        law_decimal(n / 10);
        let init = decimal(n / 10);
        assert(t.drop_last() == init);
        assert forall|i: int| 0 <= i < t.len() implies '0' <= #[trigger] t[i] <= '9' by {
            if i < init.len() {
                assert(t[i] == init[i]);
            }
        }
        assert(t[0] == init[0]);
    }
}

/// Law: texts are ordered by the first byte in which they differ, and a text comes before
/// what it starts.
pub proof fn law_bytes_le(start: Seq<u8>, x: u8, a: Seq<u8>, y: u8, b: Seq<u8>)
    ensures
        x < y ==> bytes_le(start + seq![x] + a, start + seq![y] + b),
        x > y ==> !bytes_le(start + seq![x] + a, start + seq![y] + b),
        bytes_le(start, start + b),
        !bytes_le(start + seq![x] + a, start),
    decreases start.len(),
{
    let l = start + seq![x] + a;
    let r = start + seq![y] + b;
    if start.len() > 0 {
        let rest = start.skip(1);
        law_bytes_le(rest, x, a, y, b);
        assert(l.skip(1) == rest + seq![x] + a);
        assert(r.skip(1) == rest + seq![y] + b);
        assert((start + b).skip(1) == rest + b);
    } else {
        assert(l[0] == x && r[0] == y);
    }
}

/// Trimmable characters around a text are trimmed off, and no more.
pub proof fn lemma_trim_around(left: Seq<char>, t: Seq<char>, right: Seq<char>, what: Trim)
    requires
        forall|i: int| 0 <= i < left.len() ==> trimmable(#[trigger] left[i], what),
        forall|i: int| 0 <= i < right.len() ==> trimmable(#[trigger] right[i], what),
        t.len() > 0,
        !trimmable(t[0], what),
        !trimmable(t.last(), what),
    ensures
        trim(left + t + right, what) == t,
    decreases left.len() + right.len(),
{
    let all = left + t + right;
    if left.len() > 0 {
        let rest = left.skip(1);
        assert(trimmable(left[0], what));
        assert forall|i: int| 0 <= i < rest.len() implies trimmable(#[trigger] rest[i], what) by {
            assert(rest[i] == left[i + 1]);
        }
        assert(all[0] == left[0]);
        assert(all.skip(1) == rest + t + right);
        lemma_trim_around(rest, t, right, what);
        assert(trim_start(all, what) == trim_start(all.skip(1), what));
    } else if right.len() > 0 {
        let init = right.drop_last();
        assert(trimmable(right[right.len() - 1], what));
        assert forall|i: int| 0 <= i < init.len() implies trimmable(#[trigger] init[i], what) by {
            assert(init[i] == right[i]);
        }
        assert(all.drop_last() == left + t + init);
        lemma_trim_around(left, t, init, what);
        assert(all[0] == t[0]);
        assert(all.drop_last()[0] == t[0]);
        assert(trim_start(all, what) == all);
        assert(trim_start(all.drop_last(), what) == all.drop_last());
        assert(all.last() == right.last());
    } else {
        assert(all == t);
        lemma_trim_unchanged(t, what);
    }
}

/// Law: white space around a text is trimmed off, and so are quotes; nothing else is, and
/// what is left neither starts nor ends so.
pub proof fn law_trim(left: Seq<char>, t: Seq<char>, right: Seq<char>)
    requires
        t.len() > 0,
    ensures
        (forall|i: int| 0 <= i < left.len() ==> is_white_space(#[trigger] left[i])) && (forall|i: int|
            0 <= i < right.len() ==> is_white_space(#[trigger] right[i])) && !is_white_space(t[0])
            && !is_white_space(t.last()) ==> trim(left + t + right, Trim::WhiteSpace) == t,
        (forall|i: int| 0 <= i < left.len() ==> #[trigger] left[i] == '"') && (forall|i: int|
            0 <= i < right.len() ==> #[trigger] right[i] == '"') && t[0] != '"' && t.last() != '"'
            ==> trim(left + t + right, Trim::Quotes) == t,
{
    if (forall|i: int| 0 <= i < left.len() ==> is_white_space(#[trigger] left[i])) && (forall|i: int|
        0 <= i < right.len() ==> is_white_space(#[trigger] right[i])) && !is_white_space(t[0])
        && !is_white_space(t.last()) {
        lemma_trim_around(left, t, right, Trim::WhiteSpace);
    }
    if (forall|i: int| 0 <= i < left.len() ==> #[trigger] left[i] == '"') && (forall|i: int|
        0 <= i < right.len() ==> #[trigger] right[i] == '"') && t[0] != '"' && t.last() != '"' {
        lemma_trim_around(left, t, right, Trim::Quotes);
    }
}

/// Law: white space is what Unicode lists as such: the control characters from the tab to
/// the carriage return, the next-line character, and the blanks and separators.
pub proof fn law_white_space(c: char)
    ensures
        is_white_space(c) <==> "\u{9}\u{a}\u{b}\u{c}\u{d}\u{20}\u{85}\u{a0}\u{1680}\u{2000}\u{2001}\u{2002}\u{2003}\u{2004}\u{2005}\u{2006}\u{2007}\u{2008}\u{2009}\u{200a}\u{2028}\u{2029}\u{202f}\u{205f}\u{3000}"@.contains(c),
{
    reveal_strlit("\u{9}\u{a}\u{b}\u{c}\u{d}\u{20}\u{85}\u{a0}\u{1680}\u{2000}\u{2001}\u{2002}\u{2003}\u{2004}\u{2005}\u{2006}\u{2007}\u{2008}\u{2009}\u{200a}\u{2028}\u{2029}\u{202f}\u{205f}\u{3000}");
    let all = "\u{9}\u{a}\u{b}\u{c}\u{d}\u{20}\u{85}\u{a0}\u{1680}\u{2000}\u{2001}\u{2002}\u{2003}\u{2004}\u{2005}\u{2006}\u{2007}\u{2008}\u{2009}\u{200a}\u{2028}\u{2029}\u{202f}\u{205f}\u{3000}"@;
    assert(all.len() == 25);
    if is_white_space(c) {
        let i: int = if 0x9 <= c as int <= 0xd {
            c as int - 0x9
        } else if c as int == 0x20 {
            5
        } else if c as int == 0x85 {
            6
        } else if c as int == 0xa0 {
            7
        } else if c as int == 0x1680 {
            8
        } else if 0x2000 <= c as int <= 0x200a {
            9 + (c as int - 0x2000)
        } else if c as int == 0x2028 {
            20
        } else if c as int == 0x2029 {
            21
        } else if c as int == 0x202f {
            22
        } else if c as int == 0x205f {
            23
        } else {
            24
        };
        assert(all[i] == c);
    }
}

/// Of a text that is all trimmable nothing is left.
pub proof fn lemma_trim_all(s: Seq<char>, what: Trim)
    requires
        forall|i: int| 0 <= i < s.len() ==> trimmable(#[trigger] s[i], what),
    ensures
        trim(s, what).len() == 0,
    decreases s.len(),
{
    if s.len() > 0 {
        let rest = s.skip(1);
        assert(trimmable(s[0], what));
        assert forall|i: int| 0 <= i < rest.len() implies trimmable(#[trigger] rest[i], what) by {
            assert(rest[i] == s[i + 1]);
        }
        lemma_trim_all(rest, what);
    }
}

/// Law: texts in ASCII are ordered by the first character in which they differ, and a text
/// comes before what it starts; any texts are ordered by their bytes in UTF-8.
pub proof fn law_text_le(start: Seq<char>, x: char, a: Seq<char>, y: char, b: Seq<char>)
    requires
        vstd::utf8::is_ascii_chars(start + seq![x] + a),
        vstd::utf8::is_ascii_chars(start + seq![y] + b),
    ensures
        x < y ==> text_le(start + seq![x] + a, start + seq![y] + b),
        x > y ==> !text_le(start + seq![x] + a, start + seq![y] + b),
        text_le(start, start + seq![y] + b),
        !text_le(start + seq![x] + a, start),
{
    let l = start + seq![x] + a;
    let r = start + seq![y] + b;
    vstd::utf8::is_ascii_chars_encode_utf8(l);
    vstd::utf8::is_ascii_chars_encode_utf8(r);
    let n = start.len() as int;
    assert forall|i: int| 0 <= i < n implies '\0' <= #[trigger] start[i] <= '\u{7f}' by {
        assert(l[i] == start[i]);
    }
    assert(vstd::utf8::is_ascii_chars(start));
    vstd::utf8::is_ascii_chars_encode_utf8(start);
    assert(l[n] == x && r[n] == y);
    let s8 = utf8(start);
    let l8 = utf8(l);
    let r8 = utf8(r);
    assert forall|i: int| 0 <= i < n implies #[trigger] s8[i] == l8[i] && s8[i] == r8[i] by {
        assert(s8[i] == start[i] as u8);
        assert(l8[i] == l[i] as u8);
        assert(r8[i] == r[i] as u8);
    }
    assert(l8[n] == x as u8 && r8[n] == y as u8);
    let la = l8.skip(n + 1);
    let rb = r8.skip(n + 1);
    assert(l8 == s8 + seq![x as u8] + la);
    assert(r8 == s8 + seq![y as u8] + rb);
    law_bytes_le(s8, x as u8, la, y as u8, rb);
    law_bytes_le(s8, x as u8, la, y as u8, seq![y as u8] + rb);
    assert(s8 + (seq![y as u8] + rb) == r8);
}

} // verus!
