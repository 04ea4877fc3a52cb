//! Mail addresses: parsing `"Name <local@domain>"`, and formatting an address
//! for a header.

use vstd::prelude::*;

use crate::encoding::{is_ascii_alphanumeric, q_encode_word};
use crate::error::Error;
use crate::text::{chars_of, join2, join3, string_of, trimmed, Trim};

verus! {

// ---------------------------------------------------------------------------
// Parsing
// ---------------------------------------------------------------------------

/// Whether `addr` has a non-empty local part and a non-empty domain around its
/// only `@`.
pub open spec fn valid_addr(addr: Seq<char>) -> bool {
    exists|i: int|
        0 < i < addr.len() - 1 && #[trigger] addr[i] == '@' && forall|j: int|
            0 <= j < addr.len() && j != i ==> #[trigger] addr[j] != '@'
}

/// What an address is parsed into, its name and its bare address, or for an
/// invalid one the trimmed text.
pub open spec fn parsed_address(s: Seq<char>) -> Result<(Seq<char>, Seq<char>), Seq<char>> {
    let t = crate::text::trim(s, Trim::WhiteSpace);
    match t.index_of_last('<') {
        Some(open) => {
            let rest = t.skip(open + 1);
            match rest.index_of_first('>') {
                Some(close) => {
                    let addr = crate::text::trim(rest.take(close), Trim::WhiteSpace);
                    let outer = crate::text::trim(t.take(open), Trim::WhiteSpace);
                    let inner = crate::text::trim(outer, Trim::Quotes);
                    let name = crate::text::trim(inner, Trim::WhiteSpace);
                    if valid_addr(addr) {
                        Ok((name, addr))
                    } else {
                        Err(t)
                    }
                },
                None => Err(t),
            }
        },
        None => if valid_addr(t) {
            Ok((Seq::empty(), t))
        } else {
            Err(t)
        },
    }
}

/// Whether `e` says that the text `t` is no address.
pub open spec fn is_address_error(e: Error, t: Seq<char>) -> bool {
    e matches Error::Address(m) && m@ == "invalid address: "@ + t
}

/// Index of the first `c`.
fn find_first(chars: &[char], c: char) -> (r: Option<usize>)
    ensures
        match r {
            Some(i) => chars@.index_of_first(c) == Some(i as int) && i < chars@.len(),
            None => chars@.index_of_first(c) is None,
        },
{
    let mut i: usize = 0;
    while i < chars.len()
        invariant
            i <= chars@.len(),
            forall|j: int| 0 <= j < i ==> chars@[j] != c,
        decreases chars@.len() - i,
    {
        if chars[i] == c {
            proof {
                chars@.index_of_first_ensures(c);
                assert(chars@.contains(chars@[i as int]));
            }
            return Some(i);
        }
        i += 1;
    }
    proof {
        chars@.index_of_first_ensures(c);
    }
    None
}

/// Index of the last `c`.
fn find_last(chars: &[char], c: char) -> (r: Option<usize>)
    ensures
        match r {
            Some(i) => chars@.index_of_last(c) == Some(i as int) && i < chars@.len(),
            None => chars@.index_of_last(c) is None,
        },
{
    let mut i: usize = chars.len();
    while i > 0
        invariant
            i <= chars@.len(),
            forall|j: int| i <= j < chars@.len() ==> chars@[j] != c,
        decreases i,
    {
        i -= 1;
        if chars[i] == c {
            proof {
                chars@.index_of_last_ensures(c);
                assert(chars@.contains(chars@[i as int]));
            }
            return Some(i);
        }
    }
    proof {
        chars@.index_of_last_ensures(c);
    }
    None
}

/// Whether `addr` has a non-empty local part and a non-empty domain around its
/// only `@`.
pub fn is_valid_addr(addr: &str) -> (r: bool)
    ensures
        r == valid_addr(addr@),
{
    let chars = chars_of(addr);
    is_valid(chars.as_slice())
}

fn is_valid(chars: &[char]) -> (r: bool)
    ensures
        r == valid_addr(chars@),
{
    proof {
        chars@.index_of_first_ensures('@');
        chars@.index_of_last_ensures('@');
    }
    match (find_first(chars, '@'), find_last(chars, '@')) {
        (Some(i), Some(k)) => {
            let r = i == k && 0 < i && i < chars.len() - 1;
            assert(chars@[i as int] == '@');
            assert(chars@[k as int] == '@');
            r
        },
        _ => false,
    }
}

/// The error for a text that is no address.
fn invalid_address(t: &[char]) -> (r: Error)
    ensures
        is_address_error(r, t@),
{
    Error::Address(join2("invalid address: ", string_of(t).as_str()))
}

/// Parses `"Name <local@domain>"` or a bare `"local@domain"` into
/// `(name, address)`, validating that the address has non-empty local and
/// domain parts around a single `@`.
pub fn parse_address(s: &str) -> (r: Result<(String, String), Error>)
    ensures
        match (r, parsed_address(s@)) {
            (Ok(p), Ok(q)) => p.0@ == q.0 && p.1@ == q.1,
            (Err(e), Err(t)) => is_address_error(e, t),
            _ => false,
        },
{
    let chars = chars_of(s);
    let t = trimmed(chars.as_slice(), Trim::WhiteSpace);
    proof {
        t@.index_of_last_ensures('<');
    }
    match find_last(t.as_slice(), '<') {
        Some(open) => {
            let rest = vstd::slice::slice_subrange(t.as_slice(), open + 1, t.len());
            assert(rest@ == t@.skip(open + 1));
            match find_first(rest, '>') {
                Some(close) => {
                    let inside = vstd::slice::slice_subrange(rest, 0, close);
                    assert(inside@ == rest@.take(close as int));
                    let addr = trimmed(inside, Trim::WhiteSpace);
                    let before = vstd::slice::slice_subrange(t.as_slice(), 0, open);
                    assert(before@ == t@.take(open as int));
                    let outer = trimmed(before, Trim::WhiteSpace);
                    let inner = trimmed(outer.as_slice(), Trim::Quotes);
                    let name = trimmed(inner.as_slice(), Trim::WhiteSpace);
                    if is_valid(addr.as_slice()) {
                        Ok((string_of(name.as_slice()), string_of(addr.as_slice())))
                    } else {
                        Err(invalid_address(t.as_slice()))
                    }
                },
                None => Err(invalid_address(t.as_slice())),
            }
        },
        None => {
            if is_valid(t.as_slice()) {
                Ok((String::new(), string_of(t.as_slice())))
            } else {
                Err(invalid_address(t.as_slice()))
            }
        },
    }
}

/// Parses `s` (`"Name <addr>"` or bare `"addr"`) and returns the bare address.
/// Used by the SMTP send path to build the envelope recipients.
pub fn extract_address(s: &str) -> (r: Result<String, Error>)
    ensures
        match (r, parsed_address(s@)) {
            (Ok(a), Ok(q)) => a@ == q.1,
            (Err(e), Err(t)) => is_address_error(e, t),
            _ => false,
        },
{
    match parse_address(s) {
        Ok(p) => Ok(p.1),
        Err(e) => Err(e),
    }
}

// ---------------------------------------------------------------------------
// Formatting
// ---------------------------------------------------------------------------

/// Whether `b` may stand in an unquoted display name: a space, a letter or digit,
/// or one of ``!#$%&'*+-/=?^_`{|}~``.
pub open spec fn atext_or_space(b: u8) -> bool {
    ||| b == 32
    ||| crate::encoding::is_alphanumeric(b)
    ||| b == 33
    ||| 35 <= b <= 39
    ||| b == 42
    ||| b == 43
    ||| b == 45
    ||| b == 47
    ||| b == 61
    ||| b == 63
    ||| 94 <= b <= 96
    ||| 123 <= b <= 126
}

/// Whether `b` may stand in an unquoted display name.
pub fn is_atext_or_space(b: u8) -> (r: bool)
    ensures
        r == atext_or_space(b),
{
    b == 32 || is_ascii_alphanumeric(b) || b == 33 || (35 <= b && b <= 39) || b == 42 || b == 43
        || b == 45 || b == 47 || b == 61 || b == 63 || (94 <= b && b <= 96) || (123 <= b && b
        <= 126)
}

/// `s` with a backslash before each backslash and each double quote.
pub open spec fn backslashed(s: Seq<char>) -> Seq<char>
    decreases s.len(),
{
    if s.len() == 0 {
        Seq::empty()
    } else if s.last() == '\\' || s.last() == '"' {
        backslashed(s.drop_last()).push('\\').push(s.last())
    } else {
        backslashed(s.drop_last()).push(s.last())
    }
}

/// Whether a display name is written as it is.
pub open spec fn is_plain_name(name: Seq<char>) -> bool {
    vstd::utf8::is_ascii_chars(name) && forall|i: int|
        0 <= i < name.len() ==> atext_or_space(#[trigger] name[i] as u8)
}

/// A display name as it is written.
pub open spec fn display_name(name: Seq<char>) -> Seq<char> {
    if vstd::utf8::is_ascii_chars(name) {
        if is_plain_name(name) {
            name
        } else {
            "\""@ + backslashed(name) + "\""@
        }
    } else {
        crate::encoding::q_word(name)
    }
}

/// An address as it is written in a header, or for an invalid one the trimmed
/// text.
pub open spec fn formatted_address(s: Seq<char>) -> Result<Seq<char>, Seq<char>> {
    match parsed_address(s) {
        Ok((name, addr)) => if name.len() == 0 {
            Ok("<"@ + addr + ">"@)
        } else {
            Ok(display_name(name) + " <"@ + addr + ">"@)
        },
        Err(t) => Err(t),
    }
}

/// `name` in double quotes, with its quotes and backslashes escaped.
fn quote_name(name: &str) -> (r: String)
    ensures
        r@ == "\""@ + backslashed(name@) + "\""@,
{
    let chars = chars_of(name);
    let mut out = "\"".to_string();
    let mut i: usize = 0;
    assert(out@ + backslashed(chars@.take(0)) == out@);
    while i < chars.len()
        invariant
            i <= chars@.len(),
            out@ == "\""@ + backslashed(chars@.take(i as int)),
        decreases chars@.len() - i,
    {
        let c = chars[i];
        if c == '\\' || c == '"' {
            out.push('\\');
        }
        out.push(c);
        i += 1;
        assert(chars@.take(i as int).drop_last() == chars@.take(i - 1));
        assert(out@ == "\""@ + backslashed(chars@.take(i as int)));
    }
    assert(chars@.take(i as int) == name@);
    out.append("\"");
    out
}

/// Encodes a display name: left as-is if a safe ASCII token, quoted if it
/// contains ASCII specials, RFC 2047 Q-encoded if it contains non-ASCII.
pub fn encode_display_name(name: &str) -> (r: String)
    ensures
        r@ == display_name(name@),
{
    if name.is_ascii() {
        let bytes = name.as_bytes();
        proof {
            vstd::utf8::is_ascii_chars_encode_utf8(name@);
        }
        let mut i: usize = 0;
        while i < bytes.len()
            invariant
                bytes@.len() == name@.len(),
                forall|j: int| 0 <= j < name@.len() ==> #[trigger] name@[j] as u8 == bytes@[j],
                vstd::utf8::is_ascii_chars(name@),
                i <= bytes@.len(),
                forall|j: int| 0 <= j < i ==> atext_or_space(#[trigger] name@[j] as u8),
            decreases bytes@.len() - i,
        {
            assert(name@[i as int] as u8 == bytes@[i as int]);
            if !is_atext_or_space(bytes[i]) {
                return quote_name(name);
            }
            i += 1;
        }
        name.to_string()
    } else {
        q_encode_word(name)
    }
}

/// Formats an address as a valid RFC 5322 address, RFC 2047-encoding the
/// display name if it contains non-ASCII characters.
pub fn format_address(addr: &str) -> (r: Result<String, Error>)
    ensures
        match (r, formatted_address(addr@)) {
            (Ok(a), Ok(q)) => a@ == q,
            (Err(e), Err(t)) => is_address_error(e, t),
            _ => false,
        },
{
    match parse_address(addr) {
        Ok((name, email)) => {
            if name.as_str().is_empty() {
                Ok(join3("<", email.as_str(), ">"))
            } else {
                let shown = encode_display_name(name.as_str());
                let head = join3(shown.as_str(), " <", email.as_str());
                Ok(join2(head.as_str(), ">"))
            }
        },
        Err(e) => Err(e),
    }
}

/// Addresses as they are written in a header, or the trimmed text of the first
/// invalid one.
pub open spec fn formatted_addresses(list: Seq<Seq<char>>) -> Result<Seq<Seq<char>>, Seq<char>>
    decreases list.len(),
{
    if list.len() == 0 {
        Ok(Seq::empty())
    } else {
        match formatted_addresses(list.drop_last()) {
            Ok(done) => match formatted_address(list.last()) {
                Ok(a) => Ok(done.push(a)),
                Err(t) => Err(t),
            },
            Err(t) => Err(t),
        }
    }
}

/// An invalid address at the start of a list is the one that is reported.
proof fn lemma_first_invalid(list: Seq<Seq<char>>, n: int)
    requires
        0 <= n <= list.len(),
        formatted_addresses(list.take(n)) is Err,
    ensures
        formatted_addresses(list) == formatted_addresses(list.take(n)),
    decreases list.len() - n,
{
    if n < list.len() {
        assert(list.take(n + 1).drop_last() == list.take(n));
        lemma_first_invalid(list, n + 1);
    } else {
        assert(list.take(n) == list);
    }
}

/// Formats each of `addrs`, up to the first invalid one.
pub fn format_addresses(addrs: &[String]) -> (r: Result<Vec<String>, Error>)
    ensures
        match (r, formatted_addresses(addrs.deep_view())) {
            (Ok(v), Ok(q)) => v.deep_view() == q,
            (Err(e), Err(t)) => is_address_error(e, t),
            _ => false,
        },
{
    let mut out: Vec<String> = Vec::new();
    let ghost list = addrs.deep_view();
    let mut i: usize = 0;
    assert(out.deep_view() == Seq::<Seq<char>>::empty());
    while i < addrs.len()
        invariant
            i <= addrs@.len(),
            list == addrs.deep_view(),
            formatted_addresses(list.take(i as int)) == Ok::<Seq<Seq<char>>, Seq<char>>(
                out.deep_view(),
            ),
        decreases addrs@.len() - i,
    {
        assert(list.take(i + 1).drop_last() == list.take(i as int));
        assert(list.take(i + 1).last() == addrs@[i as int]@);
        let ghost before = out.deep_view();
        match format_address(addrs[i].as_str()) {
            Ok(a) => {
                out.push(a);
                assert(out.deep_view() == before.push(a@));
            },
            Err(e) => {
                proof {
                    lemma_first_invalid(list, i + 1);
                }
                return Err(e);
            },
        }
        i += 1;
    }
    assert(list.take(i as int) == list);
    Ok(out)
}

/// `list` joined with `", "`.
pub open spec fn comma_joined(list: Seq<Seq<char>>) -> Seq<char>
    decreases list.len(),
{
    if list.len() == 0 {
        Seq::empty()
    } else if list.len() == 1 {
        list[0]
    } else {
        comma_joined(list.drop_last()) + ", "@ + list.last()
    }
}

/// `list` joined with `", "`.
pub fn join_with_commas(list: &[String]) -> (r: String)
    ensures
        r@ == comma_joined(list.deep_view()),
{
    let mut out = String::new();
    let ghost all = list.deep_view();
    let mut i: usize = 0;
    while i < list.len()
        invariant
            i <= list@.len(),
            all == list.deep_view(),
            out@ == comma_joined(all.take(i as int)),
        decreases list@.len() - i,
    {
        assert(all.take(i + 1).drop_last() == all.take(i as int));
        assert(all.take(i + 1).last() == list@[i as int]@);
        if i > 0 {
            out.append(", ");
        }
        out.append(list[i].as_str());
        i += 1;
        assert(out@ == comma_joined(all.take(i as int)));
    }
    assert(all.take(i as int) == all);
    out
}

// ---------------------------------------------------------------------------
// Laws
// ---------------------------------------------------------------------------

/// Law: a list of addresses can be formatted exactly where each of them is valid,
/// and then each is formatted on its own.
pub proof fn law_addresses_valid(list: Seq<Seq<char>>)
    ensures
        formatted_addresses(list) is Ok <==> forall|i: int|
            0 <= i < list.len() ==> parsed_address(#[trigger] list[i]) is Ok,
        formatted_addresses(list) matches Ok(shown) ==> shown.len() == list.len() && forall|i: int|
            0 <= i < list.len() ==> formatted_address(#[trigger] list[i]) == Ok::<
                Seq<char>,
                Seq<char>,
            >(shown[i]),
    decreases list.len(),
{
    if list.len() > 0 {
        let init = list.drop_last();
        law_addresses_valid(init);
        assert forall|i: int| 0 <= i < init.len() implies #[trigger] list[i] == init[i] by {}
        assert(list[list.len() - 1] == list.last());
        if forall|i: int| 0 <= i < list.len() ==> parsed_address(#[trigger] list[i]) is Ok {
            assert forall|i: int| 0 <= i < init.len() implies parsed_address(#[trigger] init[i])
                is Ok by {
                assert(init[i] == list[i]);
            }
        }
        if formatted_addresses(init) is Ok {
            assert forall|i: int| 0 <= i < init.len() implies parsed_address(#[trigger] list[i])
                is Ok by {
                assert(list[i] == init[i]);
            }
        }
    }
}

/// What holds of a parsed address: it is valid, it and the name are trimmed, and
/// it has no `<`.
proof fn lemma_parsed(s: Seq<char>)
    ensures
        parsed_address(s) matches Ok((name, addr)) ==> {
            &&& valid_addr(addr)
            &&& !addr.contains('<')
            &&& !crate::text::is_white_space(addr[0])
            &&& !crate::text::is_white_space(addr.last())
            &&& name.len() > 0 ==> !crate::text::is_white_space(name[0])
                && !crate::text::is_white_space(name.last())
        },
{
    let t = crate::text::trim(s, Trim::WhiteSpace);
    crate::text::lemma_trim_piece(s, Trim::WhiteSpace);
    t.index_of_last_ensures('<');
    if let Some(open) = t.index_of_last('<') {
        let rest = t.skip(open + 1);
        rest.index_of_first_ensures('>');
        if let Some(close) = rest.index_of_first('>') {
            let inside = rest.take(close);
            let lo = crate::text::lemma_trim_piece(inside, Trim::WhiteSpace);
            let addr = crate::text::trim(inside, Trim::WhiteSpace);
            assert forall|i: int| 0 <= i < addr.len() implies addr[i] != '<' by {
                assert(addr[i] == t[open + 1 + lo + i]);
            }
            let outer = crate::text::trim(t.take(open), Trim::WhiteSpace);
            let inner = crate::text::trim(outer, Trim::Quotes);
            crate::text::lemma_trim_piece(inner, Trim::WhiteSpace);
        }
    }
}

/// How an address in angle brackets, after anything that starts with no white
/// space, is parsed.
proof fn lemma_parse_bracketed(pre: Seq<char>, addr: Seq<char>)
    requires
        valid_addr(addr),
        !addr.contains('<'),
        !addr.contains('>'),
        !crate::text::is_white_space(addr[0]),
        !crate::text::is_white_space(addr.last()),
        pre.len() > 0 ==> !crate::text::is_white_space(pre[0]),
    ensures
        parsed_address(pre + "<"@ + addr + ">"@) == Ok::<(Seq<char>, Seq<char>), Seq<char>>(
            (
                crate::text::trim(
                    crate::text::trim(crate::text::trim(pre, Trim::WhiteSpace), Trim::Quotes),
                    Trim::WhiteSpace,
                ),
                addr,
            ),
        ),
{
    reveal_strlit("<");
    reveal_strlit(">");
    let f = pre + "<"@ + addr + ">"@;
    let open = pre.len() as int;
    assert(f.last() == '>');
    assert(pre.len() == 0 ==> f[0] == '<');
    assert(pre.len() > 0 ==> f[0] == pre[0]);
    crate::text::lemma_trim_unchanged(f, Trim::WhiteSpace);
    f.index_of_last_ensures('<');
    assert(f[open] == '<');
    assert(f.contains(f[open]));
    assert forall|i: int| open < i < f.len() implies f[i] != '<' by {
        if i < f.len() - 1 {
            assert(f[i] == addr[i - open - 1]);
        }
    }
    assert(f.index_of_last('<') == Some(open));
    let rest = f.skip(open + 1);
    rest.index_of_first_ensures('>');
    let close = addr.len() as int;
    assert(rest[close] == '>');
    assert(rest.contains(rest[close]));
    assert forall|i: int| 0 <= i < close implies rest[i] != '>' by {
        assert(rest[i] == addr[i]);
    }
    assert(rest.index_of_first('>') == Some(close));
    assert(rest.take(close) == addr);
    crate::text::lemma_trim_unchanged(addr, Trim::WhiteSpace);
    assert(f.take(open) == pre);
}

/// Whether a display name is read back of its written form, as itself or as the
/// encoded word: so unless a backslash had to be written in it.
pub open spec fn keeps_name(name: Seq<char>) -> bool {
    vstd::utf8::is_ascii_chars(name) ==> !name.contains('"') && !name.contains('\\')
}

/// The display name that is read of the written form of `name`.
pub open spec fn reread_name(name: Seq<char>) -> Seq<char> {
    if vstd::utf8::is_ascii_chars(name) {
        name
    } else {
        crate::encoding::q_word(name)
    }
}

/// A name without quotes and backslashes is quoted as it is.
proof fn lemma_backslashed_same(name: Seq<char>)
    requires
        !name.contains('"'),
        !name.contains('\\'),
    ensures
        backslashed(name) == name,
    decreases name.len(),
{
    if name.len() > 0 {
        let init = name.drop_last();
        assert(name.contains(name[name.len() - 1]));
        assert forall|c: char| init.contains(c) implies name.contains(c) by {
            let i = choose|i: int| 0 <= i < init.len() && init[i] == c;
            assert(name[i] == c);
        }
        lemma_backslashed_same(init);
        assert(init.push(name.last()) == name);
    }
}

/// The quotes around a name without quotes are trimmed off.
proof fn lemma_trim_quoted(name: Seq<char>)
    requires
        name.len() > 0,
        !name.contains('"'),
    ensures
        crate::text::trim("\""@ + name + "\""@, Trim::Quotes) == name,
{
    reveal_strlit("\"");
    let q = "\""@ + name + "\""@;
    let open = q.skip(1);
    assert(name.contains(name[0]));
    assert(name.contains(name[name.len() - 1]));
    assert(open[0] == name[0]);
    assert(crate::text::trim_start(open, Trim::Quotes) == open);
    assert(crate::text::trim_start(q, Trim::Quotes) == open);
    assert(open.last() == '"');
    assert(open.drop_last() == name);
    assert(crate::text::trim_end(name, Trim::Quotes) == name);
    assert(crate::text::trim_end(open, Trim::Quotes) == name);
}

/// A blank behind a text is trimmed off.
proof fn lemma_trim_blank(t: Seq<char>)
    requires
        t.len() > 0,
        !crate::text::is_white_space(t[0]),
        !crate::text::is_white_space(t.last()),
    ensures
        crate::text::trim(t.push(' '), Trim::WhiteSpace) == t,
{
    let longer = t.push(' ');
    assert(longer.drop_last() == t);
    assert(crate::text::trim_start(longer, Trim::WhiteSpace) == longer);
    assert(crate::text::trim_end(t, Trim::WhiteSpace) == t);
}

/// What a Q-encoded word is made of may stand in an unquoted display name.
proof fn lemma_q_units_plain(bytes: Seq<u8>)
    ensures
        is_plain_name(crate::encoding::q_units(bytes)),
    decreases bytes.len(),
{
    if bytes.len() > 0 {
        let unit = crate::encoding::q_unit(bytes[0]);
        let rest = crate::encoding::q_units(bytes.skip(1));
        lemma_q_units_plain(bytes.skip(1));
        assert(is_plain_name(unit));
        lemma_plain_append(unit, rest);
    }
}

proof fn lemma_plain_append(a: Seq<char>, b: Seq<char>)
    requires
        is_plain_name(a),
        is_plain_name(b),
    ensures
        is_plain_name(a + b),
{
    let c = a + b;
    assert forall|i: int| 0 <= i < c.len() implies '\0' <= #[trigger] c[i] <= '\u{7f}'
        && atext_or_space(c[i] as u8) by {
        if i < a.len() {
            assert(c[i] == a[i]);
        } else {
            assert(c[i] == b[i - a.len()]);
        }
    }
}

/// A Q-encoded word is a plain name that starts and ends with `=`.
proof fn lemma_q_word_plain(name: Seq<char>)
    ensures
        is_plain_name(crate::encoding::q_word(name)),
        crate::encoding::q_word(name).len() > 0,
        crate::encoding::q_word(name)[0] == '=',
        crate::encoding::q_word(name).last() == '=',
{
    reveal_strlit("=?utf-8?q?");
    reveal_strlit("?=");
    let units = crate::encoding::q_units(crate::text::utf8(name));
    lemma_q_units_plain(crate::text::utf8(name));
    assert(is_plain_name("=?utf-8?q?"@));
    assert(is_plain_name("?="@));
    lemma_plain_append("=?utf-8?q?"@, units);
    lemma_plain_append("=?utf-8?q?"@ + units, "?="@);
}

/// How a formatted address is parsed.
proof fn lemma_reparse(s: Seq<char>)
    requires
        parsed_address(s) matches Ok((_, addr)) && !addr.contains('>'),
    ensures
        parsed_address(s) matches Ok((name, addr)) && formatted_address(s) matches Ok(f) && (
        parsed_address(f) matches Ok((name2, addr2)) && addr2 == addr && (keeps_name(name) ==> name2
            == reread_name(name))),
{
    reveal_strlit("<");
    reveal_strlit(" <");
    reveal_strlit("\"");
    lemma_parsed(s);
    let (name, addr) = parsed_address(s)->Ok_0;
    let f = formatted_address(s)->Ok_0;
    if name.len() == 0 {
        let none = Seq::<char>::empty();
        assert(none + "<"@ + addr + ">"@ == f);
        lemma_parse_bracketed(none, addr);
        crate::text::lemma_trim_unchanged(none, Trim::WhiteSpace);
        crate::text::lemma_trim_unchanged(none, Trim::Quotes);
        assert(name == none);
    } else {
        let shown = display_name(name);
        let pre = shown.push(' ');
        lemma_q_word_plain(name);
        assert(pre + "<"@ + addr + ">"@ == f);
        assert(shown.len() > 0);
        assert(!crate::text::is_white_space(shown[0]));
        assert(!crate::text::is_white_space(shown.last()));
        assert(pre[0] == shown[0]);
        lemma_parse_bracketed(pre, addr);
        lemma_trim_blank(shown);
        if keeps_name(name) {
            if !vstd::utf8::is_ascii_chars(name) {
                crate::text::lemma_trim_unchanged(shown, Trim::Quotes);
                crate::text::lemma_trim_unchanged(shown, Trim::WhiteSpace);
            } else {
                crate::text::lemma_trim_unchanged(name, Trim::WhiteSpace);
                assert(name.contains(name[0]) && name.contains(name[name.len() - 1]));
                if is_plain_name(name) {
                    crate::text::lemma_trim_unchanged(name, Trim::Quotes);
                } else {
                    lemma_backslashed_same(name);
                    lemma_trim_quoted(name);
                }
            }
        }
    }
}

/// Law: formatting an address and parsing it again gives the bare address back, and
/// the display name too where it is in ASCII and has no quote or backslash. A bare
/// address that holds a `>` is left out: in angle brackets it ends there.
pub proof fn law_format_then_parse(s: Seq<char>)
    requires
        parsed_address(s) matches Ok((_, addr)) && !addr.contains('>'),
    ensures
        parsed_address(s) matches Ok((name, addr)) && formatted_address(s) matches Ok(f) && (
        parsed_address(f) matches Ok((name2, addr2)) && addr2 == addr && (
        vstd::utf8::is_ascii_chars(name) && keeps_name(name) ==> name2 == name)),
{
    lemma_reparse(s);
}

/// Law: formatting a formatted address changes nothing, and keeps the bare address.
/// Left out are a bare address that holds a `>`, and a display name in ASCII with a
/// quote or a backslash, which is escaped once more.
pub proof fn law_format_idempotent(s: Seq<char>)
    requires
        parsed_address(s) matches Ok((name, addr)) && !addr.contains('>') && keeps_name(name),
    ensures
        parsed_address(s) matches Ok((name, addr)) && formatted_address(s) matches Ok(f)
            && formatted_address(f) == Ok::<Seq<char>, Seq<char>>(f) && (parsed_address(
            f,
        ) matches Ok((_, addr2)) && addr2 == addr),
{
    lemma_reparse(s);
    let (name, addr) = parsed_address(s)->Ok_0;
    lemma_q_word_plain(name);
}

/// Law: an address is valid if and only if it has one `@`, with something before it and
/// something behind it.
pub proof fn law_valid_addr(local: Seq<char>, domain: Seq<char>, addr: Seq<char>)
    ensures
        !local.contains('@') && !domain.contains('@') ==> (valid_addr(local + "@"@ + domain)
            <==> local.len() > 0 && domain.len() > 0),
        !addr.contains('@') ==> !valid_addr(addr),
        (exists|i: int, j: int|
            0 <= i < j < addr.len() && #[trigger] addr[i] == '@' && #[trigger] addr[j] == '@')
            ==> !valid_addr(addr),
{
    reveal_strlit("@");
    let all = local + "@"@ + domain;
    let at = local.len() as int;
    assert(all[at] == '@');
    if !local.contains('@') && !domain.contains('@') {
        assert forall|j: int| 0 <= j < all.len() && j != at implies #[trigger] all[j] != '@' by {
            if j < at {
                assert(all[j] == local[j]);
                assert(local.contains(local[j]));
            } else {
                assert(all[j] == domain[j - at - 1]);
                assert(domain.contains(domain[j - at - 1]));
            }
        }
    }
    if !addr.contains('@') && valid_addr(addr) {
        let i = choose|i: int|
            0 < i < addr.len() - 1 && #[trigger] addr[i] == '@' && forall|j: int|
                0 <= j < addr.len() && j != i ==> #[trigger] addr[j] != '@';
        assert(addr.contains(addr[i]));
    }
}

/// Law: a bare address is read as it stands, without a name, whatever white space is
/// around it; a text without angle brackets that is no valid address is refused, and named
/// as it is.
pub proof fn law_parse_bare(left: Seq<char>, addr: Seq<char>, right: Seq<char>)
    requires
        forall|i: int| 0 <= i < left.len() ==> crate::text::is_white_space(#[trigger] left[i]),
        forall|i: int| 0 <= i < right.len() ==> crate::text::is_white_space(#[trigger] right[i]),
        addr.len() > 0,
        !crate::text::is_white_space(addr[0]),
        !crate::text::is_white_space(addr.last()),
        !addr.contains('<'),
    ensures
        valid_addr(addr) ==> parsed_address(left + addr + right) == Ok::<
            (Seq<char>, Seq<char>),
            Seq<char>,
        >((Seq::empty(), addr)),
        !valid_addr(addr) ==> parsed_address(left + addr + right) == Err::<
            (Seq<char>, Seq<char>),
            Seq<char>,
        >(addr),
{
    crate::text::lemma_trim_around(left, addr, right, Trim::WhiteSpace);
    addr.index_of_last_ensures('<');
}

/// Law: an address in angle brackets is read with the name before it, without the white
/// space around either, and without quotes around the name; what stands behind the closing
/// bracket has no part in it. Where the address in the brackets is not valid, the whole
/// text is refused, and named as it is.
pub proof fn law_parse_named(
    name: Seq<char>,
    left: Seq<char>,
    addr: Seq<char>,
    right: Seq<char>,
    rest: Seq<char>,
)
    requires
        name.len() > 0 ==> !crate::text::is_white_space(name[0]) && !crate::text::is_white_space(
            name.last(),
        ) && name[0] != '"' && name.last() != '"',
        forall|i: int| 0 <= i < left.len() ==> crate::text::is_white_space(#[trigger] left[i]),
        forall|i: int| 0 <= i < right.len() ==> crate::text::is_white_space(#[trigger] right[i]),
        addr.len() > 0,
        !crate::text::is_white_space(addr[0]),
        !crate::text::is_white_space(addr.last()),
        !addr.contains('<'),
        !addr.contains('>'),
        !rest.contains('<'),
        rest.len() > 0 ==> !crate::text::is_white_space(rest.last()),
    ensures
        ({
            let whole = name + "<"@ + left + addr + right + ">"@ + rest;
            parsed_address(whole) == if valid_addr(addr) {
                Ok::<(Seq<char>, Seq<char>), Seq<char>>((name, addr))
            } else {
                Err::<(Seq<char>, Seq<char>), Seq<char>>(whole)
            }
        }),
        name.len() > 0 ==> ({
            let quoted = "\""@ + name + "\" <"@ + left + addr + right + ">"@ + rest;
            parsed_address(quoted) == if valid_addr(addr) {
                Ok::<(Seq<char>, Seq<char>), Seq<char>>((name, addr))
            } else {
                Err::<(Seq<char>, Seq<char>), Seq<char>>(quoted)
            }
        }),
{
    reveal_strlit("\"");
    reveal_strlit("\" <");
    reveal_strlit("<");
    lemma_parse_around(name, left, addr, right, rest);
    let none = Seq::<char>::empty();
    if name.len() > 0 {
        crate::text::lemma_trim_unchanged(name, Trim::WhiteSpace);
        crate::text::lemma_trim_unchanged(name, Trim::Quotes);
        let pre = "\""@ + name + "\""@ + " "@;
        reveal_strlit(" ");
        assert(pre[0] == '"');
        lemma_parse_around(pre, left, addr, right, rest);
        assert("\""@ + name + "\" <"@ + left + addr + right + ">"@ + rest == pre + "<"@ + left + addr
            + right + ">"@ + rest);
        let q = "\""@ + name + "\""@;
        assert(none + q + " "@ == pre);
        crate::text::lemma_trim_around(none, q, " "@, Trim::WhiteSpace);
        crate::text::lemma_trim_around("\""@, name, "\""@, Trim::Quotes);
    } else {
        assert(crate::text::trim(none, Trim::WhiteSpace) == none);
        assert(crate::text::trim(none, Trim::Quotes) == none);
        assert(name == none);
    }
}

/// How a text with an address in angle brackets is parsed.
proof fn lemma_parse_around(
    pre: Seq<char>,
    left: Seq<char>,
    addr: Seq<char>,
    right: Seq<char>,
    rest: Seq<char>,
)
    requires
        pre.len() > 0 ==> !crate::text::is_white_space(pre[0]),
        forall|i: int| 0 <= i < left.len() ==> crate::text::is_white_space(#[trigger] left[i]),
        forall|i: int| 0 <= i < right.len() ==> crate::text::is_white_space(#[trigger] right[i]),
        addr.len() > 0,
        !crate::text::is_white_space(addr[0]),
        !crate::text::is_white_space(addr.last()),
        !addr.contains('<'),
        !addr.contains('>'),
        !rest.contains('<'),
        rest.len() > 0 ==> !crate::text::is_white_space(rest.last()),
    ensures
        parsed_address(pre + "<"@ + left + addr + right + ">"@ + rest) == if valid_addr(addr) {
            Ok::<(Seq<char>, Seq<char>), Seq<char>>(
                (
                    crate::text::trim(
                        crate::text::trim(crate::text::trim(pre, Trim::WhiteSpace), Trim::Quotes),
                        Trim::WhiteSpace,
                    ),
                    addr,
                ),
            )
        } else {
            Err::<(Seq<char>, Seq<char>), Seq<char>>(
                pre + "<"@ + left + addr + right + ">"@ + rest,
            )
        },
{
    reveal_strlit("<");
    reveal_strlit(">");
    let inside = left + addr + right;
    let f = pre + "<"@ + left + addr + right + ">"@ + rest;
    let open = pre.len() as int;
    assert(f == pre + "<"@ + inside + ">"@ + rest);
    assert(f[open] == '<');
    assert(pre.len() > 0 ==> f[0] == pre[0]);
    assert(rest.len() == 0 ==> f.last() == '>');
    assert(rest.len() > 0 ==> f.last() == rest.last());
    crate::text::lemma_trim_unchanged(f, Trim::WhiteSpace);
    assert forall|i: int| 0 <= i < inside.len() implies #[trigger] inside[i] != '<' && inside[i]
        != '>' by {
        if i < left.len() {
            assert(inside[i] == left[i]);
        } else if i < left.len() + addr.len() {
            assert(inside[i] == addr[i - left.len()]);
            assert(addr.contains(addr[i - left.len()]));
        } else {
            assert(inside[i] == right[i - left.len() - addr.len()]);
        }
    }
    f.index_of_last_ensures('<');
    assert(f.contains(f[open]));
    assert forall|i: int| open < i < f.len() implies f[i] != '<' by {
        let j = i - open - 1;
        if j < inside.len() {
            assert(f[i] == inside[j]);
        } else if j > inside.len() {
            assert(f[i] == rest[j - inside.len() - 1]);
            assert(rest.contains(rest[j - inside.len() - 1]));
        }
    }
    assert(f.index_of_last('<') == Some(open));
    let tail = f.skip(open + 1);
    tail.index_of_first_ensures('>');
    let close = inside.len() as int;
    assert(tail[close] == '>');
    assert(tail.contains(tail[close]));
    assert forall|i: int| 0 <= i < close implies tail[i] != '>' by {
        assert(tail[i] == inside[i]);
    }
    assert(tail.index_of_first('>') == Some(close));
    assert(tail.take(close) == inside);
    crate::text::lemma_trim_around(left, addr, right, Trim::WhiteSpace);
    assert(f.take(open) == pre);
}

/// Law: a refused address is named as it was given, without the white space around it.
pub proof fn law_refused_address(s: Seq<char>)
    ensures
        parsed_address(s) matches Err(t) ==> t == crate::text::trim(s, Trim::WhiteSpace),
        parsed_address(s) matches Ok((name, addr)) ==> valid_addr(addr),
        formatted_address(s) is Ok <==> parsed_address(s) is Ok,
        formatted_address(s) matches Err(t) ==> t == crate::text::trim(s, Trim::WhiteSpace),
{
}

/// What is read of a quoted text: a backslash stands for the character behind it.
pub open spec fn unquoted(t: Seq<char>) -> Seq<char>
    decreases t.len(),
{
    if t.len() == 0 {
        Seq::empty()
    } else if t[0] == '\\' && t.len() > 1 {
        seq![t[1]] + unquoted(t.skip(2))
    } else {
        seq![t[0]] + unquoted(t.skip(1))
    }
}

/// An escaped text is read as it was, and what follows upon it as it would be alone.
proof fn lemma_unquoted_then(a: Seq<char>, rest: Seq<char>)
    ensures
        unquoted(backslashed(a) + rest) == a + unquoted(rest),
    decreases a.len(),
{
    if a.len() == 0 {
        assert(backslashed(a) + rest == rest);
        assert(a + unquoted(rest) == unquoted(rest));
    } else {
        let init = a.drop_last();
        let c = a.last();
        if c == '\\' || c == '"' {
            let pair = seq!['\\', c] + rest;
            lemma_unquoted_then(init, pair);
            assert(pair.skip(2) == rest);
            assert(backslashed(a) + rest == backslashed(init) + pair);
            assert(unquoted(pair) == seq![c] + unquoted(rest));
        } else {
            let one = seq![c] + rest;
            lemma_unquoted_then(init, one);
            assert(one.skip(1) == rest);
            assert(backslashed(a) + rest == backslashed(init) + one);
            assert(unquoted(one) == seq![c] + unquoted(rest));
        }
        assert(init + (seq![c] + unquoted(rest)) == a + unquoted(rest));
    }
}

/// Law: a display name of letters, digits, spaces and the signs of an atom is written as
/// it is; any other ASCII name is written in double quotes and read of them as it was; and
/// a name beyond ASCII is written as a Q-encoded word that is decoded to it.
pub proof fn law_display_name(name: Seq<char>)
    ensures
        (forall|i: int|
            0 <= i < name.len() ==> "ABCDEFGHIJKLMNOPQRSTUVWXYZabcdefghijklmnopqrstuvwxyz0123456789 !#$%&'*+-/=?^_`{|}~"@.contains(
                #[trigger] name[i],
            )) ==> display_name(name) == name,
        vstd::utf8::is_ascii_chars(name) && (exists|i: int|
            0 <= i < name.len()
                && !"ABCDEFGHIJKLMNOPQRSTUVWXYZabcdefghijklmnopqrstuvwxyz0123456789 !#$%&'*+-/=?^_`{|}~"@.contains(
                #[trigger] name[i],
            )) ==> {
            let shown = display_name(name);
            &&& shown.len() >= 2
            &&& shown[0] == '"'
            &&& shown.last() == '"'
            &&& unquoted(shown.subrange(1, shown.len() - 1)) == name
        },
        !vstd::utf8::is_ascii_chars(name) ==> exists|word: Seq<char>|
            display_name(name) == "=?utf-8?q?"@ + word + "?="@
                && #[trigger] crate::encoding::q_decode(word) == crate::text::utf8(name),
{
    let signs = "ABCDEFGHIJKLMNOPQRSTUVWXYZabcdefghijklmnopqrstuvwxyz0123456789 !#$%&'*+-/=?^_`{|}~"@;
    if forall|i: int| 0 <= i < name.len() ==> signs.contains(#[trigger] name[i]) {
        assert forall|i: int| 0 <= i < name.len() implies '\0' <= #[trigger] name[i] <= '\u{7f}'
            && atext_or_space(name[i] as u8) by {
            lemma_atext(name[i]);
        }
        assert(vstd::utf8::is_ascii_chars(name));
        assert(is_plain_name(name));
    }
    if vstd::utf8::is_ascii_chars(name) && exists|i: int|
        0 <= i < name.len() && !signs.contains(#[trigger] name[i]) {
        let i = choose|i: int| 0 <= i < name.len() && !signs.contains(#[trigger] name[i]);
        lemma_atext(name[i]);
        assert(!atext_or_space(name[i] as u8));
        assert(!is_plain_name(name));
        reveal_strlit("\"");
        let shown = display_name(name);
        let none = Seq::<char>::empty();
        assert(shown.subrange(1, shown.len() - 1) == backslashed(name) + none);
        lemma_unquoted_then(name, none);
        assert(unquoted(none) == none);
        assert(name + none == name);
    }
    if !vstd::utf8::is_ascii_chars(name) {
        let word = crate::encoding::q_units(crate::text::utf8(name));
        crate::encoding::law_q_round_trip(crate::text::utf8(name));
        assert(crate::encoding::q_decode(word) == crate::text::utf8(name));
    }
}

proof fn lemma_atext(c: char)
    ensures
        "ABCDEFGHIJKLMNOPQRSTUVWXYZabcdefghijklmnopqrstuvwxyz0123456789 !#$%&'*+-/=?^_`{|}~"@.contains(
            c,
        ) <==> '\0' <= c <= '\u{7f}' && atext_or_space(c as u8),
{
    reveal_strlit(
        "ABCDEFGHIJKLMNOPQRSTUVWXYZabcdefghijklmnopqrstuvwxyz0123456789 !#$%&'*+-/=?^_`{|}~",
    );
    let signs = "ABCDEFGHIJKLMNOPQRSTUVWXYZabcdefghijklmnopqrstuvwxyz0123456789 !#$%&'*+-/=?^_`{|}~"@;
    assert(signs.len() == 82);
    if c <= '\u{7f}' && atext_or_space(c as u8) {
        let v = c as int;
        let i: int = if 65 <= v <= 90 {
            v - 65
        } else if 97 <= v <= 122 {
            v - 97 + 26
        } else if 48 <= v <= 57 {
            v - 48 + 52
        } else if v == 32 {
            62
        } else if v == 33 {
            63
        } else if 35 <= v <= 39 {
            v - 35 + 64
        } else if v == 42 {
            69
        } else if v == 43 {
            70
        } else if v == 45 {
            71
        } else if v == 47 {
            72
        } else if v == 61 {
            73
        } else if v == 63 {
            74
        } else if 94 <= v <= 96 {
            v - 94 + 75
        } else {
            v - 123 + 78
        };
        assert(0 <= i < 82);
        assert(signs[i] == c);
    }
    if signs.contains(c) {
        let i = choose|i: int| 0 <= i < signs.len() && signs[i] == c;
        assert(signs[i] == c);
    }
}

/// Law: joined texts stand in their order with a comma and a blank between each two of
/// them.
pub proof fn law_comma_joined(a: Seq<Seq<char>>, t: Seq<char>, b: Seq<Seq<char>>)
    ensures
        comma_joined(seq![t]) == t,
        a.len() > 0 && b.len() > 0 ==> comma_joined(a + b) == comma_joined(a) + ", "@
            + comma_joined(b),
    decreases b.len(),
{
    if b.len() == 1 {
        assert((a + b).drop_last() == a);
        assert(a.len() > 0 ==> (a + b).last() == b[0]);
    } else if b.len() > 1 {
        law_comma_joined(a, t, b.drop_last());
        assert((a + b).drop_last() == a + b.drop_last());
        if a.len() > 0 {
            assert(comma_joined(a) + ", "@ + comma_joined(b.drop_last()) + ", "@ + b.last()
                == comma_joined(a) + ", "@ + (comma_joined(b.drop_last()) + ", "@ + b.last()));
        }
    }
}

/// Law: an address is written in angle brackets, behind its display name where it has
/// one.
pub proof fn law_formatted_address(s: Seq<char>)
    ensures
        parsed_address(s) matches Ok((name, addr)) ==> formatted_address(s) == Ok::<
            Seq<char>,
            Seq<char>,
        >(
            if name.len() == 0 {
                "<"@ + addr + ">"@
            } else {
                display_name(name) + " <"@ + addr + ">"@
            },
        ),
{
}

/// Law: a text with an opening angle bracket that is not closed is no address, and neither
/// is one of white space alone; it is refused and named as it is, but for the white space.
pub proof fn law_parse_unclosed(pre: Seq<char>, rest: Seq<char>, blank: Seq<char>)
    requires
        pre.len() > 0 ==> !crate::text::is_white_space(pre[0]),
        rest.len() > 0 ==> !crate::text::is_white_space(rest.last()),
        !rest.contains('<'),
        !rest.contains('>'),
        forall|i: int| 0 <= i < blank.len() ==> crate::text::is_white_space(#[trigger] blank[i]),
    ensures
        parsed_address(pre + "<"@ + rest) == Err::<(Seq<char>, Seq<char>), Seq<char>>(
            pre + "<"@ + rest,
        ),
        parsed_address(blank) == Err::<(Seq<char>, Seq<char>), Seq<char>>(Seq::empty()),
{
    reveal_strlit("<");
    let t = pre + "<"@ + rest;
    let open = pre.len() as int;
    assert(t[open] == '<');
    assert(pre.len() > 0 ==> t[0] == pre[0]);
    assert(rest.len() == 0 ==> t.last() == '<');
    assert(rest.len() > 0 ==> t.last() == rest.last());
    crate::text::lemma_trim_unchanged(t, Trim::WhiteSpace);
    t.index_of_last_ensures('<');
    assert(t.contains(t[open]));
    assert forall|i: int| open < i < t.len() implies t[i] != '<' by {
        assert(t[i] == rest[i - open - 1]);
        assert(rest.contains(rest[i - open - 1]));
    }
    assert(t.index_of_last('<') == Some(open));
    assert(t.skip(open + 1) == rest);
    rest.index_of_first_ensures('>');
    let none = Seq::<char>::empty();
    crate::text::lemma_trim_all(blank, Trim::WhiteSpace);
    assert(crate::text::trim(blank, Trim::WhiteSpace) == none);
    none.index_of_last_ensures('<');
}

/// Law: reading an address gives its name and its bare address, or an error that names it
/// without the white space around it; extracting gives the bare address of the same.
pub proof fn law_parse_calls(
    s: &str,
    parsed: Result<(String, String), Error>,
    bare: Result<String, Error>,
)
    requires
        call_ensures(parse_address, (s,), parsed),
        call_ensures(extract_address, (s,), bare),
    ensures
        parsed is Ok <==> bare is Ok,
        parsed matches Ok((name, addr)) ==> valid_addr(addr@) && bare->Ok_0@ == addr@,
        parsed matches Err(e) ==> (e matches Error::Address(m) && m@ == "invalid address: "@
            + crate::text::trim(s@, Trim::WhiteSpace)),
        bare matches Err(e) ==> (e matches Error::Address(m) && m@ == "invalid address: "@
            + crate::text::trim(s@, Trim::WhiteSpace)),
{
}

/// Law: an address can be formatted if and only if it can be read; a list of addresses if
/// and only if each of them can, and then each is formatted on its own.
pub proof fn law_format_calls(
    s: &str,
    shown: Result<String, Error>,
    list: &[String],
    all: Result<Vec<String>, Error>,
)
    requires
        call_ensures(format_address, (s,), shown),
        call_ensures(format_addresses, (list,), all),
    ensures
        shown is Ok <==> parsed_address(s@) is Ok,
        shown matches Ok(t) ==> formatted_address(s@) == Ok::<Seq<char>, Seq<char>>(t@),
        all is Ok <==> forall|i: int|
            0 <= i < list.deep_view().len() ==> parsed_address(#[trigger] list.deep_view()[i])
                is Ok,
        all matches Ok(texts) ==> texts.deep_view().len() == list.deep_view().len() && forall|i: int|
            0 <= i < list.deep_view().len() ==> formatted_address(#[trigger] list.deep_view()[i])
                == Ok::<Seq<char>, Seq<char>>(texts.deep_view()[i]),
{
    law_addresses_valid(list.deep_view());
}

/// Law: white space around a name has no part in it, neither before the angle bracket nor
/// inside the quotes.
pub proof fn law_parse_name_trimmed(
    name: Seq<char>,
    left: Seq<char>,
    right: Seq<char>,
    addr: Seq<char>,
)
    requires
        name.len() > 0,
        !crate::text::is_white_space(name[0]),
        !crate::text::is_white_space(name.last()),
        name[0] != '"',
        name.last() != '"',
        forall|i: int| 0 <= i < left.len() ==> crate::text::is_white_space(#[trigger] left[i]),
        forall|i: int| 0 <= i < right.len() ==> crate::text::is_white_space(#[trigger] right[i]),
        valid_addr(addr),
        !crate::text::is_white_space(addr[0]),
        !crate::text::is_white_space(addr.last()),
        !addr.contains('<'),
        !addr.contains('>'),
    ensures
        parsed_address(name + right + "<"@ + addr + ">"@) == Ok::<
            (Seq<char>, Seq<char>),
            Seq<char>,
        >((name, addr)),
        parsed_address("\""@ + left + name + right + "\""@ + right + "<"@ + addr + ">"@) == Ok::<
            (Seq<char>, Seq<char>),
            Seq<char>,
        >((name, addr)),
{
    reveal_strlit("\"");
    let none = Seq::<char>::empty();
    // Before the bracket.
    let spaced = name + right;
    assert(spaced[0] == name[0]);
    lemma_parse_bracketed(spaced, addr);
    assert(none + name + right == spaced);
    crate::text::lemma_trim_around(none, name, right, Trim::WhiteSpace);
    crate::text::lemma_trim_unchanged(name, Trim::Quotes);
    crate::text::lemma_trim_unchanged(name, Trim::WhiteSpace);
    // Inside the quotes.
    let inside = left + name + right;
    let quoted = "\""@ + inside + "\""@;
    let pre = quoted + right;
    assert(quoted[0] == '"' && quoted.last() == '"');
    assert(pre[0] == '"');
    assert(pre == "\""@ + left + name + right + "\""@ + right);
    lemma_parse_bracketed(pre, addr);
    assert(none + quoted + right == pre);
    crate::text::lemma_trim_around(none, quoted, right, Trim::WhiteSpace);
    assert(left.len() > 0 ==> inside[0] == left[0]);
    assert(left.len() == 0 ==> inside[0] == name[0]);
    assert(right.len() > 0 ==> inside.last() == right[right.len() - 1]);
    assert(right.len() == 0 ==> inside.last() == name.last());
    crate::text::lemma_trim_around("\""@, inside, "\""@, Trim::Quotes);
    crate::text::lemma_trim_around(left, name, right, Trim::WhiteSpace);
}

} // verus!
