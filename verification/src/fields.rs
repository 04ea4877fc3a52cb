//! The message header: the fields of a message merged with its custom headers,
//! and the lines that they are written as.

use vstd::prelude::*;

use crate::address::{format_address, format_addresses, join_with_commas};
use crate::email::{Email, EmailView};
use crate::encoding::q_encode_if_needed;
use crate::error::Error;
use crate::header::{HeaderView, MimeHeader};
use crate::names::{
    DEFAULT_MIME_VERSION, HDR_CC, HDR_CONTENT_DISPOSITION, HDR_CONTENT_TYPE, HDR_DATE, HDR_FROM,
    HDR_MESSAGE_ID, HDR_MIME_VERSION, HDR_REPLY_TO, HDR_SUBJECT, HDR_TO,
};
use crate::text::{push_crlf, push_text, same_text};

verus! {

// ---------------------------------------------------------------------------
// Header lines
// ---------------------------------------------------------------------------

/// A header value as it is written. Content-Type and Content-Disposition are
/// written verbatim, all others as an encoded word if they need it.
pub open spec fn shown_value(field: Seq<char>, val: Seq<char>) -> Seq<char> {
    if field == HDR_CONTENT_TYPE@ || field == HDR_CONTENT_DISPOSITION@ {
        val
    } else {
        crate::encoding::q_value(val)
    }
}

/// The lines of one field of a message header, one for each value.
pub open spec fn shown_lines(field: Seq<char>, vals: Seq<Seq<char>>) -> Seq<u8>
    decreases vals.len(),
{
    if vals.len() == 0 {
        Seq::empty()
    } else {
        shown_lines(field, vals.drop_last()) + crate::text::utf8(field) + crate::text::utf8(": "@)
            + crate::text::utf8(shown_value(field, vals.last())) + crate::text::crlf()
    }
}

/// The lines of a message header, its fields in insertion order.
pub open spec fn header_lines(h: HeaderView) -> Seq<u8>
    decreases h.len(),
{
    if h.len() == 0 {
        Seq::empty()
    } else {
        header_lines(h.drop_last()) + shown_lines(h.last().0, h.last().1)
    }
}

/// Appends the lines of one field of a message header.
fn push_shown(buff: &mut Vec<u8>, field: &str, vals: &[String])
    ensures
        final(buff)@ == old(buff)@ + shown_lines(field@, vals.deep_view()),
{
    let ghost all = vals.deep_view();
    let mut i: usize = 0;
    assert(buff@ == old(buff)@ + shown_lines(field@, all.take(0)));
    while i < vals.len()
        invariant
            i <= vals@.len(),
            all == vals.deep_view(),
            buff@ == old(buff)@ + shown_lines(field@, all.take(i as int)),
        decreases vals@.len() - i,
    {
        assert(all.take(i + 1).drop_last() == all.take(i as int));
        assert(all.take(i + 1).last() == vals@[i as int]@);
        push_text(buff, field);
        push_text(buff, ": ");
        if same_text(field, HDR_CONTENT_TYPE) || same_text(field, HDR_CONTENT_DISPOSITION) {
            push_text(buff, vals[i].as_str());
        } else {
            push_text(buff, q_encode_if_needed(vals[i].as_str()).as_str());
        }
        push_crlf(buff);
        i += 1;
        assert(buff@ == old(buff)@ + shown_lines(field@, all.take(i as int)));
    }
    assert(all.take(i as int) == all);
}

/// Renders `header` to `buff`. Content-Type and Content-Disposition values are
/// written verbatim; all others are RFC 2047 Q-encoded if they need it.
pub fn header_to_bytes(buff: &mut Vec<u8>, header: &MimeHeader)
    ensures
        final(buff)@ == old(buff)@ + header_lines(header@),
{
    let entries = header.entries();
    let ghost h = header@;
    let mut i: usize = 0;
    assert(buff@ == old(buff)@ + header_lines(h.take(0)));
    while i < entries.len()
        invariant
            i <= entries@.len(),
            h == entries.deep_view(),
            buff@ == old(buff)@ + header_lines(h.take(i as int)),
        decreases entries@.len() - i,
    {
        assert(h.take(i + 1).drop_last() == h.take(i as int));
        assert(h.take(i + 1).last() == entries@[i as int].deep_view());
        let vals = entries[i].1.as_slice();
        assert(vals.deep_view() == entries@[i as int].1.deep_view());
        push_shown(buff, entries[i].0.as_str(), vals);
        i += 1;
        assert(buff@ == old(buff)@ + header_lines(h.take(i as int)));
    }
    assert(h.take(i as int) == h);
}

// ---------------------------------------------------------------------------
// The message header
// ---------------------------------------------------------------------------

/// `res` with `vals` appended to the values of `key`.
pub open spec fn add_all(res: HeaderView, key: Seq<char>, vals: Seq<Seq<char>>) -> HeaderView
    decreases vals.len(),
{
    if vals.len() == 0 {
        res
    } else {
        crate::header::header_add(add_all(res, key, vals.drop_last()), key, vals.last())
    }
}

/// `res` with the values that `custom` has for `key`.
pub open spec fn pull(res: HeaderView, custom: HeaderView, key: Seq<char>) -> HeaderView {
    match crate::header::header_values(custom, key) {
        Some(vals) => add_all(res, key, vals),
        None => res,
    }
}

/// The recognized fields that the custom header `custom` brings.
pub open spec fn pulled(custom: HeaderView) -> HeaderView {
    let r1 = pull(Seq::empty(), custom, HDR_REPLY_TO@);
    let r2 = pull(r1, custom, HDR_TO@);
    let r3 = pull(r2, custom, HDR_CC@);
    let r4 = pull(r3, custom, HDR_FROM@);
    let r5 = pull(r4, custom, HDR_SUBJECT@);
    let r6 = pull(r5, custom, HDR_DATE@);
    let r7 = pull(r6, custom, HDR_MESSAGE_ID@);
    pull(r7, custom, HDR_MIME_VERSION@)
}

/// `res` with the one value `val` for `key`, unless it has some.
pub open spec fn fill(res: HeaderView, key: Seq<char>, val: Seq<char>) -> HeaderView {
    if crate::header::header_has(res, key) {
        res
    } else {
        crate::header::header_set(res, key, val)
    }
}

/// `res` with the addresses of `list` for `key`, unless it has some or there are
/// none; for an invalid address its trimmed text.
pub open spec fn fill_addresses(res: HeaderView, key: Seq<char>, list: Seq<Seq<char>>) -> Result<
    HeaderView,
    Seq<char>,
> {
    if crate::header::header_has(res, key) || list.len() == 0 {
        Ok(res)
    } else {
        match crate::address::formatted_addresses(list) {
            Ok(shown) => Ok(
                crate::header::header_set(res, key, crate::address::comma_joined(shown)),
            ),
            Err(t) => Err(t),
        }
    }
}

/// `res` with the one address `addr` for `key`, unless it has some; for an invalid
/// address its trimmed text.
pub open spec fn fill_address(res: HeaderView, key: Seq<char>, addr: Seq<char>) -> Result<
    HeaderView,
    Seq<char>,
> {
    if crate::header::header_has(res, key) {
        Ok(res)
    } else {
        match crate::address::formatted_address(addr) {
            Ok(shown) => Ok(crate::header::header_set(res, key, shown)),
            Err(t) => Err(t),
        }
    }
}

/// `res` with the fields of `custom` that it has not yet.
pub open spec fn copy_rest(res: HeaderView, custom: HeaderView) -> HeaderView
    decreases custom.len(),
{
    if custom.len() == 0 {
        res
    } else {
        let before = copy_rest(res, custom.drop_last());
        if crate::header::header_has(before, custom.last().0) {
            before
        } else {
            add_all(before, custom.last().0, custom.last().1)
        }
    }
}

/// The header with the addresses of the recipients, or the trimmed text of the
/// first invalid one.
pub open spec fn addressed(e: EmailView) -> Result<HeaderView, Seq<char>> {
    match fill_addresses(pulled(e.headers), HDR_REPLY_TO@, e.reply_to) {
        Ok(r1) => match fill_addresses(r1, HDR_TO@, e.to) {
            Ok(r2) => fill_addresses(r2, HDR_CC@, e.cc),
            Err(t) => Err(t),
        },
        Err(t) => Err(t),
    }
}

/// `res` with the subject of `e` and the Message-ID `id`.
pub open spec fn identified(res: HeaderView, e: EmailView, id: Seq<char>) -> HeaderView {
    fill(
        if e.subject.len() == 0 {
            res
        } else {
            fill(res, HDR_SUBJECT@, e.subject)
        },
        HDR_MESSAGE_ID@,
        id,
    )
}

/// `res` with the date and the MIME version, and the custom fields left over.
pub open spec fn completed(res: HeaderView, e: EmailView, date: Seq<char>) -> HeaderView {
    copy_rest(
        fill(fill(res, HDR_DATE@, date), HDR_MIME_VERSION@, DEFAULT_MIME_VERSION@),
        e.headers,
    )
}

/// The header of the message `e`, without the fields that describe its body: its
/// own fields merged with the custom ones, which come first. For an invalid
/// address, its trimmed text.
pub open spec fn message_headers(e: EmailView, id: Seq<char>, date: Seq<char>) -> Result<
    HeaderView,
    Seq<char>,
> {
    match addressed(e) {
        Ok(r3) => match fill_address(identified(r3, e, id), HDR_FROM@, e.from) {
            Ok(r6) => Ok(completed(r6, e, date)),
            Err(t) => Err(t),
        },
        Err(t) => Err(t),
    }
}

/// Appends `vals` to the values of `key`.
fn add_values(res: &mut MimeHeader, key: &str, vals: &[String])
    ensures
        final(res)@ == add_all(old(res)@, key@, vals.deep_view()),
{
    let ghost all = vals.deep_view();
    let mut i: usize = 0;
    assert(res@ == add_all(old(res)@, key@, all.take(0)));
    while i < vals.len()
        invariant
            i <= vals@.len(),
            all == vals.deep_view(),
            res@ == add_all(old(res)@, key@, all.take(i as int)),
        decreases vals@.len() - i,
    {
        assert(all.take(i + 1).drop_last() == all.take(i as int));
        assert(all.take(i + 1).last() == vals@[i as int]@);
        res.add(key, vals[i].as_str());
        i += 1;
    }
    assert(all.take(i as int) == all);
}

/// Copies the values that `custom` has for `key`.
fn pull_values(res: &mut MimeHeader, custom: &MimeHeader, key: &str)
    ensures
        final(res)@ == pull(old(res)@, custom@, key@),
{
    if let Some(vals) = custom.get_all(key) {
        add_values(res, key, vals);
    }
}

/// Sets `key` to the addresses of `list`, unless it is set or there are none.
fn set_addresses(res: &mut MimeHeader, key: &str, list: &Vec<String>) -> (r: Result<(), Error>)
    ensures
        match (r, fill_addresses(old(res)@, key@, list.deep_view())) {
            (Ok(_), Ok(h)) => final(res)@ == h,
            (Err(e), Err(t)) => crate::address::is_address_error(e, t),
            _ => false,
        },
{
    assert(list.deep_view().len() == list@.len());
    if !res.contains(key) && !list.is_empty() {
        let all = list.as_slice();
        assert(all.deep_view() == list.deep_view());
        match format_addresses(all) {
            Ok(shown) => {
                let shown = shown.as_slice();
                res.set(key, join_with_commas(shown).as_str());
            },
            Err(e) => {
                return Err(e);
            },
        }
    }
    Ok(())
}

/// Sets `key` to `val`, unless it is set.
fn set_default(res: &mut MimeHeader, key: &str, val: &str)
    ensures
        final(res)@ == fill(old(res)@, key@, val@),
{
    if !res.contains(key) {
        res.set(key, val);
    }
}

impl Email {
    /// Merges the message's fields and custom headers into a MIME header, with the
    /// given Message-ID and date when these are absent. Does not alter
    /// `self.headers`.
    pub fn msg_headers(&self, message_id: &str, date: &str) -> (r: Result<MimeHeader, Error>)
        ensures
            match (r, message_headers(self@, message_id@, date@)) {
                (Ok(m), Ok(h)) => m@ == h,
                (Err(e), Err(t)) => crate::address::is_address_error(e, t),
                _ => false,
            },
            crate::header::header_wf(self@.headers),
    {
        let entries = self.headers.entries();
        let mut res = MimeHeader::new();

        // Pull recognized headers already present in the user's headers.
        pull_values(&mut res, &self.headers, HDR_REPLY_TO);
        pull_values(&mut res, &self.headers, HDR_TO);
        pull_values(&mut res, &self.headers, HDR_CC);
        pull_values(&mut res, &self.headers, HDR_FROM);
        pull_values(&mut res, &self.headers, HDR_SUBJECT);
        pull_values(&mut res, &self.headers, HDR_DATE);
        pull_values(&mut res, &self.headers, HDR_MESSAGE_ID);
        pull_values(&mut res, &self.headers, HDR_MIME_VERSION);
        assert(res@ == pulled(self@.headers));

        if let Err(e) = set_addresses(&mut res, HDR_REPLY_TO, &self.reply_to) {
            return Err(e);
        }
        if let Err(e) = set_addresses(&mut res, HDR_TO, &self.to) {
            return Err(e);
        }
        if let Err(e) = set_addresses(&mut res, HDR_CC, &self.cc) {
            return Err(e);
        }
        assert(addressed(self@) == Ok::<HeaderView, Seq<char>>(res@));
        let ghost r3 = res@;

        if !self.subject.as_str().is_empty() {
            set_default(&mut res, HDR_SUBJECT, self.subject.as_str());
        }
        set_default(&mut res, HDR_MESSAGE_ID, message_id);
        assert(res@ == identified(r3, self@, message_id@));

        if !res.contains(HDR_FROM) {
            match format_address(self.from.as_str()) {
                Ok(shown) => res.set(HDR_FROM, shown.as_str()),
                Err(e) => {
                    return Err(e);
                },
            }
        }
        let ghost r6 = res@;
        set_default(&mut res, HDR_DATE, date);
        set_default(&mut res, HDR_MIME_VERSION, DEFAULT_MIME_VERSION);

        // Copy over any remaining custom headers not already set.
        let ghost h = self@.headers;
        let ghost r8 = res@;
        let mut i: usize = 0;
        assert(res@ == copy_rest(r8, h.take(0)));
        while i < entries.len()
            invariant
                i <= entries@.len(),
                h == entries.deep_view(),
                res@ == copy_rest(r8, h.take(i as int)),
            decreases entries@.len() - i,
        {
            assert(h.take(i + 1).drop_last() == h.take(i as int));
            assert(h.take(i + 1).last() == entries@[i as int].deep_view());
            let field = entries[i].0.as_str();
            if !res.contains(field) {
                let vals = entries[i].1.as_slice();
                assert(vals.deep_view() == entries@[i as int].1.deep_view());
                add_values(&mut res, field, vals);
            }
            i += 1;
        }
        assert(h.take(i as int) == h);
        assert(res@ == completed(r6, self@, date@));
        Ok(res)
    }
}

// ---------------------------------------------------------------------------
// Laws
// ---------------------------------------------------------------------------

/// The canonical form of an ASCII key changes the case of its letters alone.
pub proof fn lemma_ascii_canonical(key: Seq<char>, upper: bool)
    requires
        forall|i: int| 0 <= i < key.len() ==> crate::header::is_ascii_char(#[trigger] key[i]),
    ensures
        crate::header::canonical_from(key, upper).len() == key.len(),
        forall|i: int|
            0 <= i < key.len() ==> #[trigger] crate::header::canonical_from(key, upper)[i] == if (if i
                == 0 {
                upper
            } else {
                key[i - 1] == '-'
            }) {
                crate::header::ascii_upper(key[i])
            } else {
                crate::header::ascii_lower(key[i])
            },
    decreases key.len(),
{
    if key.len() > 0 {
        let rest = key.skip(1);
        assert forall|i: int| 0 <= i < rest.len() implies crate::header::is_ascii_char(
            #[trigger] rest[i],
        ) by {
            assert(rest[i] == key[i + 1]);
        }
        lemma_ascii_canonical(rest, key[0] == '-');
        assert(crate::header::is_ascii_char(key[0]));
        let c = crate::header::canonical_from(key, upper);
        let tail = crate::header::canonical_from(rest, key[0] == '-');
        assert forall|i: int| 0 < i < key.len() implies #[trigger] c[i] == if key[i - 1] == '-' {
            crate::header::ascii_upper(key[i])
        } else {
            crate::header::ascii_lower(key[i])
        } by {
            assert(c[i] == tail[i - 1]);
            assert(rest[i - 1] == key[i]);
            if i > 1 {
                assert(rest[i - 2] == key[i - 1]);
            }
        }
    }
}

/// The lengths and first letters of the canonical forms of the field names.
pub proof fn lemma_field_names()
    ensures
        crate::header::canonical(HDR_REPLY_TO@).len() == 8,
        crate::header::canonical(HDR_TO@).len() == 2,
        crate::header::canonical(HDR_TO@)[0] == 'T',
        crate::header::canonical(HDR_CC@).len() == 2,
        crate::header::canonical(HDR_CC@)[0] == 'C',
        crate::header::canonical(crate::names::HDR_BCC@).len() == 3,
        crate::header::canonical(HDR_FROM@).len() == 4,
        crate::header::canonical(HDR_FROM@)[0] == 'F',
        crate::header::canonical(HDR_SUBJECT@).len() == 7,
        crate::header::canonical(HDR_DATE@).len() == 4,
        crate::header::canonical(HDR_DATE@)[0] == 'D',
        crate::header::canonical(HDR_MESSAGE_ID@).len() == 10,
        crate::header::canonical(HDR_MIME_VERSION@).len() == 12,
        crate::header::canonical(HDR_CONTENT_TYPE@).len() == 12,
        crate::header::canonical(crate::names::HDR_CONTENT_TRANSFER_ENCODING@).len() == 25,
{
    reveal_strlit("Content-Type");
    reveal_strlit("Content-Transfer-Encoding");
    lemma_ascii_canonical(HDR_CONTENT_TYPE@, true);
    lemma_ascii_canonical(crate::names::HDR_CONTENT_TRANSFER_ENCODING@, true);
    reveal_strlit("Reply-To");
    reveal_strlit("To");
    reveal_strlit("Cc");
    reveal_strlit("Bcc");
    reveal_strlit("From");
    reveal_strlit("Subject");
    reveal_strlit("Date");
    reveal_strlit("Message-Id");
    reveal_strlit("MIME-Version");
    lemma_ascii_canonical(HDR_REPLY_TO@, true);
    lemma_ascii_canonical(HDR_TO@, true);
    lemma_ascii_canonical(HDR_CC@, true);
    lemma_ascii_canonical(crate::names::HDR_BCC@, true);
    lemma_ascii_canonical(HDR_FROM@, true);
    lemma_ascii_canonical(HDR_SUBJECT@, true);
    lemma_ascii_canonical(HDR_DATE@, true);
    lemma_ascii_canonical(HDR_MESSAGE_ID@, true);
    lemma_ascii_canonical(HDR_MIME_VERSION@, true);
    assert(HDR_TO@[0] == 'T' && HDR_CC@[0] == 'C' && HDR_FROM@[0] == 'F' && HDR_DATE@[0] == 'D');
}

/// What is looked up after values were appended.
proof fn lemma_add_all(res: HeaderView, k: Seq<char>, vals: Seq<Seq<char>>, key: Seq<char>)
    ensures
        crate::header::canonical(key) != crate::header::canonical(k) || vals.len() == 0
            ==> crate::header::header_values(add_all(res, k, vals), key)
            == crate::header::header_values(res, key),
        crate::header::canonical(key) == crate::header::canonical(k) && vals.len() > 0
            ==> crate::header::header_values(add_all(res, k, vals), key) == Some(
            match crate::header::header_values(res, key) {
                Some(before) => before + vals,
                None => vals,
            },
        ),
    decreases vals.len(),
{
    if vals.len() > 0 {
        let init = vals.drop_last();
        let before = add_all(res, k, init);
        lemma_add_all(res, k, init, key);
        crate::header::law_add_then_get(before, k, vals.last(), key);
        if crate::header::canonical(key) == crate::header::canonical(k) {
            assert(crate::header::header_values(before, k) == crate::header::header_values(
                before,
                key,
            ));
            assert(init.push(vals.last()) == vals);
            match crate::header::header_values(res, key) {
                Some(old_vals) => {
                    assert((old_vals + init).push(vals.last()) == old_vals + vals);
                    assert(old_vals + Seq::<Seq<char>>::empty() == old_vals);
                },
                None => {
                    assert(init.len() == 0 ==> seq![vals.last()] == vals);
                },
            }
        }
    }
}

/// What is looked up after a recognized field was copied.
proof fn lemma_pull(res: HeaderView, custom: HeaderView, k: Seq<char>, key: Seq<char>)
    requires
        crate::header::header_wf(custom),
    ensures
        crate::header::canonical(key) != crate::header::canonical(k)
            ==> crate::header::header_values(pull(res, custom, k), key)
            == crate::header::header_values(res, key),
        crate::header::canonical(key) == crate::header::canonical(k)
            && crate::header::header_values(res, key) is None ==> crate::header::header_values(
            pull(res, custom, k),
            key,
        ) == crate::header::header_values(custom, key),
{
    crate::header::lemma_find(custom, crate::header::canonical(k));
    if let Some(vals) = crate::header::header_values(custom, k) {
        lemma_add_all(res, k, vals, key);
    }
}

/// Whether `key` is one of the recognized fields.
pub open spec fn is_recognized(key: Seq<char>) -> bool {
    let c = crate::header::canonical(key);
    ||| c == crate::header::canonical(HDR_REPLY_TO@)
    ||| c == crate::header::canonical(HDR_TO@)
    ||| c == crate::header::canonical(HDR_CC@)
    ||| c == crate::header::canonical(HDR_FROM@)
    ||| c == crate::header::canonical(HDR_SUBJECT@)
    ||| c == crate::header::canonical(HDR_DATE@)
    ||| c == crate::header::canonical(HDR_MESSAGE_ID@)
    ||| c == crate::header::canonical(HDR_MIME_VERSION@)
}

/// What is looked up among the recognized fields that custom headers bring.
proof fn lemma_pulled(custom: HeaderView, key: Seq<char>)
    requires
        crate::header::header_wf(custom),
    ensures
        crate::header::header_values(pulled(custom), key) == if is_recognized(key) {
            crate::header::header_values(custom, key)
        } else {
            None
        },
{
    lemma_field_names();
    let none: HeaderView = Seq::empty();
    assert(crate::header::header_values(none, key) is None);
    let r1 = pull(none, custom, HDR_REPLY_TO@);
    let r2 = pull(r1, custom, HDR_TO@);
    let r3 = pull(r2, custom, HDR_CC@);
    let r4 = pull(r3, custom, HDR_FROM@);
    let r5 = pull(r4, custom, HDR_SUBJECT@);
    let r6 = pull(r5, custom, HDR_DATE@);
    let r7 = pull(r6, custom, HDR_MESSAGE_ID@);
    lemma_pull(none, custom, HDR_REPLY_TO@, key);
    lemma_pull(r1, custom, HDR_TO@, key);
    lemma_pull(r2, custom, HDR_CC@, key);
    lemma_pull(r3, custom, HDR_FROM@, key);
    lemma_pull(r4, custom, HDR_SUBJECT@, key);
    lemma_pull(r5, custom, HDR_DATE@, key);
    lemma_pull(r6, custom, HDR_MESSAGE_ID@, key);
    lemma_pull(r7, custom, HDR_MIME_VERSION@, key);
}

/// Whether the keys of `h` are their own canonical forms, as all keys of letters
/// that have one upper-case and one lower-case form are.
pub open spec fn stable_keys(h: HeaderView) -> bool {
    forall|i: int|
        0 <= i < h.len() ==> crate::header::canonical((#[trigger] h[i]).0) == h[i].0
}

/// What is looked up after the fields left over were copied.
proof fn lemma_copy_rest(res: HeaderView, custom: HeaderView, key: Seq<char>)
    requires
        crate::header::header_wf(custom),
        stable_keys(custom),
    ensures
        crate::header::header_values(copy_rest(res, custom), key)
            == match crate::header::header_values(res, key) {
            Some(vals) => Some(vals),
            None => crate::header::header_values(custom, key),
        },
    decreases custom.len(),
{
    if custom.len() > 0 {
        let init = custom.drop_last();
        let last = custom.last();
        assert(last == custom[custom.len() - 1]);
        assert forall|i: int| 0 <= i < init.len() implies crate::header::canonical(
            (#[trigger] init[i]).0,
        ) == init[i].0 && crate::header::is_canonical(init[i].0) && init[i].1.len() > 0 by {
            assert(init[i] == custom[i]);
        }
        assert forall|i: int, j: int| 0 <= i < j < init.len() implies (#[trigger] init[i]).0 != (
        #[trigger] init[j]).0 by {
            assert(init[i] == custom[i] && init[j] == custom[j]);
        }
        lemma_copy_rest(res, init, key);
        let before = copy_rest(res, init);
        crate::header::lemma_find(init, crate::header::canonical(key));
        lemma_add_all(before, last.0, last.1, key);
        if crate::header::canonical(key) == last.0 {
            if let Some(i) = crate::header::find(init, crate::header::canonical(key)) {
                assert(custom[i].0 == last.0);
            }
        }
    }
}

/// What is looked up after a field was filled in.
proof fn lemma_fill(res: HeaderView, k: Seq<char>, val: Seq<char>, key: Seq<char>)
    ensures
        crate::header::header_values(fill(res, k, val), key) == if crate::header::canonical(key)
            == crate::header::canonical(k) && crate::header::header_values(res, key) is None {
            Some(seq![val])
        } else {
            crate::header::header_values(res, key)
        },
{
    crate::header::law_set_then_get(res, k, val, key);
}

/// The value that addresses make, if there are any.
pub open spec fn addresses_value(list: Seq<Seq<char>>) -> Option<Seq<Seq<char>>> {
    if list.len() == 0 {
        None
    } else {
        match crate::address::formatted_addresses(list) {
            Ok(shown) => Some(seq![crate::address::comma_joined(shown)]),
            Err(_) => None,
        }
    }
}

/// What is looked up after addresses were filled in.
proof fn lemma_fill_addresses(
    res: HeaderView,
    k: Seq<char>,
    list: Seq<Seq<char>>,
    key: Seq<char>,
)
    ensures
        fill_addresses(res, k, list) matches Ok(h) ==> crate::header::header_values(h, key)
            == if crate::header::canonical(key) == crate::header::canonical(k)
            && crate::header::header_values(res, key) is None {
            addresses_value(list)
        } else {
            crate::header::header_values(res, key)
        },
        crate::header::header_has(res, k) || crate::address::formatted_addresses(list) is Ok
            <==> fill_addresses(res, k, list) is Ok,
{
    if let Ok(shown) = crate::address::formatted_addresses(list) {
        crate::header::law_set_then_get(res, k, crate::address::comma_joined(shown), key);
    }
}

/// The values that the fields of the message `e` give for `key`.
pub open spec fn own_values(
    e: EmailView,
    id: Seq<char>,
    date: Seq<char>,
    key: Seq<char>,
) -> Option<Seq<Seq<char>>> {
    let c = crate::header::canonical(key);
    if c == crate::header::canonical(HDR_REPLY_TO@) {
        addresses_value(e.reply_to)
    } else if c == crate::header::canonical(HDR_TO@) {
        addresses_value(e.to)
    } else if c == crate::header::canonical(HDR_CC@) {
        addresses_value(e.cc)
    } else if c == crate::header::canonical(HDR_FROM@) {
        addresses_value(seq![e.from])
    } else if c == crate::header::canonical(HDR_SUBJECT@) && e.subject.len() > 0 {
        Some(seq![e.subject])
    } else if c == crate::header::canonical(HDR_MESSAGE_ID@) {
        Some(seq![id])
    } else if c == crate::header::canonical(HDR_DATE@) {
        Some(seq![date])
    } else if c == crate::header::canonical(HDR_MIME_VERSION@) {
        Some(seq![DEFAULT_MIME_VERSION@])
    } else {
        None
    }
}

/// The value that one address makes.
proof fn lemma_one_address(addr: Seq<char>)
    ensures
        addresses_value(seq![addr]) == match crate::address::formatted_address(addr) {
            Ok(shown) => Some(seq![shown]),
            Err(_) => None,
        },
{
    let list = seq![addr];
    assert(list.drop_last() == Seq::<Seq<char>>::empty());
    assert(crate::address::formatted_addresses(list.drop_last()) == Ok::<
        Seq<Seq<char>>,
        Seq<char>,
    >(Seq::empty()));
    if let Ok(shown) = crate::address::formatted_address(addr) {
        assert(Seq::<Seq<char>>::empty().push(shown) == seq![shown]);
        assert(crate::address::comma_joined(seq![shown]) == shown);
    }
}

/// Law: a message header has, for every key, the custom values where there are
/// any, and else those that the message itself gives. So custom headers take
/// precedence, all of them are kept, and no other field comes in: a message
/// without a custom Bcc header has none.
pub proof fn law_message_headers(e: EmailView, id: Seq<char>, date: Seq<char>, key: Seq<char>)
    requires
        crate::header::header_wf(e.headers),
        stable_keys(e.headers),
    ensures
        message_headers(e, id, date) matches Ok(h) ==> crate::header::header_values(h, key)
            == match crate::header::header_values(e.headers, key) {
            Some(vals) => Some(vals),
            None => own_values(e, id, date, key),
        },
{
    if let Ok(h) = message_headers(e, id, date) {
        lemma_field_names();
        let r0 = pulled(e.headers);
        lemma_pulled(e.headers, key);
        let r1 = fill_addresses(r0, HDR_REPLY_TO@, e.reply_to)->Ok_0;
        lemma_fill_addresses(r0, HDR_REPLY_TO@, e.reply_to, key);
        let r2 = fill_addresses(r1, HDR_TO@, e.to)->Ok_0;
        lemma_fill_addresses(r1, HDR_TO@, e.to, key);
        let r3 = fill_addresses(r2, HDR_CC@, e.cc)->Ok_0;
        lemma_fill_addresses(r2, HDR_CC@, e.cc, key);
        let r4 = if e.subject.len() == 0 {
            r3
        } else {
            fill(r3, HDR_SUBJECT@, e.subject)
        };
        lemma_fill(r3, HDR_SUBJECT@, e.subject, key);
        let r5 = fill(r4, HDR_MESSAGE_ID@, id);
        lemma_fill(r4, HDR_MESSAGE_ID@, id, key);
        let r6 = fill_address(r5, HDR_FROM@, e.from)->Ok_0;
        lemma_one_address(e.from);
        if let Ok(shown) = crate::address::formatted_address(e.from) {
            lemma_fill(r5, HDR_FROM@, shown, key);
        }
        let r7 = fill(r6, HDR_DATE@, date);
        lemma_fill(r6, HDR_DATE@, date, key);
        let r8 = fill(r7, HDR_MIME_VERSION@, DEFAULT_MIME_VERSION@);
        lemma_fill(r7, HDR_MIME_VERSION@, DEFAULT_MIME_VERSION@, key);
        lemma_copy_rest(r8, e.headers, key);
    }
}

/// Copying the fields left over brings in no key that none of them has.
proof fn lemma_copy_rest_absent(res: HeaderView, custom: HeaderView, key: Seq<char>)
    requires
        no_key(custom, key),
        crate::header::header_values(res, key) is None,
    ensures
        crate::header::header_values(copy_rest(res, custom), key) is None,
    decreases custom.len(),
{
    if custom.len() > 0 {
        let init = custom.drop_last();
        assert forall|i: int| 0 <= i < init.len() implies crate::header::canonical(
            (#[trigger] init[i]).0,
        ) != crate::header::canonical(key) by {
            assert(init[i] == custom[i]);
        }
        lemma_copy_rest_absent(res, init, key);
        assert(custom.last() == custom[custom.len() - 1]);
        lemma_add_all(copy_rest(res, init), custom.last().0, custom.last().1, key);
    }
}

/// Copying a recognized field brings in no other key.
proof fn lemma_pull_other(res: HeaderView, custom: HeaderView, k: Seq<char>, key: Seq<char>)
    requires
        crate::header::canonical(key) != crate::header::canonical(k),
    ensures
        crate::header::header_values(pull(res, custom, k), key) == crate::header::header_values(
            res,
            key,
        ),
{
    if let Some(vals) = crate::header::header_values(custom, k) {
        lemma_add_all(res, k, vals, key);
    }
}

/// Whether no key of `h` has the canonical form that `key` has.
pub open spec fn no_key(h: HeaderView, key: Seq<char>) -> bool {
    forall|i: int|
        0 <= i < h.len() ==> crate::header::canonical((#[trigger] h[i]).0)
            != crate::header::canonical(key)
}

/// Law: a message header has no key that is not recognized, unless a custom header
/// brings it.
pub proof fn law_absent_key(e: EmailView, id: Seq<char>, date: Seq<char>, key: Seq<char>)
    requires
        !is_recognized(key),
        no_key(e.headers, key),
    ensures
        message_headers(e, id, date) matches Ok(h) ==> !crate::header::header_has(h, key),
{
    if let Ok(h) = message_headers(e, id, date) {
        let custom = e.headers;
        let none: HeaderView = Seq::empty();
        assert(crate::header::header_values(none, key) is None);
        let p1 = pull(none, custom, HDR_REPLY_TO@);
        let p2 = pull(p1, custom, HDR_TO@);
        let p3 = pull(p2, custom, HDR_CC@);
        let p4 = pull(p3, custom, HDR_FROM@);
        let p5 = pull(p4, custom, HDR_SUBJECT@);
        let p6 = pull(p5, custom, HDR_DATE@);
        let p7 = pull(p6, custom, HDR_MESSAGE_ID@);
        lemma_pull_other(none, custom, HDR_REPLY_TO@, key);
        lemma_pull_other(p1, custom, HDR_TO@, key);
        lemma_pull_other(p2, custom, HDR_CC@, key);
        lemma_pull_other(p3, custom, HDR_FROM@, key);
        lemma_pull_other(p4, custom, HDR_SUBJECT@, key);
        lemma_pull_other(p5, custom, HDR_DATE@, key);
        lemma_pull_other(p6, custom, HDR_MESSAGE_ID@, key);
        lemma_pull_other(p7, custom, HDR_MIME_VERSION@, key);
        let r0 = pulled(custom);
        let r1 = fill_addresses(r0, HDR_REPLY_TO@, e.reply_to)->Ok_0;
        lemma_fill_addresses(r0, HDR_REPLY_TO@, e.reply_to, key);
        let r2 = fill_addresses(r1, HDR_TO@, e.to)->Ok_0;
        lemma_fill_addresses(r1, HDR_TO@, e.to, key);
        let r3 = fill_addresses(r2, HDR_CC@, e.cc)->Ok_0;
        lemma_fill_addresses(r2, HDR_CC@, e.cc, key);
        let r4 = if e.subject.len() == 0 {
            r3
        } else {
            fill(r3, HDR_SUBJECT@, e.subject)
        };
        lemma_fill(r3, HDR_SUBJECT@, e.subject, key);
        let r5 = fill(r4, HDR_MESSAGE_ID@, id);
        lemma_fill(r4, HDR_MESSAGE_ID@, id, key);
        let r6 = fill_address(r5, HDR_FROM@, e.from)->Ok_0;
        if let Ok(shown) = crate::address::formatted_address(e.from) {
            lemma_fill(r5, HDR_FROM@, shown, key);
        }
        let r7 = fill(r6, HDR_DATE@, date);
        lemma_fill(r6, HDR_DATE@, date, key);
        let r8 = fill(r7, HDR_MIME_VERSION@, DEFAULT_MIME_VERSION@);
        lemma_fill(r7, HDR_MIME_VERSION@, DEFAULT_MIME_VERSION@, key);
        lemma_copy_rest_absent(r8, custom, key);
    }
}

/// Law: the header can be made exactly where every address in use is valid. An
/// address list is in use where no custom header takes its place.
pub proof fn law_addresses_decide(e: EmailView, id: Seq<char>, date: Seq<char>)
    requires
        crate::header::header_wf(e.headers),
    ensures
        message_headers(e, id, date) is Ok <==> {
            &&& crate::header::header_has(e.headers, HDR_REPLY_TO@)
                || crate::address::formatted_addresses(e.reply_to) is Ok
            &&& crate::header::header_has(e.headers, HDR_TO@)
                || crate::address::formatted_addresses(e.to) is Ok
            &&& crate::header::header_has(e.headers, HDR_CC@)
                || crate::address::formatted_addresses(e.cc) is Ok
            &&& crate::header::header_has(e.headers, HDR_FROM@)
                || crate::address::formatted_address(e.from) is Ok
        },
{
    lemma_field_names();
    let r0 = pulled(e.headers);
    lemma_pulled(e.headers, HDR_REPLY_TO@);
    lemma_pulled(e.headers, HDR_TO@);
    lemma_pulled(e.headers, HDR_CC@);
    lemma_pulled(e.headers, HDR_FROM@);
    lemma_fill_addresses(r0, HDR_REPLY_TO@, e.reply_to, HDR_TO@);
    lemma_fill_addresses(r0, HDR_REPLY_TO@, e.reply_to, HDR_CC@);
    lemma_fill_addresses(r0, HDR_REPLY_TO@, e.reply_to, HDR_FROM@);
    if let Ok(r1) = fill_addresses(r0, HDR_REPLY_TO@, e.reply_to) {
        lemma_fill_addresses(r1, HDR_TO@, e.to, HDR_CC@);
        lemma_fill_addresses(r1, HDR_TO@, e.to, HDR_FROM@);
        if let Ok(r2) = fill_addresses(r1, HDR_TO@, e.to) {
            lemma_fill_addresses(r2, HDR_CC@, e.cc, HDR_FROM@);
            if let Ok(r3) = fill_addresses(r2, HDR_CC@, e.cc) {
                let r4 = fill(r3, HDR_SUBJECT@, e.subject);
                lemma_fill(r3, HDR_SUBJECT@, e.subject, HDR_FROM@);
                lemma_fill(r3, HDR_MESSAGE_ID@, id, HDR_FROM@);
                lemma_fill(r4, HDR_MESSAGE_ID@, id, HDR_FROM@);
            }
        }
    }
}

/// Law: the Message-ID and the date have no part in whether a header can be made,
/// nor in what is reported where it cannot.
pub proof fn law_header_fault_is_own(
    e: EmailView,
    id1: Seq<char>,
    date1: Seq<char>,
    id2: Seq<char>,
    date2: Seq<char>,
)
    ensures
        message_headers(e, id1, date1) is Err ==> message_headers(e, id2, date2)
            == message_headers(e, id1, date1),
{
    if let Ok(r3) = addressed(e) {
        let r4 = if e.subject.len() == 0 {
            r3
        } else {
            fill(r3, HDR_SUBJECT@, e.subject)
        };
        lemma_fill(r4, HDR_MESSAGE_ID@, id1, HDR_FROM@);
        lemma_fill(r4, HDR_MESSAGE_ID@, id2, HDR_FROM@);
    }
}

/// Law: a Message-ID or a date that is drawn for a message has no part in its header
/// where a custom header brings one.
pub proof fn law_custom_stamp(
    e: EmailView,
    id1: Seq<char>,
    date1: Seq<char>,
    id2: Seq<char>,
    date2: Seq<char>,
)
    requires
        crate::header::header_wf(e.headers),
        crate::header::header_has(e.headers, HDR_MESSAGE_ID@) || id1 == id2,
        crate::header::header_has(e.headers, HDR_DATE@) || date1 == date2,
    ensures
        message_headers(e, id1, date1) == message_headers(e, id2, date2),
{
    lemma_field_names();
    let r0 = pulled(e.headers);
    lemma_pulled(e.headers, HDR_MESSAGE_ID@);
    lemma_pulled(e.headers, HDR_DATE@);
    if let Ok(r3) = addressed(e) {
        let r1 = fill_addresses(r0, HDR_REPLY_TO@, e.reply_to)->Ok_0;
        let r2 = fill_addresses(r1, HDR_TO@, e.to)->Ok_0;
        lemma_fill_addresses(r0, HDR_REPLY_TO@, e.reply_to, HDR_MESSAGE_ID@);
        lemma_fill_addresses(r0, HDR_REPLY_TO@, e.reply_to, HDR_DATE@);
        lemma_fill_addresses(r1, HDR_TO@, e.to, HDR_MESSAGE_ID@);
        lemma_fill_addresses(r1, HDR_TO@, e.to, HDR_DATE@);
        lemma_fill_addresses(r2, HDR_CC@, e.cc, HDR_MESSAGE_ID@);
        lemma_fill_addresses(r2, HDR_CC@, e.cc, HDR_DATE@);
        lemma_fill(r3, HDR_SUBJECT@, e.subject, HDR_MESSAGE_ID@);
        lemma_fill(r3, HDR_SUBJECT@, e.subject, HDR_DATE@);
        let r4 = if e.subject.len() == 0 {
            r3
        } else {
            fill(r3, HDR_SUBJECT@, e.subject)
        };
        assert(identified(r3, e, id1) == identified(r3, e, id2));
        lemma_fill(r4, HDR_MESSAGE_ID@, id1, HDR_DATE@);
        let r5 = identified(r3, e, id1);
        if let Ok(shown) = crate::address::formatted_address(e.from) {
            lemma_fill(r5, HDR_FROM@, shown, HDR_DATE@);
        }
    }
}

/// Whether `h` is well-formed and its keys are their own canonical forms.
pub open spec fn is_tidy(h: HeaderView) -> bool {
    crate::header::header_wf(h) && stable_keys(h)
}

/// Whether the canonical form of `key` is its own canonical form.
pub open spec fn is_stable(key: Seq<char>) -> bool {
    crate::header::canonical(crate::header::canonical(key)) == crate::header::canonical(key)
}

/// The canonical forms of ASCII keys are their own.
pub proof fn lemma_ascii_stable(key: Seq<char>)
    requires
        forall|i: int| 0 <= i < key.len() ==> crate::header::is_ascii_char(#[trigger] key[i]),
    ensures
        is_stable(key),
{
    assert forall|i: int| 0 <= i < key.len() implies crate::header::case_stable(
        #[trigger] key[i],
    ) by {
        assert(crate::header::is_ascii_char(key[i]));
    }
    crate::header::law_canonical_idempotent(key);
}

pub proof fn lemma_set_tidy(h: HeaderView, key: Seq<char>, val: Seq<char>)
    requires
        is_tidy(h),
        is_stable(key),
    ensures
        is_tidy(crate::header::header_set(h, key, val)),
{
    crate::header::lemma_set_wf(h, key, val);
    crate::header::lemma_find(h, crate::header::canonical(key));
}

proof fn lemma_add_all_tidy(h: HeaderView, key: Seq<char>, vals: Seq<Seq<char>>)
    requires
        is_tidy(h),
        is_stable(key),
    ensures
        is_tidy(add_all(h, key, vals)),
    decreases vals.len(),
{
    if vals.len() > 0 {
        let before = add_all(h, key, vals.drop_last());
        lemma_add_all_tidy(h, key, vals.drop_last());
        crate::header::lemma_add_wf(before, key, vals.last());
        crate::header::lemma_find(before, crate::header::canonical(key));
    }
}

proof fn lemma_pull_tidy(h: HeaderView, custom: HeaderView, key: Seq<char>)
    requires
        is_tidy(h),
        is_stable(key),
    ensures
        is_tidy(pull(h, custom, key)),
{
    if let Some(vals) = crate::header::header_values(custom, key) {
        lemma_add_all_tidy(h, key, vals);
    }
}

proof fn lemma_fill_addresses_tidy(h: HeaderView, key: Seq<char>, list: Seq<Seq<char>>)
    requires
        is_tidy(h),
        is_stable(key),
    ensures
        fill_addresses(h, key, list) matches Ok(r) ==> is_tidy(r),
{
    if let Ok(shown) = crate::address::formatted_addresses(list) {
        lemma_set_tidy(h, key, crate::address::comma_joined(shown));
    }
}

proof fn lemma_copy_rest_tidy(h: HeaderView, custom: HeaderView)
    requires
        is_tidy(h),
        stable_keys(custom),
    ensures
        is_tidy(copy_rest(h, custom)),
    decreases custom.len(),
{
    if custom.len() > 0 {
        let init = custom.drop_last();
        assert forall|i: int| 0 <= i < init.len() implies crate::header::canonical(
            (#[trigger] init[i]).0,
        ) == init[i].0 by {
            assert(init[i] == custom[i]);
        }
        lemma_copy_rest_tidy(h, init);
        assert(custom.last() == custom[custom.len() - 1]);
        lemma_add_all_tidy(copy_rest(h, init), custom.last().0, custom.last().1);
    }
}

/// Law: a message header has each of its keys once, in canonical form, with at
/// least one value.
pub proof fn law_message_headers_tidy(e: EmailView, id: Seq<char>, date: Seq<char>)
    requires
        is_tidy(e.headers),
    ensures
        message_headers(e, id, date) matches Ok(h) ==> is_tidy(h),
{
    reveal_strlit("Reply-To");
    reveal_strlit("To");
    reveal_strlit("Cc");
    reveal_strlit("From");
    reveal_strlit("Subject");
    reveal_strlit("Date");
    reveal_strlit("Message-Id");
    reveal_strlit("MIME-Version");
    lemma_ascii_stable(HDR_REPLY_TO@);
    lemma_ascii_stable(HDR_TO@);
    lemma_ascii_stable(HDR_CC@);
    lemma_ascii_stable(HDR_FROM@);
    lemma_ascii_stable(HDR_SUBJECT@);
    lemma_ascii_stable(HDR_DATE@);
    lemma_ascii_stable(HDR_MESSAGE_ID@);
    lemma_ascii_stable(HDR_MIME_VERSION@);
    let custom = e.headers;
    let none: HeaderView = Seq::empty();
    assert(is_tidy(none));
    let r1 = pull(none, custom, HDR_REPLY_TO@);
    let r2 = pull(r1, custom, HDR_TO@);
    let r3 = pull(r2, custom, HDR_CC@);
    let r4 = pull(r3, custom, HDR_FROM@);
    let r5 = pull(r4, custom, HDR_SUBJECT@);
    let r6 = pull(r5, custom, HDR_DATE@);
    let r7 = pull(r6, custom, HDR_MESSAGE_ID@);
    lemma_pull_tidy(none, custom, HDR_REPLY_TO@);
    lemma_pull_tidy(r1, custom, HDR_TO@);
    lemma_pull_tidy(r2, custom, HDR_CC@);
    lemma_pull_tidy(r3, custom, HDR_FROM@);
    lemma_pull_tidy(r4, custom, HDR_SUBJECT@);
    lemma_pull_tidy(r5, custom, HDR_DATE@);
    lemma_pull_tidy(r6, custom, HDR_MESSAGE_ID@);
    lemma_pull_tidy(r7, custom, HDR_MIME_VERSION@);
    if let Ok(h) = message_headers(e, id, date) {
        let a0 = pulled(custom);
        lemma_fill_addresses_tidy(a0, HDR_REPLY_TO@, e.reply_to);
        let a1 = fill_addresses(a0, HDR_REPLY_TO@, e.reply_to)->Ok_0;
        lemma_fill_addresses_tidy(a1, HDR_TO@, e.to);
        let a2 = fill_addresses(a1, HDR_TO@, e.to)->Ok_0;
        lemma_fill_addresses_tidy(a2, HDR_CC@, e.cc);
        let a3 = addressed(e)->Ok_0;
        lemma_set_tidy(a3, HDR_SUBJECT@, e.subject);
        let a4 = if e.subject.len() == 0 {
            a3
        } else {
            fill(a3, HDR_SUBJECT@, e.subject)
        };
        lemma_set_tidy(a4, HDR_MESSAGE_ID@, id);
        let a5 = identified(a3, e, id);
        if let Ok(shown) = crate::address::formatted_address(e.from) {
            lemma_set_tidy(a5, HDR_FROM@, shown);
        }
        let a6 = fill_address(a5, HDR_FROM@, e.from)->Ok_0;
        lemma_set_tidy(a6, HDR_DATE@, date);
        let a7 = fill(a6, HDR_DATE@, date);
        lemma_set_tidy(a7, HDR_MIME_VERSION@, DEFAULT_MIME_VERSION@);
        lemma_copy_rest_tidy(fill(a7, HDR_MIME_VERSION@, DEFAULT_MIME_VERSION@), custom);
    }
}

/// Law: where no custom header takes its place, each field of a message has the one value
/// that the message gives: its addresses, formatted one by one and joined with commas, its
/// subject if it has one, and its Message-ID, its date and the MIME version.
pub proof fn law_own_fields(e: EmailView, id: Seq<char>, date: Seq<char>)
    requires
        crate::header::header_wf(e.headers),
        stable_keys(e.headers),
    ensures
        message_headers(e, id, date) matches Ok(h) ==> {
            &&& !crate::header::header_has(e.headers, "Message-Id"@)
                ==> crate::header::header_values(h, "Message-Id"@) == Some(seq![id])
            &&& !crate::header::header_has(e.headers, "Date"@) ==> crate::header::header_values(
                h,
                "Date"@,
            ) == Some(seq![date])
            &&& !crate::header::header_has(e.headers, "MIME-Version"@)
                ==> crate::header::header_values(h, "MIME-Version"@) == Some(seq!["1.0"@])
            &&& !crate::header::header_has(e.headers, "Subject"@) ==> crate::header::header_values(
                h,
                "Subject"@,
            ) == if e.subject.len() == 0 {
                None
            } else {
                Some(seq![e.subject])
            }
            &&& !crate::header::header_has(e.headers, "From"@) ==> (
            crate::address::formatted_address(e.from) matches Ok(shown)
                && crate::header::header_values(h, "From"@) == Some(seq![shown]))
            &&& !crate::header::header_has(e.headers, "To"@) ==> is_list_field(h, "To"@, e.to)
            &&& !crate::header::header_has(e.headers, "Cc"@) ==> is_list_field(h, "Cc"@, e.cc)
            &&& !crate::header::header_has(e.headers, "Reply-To"@) ==> is_list_field(
                h,
                "Reply-To"@,
                e.reply_to,
            )
        },
{
    if message_headers(e, id, date) is Ok {
        lemma_field_names();
        law_message_headers(e, id, date, HDR_MESSAGE_ID@);
        law_message_headers(e, id, date, HDR_DATE@);
        law_message_headers(e, id, date, HDR_MIME_VERSION@);
        law_message_headers(e, id, date, HDR_SUBJECT@);
        law_message_headers(e, id, date, HDR_FROM@);
        law_message_headers(e, id, date, HDR_TO@);
        law_message_headers(e, id, date, HDR_CC@);
        law_message_headers(e, id, date, HDR_REPLY_TO@);
        law_addresses_decide(e, id, date);
        crate::address::law_addresses_valid(e.to);
        crate::address::law_addresses_valid(e.cc);
        crate::address::law_addresses_valid(e.reply_to);
        let h = message_headers(e, id, date)->Ok_0;
        assert(!crate::header::header_has(e.headers, HDR_TO@) ==> is_list_field(h, HDR_TO@, e.to));
        assert(!crate::header::header_has(e.headers, HDR_CC@) ==> is_list_field(h, HDR_CC@, e.cc));
        assert(!crate::header::header_has(e.headers, HDR_REPLY_TO@) ==> is_list_field(
            h,
            HDR_REPLY_TO@,
            e.reply_to,
        ));
        if let Ok(shown) = crate::address::formatted_address(e.from) {
            let one = seq![e.from];
            let none = Seq::<Seq<char>>::empty();
            assert(one.drop_last() == none);
            assert(crate::address::formatted_addresses(none) == Ok::<Seq<Seq<char>>, Seq<char>>(
                none,
            ));
            assert(none.push(shown) == seq![shown]);
            assert(crate::address::formatted_addresses(one) == Ok::<Seq<Seq<char>>, Seq<char>>(
                seq![shown],
            ));
        }
    }
}

/// Whether the field `key` of `h` has the addresses `list`, each formatted, joined with
/// commas; there is no such field for no address.
pub open spec fn is_list_field(h: HeaderView, key: Seq<char>, list: Seq<Seq<char>>) -> bool {
    if list.len() == 0 {
        crate::header::header_values(h, key) is None
    } else {
        exists|shown: Seq<Seq<char>>|
            {
                &&& crate::header::header_values(h, key) == Some(
                    seq![#[trigger] crate::address::comma_joined(shown)],
                )
                &&& shown.len() == list.len()
                &&& forall|i: int|
                    0 <= i < list.len() ==> crate::address::formatted_address(#[trigger] list[i])
                        == Ok::<Seq<char>, Seq<char>>(shown[i])
            }
    }
}

/// The addresses of `e` that its header is made with, in the order in which they are
/// looked at: those of the fields that no custom header takes the place of.
pub open spec fn used_addresses(e: EmailView) -> Seq<Seq<char>> {
    unless_custom(e, "Reply-To"@, e.reply_to) + unless_custom(e, "To"@, e.to) + unless_custom(
        e,
        "Cc"@,
        e.cc,
    ) + unless_custom(e, "From"@, seq![e.from])
}

/// `list`, unless `e` has a custom header under `key`.
pub open spec fn unless_custom(e: EmailView, key: Seq<char>, list: Seq<Seq<char>>) -> Seq<
    Seq<char>,
> {
    if crate::header::header_has(e.headers, key) {
        Seq::empty()
    } else {
        list
    }
}

/// Whether `t` is the trimmed text of the first address of `list` that is not valid.
pub open spec fn is_first_refused(list: Seq<Seq<char>>, t: Seq<char>) -> bool {
    exists|i: int|
        0 <= i < list.len() && t == crate::text::trim(
            #[trigger] list[i],
            crate::text::Trim::WhiteSpace,
        ) && crate::address::parsed_address(list[i]) is Err && forall|j: int|
            0 <= j < i ==> crate::address::parsed_address(#[trigger] list[j]) is Ok
}

proof fn lemma_first_refused(list: Seq<Seq<char>>)
    ensures
        crate::address::formatted_addresses(list) matches Err(t) ==> is_first_refused(list, t),
    decreases list.len(),
{
    if list.len() > 0 {
        let init = list.drop_last();
        lemma_first_refused(init);
        crate::address::law_addresses_valid(init);
        if let Err(t) = crate::address::formatted_addresses(list) {
            if crate::address::formatted_addresses(init) is Err {
                let i = choose|i: int|
                    0 <= i < init.len() && t == crate::text::trim(
                        #[trigger] init[i],
                        crate::text::Trim::WhiteSpace,
                    ) && crate::address::parsed_address(init[i]) is Err && forall|j: int|
                        0 <= j < i ==> crate::address::parsed_address(#[trigger] init[j]) is Ok;
                assert(list[i] == init[i]);
                assert forall|j: int| 0 <= j < i implies crate::address::parsed_address(
                    #[trigger] list[j],
                ) is Ok by {
                    assert(list[j] == init[j]);
                }
            } else {
                let i = list.len() - 1;
                crate::address::law_refused_address(list[i]);
                assert(list.last() == list[i]);
                assert forall|j: int| 0 <= j < i implies crate::address::parsed_address(
                    #[trigger] list[j],
                ) is Ok by {
                    assert(list[j] == init[j]);
                }
            }
        }
    }
}

/// The first that is refused in the middle of a list is the first of all where all before
/// it are valid.
proof fn lemma_refused_within(
    before: Seq<Seq<char>>,
    list: Seq<Seq<char>>,
    after: Seq<Seq<char>>,
    t: Seq<char>,
)
    requires
        is_first_refused(list, t),
        forall|i: int|
            0 <= i < before.len() ==> crate::address::parsed_address(#[trigger] before[i]) is Ok,
    ensures
        is_first_refused(before + list + after, t),
{
    let all = before + list + after;
    let i = choose|i: int|
        0 <= i < list.len() && t == crate::text::trim(
            #[trigger] list[i],
            crate::text::Trim::WhiteSpace,
        ) && crate::address::parsed_address(list[i]) is Err && forall|j: int|
            0 <= j < i ==> crate::address::parsed_address(#[trigger] list[j]) is Ok;
    let k = before.len() + i;
    assert(all[k] == list[i]);
    assert forall|j: int| 0 <= j < k implies crate::address::parsed_address(#[trigger] all[j])
        is Ok by {
        if j < before.len() {
            assert(all[j] == before[j]);
        } else {
            assert(all[j] == list[j - before.len()]);
        }
    }
}

proof fn lemma_list_used(e: EmailView, res: HeaderView, key: Seq<char>, list: Seq<Seq<char>>)
    requires
        crate::header::header_has(res, key) == crate::header::header_has(e.headers, key),
    ensures
        fill_addresses(res, key, list) matches Err(t) ==> is_first_refused(
            unless_custom(e, key, list),
            t,
        ),
        fill_addresses(res, key, list) is Ok ==> forall|i: int|
            0 <= i < unless_custom(e, key, list).len() ==> crate::address::parsed_address(
                #[trigger] unless_custom(e, key, list)[i],
            ) is Ok,
{
    lemma_first_refused(list);
    crate::address::law_addresses_valid(list);
}

/// Law: where the header of a message cannot be made, the first address that is not valid
/// is named, among those of Reply-To, To, Cc and From, in this order, that are used.
pub proof fn law_refused_header(e: EmailView, id: Seq<char>, date: Seq<char>)
    requires
        crate::header::header_wf(e.headers),
    ensures
        message_headers(e, id, date) matches Err(t) ==> is_first_refused(used_addresses(e), t),
{
    lemma_field_names();
    let u1 = unless_custom(e, HDR_REPLY_TO@, e.reply_to);
    let u2 = unless_custom(e, HDR_TO@, e.to);
    let u3 = unless_custom(e, HDR_CC@, e.cc);
    let u4 = unless_custom(e, HDR_FROM@, seq![e.from]);
    let none = Seq::<Seq<char>>::empty();
    let r0 = pulled(e.headers);
    lemma_pulled(e.headers, HDR_REPLY_TO@);
    lemma_pulled(e.headers, HDR_TO@);
    lemma_pulled(e.headers, HDR_CC@);
    lemma_pulled(e.headers, HDR_FROM@);
    lemma_fill_addresses(r0, HDR_REPLY_TO@, e.reply_to, HDR_TO@);
    lemma_fill_addresses(r0, HDR_REPLY_TO@, e.reply_to, HDR_CC@);
    lemma_fill_addresses(r0, HDR_REPLY_TO@, e.reply_to, HDR_FROM@);
    lemma_list_used(e, r0, HDR_REPLY_TO@, e.reply_to);
    let all = used_addresses(e);
    match fill_addresses(r0, HDR_REPLY_TO@, e.reply_to) {
        Err(t) => {
            lemma_refused_within(none, u1, u2 + u3 + u4, t);
            assert(none + u1 + (u2 + u3 + u4) == all);
        },
        Ok(r1) => {
            lemma_fill_addresses(r1, HDR_TO@, e.to, HDR_CC@);
            lemma_fill_addresses(r1, HDR_TO@, e.to, HDR_FROM@);
            lemma_list_used(e, r1, HDR_TO@, e.to);
            match fill_addresses(r1, HDR_TO@, e.to) {
                Err(t) => {
                    lemma_refused_within(u1, u2, u3 + u4, t);
                    assert(u1 + u2 + (u3 + u4) == all);
                },
                Ok(r2) => {
                    lemma_fill_addresses(r2, HDR_CC@, e.cc, HDR_FROM@);
                    lemma_list_used(e, r2, HDR_CC@, e.cc);
                    match fill_addresses(r2, HDR_CC@, e.cc) {
                        Err(t) => {
                            assert forall|i: int| 0 <= i < (u1 + u2).len() implies
                                crate::address::parsed_address(#[trigger] (u1 + u2)[i]) is Ok by {
                                if i < u1.len() {
                                    assert((u1 + u2)[i] == u1[i]);
                                } else {
                                    assert((u1 + u2)[i] == u2[i - u1.len()]);
                                }
                            }
                            lemma_refused_within(u1 + u2, u3, u4, t);
                        },
                        Ok(r3) => {
                            let before = u1 + u2 + u3;
                            assert forall|i: int| 0 <= i < before.len() implies
                                crate::address::parsed_address(#[trigger] before[i]) is Ok by {
                                if i < u1.len() {
                                    assert(before[i] == u1[i]);
                                } else if i < u1.len() + u2.len() {
                                    assert(before[i] == u2[i - u1.len()]);
                                } else {
                                    assert(before[i] == u3[i - u1.len() - u2.len()]);
                                }
                            }
                            let r4 = if e.subject.len() == 0 {
                                r3
                            } else {
                                fill(r3, HDR_SUBJECT@, e.subject)
                            };
                            if e.subject.len() > 0 {
                                lemma_fill(r3, HDR_SUBJECT@, e.subject, HDR_FROM@);
                            }
                            lemma_fill(r4, HDR_MESSAGE_ID@, id, HDR_FROM@);
                            if let Err(t) = fill_address(identified(r3, e, id), HDR_FROM@, e.from) {
                                crate::address::law_refused_address(e.from);
                                assert(u4[0] == e.from);
                                assert(is_first_refused(u4, t));
                                lemma_refused_within(before, u4, none, t);
                                assert(before + u4 + none == all);
                            }
                        },
                    }
                },
            }
        },
    }
}

/// Law: which values are written encoded: none of Content-Type and Content-Disposition,
/// which are written as they are, and of any other field those that are not printable.
pub proof fn law_shown_value(field: Seq<char>, val: Seq<char>)
    ensures
        field == "Content-Type"@ || field == "Content-Disposition"@ ==> shown_value(field, val)
            == val,
        (forall|i: int| 0 <= i < val.len() ==> ' ' <= #[trigger] val[i] <= '~' || val[i] == '\t')
            ==> shown_value(field, val) == val,
        shown_value(field, val) == val || exists|word: Seq<char>|
            shown_value(field, val) == "=?utf-8?q?"@ + word + "?="@
                && #[trigger] crate::encoding::q_decode(word) == crate::text::utf8(val),
        field != "Content-Type"@ && field != "Content-Disposition"@ ==> forall|i: int|
            0 <= i < crate::text::utf8(shown_value(field, val)).len() ==> 0x20
                <= #[trigger] crate::text::utf8(shown_value(field, val))[i] <= 0x7e
                || crate::text::utf8(shown_value(field, val))[i] == 9,
{
    crate::encoding::law_q_value(val);
}

/// Filling in a field that is not there puts it at the end.
proof fn lemma_fill_order(h: HeaderView, key: Seq<char>, val: Seq<char>)
    requires
        !crate::header::header_has(h, key),
    ensures
        fill(h, key, val) == h.push((crate::header::canonical(key), seq![val])),
        forall|other: Seq<char>|
            #[trigger] crate::header::header_has(fill(h, key, val), other) <==> (
            crate::header::header_has(h, other) || crate::header::canonical(other)
                == crate::header::canonical(key)),
{
    let r = fill(h, key, val);
    assert forall|other: Seq<char>|
        #[trigger] crate::header::header_has(r, other) <==> (crate::header::header_has(h, other)
            || crate::header::canonical(other) == crate::header::canonical(key)) by {
        crate::header::law_set_then_get(h, key, val, other);
    }
}

/// `name` alone where `there` is so.
pub open spec fn only_if(there: bool, name: Seq<char>) -> Seq<Seq<char>> {
    if there {
        seq![name]
    } else {
        Seq::empty()
    }
}

/// The keys of a header in their order.
pub open spec fn keys_of(h: HeaderView) -> Seq<Seq<char>> {
    h.map_values(|entry: (Seq<char>, Seq<Seq<char>>)| entry.0)
}

proof fn lemma_fill_addresses_order(h: HeaderView, key: Seq<char>, list: Seq<Seq<char>>)
    requires
        !crate::header::header_has(h, key),
        fill_addresses(h, key, list) is Ok,
    ensures
        keys_of(fill_addresses(h, key, list)->Ok_0) == keys_of(h) + only_if(
            list.len() > 0,
            crate::header::canonical(key),
        ),
        forall|other: Seq<char>|
            crate::header::canonical(other) != crate::header::canonical(key) ==> (
            #[trigger] crate::header::header_has(fill_addresses(h, key, list)->Ok_0, other)
                <==> crate::header::header_has(h, other)),
{
    if list.len() > 0 {
        let val = crate::address::comma_joined(
            crate::address::formatted_addresses(list)->Ok_0,
        );
        lemma_fill_order(h, key, val);
        assert(keys_of(fill(h, key, val)) == keys_of(h) + only_if(
            true,
            crate::header::canonical(key),
        ));
    } else {
        assert(keys_of(h) + only_if(false, crate::header::canonical(key)) == keys_of(h));
    }
}

/// Law: the fields of a message without custom headers stand in this order: Reply-To, To,
/// Cc and Subject, as far as it has them, then Message-Id, From, Date and MIME-Version.
pub proof fn law_field_order(e: EmailView, id: Seq<char>, date: Seq<char>, h: HeaderView)
    requires
        e.headers.len() == 0,
        message_headers(e, id, date) == Ok::<HeaderView, Seq<char>>(h),
    ensures
        keys_of(h) == only_if(
            e.reply_to.len() > 0,
            crate::header::canonical("Reply-To"@),
        ) + only_if(e.to.len() > 0, crate::header::canonical("To"@)) + only_if(
            e.cc.len() > 0,
            crate::header::canonical("Cc"@),
        ) + only_if(e.subject.len() > 0, crate::header::canonical("Subject"@)) + seq![
            crate::header::canonical("Message-Id"@),
            crate::header::canonical("From"@),
            crate::header::canonical("Date"@),
            crate::header::canonical("MIME-Version"@),
        ],
{
    lemma_field_names();
    let none: HeaderView = Seq::empty();
    assert(e.headers == none);
    assert(pulled(none) == none);
    assert(keys_of(none) == Seq::<Seq<char>>::empty());
    let r1 = fill_addresses(none, HDR_REPLY_TO@, e.reply_to)->Ok_0;
    lemma_fill_addresses_order(none, HDR_REPLY_TO@, e.reply_to);
    let r2 = fill_addresses(r1, HDR_TO@, e.to)->Ok_0;
    lemma_fill_addresses_order(r1, HDR_TO@, e.to);
    let r3 = fill_addresses(r2, HDR_CC@, e.cc)->Ok_0;
    lemma_fill_addresses_order(r2, HDR_CC@, e.cc);
    assert(!crate::header::header_has(r3, HDR_SUBJECT@));
    let r4 = if e.subject.len() == 0 {
        r3
    } else {
        fill(r3, HDR_SUBJECT@, e.subject)
    };
    lemma_fill_order(r3, HDR_SUBJECT@, e.subject);
    assert(!crate::header::header_has(r4, HDR_MESSAGE_ID@)) by {
        assert(!crate::header::header_has(r3, HDR_MESSAGE_ID@));
    }
    let r5 = fill(r4, HDR_MESSAGE_ID@, id);
    lemma_fill_order(r4, HDR_MESSAGE_ID@, id);
    assert(!crate::header::header_has(r5, HDR_FROM@)) by {
        assert(!crate::header::header_has(r3, HDR_FROM@));
        assert(!crate::header::header_has(r4, HDR_FROM@));
    }
    let shown = crate::address::formatted_address(e.from)->Ok_0;
    let r6 = fill(r5, HDR_FROM@, shown);
    lemma_fill_order(r5, HDR_FROM@, shown);
    assert(!crate::header::header_has(r6, HDR_DATE@)) by {
        assert(!crate::header::header_has(r3, HDR_DATE@));
        assert(!crate::header::header_has(r4, HDR_DATE@));
        assert(!crate::header::header_has(r5, HDR_DATE@));
    }
    let r7 = fill(r6, HDR_DATE@, date);
    lemma_fill_order(r6, HDR_DATE@, date);
    assert(!crate::header::header_has(r7, HDR_MIME_VERSION@)) by {
        assert(!crate::header::header_has(r3, HDR_MIME_VERSION@));
        assert(!crate::header::header_has(r4, HDR_MIME_VERSION@));
        assert(!crate::header::header_has(r5, HDR_MIME_VERSION@));
        assert(!crate::header::header_has(r6, HDR_MIME_VERSION@));
    }
    lemma_fill_order(r7, HDR_MIME_VERSION@, DEFAULT_MIME_VERSION@);
    let start = only_if(e.reply_to.len() > 0, crate::header::canonical("Reply-To"@)) + only_if(
        e.to.len() > 0,
        crate::header::canonical("To"@),
    ) + only_if(e.cc.len() > 0, crate::header::canonical("Cc"@));
    assert(keys_of(r3) == start);
    assert(keys_of(r4) == start + only_if(
        e.subject.len() > 0,
        crate::header::canonical("Subject"@),
    ));
    assert(h == fill(r7, HDR_MIME_VERSION@, DEFAULT_MIME_VERSION@));
    let four = seq![
        crate::header::canonical("Message-Id"@),
        crate::header::canonical("From"@),
        crate::header::canonical("Date"@),
        crate::header::canonical("MIME-Version"@),
    ];
    assert(keys_of(h) == keys_of(r4) + four);
}

/// The custom entries that no field of the message stands for, in their order.
pub open spec fn unrecognized(custom: HeaderView) -> HeaderView
    decreases custom.len(),
{
    if custom.len() == 0 {
        Seq::empty()
    } else if is_recognized(custom.last().0) {
        unrecognized(custom.drop_last())
    } else {
        unrecognized(custom.drop_last()).push(custom.last())
    }
}

/// Values that are added under a key that is not there make one entry at the end.
proof fn lemma_add_all_new(h: HeaderView, key: Seq<char>, vals: Seq<Seq<char>>)
    requires
        !crate::header::header_has(h, key),
        vals.len() > 0,
    ensures
        add_all(h, key, vals) == h.push((crate::header::canonical(key), vals)),
    decreases vals.len(),
{
    let canon = crate::header::canonical(key);
    let init = vals.drop_last();
    if vals.len() == 1 {
        assert(add_all(h, key, init) == h);
        assert(seq![vals.last()] == vals);
    } else {
        lemma_add_all_new(h, key, init);
        let before = add_all(h, key, init);
        crate::header::lemma_find(h, canon);
        crate::header::lemma_find_first(before, canon, h.len() as int);
        assert(init.push(vals.last()) == vals);
        assert(crate::header::header_add(before, key, vals.last()) == h.push((canon, vals)));
    }
}

/// What is copied of the custom headers are those that are not there yet.
proof fn lemma_copied(base: HeaderView, custom: HeaderView)
    requires
        crate::header::header_wf(custom),
        stable_keys(custom),
        forall|key: Seq<char>| #[trigger]
            crate::header::header_has(base, key) ==> is_recognized(key),
        forall|i: int|
            0 <= i < custom.len() && is_recognized((#[trigger] custom[i]).0)
                ==> crate::header::header_has(base, custom[i].0),
    ensures
        copy_rest(base, custom) == base + unrecognized(custom),
        forall|key: Seq<char>| #[trigger]
            crate::header::header_has(copy_rest(base, custom), key) ==> is_recognized(key) || exists|
                i: int,
            |
                0 <= i < custom.len() && (#[trigger] custom[i]).0 == crate::header::canonical(key),
    decreases custom.len(),
{
    if custom.len() == 0 {
        assert(base + unrecognized(custom) == base);
    } else {
        let init = custom.drop_last();
        let last = custom.last();
        let n = custom.len() - 1;
        assert(last == custom[n]);
        assert forall|i: int| 0 <= i < init.len() implies #[trigger] init[i] == custom[i] by {}
        assert(crate::header::header_wf(init));
        assert(stable_keys(init));
        lemma_copied(base, init);
        let before = copy_rest(base, init);
        let all = copy_rest(base, custom);
        if is_recognized(last.0) {
            lemma_copy_rest(base, init, last.0);
            assert(crate::header::header_has(before, last.0));
        } else {
            if crate::header::header_has(before, last.0) {
                let i = choose|i: int|
                    0 <= i < init.len() && (#[trigger] init[i]).0 == crate::header::canonical(
                        last.0,
                    );
                assert(custom[i].0 == custom[n].0);
            }
            lemma_add_all_new(before, last.0, last.1);
            assert(base + unrecognized(custom) == (base + unrecognized(init)).push(last));
        }
        assert forall|key: Seq<char>| #[trigger] crate::header::header_has(all, key) implies
            is_recognized(key) || exists|i: int|
            0 <= i < custom.len() && (#[trigger] custom[i]).0 == crate::header::canonical(key) by {
            let canon = crate::header::canonical(key);
            crate::header::lemma_find(all, canon);
            crate::header::lemma_find(before, canon);
            if crate::header::header_has(before, key) {
                if !is_recognized(key) {
                    let i = choose|i: int|
                        0 <= i < init.len() && (#[trigger] init[i]).0 == canon;
                    assert(custom[i].0 == canon);
                }
            } else if !is_recognized(last.0) {
                assert(custom[n].0 == canon);
            }
        }
    }
}

/// Law: behind the fields that a message stands for come all other custom headers, in
/// their order and with all their values.
pub proof fn law_custom_order(e: EmailView, id: Seq<char>, date: Seq<char>, h: HeaderView)
    requires
        crate::header::header_wf(e.headers),
        stable_keys(e.headers),
        message_headers(e, id, date) == Ok::<HeaderView, Seq<char>>(h),
    ensures
        exists|n: int|
            0 <= n <= h.len() && #[trigger] h.skip(n) == unrecognized(e.headers) && forall|key: Seq<
                char,
            >| #[trigger]
                crate::header::header_has(h.take(n), key) ==> is_recognized(key),
{
    let custom = e.headers;
    let r3 = addressed(e)->Ok_0;
    let r6 = fill_address(identified(r3, e, id), HDR_FROM@, e.from)->Ok_0;
    let base = fill(fill(r6, HDR_DATE@, date), HDR_MIME_VERSION@, DEFAULT_MIME_VERSION@);
    assert forall|key: Seq<char>| #[trigger] crate::header::header_has(base, key) implies
        is_recognized(key) by {
        lemma_base(e, id, date, key);
    }
    assert forall|i: int|
        0 <= i < custom.len() && is_recognized((#[trigger] custom[i]).0) implies
        crate::header::header_has(base, custom[i].0) by {
        lemma_base(e, id, date, custom[i].0);
        crate::header::lemma_find(custom, custom[i].0);
    }
    lemma_copied(base, custom);
    let n = base.len() as int;
    assert(h.skip(n) == unrecognized(custom));
    assert(h.take(n) == base);
}

/// What a header holds before the other custom headers are copied: fields that are
/// recognized, among them all custom ones that are.
proof fn lemma_base(e: EmailView, id: Seq<char>, date: Seq<char>, key: Seq<char>)
    requires
        crate::header::header_wf(e.headers),
        message_headers(e, id, date) is Ok,
    ensures
        ({
            let r3 = addressed(e)->Ok_0;
            let r6 = fill_address(identified(r3, e, id), HDR_FROM@, e.from)->Ok_0;
            let base = fill(fill(r6, HDR_DATE@, date), HDR_MIME_VERSION@, DEFAULT_MIME_VERSION@);
            &&& crate::header::header_has(base, key) ==> is_recognized(key)
            &&& is_recognized(key) && crate::header::header_has(e.headers, key)
                ==> crate::header::header_has(base, key)
        }),
{
    let r0 = pulled(e.headers);
    lemma_pulled(e.headers, key);
    let r1 = fill_addresses(r0, HDR_REPLY_TO@, e.reply_to)->Ok_0;
    lemma_fill_addresses(r0, HDR_REPLY_TO@, e.reply_to, key);
    let r2 = fill_addresses(r1, HDR_TO@, e.to)->Ok_0;
    lemma_fill_addresses(r1, HDR_TO@, e.to, key);
    let r3 = fill_addresses(r2, HDR_CC@, e.cc)->Ok_0;
    lemma_fill_addresses(r2, HDR_CC@, e.cc, key);
    let r4 = if e.subject.len() == 0 {
        r3
    } else {
        fill(r3, HDR_SUBJECT@, e.subject)
    };
    lemma_fill(r3, HDR_SUBJECT@, e.subject, key);
    let r5 = fill(r4, HDR_MESSAGE_ID@, id);
    lemma_fill(r4, HDR_MESSAGE_ID@, id, key);
    let r6 = fill_address(r5, HDR_FROM@, e.from)->Ok_0;
    if let Ok(shown) = crate::address::formatted_address(e.from) {
        crate::header::law_set_then_get(r5, HDR_FROM@, shown, key);
    }
    let r7 = fill(r6, HDR_DATE@, date);
    lemma_fill(r6, HDR_DATE@, date, key);
    lemma_fill(r7, HDR_MIME_VERSION@, DEFAULT_MIME_VERSION@, key);
}

} // verus!
