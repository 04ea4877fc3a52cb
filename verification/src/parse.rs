//! Parsing a raw message into an [`Email`]: the addressing headers are lifted onto
//! its fields, and the MIME parts are distributed into its texts and attachments.

use vstd::prelude::*;

use crate::email::{Attachment, AttachmentView, Email, EmailView};
use crate::error::Error;
use crate::header::{canonicalize, HeaderView, MimeHeader};
use crate::names::{
    CONTENT_TYPE_HTML, CONTENT_TYPE_PLAIN, HDR_BCC, HDR_CC, HDR_FROM, HDR_SUBJECT, HDR_TO,
};
use crate::text::{copy_bytes, same_text};

verus! {

// ---------------------------------------------------------------------------
// Parts
// ---------------------------------------------------------------------------

/// One part of a parsed message.
#[derive(Debug)]
pub struct Part {
    /// How many parts it contains itself.
    pub subparts: usize,
    /// Its MIME type, in lower case.
    pub mimetype: String,
    /// Its header fields, decoded, in their order.
    pub headers: Vec<(String, String)>,
    /// Its body with the transfer encoding undone; none where that fails.
    pub body: Option<Vec<u8>>,
    /// Whether that encoding is base64, which skips line endings.
    pub is_base64: bool,
    /// The parameters of its Content-Disposition.
    pub disposition: Vec<(String, String)>,
}

/// What a [`Part`] holds.
pub struct PartView {
    pub subparts: nat,
    pub mimetype: Seq<char>,
    pub headers: Seq<(Seq<char>, Seq<char>)>,
    pub body: Option<Seq<u8>>,
    pub is_base64: bool,
    pub disposition: Seq<(Seq<char>, Seq<char>)>,
}

impl View for Part {
    type V = PartView;

    open spec fn view(&self) -> PartView {
        PartView {
            subparts: self.subparts as nat,
            mimetype: self.mimetype@,
            headers: self.headers.deep_view(),
            body: match self.body {
                Some(b) => Some(b@),
                None => None,
            },
            is_base64: self.is_base64,
            disposition: self.disposition.deep_view(),
        }
    }
}

impl DeepView for Part {
    type V = PartView;

    open spec fn deep_view(&self) -> PartView {
        self@
    }
}

/// What the `mailparse` crate makes of a raw message: its parts, or in words why
/// it has none.
pub uninterp spec fn parsed_mail(raw: Seq<u8>) -> Result<Seq<PartView>, Seq<char>>;

/// `parse_mail` of the `mailparse` crate, and the traversal `parts` of what it
/// returns: the message itself, then all that it contains, depth first, each with
/// what the accessors of the crate give for it. The outcome depends on the bytes
/// alone, so it has a name; nothing else is claimed of it. The crate calls itself
/// once for each level of containers in the message.
#[verifier::external_body]
fn parse_mail(raw: &[u8]) -> (r: Result<Vec<Part>, String>)
    ensures
        match (r, parsed_mail(raw@)) {
            (Ok(parts), Ok(q)) => parts.deep_view() == q,
            (Err(e), Err(t)) => e@ == t,
            _ => false,
        },
{
    let parsed = mailparse::parse_mail(raw).map_err(|e| e.to_string())?;
    Ok(parsed.parts().map(|p| Part {
        subparts: p.subparts.len(),
        mimetype: p.ctype.mimetype.clone(),
        headers: p.headers.iter().map(|h| (h.get_key(), h.get_value())).collect(),
        body: p.get_body_raw().ok(),
        is_base64: matches!(p.get_body_encoded(), mailparse::body::Body::Base64(_)),
        disposition: p.get_content_disposition().params.into_iter().collect(),
    }).collect())
}

// ---------------------------------------------------------------------------
// Headers
// ---------------------------------------------------------------------------

/// `e` with one header field of the message: lifted onto a field of its own if it
/// is an addressing header or the subject, else retained.
pub open spec fn lift(e: EmailView, key: Seq<char>, val: Seq<char>) -> EmailView {
    let c = crate::header::canonical(key);
    if c == HDR_SUBJECT@ {
        EmailView { subject: val, ..e }
    } else if c == HDR_TO@ {
        EmailView { to: e.to.push(val), ..e }
    } else if c == HDR_CC@ {
        EmailView { cc: e.cc.push(val), ..e }
    } else if c == HDR_BCC@ {
        EmailView { bcc: e.bcc.push(val), ..e }
    } else if c == HDR_FROM@ {
        EmailView { from: val, ..e }
    } else {
        EmailView { headers: crate::header::header_add(e.headers, key, val), ..e }
    }
}

/// The message with the given header fields and nothing else.
pub open spec fn lifted(headers: Seq<(Seq<char>, Seq<char>)>) -> EmailView
    decreases headers.len(),
{
    if headers.len() == 0 {
        crate::email::empty_email()
    } else {
        lift(lifted(headers.drop_last()), headers.last().0, headers.last().1)
    }
}

/// The header map of a part with the given header fields.
pub open spec fn collected(headers: Seq<(Seq<char>, Seq<char>)>) -> HeaderView
    decreases headers.len(),
{
    if headers.len() == 0 {
        Seq::empty()
    } else {
        crate::header::header_add(
            collected(headers.drop_last()),
            headers.last().0,
            headers.last().1,
        )
    }
}

/// Adds one header field to the message.
fn lift_header(e: &mut Email, key: &str, val: &str)
    ensures
        final(e)@ == lift(old(e)@, key@, val@),
{
    let canon = canonicalize(key);
    let c = canon.as_str();
    if same_text(c, HDR_SUBJECT) {
        e.subject = val.to_string();
    } else if same_text(c, HDR_TO) {
        let ghost before = e.to.deep_view();
        e.to.push(val.to_string());
        assert(e.to.deep_view() == before.push(val@));
    } else if same_text(c, HDR_CC) {
        let ghost before = e.cc.deep_view();
        e.cc.push(val.to_string());
        assert(e.cc.deep_view() == before.push(val@));
    } else if same_text(c, HDR_BCC) {
        let ghost before = e.bcc.deep_view();
        e.bcc.push(val.to_string());
        assert(e.bcc.deep_view() == before.push(val@));
    } else if same_text(c, HDR_FROM) {
        e.from = val.to_string();
    } else {
        e.headers.add(key, val);
    }
}

/// The message with the given header fields and nothing else.
fn lift_headers(headers: &Vec<(String, String)>) -> (e: Email)
    ensures
        e@ == lifted(headers.deep_view()),
{
    let ghost all = headers.deep_view();
    let mut e = Email::default();
    let mut i: usize = 0;
    assert(e@ == lifted(all.take(0)));
    while i < headers.len()
        invariant
            i <= headers@.len(),
            all == headers.deep_view(),
            e@ == lifted(all.take(i as int)),
        decreases headers@.len() - i,
    {
        assert(all.take(i + 1).drop_last() == all.take(i as int));
        assert(all.take(i + 1).last() == headers@[i as int].deep_view());
        lift_header(&mut e, headers[i].0.as_str(), headers[i].1.as_str());
        i += 1;
    }
    assert(all.take(i as int) == all);
    e
}

/// The header map of a part with the given header fields.
fn collect_headers(headers: &Vec<(String, String)>) -> (r: MimeHeader)
    ensures
        r@ == collected(headers.deep_view()),
{
    let ghost all = headers.deep_view();
    let mut r = MimeHeader::new();
    let mut i: usize = 0;
    assert(r@ == collected(all.take(0)));
    while i < headers.len()
        invariant
            i <= headers@.len(),
            all == headers.deep_view(),
            r@ == collected(all.take(i as int)),
        decreases headers@.len() - i,
    {
        assert(all.take(i + 1).drop_last() == all.take(i as int));
        assert(all.take(i + 1).last() == headers@[i as int].deep_view());
        r.add(headers[i].0.as_str(), headers[i].1.as_str());
        i += 1;
    }
    assert(all.take(i as int) == all);
    r
}

// ---------------------------------------------------------------------------
// Bodies
// ---------------------------------------------------------------------------

/// `body` without a single line ending (`\r\n`, `\n`, or `\r`) at its end.
pub open spec fn without_line_ending(body: Seq<u8>) -> Seq<u8> {
    if body.len() > 0 && body.last() == 10 {
        let shorter = body.drop_last();
        if shorter.len() > 0 && shorter.last() == 13 {
            shorter.drop_last()
        } else {
            shorter
        }
    } else if body.len() > 0 && body.last() == 13 {
        body.drop_last()
    } else {
        body
    }
}

/// The value of the parameter `name`; empty where there is none.
pub open spec fn parameter(params: Seq<(Seq<char>, Seq<char>)>, name: Seq<char>) -> Seq<char>
    decreases params.len(),
{
    if params.len() == 0 {
        Seq::empty()
    } else if params[0].0 == name {
        params[0].1
    } else {
        parameter(params.skip(1), name)
    }
}

/// The body of a part, where `nested` says whether it stands in a container. If so,
/// the line ending that belongs to the delimiter behind it is taken off. Behind
/// base64 text that line ending is skipped in decoding, so there is none to take
/// off.
pub open spec fn part_body(p: PartView, nested: bool) -> Seq<u8> {
    let body = match p.body {
        Some(b) => b,
        None => Seq::empty(),
    };
    if nested && !p.is_base64 {
        without_line_ending(body)
    } else {
        body
    }
}

/// The attachment that a part makes.
pub open spec fn part_attachment(p: PartView, nested: bool) -> AttachmentView {
    AttachmentView {
        filename: parameter(p.disposition, "filename"@),
        header: collected(p.headers),
        content: part_body(p, nested),
        html_related: false,
    }
}

/// `e` with the part `p`: as its text, as its HTML text, or as an attachment. A
/// container is left to the parts in it.
pub open spec fn place(e: EmailView, p: PartView, nested: bool) -> EmailView {
    if p.subparts > 0 {
        e
    } else if p.mimetype == CONTENT_TYPE_PLAIN@ {
        EmailView { text: part_body(p, nested), ..e }
    } else if p.mimetype == CONTENT_TYPE_HTML@ {
        EmailView { html: part_body(p, nested), ..e }
    } else {
        EmailView { attachments: e.attachments.push(part_attachment(p, nested)), ..e }
    }
}

/// `e` with all `parts` of a message. All but the first, which is the message
/// itself, stand in a container.
pub open spec fn placed(e: EmailView, parts: Seq<PartView>) -> EmailView
    decreases parts.len(),
{
    if parts.len() == 0 {
        e
    } else {
        place(placed(e, parts.drop_last()), parts.last(), parts.len() > 1)
    }
}

/// The message that the given parts make.
pub open spec fn email_of(parts: Seq<PartView>) -> EmailView {
    placed(
        lifted(
            if parts.len() > 0 {
                parts[0].headers
            } else {
                Seq::empty()
            },
        ),
        parts,
    )
}

/// Removes a single trailing line-ending (`\r\n`, `\n`, or `\r`) from `body`,
/// if present.
pub fn strip_one_line_ending(body: &mut Vec<u8>)
    ensures
        final(body)@ == without_line_ending(old(body)@),
{
    let n = body.len();
    if n > 0 && body[n - 1] == 10 {
        body.pop();
        if n > 1 && body[n - 2] == 13 {
            body.pop();
        }
    } else if n > 0 && body[n - 1] == 13 {
        body.pop();
    }
    assert(body@ == without_line_ending(old(body)@));
}

/// The value of the parameter `name`; empty where there is none.
fn find_parameter(params: &Vec<(String, String)>, name: &str) -> (r: String)
    ensures
        r@ == parameter(params.deep_view(), name@),
{
    let ghost all = params.deep_view();
    let mut i: usize = 0;
    assert(all.skip(0) == all);
    while i < params.len()
        invariant
            i <= params@.len(),
            all == params.deep_view(),
            parameter(all.skip(i as int), name@) == parameter(all, name@),
        decreases params@.len() - i,
    {
        assert(all.skip(i as int)[0] == params@[i as int].deep_view());
        assert(all.skip(i as int).skip(1) == all.skip(i + 1));
        if same_text(params[i].0.as_str(), name) {
            return params[i].1.clone();
        }
        i += 1;
    }
    String::new()
}

/// Adds one part to the message.
fn place_part(e: &mut Email, p: &Part, nested: bool)
    ensures
        final(e)@ == place(old(e)@, p@, nested),
{
    if p.subparts == 0 {
        let mut body = match &p.body {
            Some(b) => copy_bytes(b.as_slice()),
            None => Vec::new(),
        };
        assert(p@.body is None ==> body@ == Seq::<u8>::empty());
        if nested && !p.is_base64 {
            strip_one_line_ending(&mut body);
        }
        assert(body@ == part_body(p@, nested));
        if same_text(p.mimetype.as_str(), CONTENT_TYPE_PLAIN) {
            e.text = body;
        } else if same_text(p.mimetype.as_str(), CONTENT_TYPE_HTML) {
            e.html = body;
        } else {
            let ghost before = e.attachments.deep_view();
            let a = Attachment {
                filename: find_parameter(&p.disposition, "filename"),
                header: collect_headers(&p.headers),
                content: body,
                html_related: false,
            };
            e.attachments.push(a);
            assert(e.attachments.deep_view() == before.push(a@));
        }
    }
}

/// Walks the parts of a message, assigning text/plain to `text`, text/html to
/// `html`, and everything else as an attachment. From all but the first, which is
/// the message itself, the single trailing line-ending that belongs to the
/// following boundary delimiter is stripped, where the decoded body has it.
pub fn distribute_parts(parts: &[Part], e: &mut Email)
    ensures
        final(e)@ == placed(old(e)@, parts.deep_view()),
{
    let ghost all = parts.deep_view();
    let mut i: usize = 0;
    assert(e@ == placed(old(e)@, all.take(0)));
    while i < parts.len()
        invariant
            i <= parts@.len(),
            all == parts.deep_view(),
            e@ == placed(old(e)@, all.take(i as int)),
        decreases parts@.len() - i,
    {
        assert(all.take(i + 1).drop_last() == all.take(i as int));
        assert(all.take(i + 1).last() == parts@[i as int]@);
        place_part(e, &parts[i], i > 0);
        i += 1;
    }
    assert(all.take(i as int) == all);
}

/// The message that the given parts make: the header fields of the first one,
/// which is the message itself, and the bodies of all.
pub fn email_from_parts(parts: &[Part]) -> (e: Email)
    ensures
        e@ == email_of(parts.deep_view()),
{
    let mut e = if parts.len() > 0 {
        lift_headers(&parts[0].headers)
    } else {
        Email::default()
    };
    distribute_parts(parts, &mut e);
    e
}

// ---------------------------------------------------------------------------
// Raw messages
// ---------------------------------------------------------------------------

/// Whether `b` is ASCII white space: a blank, a tab, a form feed or a part of a
/// line ending.
pub open spec fn is_ascii_space(b: u8) -> bool {
    b == 32 || b == 9 || b == 10 || b == 12 || b == 13
}

/// `raw` from its first byte on that is no ASCII white space.
pub open spec fn without_leading_space(raw: Seq<u8>) -> Seq<u8>
    decreases raw.len(),
{
    if raw.len() > 0 && is_ascii_space(raw[0]) {
        without_leading_space(raw.skip(1))
    } else {
        raw
    }
}

/// Parses a raw RFC 5322 message into an [`Email`]. Leading whitespace is trimmed,
/// the Subject/To/Cc/Bcc/From headers are decoded and lifted onto the struct
/// fields, remaining headers are retained, and the MIME body parts are distributed
/// into `text`, `html` and `attachments`.
pub fn new_email_from_reader(raw: &[u8]) -> (r: Result<Email, Error>)
    ensures
        match (r, parsed_mail(without_leading_space(raw@))) {
            (Ok(e), Ok(parts)) => e@ == email_of(parts),
            (Err(e), Err(t)) => e matches Error::Parse(m) && m@ == t,
            _ => false,
        },
{
    let mut start: usize = 0;
    assert(raw@.skip(0) == raw@);
    while start < raw.len() && (raw[start] == 32 || raw[start] == 9 || raw[start] == 10
        || raw[start] == 12 || raw[start] == 13)
        invariant
            start <= raw@.len(),
            without_leading_space(raw@.skip(start as int)) == without_leading_space(raw@),
        decreases raw@.len() - start,
    {
        assert(raw@.skip(start as int).skip(1) == raw@.skip(start + 1));
        start += 1;
    }
    let trimmed = vstd::slice::slice_subrange(raw, start, raw.len());
    assert(trimmed@ == raw@.skip(start as int));
    match parse_mail(trimmed) {
        Ok(parts) => Ok(email_from_parts(parts.as_slice())),
        Err(t) => Err(Error::Parse(t)),
    }
}

// ---------------------------------------------------------------------------
// Laws
// ---------------------------------------------------------------------------

/// Law: white space before a message has no part in what it is parsed into.
pub proof fn law_leading_space(space: Seq<u8>, raw: Seq<u8>)
    requires
        forall|i: int| 0 <= i < space.len() ==> is_ascii_space(#[trigger] space[i]),
    ensures
        without_leading_space(space + raw) == without_leading_space(raw),
    decreases space.len(),
{
    if space.len() == 0 {
        assert(space + raw == raw);
    } else {
        assert(is_ascii_space(space[0]));
        assert((space + raw).skip(1) == space.skip(1) + raw);
        assert forall|i: int| 0 <= i < space.skip(1).len() implies is_ascii_space(
            #[trigger] space.skip(1)[i],
        ) by {
            assert(space.skip(1)[i] == space[i + 1]);
        }
        law_leading_space(space.skip(1), raw);
    }
}

/// Law: the line ending that a delimiter puts behind a body, of whichever kind, is
/// taken off again, and no more than that. A body that ends in CR is left out for
/// the LF: with it the CR would make one line ending.
pub proof fn law_one_line_ending(body: Seq<u8>)
    ensures
        without_line_ending(body + crate::text::crlf()) == body,
        without_line_ending(body.push(13)) == body,
        (body.len() == 0 || body.last() != 13) ==> without_line_ending(body.push(10)) == body,
        (body.len() == 0 || (body.last() != 13 && body.last() != 10)) ==> without_line_ending(
            body,
        ) == body,
{
    let ended = body + crate::text::crlf();
    assert(ended.drop_last() == body.push(13));
    assert(body.push(13).drop_last() == body);
    assert(body.push(10).drop_last() == body);
}

/// Law: a text that was written as a part of a container and decoded is read as it
/// was, with its line breaks normalized to CRLF.
pub proof fn law_text_survives(data: Seq<u8>)
    ensures
        without_line_ending(
            crate::encoding::qp_decode(
                crate::encoding::quoted_printable(data, 0) + crate::text::crlf(),
            ),
        ) == crate::encoding::normalize_breaks(data),
{
    crate::encoding::law_qp_part_round_trip(data);
    law_one_line_ending(crate::encoding::normalize_breaks(data));
}

/// Law: an attachment that was written and decoded is read as it was, byte for
/// byte.
pub proof fn law_attachment_survives(p: PartView, content: Seq<u8>, nested: bool)
    requires
        p.is_base64,
        p.body == Some(
            crate::encoding::base64_decode(
                crate::encoding::without_breaks(
                    crate::encoding::base64_lines(content) + crate::text::crlf(),
                ),
            ),
        ),
    ensures
        part_body(p, nested) == content,
{
    crate::encoding::law_base64_part_round_trip(content);
}

/// The values of all fields with the canonical key `canon`, in their order.
pub open spec fn values_under(headers: Seq<(Seq<char>, Seq<char>)>, canon: Seq<char>) -> Seq<
    Seq<char>,
>
    decreases headers.len(),
{
    if headers.len() == 0 {
        Seq::empty()
    } else if crate::header::canonical(headers.last().0) == canon {
        values_under(headers.drop_last(), canon).push(headers.last().1)
    } else {
        values_under(headers.drop_last(), canon)
    }
}

/// The last of `vals`; empty where there is none.
pub open spec fn last_or_empty(vals: Seq<Seq<char>>) -> Seq<char> {
    if vals.len() == 0 {
        Seq::empty()
    } else {
        vals.last()
    }
}

/// Whether the canonical key `canon` is lifted onto a field of its own.
pub open spec fn is_lifted(canon: Seq<char>) -> bool {
    canon == HDR_SUBJECT@ || canon == HDR_TO@ || canon == HDR_CC@ || canon == HDR_BCC@ || canon
        == HDR_FROM@
}

/// Law: the addressing headers are lifted, all values of To, Cc and Bcc in their
/// order and the last one of Subject and From; all values of every other header
/// are retained in their order, and none of a lifted one.
pub proof fn law_lifted(headers: Seq<(Seq<char>, Seq<char>)>, key: Seq<char>)
    ensures
        lifted(headers).to == values_under(headers, HDR_TO@),
        lifted(headers).cc == values_under(headers, HDR_CC@),
        lifted(headers).bcc == values_under(headers, HDR_BCC@),
        lifted(headers).subject == last_or_empty(values_under(headers, HDR_SUBJECT@)),
        lifted(headers).from == last_or_empty(values_under(headers, HDR_FROM@)),
        crate::header::header_values(lifted(headers).headers, key) == {
            let vals = values_under(headers, crate::header::canonical(key));
            if is_lifted(crate::header::canonical(key)) || vals.len() == 0 {
                None
            } else {
                Some(vals)
            }
        },
    decreases headers.len(),
{
    lemma_lifted_names_distinct();
    if headers.len() > 0 {
        let init = headers.drop_last();
        law_lifted(init, key);
        let e = lifted(init);
        let (k, val) = headers.last();
        crate::header::law_add_then_get(e.headers, k, val, key);
        if crate::header::canonical(key) == crate::header::canonical(k) {
            assert(crate::header::header_values(e.headers, k) == crate::header::header_values(
                e.headers,
                key,
            ));
            assert(Seq::<Seq<char>>::empty().push(val) == seq![val]);
        }
    }
}

/// The names of the lifted fields differ.
proof fn lemma_lifted_names_distinct()
    ensures
        HDR_SUBJECT@ != HDR_TO@,
        HDR_SUBJECT@ != HDR_CC@,
        HDR_SUBJECT@ != HDR_BCC@,
        HDR_SUBJECT@ != HDR_FROM@,
        HDR_TO@ != HDR_CC@,
        HDR_TO@ != HDR_BCC@,
        HDR_TO@ != HDR_FROM@,
        HDR_CC@ != HDR_BCC@,
        HDR_CC@ != HDR_FROM@,
        HDR_BCC@ != HDR_FROM@,
{
    reveal_strlit("Subject");
    reveal_strlit("To");
    reveal_strlit("Cc");
    reveal_strlit("Bcc");
    reveal_strlit("From");
    assert(HDR_TO@[0] == 'T' && HDR_CC@[0] == 'C');
    assert(HDR_SUBJECT@.len() == 7 && HDR_BCC@.len() == 3 && HDR_FROM@.len() == 4);
    assert(HDR_TO@.len() == 2 && HDR_CC@.len() == 2);
}

/// The bodies of the parts of `parts` that contain none themselves and have the
/// given MIME type.
pub open spec fn bodies_of(parts: Seq<PartView>, mimetype: Seq<char>) -> Seq<Seq<u8>>
    decreases parts.len(),
{
    if parts.len() == 0 {
        Seq::empty()
    } else if parts.last().subparts == 0 && parts.last().mimetype == mimetype {
        bodies_of(parts.drop_last(), mimetype).push(part_body(parts.last(), parts.len() > 1))
    } else {
        bodies_of(parts.drop_last(), mimetype)
    }
}

/// The attachments among the parts of `parts`: those that contain none themselves
/// and are no text.
pub open spec fn files_of(parts: Seq<PartView>) -> Seq<AttachmentView>
    decreases parts.len(),
{
    if parts.len() == 0 {
        Seq::empty()
    } else if parts.last().subparts == 0 && parts.last().mimetype != CONTENT_TYPE_PLAIN@
        && parts.last().mimetype != CONTENT_TYPE_HTML@ {
        files_of(parts.drop_last()).push(part_attachment(parts.last(), parts.len() > 1))
    } else {
        files_of(parts.drop_last())
    }
}

/// Law: of a parsed message the text is the last plain one, the HTML text the last
/// one in HTML, and every other part that contains none is an attachment; the
/// bodies have no part in the header fields.
pub proof fn law_parts_distributed(e: EmailView, parts: Seq<PartView>)
    ensures
        placed(e, parts).text == {
            let texts = bodies_of(parts, CONTENT_TYPE_PLAIN@);
            if texts.len() == 0 {
                e.text
            } else {
                texts.last()
            }
        },
        placed(e, parts).html == {
            let texts = bodies_of(parts, CONTENT_TYPE_HTML@);
            if texts.len() == 0 {
                e.html
            } else {
                texts.last()
            }
        },
        placed(e, parts).attachments == e.attachments + files_of(parts),
        placed(e, parts) == (EmailView {
            text: placed(e, parts).text,
            html: placed(e, parts).html,
            attachments: placed(e, parts).attachments,
            ..e
        }),
    decreases parts.len(),
{
    reveal_strlit("text/plain");
    reveal_strlit("text/html");
    assert(CONTENT_TYPE_PLAIN@.len() != CONTENT_TYPE_HTML@.len());
    if parts.len() > 0 {
        law_parts_distributed(e, parts.drop_last());
        let p = parts.last();
        if p.subparts == 0 && p.mimetype != CONTENT_TYPE_PLAIN@ && p.mimetype
            != CONTENT_TYPE_HTML@ {
            assert(e.attachments + files_of(parts) == (e.attachments + files_of(
                parts.drop_last(),
            )).push(part_attachment(p, parts.len() > 1)));
        }
    } else {
        assert(e.attachments + files_of(parts) == e.attachments);
    }
}

/// Law: the header of a parsed part has, for every key, all the values that the part's
/// fields have under it, in their order, and no others.
pub proof fn law_collected(headers: Seq<(Seq<char>, Seq<char>)>, key: Seq<char>)
    ensures
        crate::header::header_values(collected(headers), key) == {
            let vals = values_under(headers, crate::header::canonical(key));
            if vals.len() == 0 {
                None
            } else {
                Some(vals)
            }
        },
    decreases headers.len(),
{
    if headers.len() > 0 {
        let init = headers.drop_last();
        law_collected(init, key);
        let (k, val) = headers.last();
        crate::header::law_add_then_get(collected(init), k, val, key);
        if crate::header::canonical(key) == crate::header::canonical(k) {
            assert(crate::header::header_values(collected(init), k)
                == crate::header::header_values(collected(init), key));
            assert(Seq::<Seq<char>>::empty().push(val) == seq![val]);
        }
    }
}

/// Law: values under a key are the ones of fields with that key: those of two lists of
/// fields follow upon each other, and one field has one.
pub proof fn law_values_under(
    a: Seq<(Seq<char>, Seq<char>)>,
    b: Seq<(Seq<char>, Seq<char>)>,
    key: Seq<char>,
    val: Seq<char>,
    canon: Seq<char>,
)
    ensures
        values_under(a + b, canon) == values_under(a, canon) + values_under(b, canon),
        values_under(seq![(key, val)], canon) == if crate::header::canonical(key) == canon {
            seq![val]
        } else {
            Seq::empty()
        },
    decreases b.len(),
{
    let none = Seq::<(Seq<char>, Seq<char>)>::empty();
    assert(seq![(key, val)].drop_last() == none);
    assert(values_under(none, canon) == Seq::<Seq<char>>::empty());
    assert(Seq::<Seq<char>>::empty().push(val) == seq![val]);
    if b.len() == 0 {
        assert(a + b == a);
        assert(values_under(a, canon) + values_under(b, canon) == values_under(a, canon));
    } else {
        law_values_under(a, b.drop_last(), key, val, canon);
        assert((a + b).drop_last() == a + b.drop_last());
        assert(values_under(a + b, canon) == values_under(a, canon) + values_under(b, canon));
    }
}

/// Law: a part that is read as an attachment keeps its name, all its fields and its
/// content. Its name is the first parameter of its disposition that is called so.
pub proof fn law_part_attachment(
    p: PartView,
    before: Seq<(Seq<char>, Seq<char>)>,
    name: Seq<char>,
    after: Seq<(Seq<char>, Seq<char>)>,
    nested: bool,
    key: Seq<char>,
)
    requires
        forall|i: int| 0 <= i < before.len() ==> (#[trigger] before[i]).0 != "filename"@,
    ensures
        p.disposition == before + seq![("filename"@, name)] + after ==> part_attachment(
            p,
            nested,
        ).filename == name,
        p.disposition == before ==> part_attachment(p, nested).filename.len() == 0,
        !part_attachment(p, nested).html_related,
        p.is_base64 || !nested ==> (p.body matches Some(b) ==> part_attachment(p, nested).content
            == b),
        !p.is_base64 && nested ==> (p.body matches Some(b) ==> (forall|text: Seq<u8>|
            b == #[trigger] (text + crate::text::crlf()) ==> part_attachment(p, nested).content
                == text)),
        p.body is None ==> part_attachment(p, nested).content.len() == 0,
        crate::header::header_values(part_attachment(p, nested).header, key) == {
            let vals = values_under(p.headers, crate::header::canonical(key));
            if vals.len() == 0 {
                None
            } else {
                Some(vals)
            }
        },
{
    law_collected(p.headers, key);
    lemma_first_parameter(before, "filename"@, name, after);
    if let Some(b) = p.body {
        assert forall|text: Seq<u8>|
            !p.is_base64 && nested && b == #[trigger] (text + crate::text::crlf()) implies
            part_attachment(p, nested).content == text by {
            law_one_line_ending(text);
        }
    }
}

proof fn lemma_first_parameter(
    before: Seq<(Seq<char>, Seq<char>)>,
    name: Seq<char>,
    val: Seq<char>,
    after: Seq<(Seq<char>, Seq<char>)>,
)
    requires
        forall|i: int| 0 <= i < before.len() ==> (#[trigger] before[i]).0 != name,
    ensures
        parameter(before + seq![(name, val)] + after, name) == val,
        parameter(before, name).len() == 0,
    decreases before.len(),
{
    let all = before + seq![(name, val)] + after;
    if before.len() > 0 {
        let rest = before.skip(1);
        assert forall|i: int| 0 <= i < rest.len() implies (#[trigger] rest[i]).0 != name by {
            assert(rest[i] == before[i + 1]);
        }
        lemma_first_parameter(rest, name, val, after);
        assert(all[0] == before[0]);
        assert(all.skip(1) == rest + seq![(name, val)] + after);
    } else {
        assert(all[0] == (name, val));
    }
}

/// Law: of a message only the white space that it starts with is left out: what is left
/// is its end, and starts with no blank, tab, form feed or part of a line ending.
pub proof fn law_space_is_leading(raw: Seq<u8>)
    ensures
        exists|n: int|
            0 <= n <= raw.len() && without_leading_space(raw) == #[trigger] raw.skip(n)
                && forall|i: int| 0 <= i < n ==> seq![9u8, 10, 12, 13, 32].contains(#[trigger] raw[i]),
        without_leading_space(raw).len() > 0 ==> !seq![9u8, 10, 12, 13, 32].contains(
            without_leading_space(raw)[0],
        ),
    decreases raw.len(),
{
    let space = seq![9u8, 10, 12, 13, 32];
    assert(space.contains(space[0]) && space.contains(space[1]) && space.contains(space[2])
        && space.contains(space[3]) && space.contains(space[4]));
    if raw.len() > 0 && is_ascii_space(raw[0]) {
        law_space_is_leading(raw.skip(1));
        let n = choose|n: int|
            0 <= n <= raw.skip(1).len() && without_leading_space(raw.skip(1))
                == #[trigger] raw.skip(1).skip(n) && forall|i: int|
                0 <= i < n ==> space.contains(#[trigger] raw.skip(1)[i]);
        assert(raw.skip(1).skip(n) == raw.skip(n + 1));
        assert forall|i: int| 0 <= i < n + 1 implies space.contains(#[trigger] raw[i]) by {
            if i > 0 {
                assert(raw[i] == raw.skip(1)[i - 1]);
            }
        }
    } else {
        assert(raw.skip(0) == raw);
    }
}

/// Law: the body of a part is its decoded body; where it stands in a container and is not
/// base64 text, without the line ending of the delimiter behind it.
pub proof fn law_part_body(p: PartView, nested: bool)
    ensures
        p.body is None ==> part_body(p, nested).len() == 0,
        p.body matches Some(b) ==> {
            &&& !nested || p.is_base64 ==> part_body(p, nested) == b
            &&& nested && !p.is_base64 ==> part_body(p, nested) == without_line_ending(b)
        },
{
    assert(without_line_ending(Seq::empty()) == Seq::<u8>::empty());
}

/// Law: header fields bring nothing but what is lifted and what is retained: no envelope
/// sender, no Reply-To list, no read receipts and no bodies.
pub proof fn law_lifted_alone(headers: Seq<(Seq<char>, Seq<char>)>)
    ensures
        lifted(headers).sender.len() == 0,
        lifted(headers).reply_to.len() == 0,
        lifted(headers).read_receipt.len() == 0,
        lifted(headers).text.len() == 0,
        lifted(headers).html.len() == 0,
        lifted(headers).attachments.len() == 0,
    decreases headers.len(),
{
    if headers.len() > 0 {
        law_lifted_alone(headers.drop_last());
    }
}

/// Law: a parsed message has the header fields of its first part, which is the message
/// itself, and the texts and attachments of all its parts.
pub proof fn law_email_of(parts: Seq<PartView>, key: Seq<char>)
    requires
        parts.len() > 0,
    ensures
        ({
            let e = email_of(parts);
            let headers = parts[0].headers;
            let texts = bodies_of(parts, "text/plain"@);
            let pages = bodies_of(parts, "text/html"@);
            &&& e.to == values_under(headers, "To"@)
            &&& e.cc == values_under(headers, "Cc"@)
            &&& e.bcc == values_under(headers, "Bcc"@)
            &&& e.subject == last_or_empty(values_under(headers, "Subject"@))
            &&& e.from == last_or_empty(values_under(headers, "From"@))
            &&& e.sender.len() == 0
            &&& e.reply_to.len() == 0
            &&& e.read_receipt.len() == 0
            &&& texts.len() > 0 ==> e.text == texts.last()
            &&& texts.len() == 0 ==> e.text.len() == 0
            &&& pages.len() > 0 ==> e.html == pages.last()
            &&& pages.len() == 0 ==> e.html.len() == 0
            &&& e.attachments == files_of(parts)
            &&& crate::header::header_values(e.headers, key) == {
                let vals = values_under(headers, crate::header::canonical(key));
                if is_lifted(crate::header::canonical(key)) || vals.len() == 0 {
                    None
                } else {
                    Some(vals)
                }
            }
        }),
{
    let start = lifted(parts[0].headers);
    law_lifted(parts[0].headers, key);
    law_lifted_alone(parts[0].headers);
    law_parts_distributed(start, parts);
    assert(start.attachments + files_of(parts) == files_of(parts));
}

/// Law: parts make the message that has the header of the first of them and the texts and
/// attachments of all; a line ending is taken off a body once.
pub proof fn law_parse_calls(parts: &[Part], e: Email, body: &mut Vec<u8>)
    requires
        call_ensures(email_from_parts, (parts,), e),
        call_ensures(strip_one_line_ending, (body,), ()),
    ensures
        e@ == email_of(parts.deep_view()),
        forall|text: Seq<u8>|
            old(body)@ == #[trigger] (text + crate::text::crlf()) ==> final(body)@ == text,
        old(body)@.len() == 0 || (old(body)@.last() != 13 && old(body)@.last() != 10)
            ==> final(body)@ == old(body)@,
{
    assert forall|text: Seq<u8>|
        old(body)@ == #[trigger] (text + crate::text::crlf()) implies final(body)@ == text by {
        law_one_line_ending(text);
    }
    law_one_line_ending(old(body)@);
}

} // verus!
