//! MIME serialization. A message is rendered as its header, an empty line and its
//! body, which is one text or a tree of parts: `multipart/mixed` around
//! `multipart/alternative` around the texts, with `multipart/related` for the
//! attachments that the HTML text refers to.

use vstd::prelude::*;

use crate::email::{Attachment, AttachmentView, Email, EmailView};
use crate::encoding::{base64_wrap, qp_encode};
use crate::error::Error;
use crate::fields::header_to_bytes;
use crate::header::{HeaderView, MimeHeader};
use crate::multipart::MultipartWriter;
use crate::names::{
    CONTENT_ENC_QUOTED_PRINTABLE, CONTENT_TYPE_HTML, CONTENT_TYPE_MULTIPART_ALT,
    CONTENT_TYPE_MULTIPART_MIXED, CONTENT_TYPE_MULTIPART_RELATED, CONTENT_TYPE_PLAIN,
    DEFAULT_CHAR_ENCODING, HDR_CONTENT_TRANSFER_ENCODING, HDR_CONTENT_TYPE, HDR_DATE,
    HDR_MESSAGE_ID,
};
use crate::stamp::{Needs, Stamp, StampView};
use crate::text::{join3, push_crlf};

verus! {

/// What a message body is made of.
pub enum Entity {
    /// A text.
    Text { media: Seq<char>, body: Seq<u8> },
    /// An attachment.
    File { file: AttachmentView },
    /// A container of parts.
    Multi { kind: Seq<char>, boundary: Seq<char>, parts: Seq<Entity> },
}

/// `h` with the fields that say that a body is a text of the given media type.
pub open spec fn text_fields(h: HeaderView, media: Seq<char>) -> HeaderView {
    crate::header::header_set(
        crate::header::header_set(
            h,
            HDR_CONTENT_TYPE@,
            media + "; charset="@ + DEFAULT_CHAR_ENCODING@,
        ),
        HDR_CONTENT_TRANSFER_ENCODING@,
        CONTENT_ENC_QUOTED_PRINTABLE@,
    )
}

/// `h` with the field that says that a body is a container.
pub open spec fn multi_fields(
    h: HeaderView,
    kind: Seq<char>,
    boundary: Seq<char>,
) -> HeaderView {
    crate::header::header_set(h, HDR_CONTENT_TYPE@, kind + ";\r\n boundary="@ + boundary)
}

/// `h` with the fields that say what `t` is. An attachment brings its own header.
pub open spec fn entity_header(h: HeaderView, t: Entity) -> HeaderView {
    match t {
        Entity::Text { media, body } => text_fields(h, media),
        Entity::File { file } => file.header,
        Entity::Multi { kind, boundary, parts } => multi_fields(h, kind, boundary),
    }
}

/// The encoded body of `t`.
pub open spec fn entity_body(t: Entity) -> Seq<u8>
    decreases t,
{
    match t {
        Entity::Text { media, body } => crate::encoding::quoted_printable(body, 0),
        Entity::File { file } => crate::encoding::base64_lines(file.content),
        Entity::Multi { kind, boundary, parts } => parts_bytes(boundary, true, parts)
            + crate::multipart::closing(boundary),
    }
}

/// Parts of a container, each behind its delimiter, where `first` says whether
/// they are the first ones.
pub open spec fn parts_bytes(boundary: Seq<char>, first: bool, parts: Seq<Entity>) -> Seq<u8>
    decreases parts,
{
    if parts.len() == 0 {
        Seq::empty()
    } else {
        parts_bytes(boundary, first, parts.drop_last()) + crate::multipart::part_head(
            boundary,
            first && parts.len() == 1,
            entity_header(Seq::empty(), parts.last()),
        ) + entity_body(parts.last())
    }
}

/// The attachments `list` as parts.
pub open spec fn files(list: Seq<AttachmentView>) -> Seq<Entity> {
    list.map_values(|file: AttachmentView| Entity::File { file })
}

/// The text `body` of the given media type.
pub open spec fn text_entity(media: Seq<char>, body: Seq<u8>) -> Entity {
    Entity::Text { media, body }
}

/// The HTML text of `e`, together with the attachments that it refers to.
pub open spec fn html_entity(e: EmailView, s: StampView) -> Entity {
    let related = crate::email::select(e.attachments, true);
    if related.len() == 0 {
        text_entity(CONTENT_TYPE_HTML@, e.html)
    } else {
        Entity::Multi {
            kind: CONTENT_TYPE_MULTIPART_RELATED@,
            boundary: s.related,
            parts: seq![text_entity(CONTENT_TYPE_HTML@, e.html)] + files(related),
        }
    }
}

/// The texts of `e` as parts: the plain one, then the HTML one, where it has them.
pub open spec fn text_parts(e: EmailView, s: StampView) -> Seq<Entity> {
    (if e.text.len() > 0 {
        seq![text_entity(CONTENT_TYPE_PLAIN@, e.text)]
    } else {
        Seq::empty()
    }) + (if e.html.len() > 0 {
        seq![html_entity(e, s)]
    } else {
        Seq::empty()
    })
}

/// Whether `e` has attachments that are not embedded.
pub open spec fn is_mixed(e: EmailView) -> bool {
    crate::email::select(e.attachments, false).len() > 0
}

/// Whether `e` has a plain text and an HTML one.
pub open spec fn is_alternative(e: EmailView) -> bool {
    e.text.len() > 0 && e.html.len() > 0
}

/// What comes before the attachments in a multipart message. Both texts of a
/// `multipart/mixed` message stand in a `multipart/alternative` part.
pub open spec fn leading_parts(e: EmailView, s: StampView) -> Seq<Entity> {
    if is_mixed(e) && is_alternative(e) {
        seq![
            Entity::Multi {
                kind: CONTENT_TYPE_MULTIPART_ALT@,
                boundary: s.nested,
                parts: text_parts(e, s),
            },
        ]
    } else {
        text_parts(e, s)
    }
}

/// The body of the message `e`.
pub open spec fn message_entity(e: EmailView, s: StampView) -> Entity {
    if is_mixed(e) || is_alternative(e) {
        Entity::Multi {
            kind: if is_mixed(e) {
                CONTENT_TYPE_MULTIPART_MIXED@
            } else {
                CONTENT_TYPE_MULTIPART_ALT@
            },
            boundary: s.outer,
            parts: leading_parts(e, s) + files(crate::email::select(e.attachments, false)),
        }
    } else if e.html.len() > 0 {
        text_entity(CONTENT_TYPE_HTML@, e.html)
    } else {
        text_entity(CONTENT_TYPE_PLAIN@, e.text)
    }
}

/// Why a message cannot be rendered.
pub enum Fault {
    /// An address is invalid: its trimmed text.
    Address { text: Seq<char> },
    /// The attachments are inconsistent with the texts: what is wrong.
    Email { text: Seq<char> },
}

/// Whether `err` reports the fault `f`.
pub open spec fn is_fault(err: Error, f: Fault) -> bool {
    match f {
        Fault::Address { text } => crate::address::is_address_error(err, text),
        Fault::Email { text } => err matches Error::Email(m) && m@ == text,
    }
}

/// What is wrong with the attachments of `e`, if anything: those that are embedded
/// need an HTML text, and beside it a plain text or an attachment that is not
/// embedded.
pub open spec fn attachment_fault(e: EmailView) -> Option<Seq<char>> {
    if crate::email::select(e.attachments, true).len() == 0 {
        None
    } else if e.html.len() == 0 {
        Some("there are HTML attachments, but no HTML body"@)
    } else if !is_mixed(e) && !is_alternative(e) {
        Some("HTML-related attachments require a text part or another attachment"@)
    } else {
        None
    }
}

/// The message `e` as it is sent, with what the stamp `s` brings.
pub open spec fn rendered(e: EmailView, s: StampView) -> Result<Seq<u8>, Fault> {
    match crate::fields::message_headers(e, s.message_id, s.date) {
        Ok(h) => match attachment_fault(e) {
            Some(text) => Err(Fault::Email { text }),
            None => Ok(
                crate::fields::header_lines(entity_header(h, message_entity(e, s))) + crate::text::crlf()
                    + entity_body(message_entity(e, s)),
            ),
        },
        Err(text) => Err(Fault::Address { text }),
    }
}

/// Parts follow upon parts.
proof fn lemma_parts_append(boundary: Seq<char>, first: bool, a: Seq<Entity>, b: Seq<Entity>)
    ensures
        parts_bytes(boundary, first, a + b) == parts_bytes(boundary, first, a) + parts_bytes(
            boundary,
            first && a.len() == 0,
            b,
        ),
    decreases b.len(),
{
    if b.len() == 0 {
        assert(a + b == a);
    } else {
        lemma_parts_append(boundary, first, a, b.drop_last());
        assert((a + b).drop_last() == a + b.drop_last());
        assert(parts_bytes(boundary, first, a + b) == parts_bytes(boundary, first, a)
            + parts_bytes(boundary, first && a.len() == 0, b));
    }
}

/// One part is its head and its body.
proof fn lemma_one_part(boundary: Seq<char>, first: bool, t: Entity)
    ensures
        parts_bytes(boundary, first, seq![t]) == crate::multipart::part_head(
            boundary,
            first,
            entity_header(Seq::empty(), t),
        ) + entity_body(t),
{
    assert(seq![t].drop_last() == Seq::<Entity>::empty());
    assert(parts_bytes(boundary, first, seq![t].drop_last()) == Seq::<u8>::empty());
    assert(parts_bytes(boundary, first, seq![t]) == crate::multipart::part_head(
        boundary,
        first,
        entity_header(Seq::empty(), t),
    ) + entity_body(t));
}

/// What the message `e` needs of a stamp: a Message-ID and a date unless custom
/// headers bring them, and a boundary for each container that it has.
pub open spec fn needs(e: EmailView) -> Needs {
    Needs {
        message_id: !crate::header::header_has(e.headers, HDR_MESSAGE_ID@),
        date: !crate::header::header_has(e.headers, HDR_DATE@),
        outer: is_mixed(e) || is_alternative(e),
        nested: is_mixed(e) && is_alternative(e),
        related: crate::email::select(e.attachments, true).len() > 0,
    }
}

/// Sets the fields that say that a body is a text of the given media type.
fn set_text_fields(header: &mut MimeHeader, media_type: &str)
    ensures
        final(header)@ == text_fields(old(header)@, media_type@),
{
    let content_type = join3(media_type, "; charset=", DEFAULT_CHAR_ENCODING);
    header.set(HDR_CONTENT_TYPE, content_type.as_str());
    header.set(HDR_CONTENT_TRANSFER_ENCODING, CONTENT_ENC_QUOTED_PRINTABLE);
}

/// Sets the field that says that a body is a container.
fn set_multi_fields(header: &mut MimeHeader, kind: &str, boundary: &str)
    ensures
        final(header)@ == multi_fields(old(header)@, kind@, boundary@),
{
    let content_type = join3(kind, ";\r\n boundary=", boundary);
    header.set(HDR_CONTENT_TYPE, content_type.as_str());
}

/// Writes `msg` as a message body, optionally as a new multipart part, encoding
/// the body as quoted-printable.
pub fn write_message(
    buff: &mut Vec<u8>,
    msg: &[u8],
    multipart: bool,
    media_type: &str,
    w: &mut MultipartWriter,
)
    ensures
        multipart ==> final(buff)@ == old(buff)@ + parts_bytes(
            old(w).delim(),
            old(w).at_first(),
            seq![text_entity(media_type@, msg@)],
        ) && final(w).delim() == old(w).delim() && !final(w).at_first(),
        !multipart ==> final(buff)@ == old(buff)@ + entity_body(text_entity(media_type@, msg@))
            && *final(w) == *old(w),
{
    if multipart {
        let mut header = MimeHeader::new();
        set_text_fields(&mut header, media_type);
        w.create_part(buff, &header);
    }
    qp_encode(buff, msg);
    proof {
        lemma_one_part(old(w).delim(), old(w).at_first(), text_entity(media_type@, msg@));
    }
    assert(multipart ==> buff@ == old(buff)@ + parts_bytes(
        old(w).delim(),
        old(w).at_first(),
        seq![text_entity(media_type@, msg@)],
    ));
}

/// Writes each attachment of `list` as a new multipart part, encoding its content
/// as base64.
fn write_attachments(buff: &mut Vec<u8>, list: &Vec<&Attachment>, w: &mut MultipartWriter)
    ensures
        final(buff)@ == old(buff)@ + parts_bytes(
            old(w).delim(),
            old(w).at_first(),
            files(crate::email::views(list@)),
        ),
        final(w).delim() == old(w).delim(),
        final(w).at_first() == (old(w).at_first() && list@.len() == 0),
{
    let ghost all = files(crate::email::views(list@));
    let mut i: usize = 0;
    assert(buff@ == old(buff)@ + parts_bytes(w.delim(), w.at_first(), all.take(0)));
    while i < list.len()
        invariant
            i <= list@.len(),
            all == files(crate::email::views(list@)),
            w.delim() == old(w).delim(),
            w.at_first() == (old(w).at_first() && i == 0),
            buff@ == old(buff)@ + parts_bytes(
                old(w).delim(),
                old(w).at_first(),
                all.take(i as int),
            ),
        decreases list@.len() - i,
    {
        let a = list[i];
        assert(all.take(i + 1).drop_last() == all.take(i as int));
        assert(all.take(i + 1).last() == (Entity::File { file: a@ }));
        let ghost before = buff@;
        w.create_part(buff, &a.header);
        base64_wrap(buff, a.content.as_slice());
        assert(buff@ == before + crate::multipart::part_head(
            old(w).delim(),
            old(w).at_first() && i == 0,
            a@.header,
        ) + entity_body(Entity::File { file: a@ }));
        i += 1;
        assert(buff@ == old(buff)@ + parts_bytes(
            old(w).delim(),
            old(w).at_first(),
            all.take(i as int),
        ));
    }
    assert(all.take(i as int) == all);
}

/// Writes a part delimiter and the header of a container.
fn open_container(buff: &mut Vec<u8>, kind: &str, boundary: &str, w: &mut MultipartWriter)
    ensures
        final(buff)@ == old(buff)@ + crate::multipart::part_head(
            old(w).delim(),
            old(w).at_first(),
            multi_fields(Seq::empty(), kind@, boundary@),
        ),
        final(w).delim() == old(w).delim(),
        !final(w).at_first(),
{
    let mut header = MimeHeader::new();
    set_multi_fields(&mut header, kind, boundary);
    w.create_part(buff, &header);
}

impl Email {
    /// Writes the HTML text as a new multipart part, inside a `multipart/related`
    /// part together with the attachments `related` where there are any.
    fn write_html(
        &self,
        buff: &mut Vec<u8>,
        related: &Vec<&Attachment>,
        stamp: &Stamp,
        w: &mut MultipartWriter,
    )
        requires
            crate::email::views(related@) == crate::email::select(self@.attachments, true),
        ensures
            final(buff)@ == old(buff)@ + parts_bytes(
                old(w).delim(),
                old(w).at_first(),
                seq![html_entity(self@, stamp@)],
            ),
            final(w).delim() == old(w).delim(),
            !final(w).at_first(),
    {
        let ghost start = buff@;
        assert(crate::email::views(related@).len() == related@.len());
        if related.is_empty() {
            write_message(buff, self.html.as_slice(), true, CONTENT_TYPE_HTML, w);
        } else {
            let mut rw = MultipartWriter::with_boundary(stamp.related.as_str());
            open_container(
                buff,
                CONTENT_TYPE_MULTIPART_RELATED,
                stamp.related.as_str(),
                w,
            );
            let ghost head = buff@;
            write_message(buff, self.html.as_slice(), true, CONTENT_TYPE_HTML, &mut rw);
            write_attachments(buff, related, &mut rw);
            rw.close(buff);
            proof {
                let text = seq![text_entity(CONTENT_TYPE_HTML@, self@.html)];
                let rest = files(crate::email::views(related@));
                let b = stamp@.related;
                lemma_parts_append(b, true, text, rest);
                lemma_one_part(old(w).delim(), old(w).at_first(), html_entity(self@, stamp@));
                assert(buff@ == head + (parts_bytes(b, true, text + rest)
                    + crate::multipart::closing(b)));
                assert(entity_body(html_entity(self@, stamp@)) == parts_bytes(b, true, text + rest)
                    + crate::multipart::closing(b));
            }
            assert(buff@ == start + parts_bytes(
                old(w).delim(),
                old(w).at_first(),
                seq![html_entity(self@, stamp@)],
            ));
        }
    }

    /// Writes the texts, each as a new multipart part, the plain one first.
    fn write_texts(
        &self,
        buff: &mut Vec<u8>,
        related: &Vec<&Attachment>,
        stamp: &Stamp,
        w: &mut MultipartWriter,
    )
        requires
            crate::email::views(related@) == crate::email::select(self@.attachments, true),
        ensures
            final(buff)@ == old(buff)@ + parts_bytes(
                old(w).delim(),
                old(w).at_first(),
                text_parts(self@, stamp@),
            ),
            final(w).delim() == old(w).delim(),
            final(w).at_first() == (old(w).at_first() && text_parts(self@, stamp@).len() == 0),
    {
        let ghost start = buff@;
        let ghost b = w.delim();
        let ghost first = w.at_first();
        if !self.text.is_empty() {
            write_message(buff, self.text.as_slice(), true, CONTENT_TYPE_PLAIN, w);
        }
        let ghost plain: Seq<Entity> = if self@.text.len() > 0 {
            seq![text_entity(CONTENT_TYPE_PLAIN@, self@.text)]
        } else {
            Seq::empty()
        };
        let ghost html: Seq<Entity> = if self@.html.len() > 0 {
            seq![html_entity(self@, stamp@)]
        } else {
            Seq::empty()
        };
        assert(buff@ == start + parts_bytes(b, first, plain));
        if !self.html.is_empty() {
            self.write_html(buff, related, stamp, w);
        }
        assert(buff@ == start + parts_bytes(b, first, plain) + parts_bytes(
            b,
            first && plain.len() == 0,
            html,
        ));
        proof {
            lemma_parts_append(b, first, plain, html);
        }
        assert(buff@ == start + parts_bytes(b, first, plain + html));
    }

    /// Writes the leading parts of a multipart message.
    fn write_leading(
        &self,
        buff: &mut Vec<u8>,
        related: &Vec<&Attachment>,
        nested: bool,
        stamp: &Stamp,
        w: &mut MultipartWriter,
    )
        requires
            crate::email::views(related@) == crate::email::select(self@.attachments, true),
            nested == (is_mixed(self@) && is_alternative(self@)),
        ensures
            final(buff)@ == old(buff)@ + parts_bytes(
                old(w).delim(),
                old(w).at_first(),
                leading_parts(self@, stamp@),
            ),
            final(w).delim() == old(w).delim(),
            final(w).at_first() == (old(w).at_first() && leading_parts(self@, stamp@).len() == 0),
    {
        if nested {
            let ghost start = buff@;
            let mut sub = MultipartWriter::with_boundary(stamp.nested.as_str());
            open_container(buff, CONTENT_TYPE_MULTIPART_ALT, stamp.nested.as_str(), w);
            let ghost opened = buff@;
            self.write_texts(buff, related, stamp, &mut sub);
            sub.close(buff);
            proof {
                let inner = Entity::Multi {
                    kind: CONTENT_TYPE_MULTIPART_ALT@,
                    boundary: stamp@.nested,
                    parts: text_parts(self@, stamp@),
                };
                lemma_one_part(old(w).delim(), old(w).at_first(), inner);
                assert(buff@ == opened + entity_body(inner));
                assert(buff@ == start + parts_bytes(old(w).delim(), old(w).at_first(), seq![inner]));
            }
        } else {
            self.write_texts(buff, related, stamp, w);
        }
    }

    /// Writes the body of the message.
    fn write_body(
        &self,
        buff: &mut Vec<u8>,
        related: &Vec<&Attachment>,
        others: &Vec<&Attachment>,
        stamp: &Stamp,
    )
        requires
            crate::email::views(related@) == crate::email::select(self@.attachments, true),
            crate::email::views(others@) == crate::email::select(self@.attachments, false),
        ensures
            final(buff)@ == old(buff)@ + entity_body(message_entity(self@, stamp@)),
    {
        let ghost start = buff@;
        assert(crate::email::views(others@).len() == others@.len());
        let mixed = !others.is_empty();
        let alternative = !self.text.is_empty() && !self.html.is_empty();
        let mut w = MultipartWriter::with_boundary(stamp.outer.as_str());
        if mixed || alternative {
            self.write_leading(buff, related, mixed && alternative, stamp, &mut w);
            write_attachments(buff, others, &mut w);
            w.close(buff);
            proof {
                let leading = leading_parts(self@, stamp@);
                let rest = files(crate::email::select(self@.attachments, false));
                let b = stamp@.outer;
                lemma_parts_append(b, true, leading, rest);
                assert(buff@ == start + (parts_bytes(b, true, leading + rest)
                    + crate::multipart::closing(b)));
                assert(entity_body(message_entity(self@, stamp@)) == parts_bytes(
                    b,
                    true,
                    leading + rest,
                ) + crate::multipart::closing(b));
            }
        } else if !self.html.is_empty() {
            write_message(buff, self.html.as_slice(), false, CONTENT_TYPE_HTML, &mut w);
        } else {
            write_message(buff, self.text.as_slice(), false, CONTENT_TYPE_PLAIN, &mut w);
        }
    }

    /// Renders the message to bytes, including all MIME headers, boundaries and
    /// encodings, with the Message-ID, date and boundaries of `stamp`.
    pub fn bytes_with(&self, stamp: &Stamp) -> (r: Result<Vec<u8>, Error>)
        ensures
            match (r, rendered(self@, stamp@)) {
                (Ok(b), Ok(bytes)) => b@ == bytes,
                (Err(err), Err(f)) => is_fault(err, f),
                _ => false,
            },
    {
        let mut headers = match self.msg_headers(stamp.message_id.as_str(), stamp.date.as_str()) {
            Ok(h) => h,
            Err(e) => {
                return Err(e);
            },
        };
        let ghost merged = headers@;
        let (html_attach, other_attach) = self.categorize_attachments();
        assert(crate::email::views(html_attach@).len() == html_attach@.len());
        assert(crate::email::views(other_attach@).len() == other_attach@.len());
        if self.html.is_empty() && !html_attach.is_empty() {
            return Err(Error::Email("there are HTML attachments, but no HTML body".to_string()));
        }
        let mixed = !other_attach.is_empty();
        let alternative = !self.text.is_empty() && !self.html.is_empty();
        if !mixed && !alternative && !html_attach.is_empty() {
            return Err(
                Error::Email(
                    "HTML-related attachments require a text part or another attachment".to_string(),
                ),
            );
        }
        if mixed {
            set_multi_fields(&mut headers, CONTENT_TYPE_MULTIPART_MIXED, stamp.outer.as_str());
        } else if alternative {
            set_multi_fields(&mut headers, CONTENT_TYPE_MULTIPART_ALT, stamp.outer.as_str());
        } else if !self.html.is_empty() {
            set_text_fields(&mut headers, CONTENT_TYPE_HTML);
        } else {
            set_text_fields(&mut headers, CONTENT_TYPE_PLAIN);
        }
        assert(headers@ == entity_header(merged, message_entity(self@, stamp@)));

        let mut buff: Vec<u8> = Vec::new();
        header_to_bytes(&mut buff, &headers);
        push_crlf(&mut buff);
        assert(buff@ == crate::fields::header_lines(headers@) + crate::text::crlf());
        self.write_body(&mut buff, &html_attach, &other_attach, stamp);
        Ok(buff)
    }

    /// What the message needs of a stamp.
    pub fn needs(&self) -> (r: Needs)
        ensures
            r == needs(self@),
    {
        let (html_attach, other_attach) = self.categorize_attachments();
        assert(crate::email::views(html_attach@).len() == html_attach@.len());
        assert(crate::email::views(other_attach@).len() == other_attach@.len());
        let mixed = !other_attach.is_empty();
        let alternative = !self.text.is_empty() && !self.html.is_empty();
        Needs {
            message_id: !self.headers.contains(HDR_MESSAGE_ID),
            date: !self.headers.contains(HDR_DATE),
            outer: mixed || alternative,
            nested: mixed && alternative,
            related: !html_attach.is_empty(),
        }
    }

    /// Renders the message to bytes, including all MIME headers, boundaries and
    /// encodings, for a sender with the process id `pid`. A Message-ID and a date
    /// are generated when absent, and the boundaries are drawn at random.
    pub fn bytes(&self, pid: u32) -> (r: Result<Vec<u8>, Error>)
        ensures
            r matches Ok(b) ==> exists|s: StampView| #[trigger]
                crate::stamp::is_stamp(s, pid, needs(self@)) && rendered(self@, s) == Ok::<
                    Seq<u8>,
                    Fault,
                >(b@),
            forall|s: StampView|
                match (r, #[trigger] rendered(self@, s)) {
                    (Ok(_), Ok(_)) => true,
                    (Err(err), Err(f)) => is_fault(err, f),
                    _ => false,
                },
    {
        // Where an address is invalid, nothing is drawn.
        if let Err(e) = self.msg_headers("", "") {
            proof {
                assert forall|s: StampView| (#[trigger] rendered(self@, s)) matches Err(f)
                    && is_fault(e, f) by {
                    crate::fields::law_header_fault_is_own(
                        self@,
                        ""@,
                        ""@,
                        s.message_id,
                        s.date,
                    );
                }
            }
            return Err(e);
        }
        let stamp = Stamp::draw(pid, self.needs());
        proof {
            assert forall|s: StampView| #[trigger] rendered(self@, s) is Err || rendered(
                self@,
                stamp@,
            ) is Err implies rendered(self@, s) == rendered(self@, stamp@) by {
                law_fault_is_own(self@, s, stamp@);
                law_fault_is_own(self@, stamp@, s);
            }
        }
        self.bytes_with(&stamp)
    }
}

// ---------------------------------------------------------------------------
// Laws
// ---------------------------------------------------------------------------

/// Law: chance, the clock and the host have no part in whether a message can be
/// rendered, nor in what is reported where it cannot.
pub proof fn law_fault_is_own(e: EmailView, s1: StampView, s2: StampView)
    ensures
        rendered(e, s1) is Err ==> rendered(e, s2) == rendered(e, s1),
{
    crate::fields::law_header_fault_is_own(e, s1.message_id, s1.date, s2.message_id, s2.date);
    crate::fields::law_header_fault_is_own(e, s2.message_id, s2.date, s1.message_id, s1.date);
}

/// Law: what a message does not need of a stamp has no part in what is rendered.
pub proof fn law_needs(e: EmailView, s1: StampView, s2: StampView)
    requires
        crate::header::header_wf(e.headers),
        needs(e).message_id ==> s1.message_id == s2.message_id,
        needs(e).date ==> s1.date == s2.date,
        needs(e).outer ==> s1.outer == s2.outer,
        needs(e).nested ==> s1.nested == s2.nested,
        needs(e).related ==> s1.related == s2.related,
    ensures
        rendered(e, s1) == rendered(e, s2),
{
    crate::fields::law_custom_stamp(e, s1.message_id, s1.date, s2.message_id, s2.date);
    assert(html_entity(e, s1) == html_entity(e, s2));
    assert(text_parts(e, s1) == text_parts(e, s2));
    assert(leading_parts(e, s1) == leading_parts(e, s2));
}

/// Law: blind copies, the envelope sender and the read receipts have no part in
/// what is rendered.
pub proof fn law_hidden_fields(
    e: EmailView,
    s: StampView,
    bcc: Seq<Seq<char>>,
    sender: Seq<char>,
    read_receipt: Seq<Seq<char>>,
)
    ensures
        rendered((EmailView { bcc, sender, read_receipt, ..e }), s) == rendered(e, s),
{
}

/// Law: the header that is rendered has no Bcc field, unless a custom header brings
/// one.
pub proof fn law_no_bcc(e: EmailView, s: StampView)
    requires
        crate::fields::no_key(e.headers, crate::names::HDR_BCC@),
    ensures
        crate::fields::message_headers(e, s.message_id, s.date) matches Ok(h)
            ==> !crate::header::header_has(
            entity_header(h, message_entity(e, s)),
            crate::names::HDR_BCC@,
        ),
{
    let bcc = crate::names::HDR_BCC@;
    crate::fields::lemma_field_names();
    if let Ok(h) = crate::fields::message_headers(e, s.message_id, s.date) {
        crate::fields::law_absent_key(e, s.message_id, s.date, bcc);
        assert(crate::header::header_values(h, bcc) is None);
        match message_entity(e, s) {
            Entity::Text { media, body } => {
                let typed = media + "; charset="@ + DEFAULT_CHAR_ENCODING@;
                crate::header::law_set_then_get(h, HDR_CONTENT_TYPE@, typed, bcc);
                crate::header::law_set_then_get(
                    crate::header::header_set(h, HDR_CONTENT_TYPE@, typed),
                    HDR_CONTENT_TRANSFER_ENCODING@,
                    CONTENT_ENC_QUOTED_PRINTABLE@,
                    bcc,
                );
            },
            Entity::Multi { kind, boundary, parts } => {
                crate::header::law_set_then_get(
                    h,
                    HDR_CONTENT_TYPE@,
                    kind + ";\r\n boundary="@ + boundary,
                    bcc,
                );
            },
            Entity::File { file } => {},
        }
    }
}

/// The texts and attachments in `t`, in the order in which they are written.
pub open spec fn leaves(t: Entity) -> Seq<Entity>
    decreases t,
{
    match t {
        Entity::Multi { kind, boundary, parts } => parts_leaves(parts),
        _ => seq![t],
    }
}

/// The texts and attachments in `parts`, in the order in which they are written.
pub open spec fn parts_leaves(parts: Seq<Entity>) -> Seq<Entity>
    decreases parts,
{
    if parts.len() == 0 {
        Seq::empty()
    } else {
        parts_leaves(parts.drop_last()) + leaves(parts.last())
    }
}

proof fn lemma_leaves_append(a: Seq<Entity>, b: Seq<Entity>)
    ensures
        parts_leaves(a + b) == parts_leaves(a) + parts_leaves(b),
    decreases b.len(),
{
    if b.len() == 0 {
        assert(a + b == a);
    } else {
        lemma_leaves_append(a, b.drop_last());
        assert((a + b).drop_last() == a + b.drop_last());
        assert(parts_leaves(a + b) == parts_leaves(a) + parts_leaves(b));
    }
}

proof fn lemma_one_leaf(t: Entity)
    ensures
        parts_leaves(seq![t]) == leaves(t),
{
    assert(seq![t].drop_last() == Seq::<Entity>::empty());
    assert(parts_leaves(seq![t].drop_last()) == Seq::<Entity>::empty());
    assert(parts_leaves(seq![t]) == leaves(t));
}

proof fn lemma_file_leaves(list: Seq<AttachmentView>)
    ensures
        parts_leaves(files(list)) == files(list),
    decreases list.len(),
{
    if list.len() > 0 {
        lemma_file_leaves(list.drop_last());
        assert(files(list).drop_last() == files(list.drop_last()));
        let last = Entity::File { file: list.last() };
        assert(files(list).last() == last);
        assert(leaves(last) == seq![last]);
        assert(files(list) == files(list.drop_last()) + seq![last]);
    }
}

/// The plain text of `e` as a part, if it has one.
pub open spec fn plain_leaf(e: EmailView) -> Seq<Entity> {
    if e.text.len() > 0 {
        seq![text_entity(CONTENT_TYPE_PLAIN@, e.text)]
    } else {
        Seq::empty()
    }
}

/// The HTML text of `e` as a part, if it has one.
pub open spec fn html_leaf(e: EmailView) -> Seq<Entity> {
    if e.html.len() > 0 {
        seq![text_entity(CONTENT_TYPE_HTML@, e.html)]
    } else {
        Seq::empty()
    }
}

/// Law: a message that can be rendered and that has a text or an attachment holds
/// its texts and its attachments, each exactly once: the plain text, the HTML
/// text, the embedded attachments and then the others.
pub proof fn law_message_leaves(e: EmailView, s: StampView)
    requires
        attachment_fault(e) is None,
        e.text.len() > 0 || e.html.len() > 0 || e.attachments.len() > 0,
    ensures
        leaves(message_entity(e, s)) == plain_leaf(e) + html_leaf(e) + files(
            crate::email::select(e.attachments, true),
        ) + files(crate::email::select(e.attachments, false)),
{
    let related = crate::email::select(e.attachments, true);
    let others = crate::email::select(e.attachments, false);
    crate::email::lemma_select_len(e.attachments);
    lemma_file_leaves(related);
    lemma_file_leaves(others);
    if e.html.len() > 0 {
        let text = seq![text_entity(CONTENT_TYPE_HTML@, e.html)];
        lemma_one_leaf(text_entity(CONTENT_TYPE_HTML@, e.html));
        lemma_leaves_append(text, files(related));
        lemma_one_leaf(html_entity(e, s));
        assert(related.len() == 0 ==> text + files(related) == text);
        assert(leaves(html_entity(e, s)) == text + files(related));
    }
    if e.text.len() > 0 {
        lemma_one_leaf(text_entity(CONTENT_TYPE_PLAIN@, e.text));
    }
    let html: Seq<Entity> = if e.html.len() > 0 {
        seq![html_entity(e, s)]
    } else {
        Seq::empty()
    };
    lemma_leaves_append(plain_leaf(e), html);
    let texts = plain_leaf(e) + html_leaf(e) + files(related);
    assert(parts_leaves(text_parts(e, s)) == texts);
    if is_mixed(e) || is_alternative(e) {
        if is_mixed(e) && is_alternative(e) {
            lemma_one_leaf(leading_parts(e, s)[0]);
        }
        assert(parts_leaves(leading_parts(e, s)) == texts);
        lemma_leaves_append(leading_parts(e, s), files(others));
    } else {
        assert(leaves(message_entity(e, s)) == texts + files(others));
    }
}

/// Law: the encoded body of a text is decoded to the whole text, with its line breaks
/// normalized to CRLF, and that of an attachment to its content, byte for byte; the line
/// ending of a delimiter behind it changes nothing in that, but for standing behind the
/// text.
pub proof fn law_leaf_bodies(media: Seq<char>, body: Seq<u8>, file: AttachmentView)
    ensures
        crate::encoding::qp_decode(entity_body(Entity::Text { media, body }))
            == crate::encoding::normalize_breaks(body),
        crate::encoding::qp_decode(
            entity_body(Entity::Text { media, body }) + crate::text::crlf(),
        ) == crate::encoding::normalize_breaks(body) + crate::text::crlf(),
        crate::encoding::base64_decode(
            crate::encoding::without_breaks(entity_body(Entity::File { file })),
        ) == file.content,
        crate::encoding::base64_decode(
            crate::encoding::without_breaks(
                entity_body(Entity::File { file }) + crate::text::crlf(),
            ),
        ) == file.content,
{
    crate::encoding::law_qp_round_trip(body, 0);
    crate::encoding::law_qp_part_round_trip(body);
    crate::encoding::law_base64_part_round_trip(file.content);
    crate::encoding::law_base64_wrap_round_trip(file.content);
}

/// Law: the header of a text says its media type and that it is in UTF-8 and encoded as
/// quoted-printable; that of a container says its kind and its boundary; all other fields
/// stay what they were; and an attachment has its own header.
pub proof fn law_entity_fields(
    h: HeaderView,
    media: Seq<char>,
    body: Seq<u8>,
    boundary: Seq<char>,
    parts: Seq<Entity>,
    key: Seq<char>,
)
    ensures
        ({
            let c = crate::header::canonical(key);
            let typed = crate::header::canonical("Content-Type"@);
            let coded = crate::header::canonical("Content-Transfer-Encoding"@);
            let text = Entity::Text { media, body };
            let multi = Entity::Multi { kind: media, boundary, parts };
            &&& crate::header::header_values(entity_header(h, text), key) == if c == typed {
                Some(seq![media + "; charset=UTF-8"@])
            } else if c == coded {
                Some(seq!["quoted-printable"@])
            } else {
                crate::header::header_values(h, key)
            }
            &&& crate::header::header_values(entity_header(h, multi), key) == if c == typed {
                Some(seq![media + ";\r\n boundary="@ + boundary])
            } else {
                crate::header::header_values(h, key)
            }
        }),
{
    crate::fields::lemma_field_names();
    reveal_strlit("; charset=");
    reveal_strlit("UTF-8");
    reveal_strlit("; charset=UTF-8");
    assert("; charset="@ + DEFAULT_CHAR_ENCODING@ == "; charset=UTF-8"@);
    let typed = media + "; charset="@ + DEFAULT_CHAR_ENCODING@;
    assert(typed == media + "; charset=UTF-8"@);
    crate::header::law_set_then_get(h, HDR_CONTENT_TYPE@, typed, key);
    crate::header::law_set_then_get(
        crate::header::header_set(h, HDR_CONTENT_TYPE@, typed),
        HDR_CONTENT_TRANSFER_ENCODING@,
        CONTENT_ENC_QUOTED_PRINTABLE@,
        key,
    );
    crate::header::law_set_then_get(
        h,
        HDR_CONTENT_TYPE@,
        media + ";\r\n boundary="@ + boundary,
        key,
    );
}

/// Attachments are selected if and only if there are such.
proof fn lemma_selected(list: Seq<AttachmentView>, related: bool)
    ensures
        crate::email::select(list, related).len() > 0 <==> exists|i: int|
            0 <= i < list.len() && (#[trigger] list[i]).html_related == related,
    decreases list.len(),
{
    if list.len() > 0 {
        let init = list.drop_last();
        lemma_selected(init, related);
        if crate::email::select(init, related).len() > 0 {
            let i = choose|i: int| 0 <= i < init.len() && (#[trigger] init[i]).html_related == related;
            assert(list[i].html_related == related);
        }
        if list.last().html_related == related {
            assert(list[list.len() - 1].html_related == related);
        }
        if exists|i: int| 0 <= i < list.len() && (#[trigger] list[i]).html_related == related {
            let i = choose|i: int| 0 <= i < list.len() && (#[trigger] list[i]).html_related == related;
            if i < init.len() {
                assert(init[i].html_related == related);
            }
        }
    }
}

/// Whether `e` has an attachment that is embedded, or one that is not.
pub open spec fn has_file(e: EmailView, related: bool) -> bool {
    exists|i: int|
        0 <= i < e.attachments.len() && (#[trigger] e.attachments[i]).html_related == related
}

/// Law: a message can be rendered if and only if its header can be made and its embedded
/// attachments, if it has any, have an HTML text to stand in and beside it a plain text or
/// an attachment that is not embedded; else the lack is named.
pub proof fn law_rendered_exists(e: EmailView, s: StampView)
    ensures
        rendered(e, s) is Ok <==> crate::fields::message_headers(e, s.message_id, s.date) is Ok && (
        has_file(e, true) ==> e.html.len() > 0 && (e.text.len() > 0 || has_file(e, false))),
        crate::fields::message_headers(e, s.message_id, s.date) matches Err(text) ==> rendered(
            e,
            s,
        ) == Err::<Seq<u8>, Fault>(Fault::Address { text }),
        crate::fields::message_headers(e, s.message_id, s.date) is Ok && has_file(e, true)
            && e.html.len() == 0 ==> rendered(e, s) == Err::<Seq<u8>, Fault>(
            Fault::Email { text: "there are HTML attachments, but no HTML body"@ },
        ),
        crate::fields::message_headers(e, s.message_id, s.date) is Ok && has_file(e, true)
            && e.html.len() > 0 && e.text.len() == 0 && !has_file(e, false) ==> rendered(e, s)
            == Err::<Seq<u8>, Fault>(
            Fault::Email {
                text: "HTML-related attachments require a text part or another attachment"@,
            },
        ),
{
    lemma_selected(e.attachments, true);
    lemma_selected(e.attachments, false);
}

/// Law: a message with an attachment that is not embedded is a `multipart/mixed`, one
/// with both texts but for that a `multipart/alternative`, and any other is one text. In a
/// `multipart/mixed` both texts stand in a `multipart/alternative` of their own, and the
/// HTML text stands at the start of a `multipart/related` where attachments are embedded.
pub proof fn law_message_structure(e: EmailView, s: StampView)
    ensures
        match message_entity(e, s) {
            Entity::Multi { kind, boundary, parts } => {
                &&& has_file(e, false) || (e.text.len() > 0 && e.html.len() > 0)
                &&& kind == if has_file(e, false) {
                    "multipart/mixed"@
                } else {
                    "multipart/alternative"@
                }
                &&& boundary == s.outer
                &&& has_file(e, false) && e.text.len() > 0 && e.html.len() > 0 ==> {
                    &&& parts[0] is Multi
                    &&& parts[0]->kind == "multipart/alternative"@
                    &&& parts[0]->boundary == s.nested
                    &&& parts[0]->parts == seq![
                        (Entity::Text { media: "text/plain"@, body: e.text }),
                        html_entity(e, s),
                    ]
                }
                &&& !has_file(e, false) ==> parts == seq![
                    (Entity::Text { media: "text/plain"@, body: e.text }),
                    html_entity(e, s),
                ]
                &&& has_file(e, false) && e.text.len() > 0 && e.html.len() == 0 ==> parts[0]
                    == (Entity::Text { media: "text/plain"@, body: e.text })
                &&& has_file(e, false) && e.text.len() == 0 && e.html.len() > 0 ==> parts[0]
                    == html_entity(e, s)
            },
            Entity::Text { media, body } => {
                &&& !has_file(e, false) && !(e.text.len() > 0 && e.html.len() > 0)
                &&& e.html.len() > 0 ==> media == "text/html"@ && body == e.html
                &&& e.html.len() == 0 ==> media == "text/plain"@ && body == e.text
            },
            Entity::File { file } => false,
        },
        match html_entity(e, s) {
            Entity::Multi { kind, boundary, parts } => {
                &&& has_file(e, true)
                &&& kind == "multipart/related"@
                &&& boundary == s.related
                &&& parts[0] == (Entity::Text { media: "text/html"@, body: e.html })
                &&& parts.len() == 1 + crate::email::select(e.attachments, true).len()
                &&& forall|i: int|
                    1 <= i < parts.len() ==> (#[trigger] parts[i]) is File
                        && parts[i]->file.html_related
            },
            Entity::Text { media, body } => !has_file(e, true) && media == "text/html"@ && body
                == e.html,
            Entity::File { file } => false,
        },
{
    lemma_selected(e.attachments, true);
    lemma_selected(e.attachments, false);
    crate::email::law_select(e.attachments, Seq::empty(), true);
    if let Entity::Multi { kind, boundary, parts } = html_entity(e, s) {
        let related = crate::email::select(e.attachments, true);
        assert forall|i: int| 1 <= i < parts.len() implies (#[trigger] parts[i]) is File
            && parts[i]->file.html_related by {
            assert(parts[i] == files(related)[i - 1]);
            assert(related[i - 1].html_related);
        }
    }
    if e.text.len() > 0 && e.html.len() > 0 {
        assert(text_parts(e, s) == seq![
            (Entity::Text { media: CONTENT_TYPE_PLAIN@, body: e.text }),
            html_entity(e, s),
        ]);
        if !has_file(e, false) {
            assert(files(crate::email::select(e.attachments, false)) == Seq::<Entity>::empty());
            assert(leading_parts(e, s) + Seq::<Entity>::empty() == text_parts(e, s));
        }
    }
}

/// Law: what a message needs of a stamp: a Message-ID and a date where no custom header
/// brings one, and a boundary for each container that it has.
pub proof fn law_needs_exact(e: EmailView, s: StampView)
    ensures
        needs(e).message_id <==> !crate::header::header_has(e.headers, "Message-Id"@),
        needs(e).date <==> !crate::header::header_has(e.headers, "Date"@),
        needs(e).outer <==> message_entity(e, s) is Multi,
        needs(e).nested <==> has_file(e, false) && e.text.len() > 0 && e.html.len() > 0,
        needs(e).related <==> has_file(e, true),
{
    lemma_selected(e.attachments, true);
    lemma_selected(e.attachments, false);
}

/// Law: a rendered message is its header lines, an empty line and its encoded body.
pub proof fn law_rendered_bytes(e: EmailView, s: StampView, raw: Seq<u8>)
    requires
        rendered(e, s) == Ok::<Seq<u8>, Fault>(raw),
    ensures
        crate::fields::message_headers(e, s.message_id, s.date) matches Ok(h) && raw
            == crate::fields::header_lines(entity_header(h, message_entity(e, s))) + seq![13u8, 10u8]
            + entity_body(message_entity(e, s)),
{
}

/// Law: which errors report what: an address error names the address that is not valid,
/// and an email error says what is wrong with the attachments.
pub proof fn law_fault_reported(err: Error, text: Seq<char>)
    ensures
        is_fault(err, Fault::Address { text }) <==> (err matches Error::Address(m) && m@
            == "invalid address: "@ + text),
        is_fault(err, Fault::Email { text }) <==> (err matches Error::Email(m) && m@ == text),
{
}

/// Law: a message is rendered, for whichever process, if and only if its header can be
/// made and its embedded attachments have an HTML text and beside it a plain text or an
/// attachment that is not embedded.
pub proof fn law_bytes(e: Email, pid: u32, r: Result<Vec<u8>, Error>)
    requires
        call_ensures(Email::bytes, (&e, pid), r),
    ensures
        forall|s: StampView|
            r is Ok <==> (#[trigger] crate::fields::message_headers(
                e@,
                s.message_id,
                s.date,
            ) is Ok && (has_file(e@, true) ==> e@.html.len() > 0 && (e@.text.len() > 0 || has_file(
                e@,
                false,
            )))),
{
    assert forall|s: StampView|
        r is Ok <==> (#[trigger] crate::fields::message_headers(e@, s.message_id, s.date) is Ok && (
        has_file(e@, true) ==> e@.html.len() > 0 && (e@.text.len() > 0 || has_file(e@, false)))) by {
        law_rendered_exists(e@, s);
        assert(rendered(e@, s) is Ok <==> r is Ok);
    }
}

/// Law: writing a text appends bytes that are decoded to the whole text, with its line
/// breaks normalized to CRLF; and as a part of a container it does so behind the head of
/// the part. What was written before stays.
pub proof fn law_write_message(
    buff: &mut Vec<u8>,
    msg: &[u8],
    multipart: bool,
    media: &str,
    w: &mut MultipartWriter,
)
    requires
        call_ensures(write_message, (buff, msg, multipart, media, w), ()),
    ensures
        ({
            let head = if multipart {
                crate::multipart::part_head(
                    old(w).delim(),
                    old(w).at_first(),
                    text_fields(Seq::empty(), media@),
                )
            } else {
                Seq::empty()
            };
            let all = final(buff)@;
            let start = old(buff)@ + head;
            &&& all.len() >= start.len()
            &&& all.take(start.len() as int) == start
            &&& crate::encoding::qp_decode(all.skip(start.len() as int))
                == crate::encoding::normalize_breaks(msg@)
        }),
{
    let t = text_entity(media@, msg@);
    law_leaf_bodies(media@, msg@, crate::email::empty_attachment());
    lemma_one_part(old(w).delim(), old(w).at_first(), t);
    let head = if multipart {
        crate::multipart::part_head(
            old(w).delim(),
            old(w).at_first(),
            text_fields(Seq::empty(), media@),
        )
    } else {
        Seq::empty()
    };
    let start = old(buff)@ + head;
    assert(final(buff)@ == start + entity_body(t));
    assert(final(buff)@.take(start.len() as int) == start);
    assert(final(buff)@.skip(start.len() as int) == entity_body(t));
}

/// Law: rendering with a given stamp gives the header lines, an empty line and the encoded
/// body, or the error for what stands in the way.
pub proof fn law_bytes_with(e: Email, stamp: Stamp, r: Result<Vec<u8>, Error>)
    requires
        call_ensures(Email::bytes_with, (&e, &stamp), r),
    ensures
        r is Ok <==> rendered(e@, stamp@) is Ok,
        r matches Ok(b) ==> rendered(e@, stamp@) == Ok::<Seq<u8>, Fault>(b@),
        r matches Err(err) ==> err is Address || err is Email,
{
}

} // verus!
