//! The e-mail message model: the message, its attachments, and the sender of its
//! SMTP envelope.

use vstd::prelude::*;

use crate::address::extract_address;
use crate::error::Error;
use crate::header::{HeaderView, MimeHeader};
use crate::names::{
    CONTENT_ENC_BASE64, CONTENT_TYPE_OCTET_STREAM, HDR_CONTENT_DISPOSITION, HDR_CONTENT_ID,
    HDR_CONTENT_TRANSFER_ENCODING, HDR_CONTENT_TYPE,
};
use crate::text::{copy_bytes, join3};

verus! {

/// An e-mail message.
#[derive(Debug)]
pub struct Email {
    pub reply_to: Vec<String>,
    pub from: String,
    pub to: Vec<String>,
    pub bcc: Vec<String>,
    pub cc: Vec<String>,
    pub subject: String,
    /// Optional plain-text body.
    pub text: Vec<u8>,
    /// Optional HTML body.
    pub html: Vec<u8>,
    /// Overrides `from` as the SMTP envelope sender (optional).
    pub sender: String,
    pub headers: MimeHeader,
    pub attachments: Vec<Attachment>,
    pub read_receipt: Vec<String>,
}

/// An e-mail attachment: a filename, MIME header, and content.
#[derive(Debug)]
pub struct Attachment {
    pub filename: String,
    pub header: MimeHeader,
    pub content: Vec<u8>,
    /// If true, the attachment is embedded via `multipart/related` (e.g. an
    /// image referenced inline by the HTML body) rather than as a normal
    /// `multipart/mixed` attachment.
    pub html_related: bool,
}

/// What an [`Email`] holds.
pub struct EmailView {
    pub reply_to: Seq<Seq<char>>,
    pub from: Seq<char>,
    pub to: Seq<Seq<char>>,
    pub bcc: Seq<Seq<char>>,
    pub cc: Seq<Seq<char>>,
    pub subject: Seq<char>,
    pub text: Seq<u8>,
    pub html: Seq<u8>,
    pub sender: Seq<char>,
    pub headers: HeaderView,
    pub attachments: Seq<AttachmentView>,
    pub read_receipt: Seq<Seq<char>>,
}

/// What an [`Attachment`] holds.
pub struct AttachmentView {
    pub filename: Seq<char>,
    pub header: HeaderView,
    pub content: Seq<u8>,
    pub html_related: bool,
}

impl View for Attachment {
    type V = AttachmentView;

    open spec fn view(&self) -> AttachmentView {
        AttachmentView {
            filename: self.filename@,
            header: self.header@,
            content: self.content@,
            html_related: self.html_related,
        }
    }
}

impl DeepView for Attachment {
    type V = AttachmentView;

    open spec fn deep_view(&self) -> AttachmentView {
        self@
    }
}

impl View for Email {
    type V = EmailView;

    open spec fn view(&self) -> EmailView {
        EmailView {
            reply_to: self.reply_to.deep_view(),
            from: self.from@,
            to: self.to.deep_view(),
            bcc: self.bcc.deep_view(),
            cc: self.cc.deep_view(),
            subject: self.subject@,
            text: self.text@,
            html: self.html@,
            sender: self.sender@,
            headers: self.headers@,
            attachments: self.attachments.deep_view(),
            read_receipt: self.read_receipt.deep_view(),
        }
    }
}

/// What the empty attachment holds.
pub open spec fn empty_attachment() -> AttachmentView {
    AttachmentView {
        filename: Seq::empty(),
        header: Seq::empty(),
        content: Seq::empty(),
        html_related: false,
    }
}

/// What the empty message holds.
pub open spec fn empty_email() -> EmailView {
    EmailView {
        reply_to: Seq::empty(),
        from: Seq::empty(),
        to: Seq::empty(),
        bcc: Seq::empty(),
        cc: Seq::empty(),
        subject: Seq::empty(),
        text: Seq::empty(),
        html: Seq::empty(),
        sender: Seq::empty(),
        headers: Seq::empty(),
        attachments: Seq::empty(),
        read_receipt: Seq::empty(),
    }
}

impl Default for Attachment {
    fn default() -> (r: Self)
        ensures
            r@ == empty_attachment(),
    {
        let r = Attachment {
            filename: String::new(),
            header: MimeHeader::new(),
            content: Vec::new(),
            html_related: false,
        };
        assert(r.filename@ == Seq::<char>::empty());
        r
    }
}

impl Clone for Attachment {
    fn clone(&self) -> (r: Self)
        ensures
            r@ == self@,
    {
        Attachment {
            filename: self.filename.clone(),
            header: self.header.clone(),
            content: copy_bytes(self.content.as_slice()),
            html_related: self.html_related,
        }
    }
}

impl Default for Email {
    fn default() -> (r: Self)
        ensures
            r@ == empty_email(),
    {
        let r = Email {
            reply_to: Vec::new(),
            from: String::new(),
            to: Vec::new(),
            bcc: Vec::new(),
            cc: Vec::new(),
            subject: String::new(),
            text: Vec::new(),
            html: Vec::new(),
            sender: String::new(),
            headers: MimeHeader::new(),
            attachments: Vec::new(),
            read_receipt: Vec::new(),
        };
        assert(r@.reply_to == empty_email().reply_to);
        assert(r@.from == empty_email().from);
        assert(r@.attachments == empty_email().attachments);
        r
    }
}

/// A copy of `list`.
fn copy_strings(list: &Vec<String>) -> (r: Vec<String>)
    ensures
        r.deep_view() == list.deep_view(),
{
    let r = list.clone();
    assert(r@ == list@);
    assert(r.deep_view() == list.deep_view());
    r
}

/// A copy of `list`.
fn copy_attachments(list: &Vec<Attachment>) -> (r: Vec<Attachment>)
    ensures
        r.deep_view() == list.deep_view(),
{
    let mut out: Vec<Attachment> = Vec::new();
    let mut i: usize = 0;
    while i < list.len()
        invariant
            i <= list@.len(),
            out.deep_view() == list.deep_view().take(i as int),
        decreases list@.len() - i,
    {
        let ghost before = out.deep_view();
        let a = list[i].clone();
        out.push(a);
        assert(out.deep_view() == before.push(a@));
        i += 1;
        assert(list.deep_view().take(i as int) == before.push(a@));
    }
    assert(list.deep_view().take(i as int) == list.deep_view());
    out
}

impl Clone for Email {
    fn clone(&self) -> (r: Self)
        ensures
            r@ == self@,
    {
        Email {
            reply_to: copy_strings(&self.reply_to),
            from: self.from.clone(),
            to: copy_strings(&self.to),
            bcc: copy_strings(&self.bcc),
            cc: copy_strings(&self.cc),
            subject: self.subject.clone(),
            text: copy_bytes(self.text.as_slice()),
            html: copy_bytes(self.html.as_slice()),
            sender: self.sender.clone(),
            headers: self.headers.clone(),
            attachments: copy_attachments(&self.attachments),
            read_receipt: copy_strings(&self.read_receipt),
        }
    }
}

// ---------------------------------------------------------------------------
// Attachments
// ---------------------------------------------------------------------------

/// The header of an attached file.
pub open spec fn attachment_header(filename: Seq<char>, content_type: Seq<char>) -> HeaderView {
    let typed = crate::header::header_set(
        Seq::empty(),
        HDR_CONTENT_TYPE@,
        if content_type.len() == 0 {
            CONTENT_TYPE_OCTET_STREAM@
        } else {
            content_type
        },
    );
    let disposed = crate::header::header_set(
        typed,
        HDR_CONTENT_DISPOSITION@,
        "attachment;\r\n filename=\""@ + filename + "\""@,
    );
    let identified = crate::header::header_set(
        disposed,
        HDR_CONTENT_ID@,
        "<"@ + filename + ">"@,
    );
    crate::header::header_set(identified, HDR_CONTENT_TRANSFER_ENCODING@, CONTENT_ENC_BASE64@)
}

/// The attachment that attaching a file makes.
pub open spec fn attached(
    content: Seq<u8>,
    filename: Seq<char>,
    content_type: Seq<char>,
) -> AttachmentView {
    AttachmentView {
        filename,
        header: attachment_header(filename, content_type),
        content,
        html_related: false,
    }
}

/// Those of `list` that are embedded via `multipart/related`, or those that are
/// not, in their order.
pub open spec fn select(list: Seq<AttachmentView>, related: bool) -> Seq<AttachmentView>
    decreases list.len(),
{
    if list.len() == 0 {
        Seq::empty()
    } else if list.last().html_related == related {
        select(list.drop_last(), related).push(list.last())
    } else {
        select(list.drop_last(), related)
    }
}

/// What the attachments that `list` refers to hold.
pub open spec fn views(list: Seq<&Attachment>) -> Seq<AttachmentView> {
    list.map_values(|a: &Attachment| a@)
}

/// Law: each attachment is either embedded or a normal one, so that none is lost
/// and none occurs twice.
pub proof fn law_select_partitions(list: Seq<AttachmentView>)
    ensures
        select(list, true).to_multiset().add(select(list, false).to_multiset())
            == list.to_multiset(),
    decreases list.len(),
{
    broadcast use vstd::seq_lib::group_to_multiset_ensures;

    if list.len() > 0 {
        law_select_partitions(list.drop_last());
        assert(list.drop_last().push(list.last()) == list);
        assert(select(list, true).to_multiset().add(select(list, false).to_multiset())
            =~= list.to_multiset());
    } else {
        assert(select(list, true).to_multiset().add(select(list, false).to_multiset())
            =~= list.to_multiset());
    }
}

/// Each attachment is counted once.
pub proof fn lemma_select_len(list: Seq<AttachmentView>)
    ensures
        select(list, true).len() + select(list, false).len() == list.len(),
    decreases list.len(),
{
    if list.len() > 0 {
        lemma_select_len(list.drop_last());
    }
}

impl Email {
    /// Attaches `content`, using `filename` and `content_type` (falling back to
    /// `application/octet-stream` when empty). The created attachment is appended
    /// to `self.attachments` and also returned.
    ///
    /// The returned value is a copy: mutating it (e.g. setting `html_related`)
    /// does not affect the stored attachment.
    pub fn attach(&mut self, content: &[u8], filename: &str, content_type: &str) -> (r: Result<
        Attachment,
        Error,
    >)
        ensures
            r matches Ok(a) && a@ == attached(content@, filename@, content_type@),
            final(self)@ == (EmailView {
                attachments: old(self)@.attachments.push(
                    attached(content@, filename@, content_type@),
                ),
                ..old(self)@
            }),
    {
        let mut header = MimeHeader::new();
        if !content_type.is_empty() {
            header.set(HDR_CONTENT_TYPE, content_type);
        } else {
            header.set(HDR_CONTENT_TYPE, CONTENT_TYPE_OCTET_STREAM);
        }
        let disposition = join3("attachment;\r\n filename=\"", filename, "\"");
        header.set(HDR_CONTENT_DISPOSITION, disposition.as_str());
        let id = join3("<", filename, ">");
        header.set(HDR_CONTENT_ID, id.as_str());
        header.set(HDR_CONTENT_TRANSFER_ENCODING, CONTENT_ENC_BASE64);

        let at = Attachment {
            filename: filename.to_string(),
            header,
            content: copy_bytes(content),
            html_related: false,
        };
        let ghost before = self.attachments.deep_view();
        self.attachments.push(at.clone());
        assert(self.attachments.deep_view() == before.push(at@));
        Ok(at)
    }

    /// The attachments that are embedded via `multipart/related`, and the others.
    pub fn categorize_attachments(&self) -> (r: (Vec<&Attachment>, Vec<&Attachment>))
        ensures
            views(r.0@) == select(self@.attachments, true),
            views(r.1@) == select(self@.attachments, false),
    {
        let ghost all = self@.attachments;
        let mut html_related: Vec<&Attachment> = Vec::new();
        let mut others: Vec<&Attachment> = Vec::new();
        let mut i: usize = 0;
        while i < self.attachments.len()
            invariant
                i <= self.attachments@.len(),
                all == self.attachments.deep_view(),
                views(html_related@) == select(all.take(i as int), true),
                views(others@) == select(all.take(i as int), false),
            decreases self.attachments@.len() - i,
        {
            let a = &self.attachments[i];
            let ghost related = views(html_related@);
            let ghost rest = views(others@);
            assert(all.take(i + 1).drop_last() == all.take(i as int));
            assert(all.take(i + 1).last() == a@);
            if a.html_related {
                html_related.push(a);
                assert(views(html_related@) == related.push(a@));
            } else {
                others.push(a);
                assert(views(others@) == rest.push(a@));
            }
            i += 1;
        }
        assert(all.take(i as int) == all);
        (html_related, others)
    }

    /// Selects and parses the SMTP envelope sender: `sender` if set, else `from`.
    pub fn parse_sender(&self) -> (r: Result<String, Error>)
        ensures
            match (r, sender_address(self@)) {
                (Ok(a), Ok(q)) => a@ == q,
                (Err(e), Err(t)) => crate::address::is_address_error(e, t),
                _ => false,
            },
    {
        if !self.sender.as_str().is_empty() {
            return extract_address(self.sender.as_str());
        }
        extract_address(self.from.as_str())
    }
}

/// The bare address of the SMTP envelope sender, or for an invalid one the
/// trimmed text.
pub open spec fn sender_address(e: EmailView) -> Result<Seq<char>, Seq<char>> {
    match crate::address::parsed_address(
        if e.sender.len() > 0 {
            e.sender
        } else {
            e.from
        },
    ) {
        Ok((_, addr)) => Ok(addr),
        Err(t) => Err(t),
    }
}

/// Law: the envelope sender is the bare address in the sender of a message, or where it
/// has none the one in its From; nothing else in the message has a part in it.
pub proof fn law_sender_decides(e: EmailView, other: EmailView)
    ensures
        sender_address(e) is Ok <==> crate::address::parsed_address(
            if e.sender.len() > 0 {
                e.sender
            } else {
                e.from
            },
        ) is Ok,
        sender_address(e) matches Ok(addr) ==> crate::address::valid_addr(addr),
        e.sender == other.sender && e.from == other.from ==> sender_address(e)
            == sender_address(other),
        e.sender.len() > 0 && e.sender == other.sender ==> sender_address(e) == sender_address(
            other,
        ),
        e.sender.len() > 0 && other.sender.len() == 0 && e.sender == other.from ==> sender_address(
            e,
        ) == sender_address(other),
{
}

/// Law: an attached file has its name and content as given, is not embedded, and its
/// header has the four fields that describe it and no other. A file of no known type
/// is one of bytes.
pub proof fn law_attached(
    content: Seq<u8>,
    filename: Seq<char>,
    content_type: Seq<char>,
    key: Seq<char>,
)
    ensures
        attached(content, filename, content_type).filename == filename,
        attached(content, filename, content_type).content == content,
        !attached(content, filename, content_type).html_related,
        ({
            let c = crate::header::canonical(key);
            crate::header::header_values(
                attached(content, filename, content_type).header,
                key,
            ) == if c == crate::header::canonical("Content-Type"@) {
                Some(
                    seq![
                        if content_type.len() == 0 {
                            "application/octet-stream"@
                        } else {
                            content_type
                        },
                    ],
                )
            } else if c == crate::header::canonical("Content-Disposition"@) {
                Some(seq!["attachment;\r\n filename=\""@ + filename + "\""@])
            } else if c == crate::header::canonical("Content-ID"@) {
                Some(seq!["<"@ + filename + ">"@])
            } else if c == crate::header::canonical("Content-Transfer-Encoding"@) {
                Some(seq!["base64"@])
            } else {
                None
            }
        }),
{
    reveal_strlit("Content-Type");
    reveal_strlit("Content-Disposition");
    reveal_strlit("Content-ID");
    reveal_strlit("Content-Transfer-Encoding");
    crate::fields::lemma_ascii_canonical(HDR_CONTENT_TYPE@, true);
    crate::fields::lemma_ascii_canonical(HDR_CONTENT_DISPOSITION@, true);
    crate::fields::lemma_ascii_canonical(HDR_CONTENT_ID@, true);
    crate::fields::lemma_ascii_canonical(HDR_CONTENT_TRANSFER_ENCODING@, true);
    let none: HeaderView = Seq::empty();
    let media = if content_type.len() == 0 {
        CONTENT_TYPE_OCTET_STREAM@
    } else {
        content_type
    };
    let disposition = "attachment;\r\n filename=\""@ + filename + "\""@;
    let id = "<"@ + filename + ">"@;
    let typed = crate::header::header_set(none, HDR_CONTENT_TYPE@, media);
    let disposed = crate::header::header_set(typed, HDR_CONTENT_DISPOSITION@, disposition);
    let identified = crate::header::header_set(disposed, HDR_CONTENT_ID@, id);
    crate::header::law_set_then_get(none, HDR_CONTENT_TYPE@, media, key);
    crate::header::law_set_then_get(typed, HDR_CONTENT_DISPOSITION@, disposition, key);
    crate::header::law_set_then_get(disposed, HDR_CONTENT_ID@, id, key);
    crate::header::law_set_then_get(
        identified,
        HDR_CONTENT_TRANSFER_ENCODING@,
        CONTENT_ENC_BASE64@,
        key,
    );
}

/// Law: what is selected of two lists follows upon each other, and all of it is embedded,
/// or none is.
pub proof fn law_select(a: Seq<AttachmentView>, b: Seq<AttachmentView>, related: bool)
    ensures
        select(a + b, related) == select(a, related) + select(b, related),
        forall|i: int|
            0 <= i < select(a, related).len() ==> (#[trigger] select(a, related)[i]).html_related
                == related,
    decreases a.len() + b.len(),
{
    if b.len() > 0 {
        law_select(a, b.drop_last(), related);
        assert((a + b).drop_last() == a + b.drop_last());
        assert(select(a + b, related) == select(a, related) + select(b, related));
    } else {
        assert(a + b == a);
        assert(select(a, related) + select(b, related) == select(a, related));
        if a.len() > 0 {
            law_select(a.drop_last(), b, related);
            assert forall|i: int| 0 <= i < select(a, related).len() implies (#[trigger] select(
                a,
                related,
            )[i]).html_related == related by {
                if i < select(a.drop_last(), related).len() {
                    assert(select(a, related)[i] == select(a.drop_last(), related)[i]);
                }
            }
        }
    }
}

/// Law: attaching a file adds it behind the others and changes nothing else in the
/// message; what is returned is a copy of it.
pub proof fn law_attach(
    e: &mut Email,
    content: &[u8],
    filename: &str,
    content_type: &str,
    r: Result<Attachment, Error>,
)
    requires
        call_ensures(Email::attach, (e, content, filename, content_type), r),
    ensures
        final(e)@.attachments.len() == old(e)@.attachments.len() + 1,
        final(e)@.attachments.drop_last() == old(e)@.attachments,
        final(e)@.attachments.last().content == content@,
        final(e)@.attachments.last().filename == filename@,
        final(e)@ == (EmailView { attachments: final(e)@.attachments, ..old(e)@ }),
        r matches Ok(a) && a@ == final(e)@.attachments.last(),
{
    assert(final(e)@.attachments.drop_last() == old(e)@.attachments);
}

/// Law: the empty message holds nothing, and neither does the empty attachment.
pub proof fn law_empty(e: EmailView, a: AttachmentView)
    requires
        e == empty_email(),
        a == empty_attachment(),
    ensures
        e.reply_to.len() == 0 && e.from.len() == 0 && e.to.len() == 0 && e.bcc.len() == 0
            && e.cc.len() == 0 && e.subject.len() == 0 && e.text.len() == 0 && e.html.len() == 0
            && e.sender.len() == 0 && e.headers.len() == 0 && e.attachments.len() == 0
            && e.read_receipt.len() == 0,
        a.filename.len() == 0 && a.header.len() == 0 && a.content.len() == 0 && !a.html_related,
{
}

/// Law: the envelope sender of a message is the bare address in its sender, or where it
/// has none the one in its From; it is an error if that is no address, whatever else the
/// message holds.
pub proof fn law_parse_sender(e: Email, r: Result<String, Error>)
    requires
        call_ensures(Email::parse_sender, (&e,), r),
    ensures
        match crate::address::parsed_address(
            if e.sender@.len() > 0 {
                e.sender@
            } else {
                e.from@
            },
        ) {
            Ok((_, addr)) => r is Ok && r->Ok_0@ == addr,
            Err(t) => r is Err && r->Err_0 is Address && r->Err_0->Address_0@
                == "invalid address: "@ + t,
        },
{
}

/// Law: the attachments of a message are told apart by whether they are embedded; each
/// stands in one of the two lists, in its order.
pub proof fn law_categorized(e: Email, r: (Vec<&Attachment>, Vec<&Attachment>))
    requires
        call_ensures(Email::categorize_attachments, (&e,), r),
    ensures
        views(r.0@).to_multiset().add(views(r.1@).to_multiset()) == e@.attachments.to_multiset(),
        forall|i: int| 0 <= i < r.0@.len() ==> (#[trigger] views(r.0@)[i]).html_related,
        forall|i: int| 0 <= i < r.1@.len() ==> !(#[trigger] views(r.1@)[i]).html_related,
{
    law_select_partitions(e@.attachments);
    law_select(e@.attachments, Seq::empty(), true);
    law_select(e@.attachments, Seq::empty(), false);
}

} // verus!
