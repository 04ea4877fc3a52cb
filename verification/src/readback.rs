//! What is read back of a message that was rendered, where a parser gives its parts
//! as they were written: the header fields in their order, with encoded words
//! undone, and each body, together with the line ending of the delimiter behind it,
//! with its transfer encoding undone.

use vstd::prelude::*;

use crate::email::{AttachmentView, EmailView};
use crate::header::HeaderView;
use crate::names::{CONTENT_TYPE_HTML, CONTENT_TYPE_PLAIN};
use crate::parse::PartView;
use crate::render::Entity;
use crate::stamp::StampView;

verus! {

/// The fields of a header, one for each value.
pub open spec fn header_pairs(h: HeaderView) -> Seq<(Seq<char>, Seq<char>)>
    decreases h.len(),
{
    if h.len() == 0 {
        Seq::empty()
    } else {
        header_pairs(h.drop_last()) + field_pairs(h.last().0, h.last().1)
    }
}

/// One field for each of `vals`.
pub open spec fn field_pairs(key: Seq<char>, vals: Seq<Seq<char>>) -> Seq<(Seq<char>, Seq<char>)> {
    vals.map_values(|v: Seq<char>| (key, v))
}

/// The bytes of `t` that stand in the message as its body, where `nested` says whether
/// the line ending of a delimiter follows.
pub open spec fn body_bytes(t: Entity, nested: bool) -> Seq<u8> {
    if nested {
        crate::render::entity_body(t) + crate::text::crlf()
    } else {
        crate::render::entity_body(t)
    }
}

/// What the body of a text is decoded to, where `nested` says whether the line
/// ending of a delimiter follows.
pub open spec fn decoded_text(body: Seq<u8>, nested: bool) -> Seq<u8> {
    crate::encoding::qp_decode(
        body_bytes(Entity::Text { media: CONTENT_TYPE_PLAIN@, body }, nested),
    )
}

/// Law: a text is decoded to itself, of whichever type it is, with its line breaks
/// normalized to CRLF, and the line ending of the delimiter behind it where one follows.
pub proof fn law_decoded_text(media: Seq<char>, body: Seq<u8>, nested: bool)
    ensures
        crate::encoding::qp_decode(body_bytes(Entity::Text { media, body }, nested))
            == decoded_text(body, nested),
        decoded_text(body, nested) == if nested {
            crate::encoding::normalize_breaks(body) + crate::text::crlf()
        } else {
            crate::encoding::normalize_breaks(body)
        },
{
    crate::render::law_leaf_bodies(media, body, crate::email::empty_attachment());
    crate::render::law_leaf_bodies(CONTENT_TYPE_PLAIN@, body, crate::email::empty_attachment());
}

/// The header of `t` as it is written under the header `h`: that of a part has its keys
/// in order.
pub open spec fn written_header(t: Entity, h: HeaderView, nested: bool) -> HeaderView {
    if nested {
        crate::multipart::sorted_entries(crate::render::entity_header(h, t))
    } else {
        crate::render::entity_header(h, t)
    }
}

/// The parts of `t` as they were written under the header `h`, first `t` itself and
/// then all in it. An attachment has the MIME type that `mime` gives for it.
pub open spec fn written(
    t: Entity,
    h: HeaderView,
    nested: bool,
    mime: spec_fn(AttachmentView) -> Seq<char>,
) -> Seq<PartView>
    decreases t,
{
    let headers = header_pairs(written_header(t, h, nested));
    match t {
        Entity::Text { media, body } => seq![
            PartView {
                subparts: 0,
                mimetype: media,
                headers,
                body: Some(crate::encoding::qp_decode(body_bytes(t, nested))),
                is_base64: false,
                disposition: Seq::empty(),
            },
        ],
        Entity::File { file } => seq![
            PartView {
                subparts: 0,
                mimetype: mime(file),
                headers,
                body: Some(
                    crate::encoding::base64_decode(
                        crate::encoding::without_breaks(body_bytes(t, nested)),
                    ),
                ),
                is_base64: true,
                disposition: seq![("filename"@, file.filename)],
            },
        ],
        Entity::Multi { kind, boundary, parts } => seq![
            PartView {
                subparts: parts.len(),
                mimetype: kind,
                headers,
                body: None,
                is_base64: false,
                disposition: Seq::empty(),
            },
        ] + written_all(parts, mime),
    }
}

/// The parts of a container as they were written.
pub open spec fn written_all(
    parts: Seq<Entity>,
    mime: spec_fn(AttachmentView) -> Seq<char>,
) -> Seq<PartView>
    decreases parts,
{
    if parts.len() == 0 {
        Seq::empty()
    } else {
        written_all(parts.drop_last(), mime) + written(parts.last(), Seq::empty(), true, mime)
    }
}

/// The attachment that is read of `file`.
pub open spec fn read_attachment(file: AttachmentView) -> AttachmentView {
    AttachmentView {
        filename: file.filename,
        header: crate::parse::collected(
            header_pairs(crate::multipart::sorted_entries(file.header)),
        ),
        content: file.content,
        html_related: false,
    }
}

/// `e` with what is read of the texts and attachments `leaves`.
pub open spec fn read_leaves(e: EmailView, leaves: Seq<Entity>) -> EmailView
    decreases leaves.len(),
{
    if leaves.len() == 0 {
        e
    } else {
        let before = read_leaves(e, leaves.drop_last());
        match leaves.last() {
            Entity::Text { media, body } => if media == CONTENT_TYPE_PLAIN@ {
                EmailView { text: crate::encoding::normalize_breaks(body), ..before }
            } else {
                EmailView { html: crate::encoding::normalize_breaks(body), ..before }
            },
            Entity::File { file } => EmailView {
                attachments: before.attachments.push(read_attachment(file)),
                ..before
            },
            Entity::Multi { kind, boundary, parts } => before,
        }
    }
}

/// `e` with parts that all stand in a container.
spec fn place_all(e: EmailView, parts: Seq<PartView>) -> EmailView
    decreases parts.len(),
{
    if parts.len() == 0 {
        e
    } else {
        crate::parse::place(place_all(e, parts.drop_last()), parts.last(), true)
    }
}

/// Whether no container in `t` is empty, all texts are plain or HTML, and no
/// attachment has the type of a text.
spec fn is_regular(t: Entity, mime: spec_fn(AttachmentView) -> Seq<char>) -> bool
    decreases t,
{
    match t {
        Entity::Text { media, body } => is_text_type(media),
        Entity::File { file } => !is_text_type(mime(file)),
        Entity::Multi { kind, boundary, parts } => parts.len() > 0 && all_regular(parts, mime),
    }
}

/// Whether all of `parts` are regular.
spec fn all_regular(parts: Seq<Entity>, mime: spec_fn(AttachmentView) -> Seq<char>) -> bool
    decreases parts,
{
    if parts.len() == 0 {
        true
    } else {
        all_regular(parts.drop_last(), mime) && is_regular(parts.last(), mime)
    }
}

/// Whether `mimetype` is the type of a text.
pub open spec fn is_text_type(mimetype: Seq<char>) -> bool {
    mimetype == CONTENT_TYPE_PLAIN@ || mimetype == CONTENT_TYPE_HTML@
}

/// Whether `mime` gives none of the attachments `list` the type of a text.
pub open spec fn no_text_type(
    list: Seq<AttachmentView>,
    mime: spec_fn(AttachmentView) -> Seq<char>,
) -> bool {
    forall|i: int| 0 <= i < list.len() ==> !is_text_type(mime(#[trigger] list[i]))
}

proof fn lemma_selected_types(
    list: Seq<AttachmentView>,
    related: bool,
    mime: spec_fn(AttachmentView) -> Seq<char>,
)
    requires
        no_text_type(list, mime),
    ensures
        no_text_type(crate::email::select(list, related), mime),
    decreases list.len(),
{
    if list.len() > 0 {
        let init = list.drop_last();
        assert forall|i: int| 0 <= i < init.len() implies !is_text_type(
            mime(#[trigger] init[i]),
        ) by {
            assert(init[i] == list[i]);
        }
        lemma_selected_types(init, related, mime);
        assert(list.last() == list[list.len() - 1]);
        let all = crate::email::select(list, related);
        let before = crate::email::select(init, related);
        assert forall|i: int| 0 <= i < all.len() implies !is_text_type(mime(#[trigger] all[i])) by {
            if i < before.len() {
                assert(all[i] == before[i]);
            }
        }
    }
}

proof fn lemma_place_append(e: EmailView, a: Seq<PartView>, b: Seq<PartView>)
    ensures
        place_all(e, a + b) == place_all(place_all(e, a), b),
    decreases b.len(),
{
    if b.len() == 0 {
        assert(a + b == a);
    } else {
        lemma_place_append(e, a, b.drop_last());
        assert((a + b).drop_last() == a + b.drop_last());
    }
}

proof fn lemma_place_one(e: EmailView, p: PartView)
    ensures
        place_all(e, seq![p]) == crate::parse::place(e, p, true),
{
    assert(seq![p].drop_last() == Seq::<PartView>::empty());
    assert(place_all(e, seq![p].drop_last()) == e);
}

/// The first part stands in no container, all others do.
proof fn lemma_placed(e: EmailView, p: PartView, rest: Seq<PartView>)
    ensures
        crate::parse::placed(e, seq![p] + rest) == place_all(
            crate::parse::place(e, p, false),
            rest,
        ),
    decreases rest.len(),
{
    let all = seq![p] + rest;
    if rest.len() == 0 {
        assert(all == seq![p]);
        assert(all.drop_last() == Seq::<PartView>::empty());
        assert(crate::parse::placed(e, all.drop_last()) == e);
    } else {
        lemma_placed(e, p, rest.drop_last());
        assert(all.drop_last() == seq![p] + rest.drop_last());
    }
}

proof fn lemma_read_append(e: EmailView, a: Seq<Entity>, b: Seq<Entity>)
    ensures
        read_leaves(e, a + b) == read_leaves(read_leaves(e, a), b),
    decreases b.len(),
{
    if b.len() == 0 {
        assert(a + b == a);
    } else {
        lemma_read_append(e, a, b.drop_last());
        assert((a + b).drop_last() == a + b.drop_last());
    }
}

proof fn lemma_read_one(e: EmailView, t: Entity)
    ensures
        read_leaves(e, seq![t]) == match t {
            Entity::Text { media, body } => if media == CONTENT_TYPE_PLAIN@ {
                EmailView { text: crate::encoding::normalize_breaks(body), ..e }
            } else {
                EmailView { html: crate::encoding::normalize_breaks(body), ..e }
            },
            Entity::File { file } => EmailView {
                attachments: e.attachments.push(read_attachment(file)),
                ..e
            },
            Entity::Multi { kind, boundary, parts } => e,
        },
{
    assert(seq![t].drop_last() == Seq::<Entity>::empty());
    assert(read_leaves(e, seq![t].drop_last()) == e);
}

/// What is read of one text or attachment.
proof fn lemma_read_leaf(
    e: EmailView,
    t: Entity,
    h: HeaderView,
    nested: bool,
    mime: spec_fn(AttachmentView) -> Seq<char>,
)
    requires
        is_regular(t, mime),
        !(t is Multi),
        nested || t is Text,
    ensures
        crate::parse::place(e, written(t, h, nested, mime)[0], nested) == read_leaves(e, seq![t]),
{
    lemma_read_one(e, t);
    let p = written(t, h, nested, mime)[0];
    match t {
        Entity::Text { media, body } => {
            reveal_strlit("text/plain");
            reveal_strlit("text/html");
            assert(CONTENT_TYPE_PLAIN@.len() != CONTENT_TYPE_HTML@.len());
            crate::render::law_leaf_bodies(media, body, crate::email::empty_attachment());
            crate::parse::law_one_line_ending(crate::encoding::normalize_breaks(body));
            assert(crate::parse::part_body(p, nested) == crate::encoding::normalize_breaks(body));
        },
        Entity::File { file } => {
            crate::render::law_leaf_bodies(Seq::empty(), Seq::empty(), file);
            assert(p.disposition[0] == ("filename"@, file.filename));
            assert(crate::parse::parameter(p.disposition, "filename"@) == file.filename);
            assert(crate::parse::part_attachment(p, nested) == read_attachment(file));
        },
        Entity::Multi { kind, boundary, parts } => {},
    }
}

/// What is read of an entity in a container is what is read of its leaves.
proof fn lemma_read_entity(
    e: EmailView,
    t: Entity,
    h: HeaderView,
    mime: spec_fn(AttachmentView) -> Seq<char>,
)
    requires
        is_regular(t, mime),
    ensures
        place_all(e, written(t, h, true, mime)) == read_leaves(e, crate::render::leaves(t)),
    decreases t,
{
    match t {
        Entity::Multi { kind, boundary, parts } => {
            let p = written(t, h, true, mime)[0];
            lemma_place_append(e, seq![p], written_all(parts, mime));
            lemma_place_one(e, p);
            lemma_read_entities(e, parts, mime);
            assert(written(t, h, true, mime) == seq![p] + written_all(parts, mime));
        },
        _ => {
            let p = written(t, h, true, mime)[0];
            assert(written(t, h, true, mime) == seq![p]);
            lemma_place_one(e, p);
            lemma_read_leaf(e, t, h, true, mime);
        },
    }
}

proof fn lemma_read_entities(
    e: EmailView,
    parts: Seq<Entity>,
    mime: spec_fn(AttachmentView) -> Seq<char>,
)
    requires
        all_regular(parts, mime),
    ensures
        place_all(e, written_all(parts, mime)) == read_leaves(
            e,
            crate::render::parts_leaves(parts),
        ),
    decreases parts,
{
    if parts.len() > 0 {
        let init = parts.drop_last();
        let last = parts.last();
        lemma_read_entities(e, init, mime);
        let before = place_all(e, written_all(init, mime));
        lemma_read_entity(before, last, Seq::empty(), mime);
        lemma_place_append(e, written_all(init, mime), written(last, Seq::empty(), true, mime));
        lemma_read_append(
            e,
            crate::render::parts_leaves(init),
            crate::render::leaves(last),
        );
    }
}

proof fn lemma_regular_append(
    a: Seq<Entity>,
    b: Seq<Entity>,
    mime: spec_fn(AttachmentView) -> Seq<char>,
)
    requires
        all_regular(a, mime),
        all_regular(b, mime),
    ensures
        all_regular(a + b, mime),
    decreases b.len(),
{
    if b.len() == 0 {
        assert(a + b == a);
    } else {
        lemma_regular_append(a, b.drop_last(), mime);
        assert((a + b).drop_last() == a + b.drop_last());
    }
}

proof fn lemma_regular_one(t: Entity, mime: spec_fn(AttachmentView) -> Seq<char>)
    requires
        is_regular(t, mime),
    ensures
        all_regular(seq![t], mime),
{
    assert(seq![t].drop_last() == Seq::<Entity>::empty());
    assert(all_regular(seq![t].drop_last(), mime));
}

proof fn lemma_regular_files(
    list: Seq<AttachmentView>,
    mime: spec_fn(AttachmentView) -> Seq<char>,
)
    requires
        no_text_type(list, mime),
    ensures
        all_regular(crate::render::files(list), mime),
    decreases list.len(),
{
    if list.len() > 0 {
        let init = list.drop_last();
        assert forall|i: int| 0 <= i < init.len() implies !is_text_type(
            mime(#[trigger] init[i]),
        ) by {
            assert(init[i] == list[i]);
        }
        lemma_regular_files(init, mime);
        assert(crate::render::files(list).drop_last() == crate::render::files(init));
        let last = Entity::File { file: list.last() };
        assert(crate::render::files(list).last() == last);
        assert(list.last() == list[list.len() - 1]);
        assert(is_regular(last, mime));
    }
}

/// The body of every message is regular, if no attachment has the type of a text.
proof fn lemma_message_regular(
    e: EmailView,
    s: StampView,
    mime: spec_fn(AttachmentView) -> Seq<char>,
)
    requires
        no_text_type(e.attachments, mime),
    ensures
        is_regular(crate::render::message_entity(e, s), mime),
{
    let related = crate::email::select(e.attachments, true);
    let others = crate::email::select(e.attachments, false);
    let plain = crate::render::text_entity(CONTENT_TYPE_PLAIN@, e.text);
    let html = crate::render::text_entity(CONTENT_TYPE_HTML@, e.html);
    lemma_selected_types(e.attachments, true, mime);
    lemma_selected_types(e.attachments, false, mime);
    lemma_regular_files(related, mime);
    lemma_regular_files(others, mime);
    lemma_regular_one(html, mime);
    lemma_regular_append(seq![html], crate::render::files(related), mime);
    assert(is_regular(crate::render::html_entity(e, s), mime));
    lemma_regular_one(crate::render::html_entity(e, s), mime);
    lemma_regular_one(plain, mime);
    let first: Seq<Entity> = if e.text.len() > 0 {
        seq![plain]
    } else {
        Seq::empty()
    };
    let second: Seq<Entity> = if e.html.len() > 0 {
        seq![crate::render::html_entity(e, s)]
    } else {
        Seq::empty()
    };
    lemma_regular_append(first, second, mime);
    let texts = crate::render::text_parts(e, s);
    assert(texts == first + second);
    let leading = crate::render::leading_parts(e, s);
    if crate::render::is_mixed(e) && crate::render::is_alternative(e) {
        lemma_regular_one(leading[0], mime);
        assert(leading == seq![leading[0]]);
    }
    lemma_regular_append(leading, crate::render::files(others), mime);
}

/// The attachments that are read of `list`.
pub open spec fn read_attachments(list: Seq<AttachmentView>) -> Seq<AttachmentView> {
    list.map_values(|file: AttachmentView| read_attachment(file))
}

proof fn lemma_read_files(e: EmailView, list: Seq<AttachmentView>)
    ensures
        read_leaves(e, crate::render::files(list)) == (EmailView {
            attachments: e.attachments + read_attachments(list),
            ..e
        }),
    decreases list.len(),
{
    let files = crate::render::files(list);
    if list.len() == 0 {
        assert(e.attachments + read_attachments(list) == e.attachments);
    } else {
        lemma_read_files(e, list.drop_last());
        assert(files.drop_last() == crate::render::files(list.drop_last()));
        assert(files.last() == (Entity::File { file: list.last() }));
        assert(e.attachments + read_attachments(list) == (e.attachments + read_attachments(
            list.drop_last(),
        )).push(read_attachment(list.last())));
    }
}

/// Law: of a rendered message, read back from its parts as they were written, the
/// texts are those of the message with their line breaks normalized to CRLF, and
/// the attachments are those of the message, the embedded ones first, each with its
/// name and its content, byte for byte. An attachment whose MIME type is that of a
/// text is left out: it is read as one.
pub proof fn law_read_back(
    e: EmailView,
    s: StampView,
    h: HeaderView,
    mime: spec_fn(AttachmentView) -> Seq<char>,
)
    requires
        crate::render::attachment_fault(e) is None,
        no_text_type(e.attachments, mime),
    ensures
        ({
            let r = crate::parse::email_of(
                written(crate::render::message_entity(e, s), h, false, mime),
            );
            &&& r.text == crate::encoding::normalize_breaks(e.text)
            &&& r.html == crate::encoding::normalize_breaks(e.html)
            &&& r.attachments == read_attachments(
                crate::email::select(e.attachments, true) + crate::email::select(
                    e.attachments,
                    false,
                ),
            )
        }),
{
    let t = crate::render::message_entity(e, s);
    let parts = written(t, h, false, mime);
    let related = crate::email::select(e.attachments, true);
    let others = crate::email::select(e.attachments, false);
    let start = crate::parse::lifted(parts[0].headers);
    lemma_lifted_bodies(parts[0].headers);
    lemma_message_regular(e, s, mime);
    // From the parts to the leaves.
    match t {
        Entity::Multi { kind, boundary, parts: inner } => {
            lemma_placed(start, parts[0], written_all(inner, mime));
            assert(parts == seq![parts[0]] + written_all(inner, mime));
            lemma_read_entities(start, inner, mime);
        },
        _ => {
            lemma_placed(start, parts[0], Seq::empty());
            assert(parts == seq![parts[0]] + Seq::<PartView>::empty());
            lemma_read_leaf(start, t, h, false, mime);
        },
    }
    let r = crate::parse::email_of(parts);
    assert(r == read_leaves(start, crate::render::leaves(t)));
    // From the leaves to the message.
    let plain = crate::render::plain_leaf(e);
    let html = crate::render::html_leaf(e);
    reveal_strlit("text/plain");
    reveal_strlit("text/html");
    assert(CONTENT_TYPE_PLAIN@.len() != CONTENT_TYPE_HTML@.len());
    lemma_read_one(start, crate::render::text_entity(CONTENT_TYPE_PLAIN@, e.text));
    assert(crate::encoding::normalize_breaks(Seq::empty()) == Seq::<u8>::empty());
    assert(e.text.len() == 0 ==> e.text == Seq::<u8>::empty());
    assert(e.html.len() == 0 ==> e.html == Seq::<u8>::empty());
    assert(read_attachments(related + others) == read_attachments(related) + read_attachments(
        others,
    ));
    if e.text.len() > 0 || e.html.len() > 0 || e.attachments.len() > 0 {
        crate::render::law_message_leaves(e, s);
        let r1 = read_leaves(start, plain);
        let r2 = read_leaves(r1, html);
        let r3 = read_leaves(r2, crate::render::files(related));
        lemma_read_one(r1, crate::render::text_entity(CONTENT_TYPE_HTML@, e.html));
        lemma_read_append(start, plain, html);
        lemma_read_append(start, plain + html, crate::render::files(related));
        lemma_read_append(
            start,
            plain + html + crate::render::files(related),
            crate::render::files(others),
        );
        lemma_read_files(r2, related);
        lemma_read_files(r3, others);
        assert(r == read_leaves(r3, crate::render::files(others)));
        assert(r.attachments == start.attachments + read_attachments(related) + read_attachments(
            others,
        ));
        assert(r.attachments == read_attachments(related + others));
    } else {
        crate::email::lemma_select_len(e.attachments);
        assert(t == crate::render::text_entity(CONTENT_TYPE_PLAIN@, e.text));
        assert(crate::render::leaves(t) == seq![t]);
        assert(r.attachments == read_attachments(related + others));
    }
}

proof fn lemma_values_append(
    a: Seq<(Seq<char>, Seq<char>)>,
    b: Seq<(Seq<char>, Seq<char>)>,
    canon: Seq<char>,
)
    ensures
        crate::parse::values_under(a + b, canon) == crate::parse::values_under(a, canon)
            + crate::parse::values_under(b, canon),
    decreases b.len(),
{
    if b.len() == 0 {
        assert(a + b == a);
    } else {
        lemma_values_append(a, b.drop_last(), canon);
        assert((a + b).drop_last() == a + b.drop_last());
        assert(crate::parse::values_under(a + b, canon) == crate::parse::values_under(a, canon)
            + crate::parse::values_under(b, canon));
    }
}

proof fn lemma_field_values(key: Seq<char>, vals: Seq<Seq<char>>, canon: Seq<char>)
    ensures
        crate::parse::values_under(field_pairs(key, vals), canon) == if crate::header::canonical(
            key,
        ) == canon {
            vals
        } else {
            Seq::empty()
        },
    decreases vals.len(),
{
    let pairs = field_pairs(key, vals);
    if vals.len() > 0 {
        lemma_field_values(key, vals.drop_last(), canon);
        assert(pairs.drop_last() == field_pairs(key, vals.drop_last()));
        assert(pairs.last() == (key, vals.last()));
        assert(vals.drop_last().push(vals.last()) == vals);
    }
}

/// Law: what is read of the fields of a header, for any key, are the values that it
/// has.
pub proof fn law_header_read_back(h: HeaderView, key: Seq<char>)
    requires
        crate::header::header_wf(h),
        crate::fields::stable_keys(h),
    ensures
        crate::parse::values_under(header_pairs(h), crate::header::canonical(key))
            == match crate::header::header_values(h, key) {
            Some(vals) => vals,
            None => Seq::empty(),
        },
    decreases h.len(),
{
    let canon = crate::header::canonical(key);
    if h.len() > 0 {
        let init = h.drop_last();
        let last = h.last();
        assert(last == h[h.len() - 1]);
        assert forall|i: int| 0 <= i < init.len() implies crate::header::canonical(
            (#[trigger] init[i]).0,
        ) == init[i].0 && crate::header::is_canonical(init[i].0) && init[i].1.len() > 0 by {
            assert(init[i] == h[i]);
        }
        assert forall|i: int, j: int| 0 <= i < j < init.len() implies (#[trigger] init[i]).0 != (
        #[trigger] init[j]).0 by {
            assert(init[i] == h[i] && init[j] == h[j]);
        }
        law_header_read_back(init, key);
        lemma_values_append(header_pairs(init), field_pairs(last.0, last.1), canon);
        lemma_field_values(last.0, last.1, canon);
        crate::header::lemma_find(init, canon);
        if last.0 == canon {
            if let Some(i) = crate::header::find(init, canon) {
                assert(h[i].0 == last.0);
            }
        }
        assert(crate::parse::values_under(header_pairs(init), canon) + Seq::<Seq<char>>::empty()
            == crate::parse::values_under(header_pairs(init), canon));
        assert(Seq::<Seq<char>>::empty() + last.1 == last.1);
    }
}

/// Header fields bring no bodies.
proof fn lemma_lifted_bodies(headers: Seq<(Seq<char>, Seq<char>)>)
    ensures
        crate::parse::lifted(headers).text == Seq::<u8>::empty(),
        crate::parse::lifted(headers).html == Seq::<u8>::empty(),
        crate::parse::lifted(headers).attachments == Seq::<AttachmentView>::empty(),
    decreases headers.len(),
{
    if headers.len() > 0 {
        lemma_lifted_bodies(headers.drop_last());
    }
}

/// The values that a rendered message has for `key`: the custom ones, or else those
/// that the message itself gives.
pub open spec fn sent_values(e: EmailView, s: StampView, key: Seq<char>) -> Seq<Seq<char>> {
    match crate::header::header_values(e.headers, key) {
        Some(vals) => vals,
        None => match crate::fields::own_values(e, s.message_id, s.date, key) {
            Some(vals) => vals,
            None => Seq::empty(),
        },
    }
}

/// The fields that say what a body is have no part in the values of other keys.
proof fn lemma_described(h: HeaderView, t: Entity, key: Seq<char>)
    requires
        !(t is File),
        crate::header::canonical(key) != crate::header::canonical(crate::names::HDR_CONTENT_TYPE@),
        crate::header::canonical(key) != crate::header::canonical(
            crate::names::HDR_CONTENT_TRANSFER_ENCODING@,
        ),
        crate::fields::is_tidy(h),
    ensures
        crate::header::header_values(crate::render::entity_header(h, t), key)
            == crate::header::header_values(h, key),
        crate::fields::is_tidy(crate::render::entity_header(h, t)),
{
    let typed = crate::names::HDR_CONTENT_TYPE@;
    let encoded = crate::names::HDR_CONTENT_TRANSFER_ENCODING@;
    reveal_strlit("Content-Type");
    reveal_strlit("Content-Transfer-Encoding");
    crate::fields::lemma_ascii_stable(typed);
    crate::fields::lemma_ascii_stable(encoded);
    match t {
        Entity::Text { media, body } => {
            let val = media + "; charset="@ + crate::names::DEFAULT_CHAR_ENCODING@;
            let mid = crate::header::header_set(h, typed, val);
            let enc = crate::names::CONTENT_ENC_QUOTED_PRINTABLE@;
            crate::header::law_set_then_get(h, typed, val, key);
            crate::fields::lemma_set_tidy(h, typed, val);
            crate::header::law_set_then_get(mid, encoded, enc, key);
            crate::fields::lemma_set_tidy(mid, encoded, enc);
        },
        Entity::Multi { kind, boundary, parts } => {
            let val = kind + ";\r\n boundary="@ + boundary;
            crate::header::law_set_then_get(h, typed, val, key);
            crate::fields::lemma_set_tidy(h, typed, val);
        },
        Entity::File { file } => {},
    }
}

/// What is read back of the field `key`, which is its own canonical form.
proof fn lemma_sent_values(e: EmailView, s: StampView, h: HeaderView, t: Entity, key: Seq<char>)
    requires
        !(t is File),
        crate::fields::is_tidy(e.headers),
        crate::fields::message_headers(e, s.message_id, s.date) == Ok::<HeaderView, Seq<char>>(h),
        crate::header::canonical(key) == key,
        crate::header::canonical(key) != crate::header::canonical(crate::names::HDR_CONTENT_TYPE@),
        crate::header::canonical(key) != crate::header::canonical(
            crate::names::HDR_CONTENT_TRANSFER_ENCODING@,
        ),
    ensures
        crate::parse::values_under(header_pairs(crate::render::entity_header(h, t)), key)
            == sent_values(e, s, key),
{
    crate::fields::law_message_headers_tidy(e, s.message_id, s.date);
    crate::fields::law_message_headers(e, s.message_id, s.date, key);
    lemma_described(h, t, key);
    law_header_read_back(crate::render::entity_header(h, t), key);
}

/// The names of the lifted fields are their own canonical forms.
proof fn lemma_lifted_names()
    ensures
        crate::header::canonical(crate::names::HDR_SUBJECT@) == crate::names::HDR_SUBJECT@,
        crate::header::canonical(crate::names::HDR_TO@) == crate::names::HDR_TO@,
        crate::header::canonical(crate::names::HDR_CC@) == crate::names::HDR_CC@,
        crate::header::canonical(crate::names::HDR_BCC@) == crate::names::HDR_BCC@,
        crate::header::canonical(crate::names::HDR_FROM@) == crate::names::HDR_FROM@,
{
    reveal_strlit("Subject");
    reveal_strlit("To");
    reveal_strlit("Cc");
    reveal_strlit("Bcc");
    reveal_strlit("From");
    crate::fields::lemma_ascii_canonical(crate::names::HDR_SUBJECT@, true);
    crate::fields::lemma_ascii_canonical(crate::names::HDR_TO@, true);
    crate::fields::lemma_ascii_canonical(crate::names::HDR_CC@, true);
    crate::fields::lemma_ascii_canonical(crate::names::HDR_BCC@, true);
    crate::fields::lemma_ascii_canonical(crate::names::HDR_FROM@, true);
    assert(crate::header::canonical(crate::names::HDR_SUBJECT@) == crate::names::HDR_SUBJECT@);
    assert(crate::header::canonical(crate::names::HDR_TO@) == crate::names::HDR_TO@);
    assert(crate::header::canonical(crate::names::HDR_CC@) == crate::names::HDR_CC@);
    assert(crate::header::canonical(crate::names::HDR_BCC@) == crate::names::HDR_BCC@);
    assert(crate::header::canonical(crate::names::HDR_FROM@) == crate::names::HDR_FROM@);
}

/// Law: of a rendered message, read back from its parts as they were written, the
/// subject and the sender are those of the message, the recipients stand in one
/// entry for each header value, and there are no blind copies, unless custom
/// headers say otherwise.
pub proof fn law_fields_read_back(
    e: EmailView,
    s: StampView,
    h: HeaderView,
    mime: spec_fn(AttachmentView) -> Seq<char>,
)
    requires
        crate::fields::is_tidy(e.headers),
        crate::fields::message_headers(e, s.message_id, s.date) == Ok::<HeaderView, Seq<char>>(h),
    ensures
        ({
            let r = crate::parse::email_of(
                written(crate::render::message_entity(e, s), h, false, mime),
            );
            &&& r.subject == crate::parse::last_or_empty(
                sent_values(e, s, crate::names::HDR_SUBJECT@),
            )
            &&& r.from == crate::parse::last_or_empty(sent_values(e, s, crate::names::HDR_FROM@))
            &&& r.to == sent_values(e, s, crate::names::HDR_TO@)
            &&& r.cc == sent_values(e, s, crate::names::HDR_CC@)
            &&& r.bcc == sent_values(e, s, crate::names::HDR_BCC@)
        }),
        !crate::header::header_has(e.headers, crate::names::HDR_SUBJECT@) && e.subject.len() > 0
            ==> crate::parse::last_or_empty(sent_values(e, s, crate::names::HDR_SUBJECT@))
            == e.subject,
        !crate::header::header_has(e.headers, crate::names::HDR_BCC@) ==> sent_values(
            e,
            s,
            crate::names::HDR_BCC@,
        ).len() == 0,
{
    let t = crate::render::message_entity(e, s);
    let parts = written(t, h, false, mime);
    let headers = header_pairs(crate::render::entity_header(h, t));
    assert(parts[0].headers == headers);
    crate::fields::lemma_field_names();
    lemma_lifted_names();
    lemma_sent_values(e, s, h, t, crate::names::HDR_SUBJECT@);
    lemma_sent_values(e, s, h, t, crate::names::HDR_FROM@);
    lemma_sent_values(e, s, h, t, crate::names::HDR_TO@);
    lemma_sent_values(e, s, h, t, crate::names::HDR_CC@);
    lemma_sent_values(e, s, h, t, crate::names::HDR_BCC@);
    crate::parse::law_lifted(headers, Seq::empty());
    crate::parse::law_parts_distributed(crate::parse::lifted(headers), parts);
}

/// Putting the keys of a header in order changes none of its values.
pub proof fn lemma_sorted_values(h: HeaderView, key: Seq<char>)
    requires
        crate::header::header_wf(h),
    ensures
        crate::header::header_wf(crate::multipart::sorted_entries(h)),
        crate::fields::stable_keys(h) ==> crate::fields::stable_keys(
            crate::multipart::sorted_entries(h),
        ),
        crate::header::header_values(crate::multipart::sorted_entries(h), key)
            == crate::header::header_values(h, key),
{
    broadcast use vstd::seq_lib::group_to_multiset_ensures;

    let sorted = crate::multipart::sorted_entries(h);
    crate::multipart::law_sorted_entries(h);
    assert forall|i: int| 0 <= i < sorted.len() implies h.contains(#[trigger] sorted[i]) by {
        assert(sorted.contains(sorted[i]));
        assert(sorted.to_multiset().count(sorted[i]) > 0);
    }
    assert forall|i: int| 0 <= i < h.len() implies sorted.contains(#[trigger] h[i]) by {
        assert(h.contains(h[i]));
        assert(h.to_multiset().count(h[i]) > 0);
    }
    assert(h.no_duplicates()) by {
        assert forall|i: int, j: int| 0 <= i < h.len() && 0 <= j < h.len() && i != j implies h[i]
            != h[j] by {
            if i < j {
                assert(h[i].0 != h[j].0);
            } else {
                assert(h[j].0 != h[i].0);
            }
        }
    }
    h.lemma_multiset_has_no_duplicates();
    sorted.lemma_multiset_has_no_duplicates_conv();
    assert forall|i: int, j: int| 0 <= i < j < sorted.len() implies (#[trigger] sorted[i]).0 != (
    #[trigger] sorted[j]).0 by {
        assert(sorted[i] != sorted[j]);
        let a = choose|a: int| 0 <= a < h.len() && h[a] == sorted[i];
        let b = choose|b: int| 0 <= b < h.len() && h[b] == sorted[j];
        if a < b {
            assert(h[a].0 != h[b].0);
        } else {
            assert(a != b);
            assert(h[b].0 != h[a].0);
        }
    }
    assert forall|i: int| 0 <= i < sorted.len() implies crate::header::is_canonical(
        (#[trigger] sorted[i]).0,
    ) && sorted[i].1.len() > 0 && (crate::fields::stable_keys(h) ==> crate::header::canonical(
        sorted[i].0,
    ) == sorted[i].0) by {
        let a = choose|a: int| 0 <= a < h.len() && h[a] == sorted[i];
        assert(h[a] == sorted[i]);
    }
    let canon = crate::header::canonical(key);
    crate::header::lemma_find(h, canon);
    crate::header::lemma_find(sorted, canon);
    if let Some(i) = crate::header::find(h, canon) {
        assert(sorted.contains(h[i]));
        let j = choose|j: int| 0 <= j < sorted.len() && sorted[j] == h[i];
        assert(sorted[j].0 == canon);
        let k = crate::header::find(sorted, canon)->0;
        if j < k {
            assert(sorted[j].0 != sorted[k].0);
        } else if k < j {
            assert(sorted[k].0 != sorted[j].0);
        }
    } else if let Some(k) = crate::header::find(sorted, canon) {
        assert(h.contains(sorted[k]));
        let a = choose|a: int| 0 <= a < h.len() && h[a] == sorted[k];
        assert(h[a].0 == canon);
    }
}

/// Law: an attachment is read with all the values that its header has, under every key.
pub proof fn law_attachment_header_read_back(file: AttachmentView, key: Seq<char>)
    requires
        crate::fields::is_tidy(file.header),
    ensures
        crate::header::header_values(read_attachment(file).header, key)
            == crate::header::header_values(file.header, key),
{
    let sorted = crate::multipart::sorted_entries(file.header);
    lemma_sorted_values(file.header, key);
    law_header_read_back(sorted, key);
    crate::parse::law_collected(header_pairs(sorted), key);
    crate::header::lemma_find(sorted, crate::header::canonical(key));
}

} // verus!
