//! Rendering messages. The rendered message is parsed back with `mailparse` to
//! verify structure, headers and bodies.

use mailparse::{addrparse, parse_mail, MailAddr, MailHeaderMap, ParsedMail};
use pooledsmtp::stamp::Stamp;
use pooledsmtp::{Email, Error};

const PID: u32 = 4711;

fn prepare_email() -> Email {
    Email {
        from: "Jordan Wright <test@example.com>".into(),
        to: vec!["Bécassine <test@example.com>".into()],
        bcc: vec!["test_bcc@example.com".into()],
        cc: vec!["test_cc@example.com".into()],
        subject: "Awesome Subject".into(),
        ..Default::default()
    }
}

fn stamp() -> Stamp {
    Stamp {
        message_id: "<1.2.3@host.example>".into(),
        date: "Mon, 01 Jan 2024 00:00:00 +0000".into(),
        outer: "OUTER".into(),
        nested: "NESTED".into(),
        related: "RELATED".into(),
    }
}

/// Extracts `(display_name, address)` from the first address in a header value.
fn first_addr(value: &str) -> (String, String) {
    let list = addrparse(value).expect("addrparse");
    match list.first().expect("at least one address") {
        MailAddr::Single(info) => (
            info.display_name.clone().unwrap_or_default(),
            info.addr.clone(),
        ),
        MailAddr::Group(_) => panic!("unexpected group address"),
    }
}

/// Collects the MIME types of all leaf parts (parts with no subparts).
fn leaf_mimetypes(parsed: &ParsedMail) -> Vec<String> {
    if parsed.subparts.is_empty() {
        return vec![parsed.ctype.mimetype.clone()];
    }
    let mut out = Vec::new();
    for sp in &parsed.subparts {
        out.extend(leaf_mimetypes(sp));
    }
    out
}

/// Renders `e`, parses it back, and asserts the basic addressing headers
/// round-trip.
fn basic_tests(e: &Email) -> Vec<u8> {
    let raw = e.bytes(PID).expect("render message");
    {
        let parsed = parse_mail(&raw).expect("parse rendered message");

        let (to_name, to_addr) = first_addr(&parsed.headers.get_first_value("To").unwrap());
        assert_eq!(to_name, "Bécassine");
        assert_eq!(to_addr, "test@example.com");

        let (from_name, from_addr) = first_addr(&parsed.headers.get_first_value("From").unwrap());
        assert_eq!(from_name, "Jordan Wright");
        assert_eq!(from_addr, "test@example.com");

        let (cc_name, cc_addr) = first_addr(&parsed.headers.get_first_value("Cc").unwrap());
        assert_eq!(cc_name, "");
        assert_eq!(cc_addr, "test_cc@example.com");

        assert_eq!(
            parsed.headers.get_first_value("Subject").unwrap(),
            "Awesome Subject"
        );

        // Bcc must never appear in the rendered headers.
        assert!(parsed.headers.get_first_value("Bcc").is_none());
    }
    raw
}

#[test]
fn test_email_text() {
    let mut e = prepare_email();
    e.text = b"Text Body is, of course, supported!\n".to_vec();

    let raw = basic_tests(&e);
    let parsed = parse_mail(&raw).unwrap();
    assert_eq!(parsed.ctype.mimetype, "text/plain");
}

#[test]
fn test_email_html() {
    let mut e = prepare_email();
    e.html = b"<h1>Fancy Html is supported, too!</h1>\n".to_vec();

    let raw = basic_tests(&e);
    let parsed = parse_mail(&raw).unwrap();
    assert_eq!(parsed.ctype.mimetype, "text/html");
}

#[test]
fn test_email_with_html_attachments() {
    let mut e = prepare_email();
    e.text = b"Text Body is, of course, supported!\n".to_vec();
    e.html = b"<html><body>This is a text.</body></html>".to_vec();

    let mut attachment = e
        .attach(
            &b"Rad attachment"[..],
            "rad.txt",
            "image/png; charset=utf-8",
        )
        .expect("attach");
    attachment.html_related = true;

    let raw = e.bytes(PID).expect("render message");
    let parsed = parse_mail(&raw).unwrap();

    let leaves = leaf_mimetypes(&parsed);
    assert_eq!(leaves.len(), 3, "unexpected parts: {leaves:?}");
    assert!(leaves.iter().any(|c| c == "text/plain"));
    assert!(leaves.iter().any(|c| c == "text/html"));
    assert!(leaves.iter().any(|c| c == "image/png"));
}

#[test]
fn test_email_text_attachment() {
    let mut e = prepare_email();
    e.text = b"Text Body is, of course, supported!\n".to_vec();
    e.attach(
        &b"Rad attachment"[..],
        "rad.txt",
        "text/plain; charset=utf-8",
    )
    .expect("attach");

    let raw = basic_tests(&e);
    let parsed = parse_mail(&raw).unwrap();

    assert_eq!(parsed.ctype.mimetype, "multipart/mixed");
    assert!(parsed.ctype.params.contains_key("boundary"));
    assert_eq!(parsed.subparts.len(), 2);

    let text = &parsed.subparts[0];
    assert_eq!(text.ctype.mimetype, "text/plain");
    assert!(text
        .get_body()
        .unwrap()
        .contains("Text Body is, of course, supported!"));
}

#[test]
fn test_email_text_html_attachment() {
    let mut e = prepare_email();
    e.text = b"Text Body is, of course, supported!\n".to_vec();
    e.html = b"<h1>Fancy Html is supported, too!</h1>\n".to_vec();
    e.attach(
        &b"Rad attachment"[..],
        "rad.txt",
        "text/plain; charset=utf-8",
    )
    .expect("attach");

    let raw = basic_tests(&e);
    let parsed = parse_mail(&raw).unwrap();

    assert_eq!(parsed.ctype.mimetype, "multipart/mixed");
    assert_eq!(parsed.subparts.len(), 2);

    let alt = &parsed.subparts[0];
    assert_eq!(alt.ctype.mimetype, "multipart/alternative");
    assert_eq!(alt.subparts.len(), 2);
    assert!(alt.subparts[0]
        .get_body()
        .unwrap()
        .contains("Text Body is, of course, supported!"));
}

#[test]
fn test_email_attachment() {
    let mut e = prepare_email();
    e.attach(
        &b"Rad attachment"[..],
        "rad.txt",
        "text/plain; charset=utf-8",
    )
    .expect("attach");

    let raw = basic_tests(&e);
    let parsed = parse_mail(&raw).unwrap();

    assert_eq!(parsed.ctype.mimetype, "multipart/mixed");
    assert_eq!(parsed.subparts.len(), 1);
}

#[test]
fn plain_message_is_rendered_exactly() {
    let e = Email {
        from: "a@b.c".into(),
        to: vec!["Jo Doe <jo@d.e>".into(), "x@y.z".into()],
        subject: "Grüße".into(),
        text: b"a = b\n".to_vec(),
        ..Default::default()
    };
    let raw = e.bytes_with(&stamp()).unwrap();
    let expected = "To: Jo Doe <jo@d.e>, <x@y.z>\r\n\
        Subject: =?utf-8?q?Gr=C3=BC=C3=9Fe?=\r\n\
        Message-Id: <1.2.3@host.example>\r\n\
        From: <a@b.c>\r\n\
        Date: Mon, 01 Jan 2024 00:00:00 +0000\r\n\
        Mime-Version: 1.0\r\n\
        Content-Type: text/plain; charset=UTF-8\r\n\
        Content-Transfer-Encoding: quoted-printable\r\n\
        \r\n\
        a =3D b\r\n";
    assert_eq!(String::from_utf8(raw).unwrap(), expected);
}

#[test]
fn nested_message_is_rendered_exactly() {
    let mut e = Email {
        from: "a@b.c".into(),
        text: b"t".to_vec(),
        html: b"<i>".to_vec(),
        ..Default::default()
    };
    e.attach(b"inline", "i.png", "image/png").unwrap();
    e.attach(b"file", "f.bin", "").unwrap();
    e.attachments[0].html_related = true;
    let raw = e.bytes_with(&stamp()).unwrap();
    let expected = "Message-Id: <1.2.3@host.example>\r\n\
        From: <a@b.c>\r\n\
        Date: Mon, 01 Jan 2024 00:00:00 +0000\r\n\
        Mime-Version: 1.0\r\n\
        Content-Type: multipart/mixed;\r\n boundary=OUTER\r\n\
        \r\n\
        --OUTER\r\n\
        Content-Type: multipart/alternative;\r\n boundary=NESTED\r\n\
        \r\n\
        --NESTED\r\n\
        Content-Transfer-Encoding: quoted-printable\r\n\
        Content-Type: text/plain; charset=UTF-8\r\n\
        \r\n\
        t\r\n\
        --NESTED\r\n\
        Content-Type: multipart/related;\r\n boundary=RELATED\r\n\
        \r\n\
        --RELATED\r\n\
        Content-Transfer-Encoding: quoted-printable\r\n\
        Content-Type: text/html; charset=UTF-8\r\n\
        \r\n\
        <i>\r\n\
        --RELATED\r\n\
        Content-Disposition: attachment;\r\n filename=\"i.png\"\r\n\
        Content-Id: <i.png>\r\n\
        Content-Transfer-Encoding: base64\r\n\
        Content-Type: image/png\r\n\
        \r\n\
        aW5saW5l\r\n\
        \r\n--RELATED--\r\n\
        \r\n--NESTED--\r\n\
        \r\n--OUTER\r\n\
        Content-Disposition: attachment;\r\n filename=\"f.bin\"\r\n\
        Content-Id: <f.bin>\r\n\
        Content-Transfer-Encoding: base64\r\n\
        Content-Type: application/octet-stream\r\n\
        \r\n\
        ZmlsZQ==\r\n\
        \r\n--OUTER--\r\n";
    assert_eq!(String::from_utf8(raw).unwrap(), expected);
}

#[test]
fn attaching_keeps_and_returns_a_copy() {
    let mut e = Email::default();
    let mut a = e.attach(b"x", "n.txt", "text/plain").unwrap();
    a.html_related = true;
    a.filename = "other".into();
    assert_eq!(e.attachments.len(), 1);
    assert_eq!(e.attachments[0].filename, "n.txt");
    assert_eq!(e.attachments[0].content, b"x");
    assert!(!e.attachments[0].html_related);
    assert_eq!(e.attachments[0].header.get("content-id"), Some("<n.txt>"));
}

#[test]
fn blind_copies_are_not_rendered() {
    let mut e = prepare_email();
    e.text = b"hi".to_vec();
    let with = e.bytes_with(&stamp()).unwrap();
    e.bcc.clear();
    e.sender = "other@example.com".into();
    e.read_receipt.push("r@example.com".into());
    assert_eq!(with, e.bytes_with(&stamp()).unwrap());
    assert!(!String::from_utf8(with).unwrap().contains("test_bcc"));
}

#[test]
fn custom_headers_come_first_and_are_kept() {
    let mut e = prepare_email();
    e.headers.set("subject", "Custom");
    e.headers.add("x-tag", "one");
    e.headers.add("X-Tag", "two");
    e.headers.set("message-id", "<own@id>");
    let h = e.msg_headers("<other@id>", "today").unwrap();
    assert_eq!(h.get("Subject"), Some("Custom"));
    assert_eq!(h.get("Message-ID"), Some("<own@id>"));
    assert_eq!(h.get("Date"), Some("today"));
    assert_eq!(h.get_all("X-TAG").unwrap(), &["one".to_string(), "two".to_string()]);
    assert_eq!(h.get("Mime-Version"), Some("1.0"));
    assert_eq!(h.get("Cc"), Some("<test_cc@example.com>"));
    assert!(!h.contains("Bcc"));
    assert!(!h.contains("Reply-To"));
}

#[test]
fn a_custom_header_stands_in_for_a_bad_address() {
    let mut e = Email {
        from: "nobody".into(),
        ..Default::default()
    };
    assert!(e.bytes(PID).is_err());
    e.headers.set("From", "custom");
    assert!(e.bytes(PID).is_ok());
}

#[test]
fn html_attachments_need_an_html_body() {
    let mut e = prepare_email();
    e.text = b"t".to_vec();
    e.attach(b"x", "x.png", "image/png").unwrap();
    e.attachments[0].html_related = true;
    match e.bytes(PID) {
        Err(Error::Email(m)) => assert_eq!(m, "there are HTML attachments, but no HTML body"),
        _ => panic!("expected an e-mail error"),
    }
}

#[test]
fn html_attachments_need_another_part() {
    let mut e = prepare_email();
    e.html = b"<img>".to_vec();
    e.attach(b"x", "x.png", "image/png").unwrap();
    e.attachments[0].html_related = true;
    match e.bytes(PID) {
        Err(Error::Email(m)) => assert_eq!(
            m,
            "HTML-related attachments require a text part or another attachment"
        ),
        _ => panic!("expected an e-mail error"),
    }
}

#[test]
fn the_first_bad_address_is_reported() {
    let mut e = prepare_email();
    e.to = vec!["ok@a.b".into(), " bad one ".into(), "worse".into()];
    match e.bytes(PID) {
        Err(Error::Address(m)) => assert_eq!(m, "invalid address: bad one"),
        _ => panic!("expected an address error"),
    }
}

#[test]
fn only_what_is_missing_is_drawn() {
    let mut e = prepare_email();
    e.text = b"t".to_vec();
    let n = e.needs();
    assert!(n.message_id && n.date && !n.outer && !n.nested && !n.related);
    e.headers.set("date", "today");
    e.headers.set("message-id", "<own@id>");
    e.html = b"h".to_vec();
    let n = e.needs();
    assert!(!n.message_id && !n.date && n.outer && !n.nested && !n.related);
    e.attach(b"x", "x", "").unwrap();
    e.attach(b"y", "y", "").unwrap();
    e.attachments[0].html_related = true;
    let n = e.needs();
    assert!(n.outer && n.nested && n.related);
    let raw = String::from_utf8(e.bytes(PID).unwrap()).unwrap();
    assert!(raw.contains("Date: today\r\n"));
    assert!(raw.contains("Message-Id: <own@id>\r\n"));
}

#[test]
fn every_attachment_is_in_one_category() {
    let mut e = Email::default();
    e.attach(b"1", "1", "").unwrap();
    e.attach(b"2", "2", "").unwrap();
    e.attach(b"3", "3", "").unwrap();
    e.attachments[1].html_related = true;
    let (related, others) = e.categorize_attachments();
    assert_eq!(related.len(), 1);
    assert_eq!(related[0].filename, "2");
    assert_eq!(others.len(), 2);
    assert_eq!(others[0].filename, "1");
    assert_eq!(others[1].filename, "3");
}

#[test]
fn rendering_twice_differs_in_the_stamp_alone() {
    let mut e = prepare_email();
    e.text = b"t".to_vec();
    e.html = b"h".to_vec();
    let one = Stamp::draw(PID, e.needs());
    let two = Stamp::draw(PID, e.needs());
    assert_ne!(one.outer, two.outer);
    assert_ne!(one.message_id, two.message_id);
    let a = String::from_utf8(e.bytes_with(&one).unwrap()).unwrap();
    let b = String::from_utf8(e.bytes_with(&two).unwrap()).unwrap();
    assert_ne!(a, b);
    assert_eq!(
        a.replace(&one.outer, "B").replace(&one.message_id, "M").replace(&one.date, "D"),
        b.replace(&two.outer, "B").replace(&two.message_id, "M").replace(&two.date, "D")
    );
}
