//! Parsing raw messages.

use pooledsmtp::parse::{distribute_parts, email_from_parts, strip_one_line_ending, Part};
use pooledsmtp::{new_email_from_reader, Email, Error};

/// Normalizes CRLF to LF: the parser writes the hard line breaks of
/// quoted-printable text as CRLF.
fn nl(b: &[u8]) -> Vec<u8> {
    let mut out = Vec::with_capacity(b.len());
    let mut i = 0;
    while i < b.len() {
        if b[i] == b'\r' && i + 1 < b.len() && b[i + 1] == b'\n' {
            out.push(b'\n');
            i += 2;
        } else {
            out.push(b[i]);
            i += 1;
        }
    }
    out
}

#[test]
fn test_email_from_reader() {
    let expected_text =
        b"This is a test email with HTML Formatting. It also has very long lines so\n\
that the content must be wrapped if using quoted-printable decoding.\n"
            .to_vec();
    let expected_html = "<div dir=\"ltr\">This is a test email with <b>HTML Formatting.</b>\u{00a0}It \
also has very long lines so that the content must be wrapped if using quoted-printable decoding.</div>\n"
        .as_bytes()
        .to_vec();

    let raw = b"\nMIME-Version: 1.0\n\
Subject: Test Subject\n\
From: Jordan Wright <jmwright798@gmail.com>\n\
To: Jordan Wright <jmwright798@gmail.com>\n\
Content-Type: multipart/alternative; boundary=001a114fb3fc42fd6b051f834280\n\
\n\
--001a114fb3fc42fd6b051f834280\n\
Content-Type: text/plain; charset=UTF-8\n\
\n\
This is a test email with HTML Formatting. It also has very long lines so\n\
that the content must be wrapped if using quoted-printable decoding.\n\
\n\
--001a114fb3fc42fd6b051f834280\n\
Content-Type: text/html; charset=UTF-8\n\
Content-Transfer-Encoding: quoted-printable\n\
\n\
<div dir=3D\"ltr\">This is a test email with <b>HTML Formatting.</b>=C2=A0It =\n\
also has very long lines so that the content must be wrapped if using quote=\n\
d-printable decoding.</div>\n\
\n\
--001a114fb3fc42fd6b051f834280--";

    let e = new_email_from_reader(&raw[..]).expect("parse email");
    assert_eq!(e.subject, "Test Subject");
    assert_eq!(e.from, "Jordan Wright <jmwright798@gmail.com>");
    assert_eq!(nl(&e.text), expected_text);
    assert_eq!(nl(&e.html), expected_html);
}

#[test]
fn test_non_ascii_email_from_reader() {
    let raw = b"\nMIME-Version: 1.0\n\
Subject: =?UTF-8?Q?Test Subject?=\n\
From: Mrs =?ISO-8859-1?Q?Val=C3=A9rie=20Dupont?= <valerie.dupont@example.com>\n\
To: =?utf-8?q?Ana=C3=AFs?= <anais@example.org>\n\
Cc: =?ISO-8859-1?Q?Patrik_F=E4ltstr=F6m?= <paf@example.com>\n\
Content-type: text/plain; charset=ISO-8859-1\n\
\n\
This is a test message!";

    let e = new_email_from_reader(&raw[..]).expect("parse email");
    assert_eq!(e.subject, "Test Subject");
    // The =20 encodes a space; the =C3=A9 are two characters of ISO-8859-1.
    assert!(e.from.contains("Dupont <valerie.dupont@example.com>"));
    assert_eq!(e.to[0], "Anaïs <anais@example.org>");
    assert_eq!(e.cc[0], "Patrik Fältström <paf@example.com>");
}

#[test]
fn test_non_multipart_email_from_reader() {
    let raw = b"From: \"Foo Bar\" <foobar@example.com>\n\
Content-Type: text/plain\n\
To: foobar@example.com\n\
Subject: Example Subject (no MIME Type)\n\
Message-ID: <foobar@example.com>\n\
\n\
This is a test message!";

    let e = new_email_from_reader(&raw[..]).expect("parse email");
    assert_eq!(e.subject, "Example Subject (no MIME Type)");
    assert_eq!(e.text, b"This is a test message!");
    assert_eq!(e.headers.get("Message-ID").unwrap(), "<foobar@example.com>");
}

#[test]
fn test_base64_email_from_reader() {
    let expected_text = b"This is a test email with HTML Formatting. It also has very long lines so that the content must be wrapped if using quoted-printable decoding.".to_vec();

    let raw = b"\nMIME-Version: 1.0\n\
Subject: Test Subject\n\
From: Jordan Wright <jmwright798@gmail.com>\n\
To: Jordan Wright <jmwright798@gmail.com>\n\
Content-Type: multipart/alternative; boundary=001a114fb3fc42fd6b051f834280\n\
\n\
--001a114fb3fc42fd6b051f834280\n\
Content-Type: text/plain; charset=UTF-8\n\
Content-Transfer-Encoding: base64\n\
\n\
VGhpcyBpcyBhIHRlc3QgZW1haWwgd2l0aCBIVE1MIEZvcm1hdHRpbmcuIEl0IGFsc28gaGFzIHZl\n\
cnkgbG9uZyBsaW5lcyBzbyB0aGF0IHRoZSBjb250ZW50IG11c3QgYmUgd3JhcHBlZCBpZiB1c2lu\n\
ZyBxdW90ZWQtcHJpbnRhYmxlIGRlY29kaW5nLg==\n\
\n\
--001a114fb3fc42fd6b051f834280\n\
Content-Type: text/html; charset=UTF-8\n\
Content-Transfer-Encoding: quoted-printable\n\
\n\
<div>html</div>\n\
\n\
--001a114fb3fc42fd6b051f834280--";

    let e = new_email_from_reader(&raw[..]).expect("parse email");
    assert_eq!(e.subject, "Test Subject");
    assert_eq!(e.text, expected_text);
    assert_eq!(e.from, "Jordan Wright <jmwright798@gmail.com>");
}

#[test]
fn test_multipart_no_content_type() {
    let raw = b"From: Mikhail Gusarov <dottedmag@dottedmag.net>\n\
To: notmuch@notmuchmail.org\n\
Date: Wed, 18 Nov 2009 01:02:38 +0600\n\
Message-ID: <87iqd9rn3l.fsf@vertex.dottedmag>\n\
MIME-Version: 1.0\n\
Subject: Re: [notmuch] Working with Maildir storage?\n\
Content-Type: multipart/mixed; boundary=\"===============1958295626==\"\n\
\n\
--===============1958295626==\n\
Content-Type: multipart/signed; boundary=\"=-=-=\";\n\
    micalg=pgp-sha1; protocol=\"application/pgp-signature\"\n\
\n\
--=-=-=\n\
Content-Transfer-Encoding: quoted-printable\n\
\n\
Twas brillig\n\
\n\
--=-=-=\n\
Content-Type: application/pgp-signature\n\
\n\
-----BEGIN PGP SIGNATURE-----\n\
=/ksP\n\
-----END PGP SIGNATURE-----\n\
--=-=-=--\n\
\n\
--===============1958295626==\n\
Content-Type: text/plain; charset=\"us-ascii\"\n\
MIME-Version: 1.0\n\
Content-Transfer-Encoding: 7bit\n\
Content-Disposition: inline\n\
\n\
Testing!\n\
--===============1958295626==--\n";

    let e = new_email_from_reader(&raw[..]).expect("parse email");
    assert_eq!(e.text, b"Testing!");
}

#[test]
fn test_bytes_round_trip() {
    let mut e = pooledsmtp::Email {
        from: "Jordan Wright <test@example.com>".into(),
        to: vec!["recipient@example.com".into()],
        subject: "Round Trip".into(),
        text: b"Hello, round trip!\n".to_vec(),
        ..Default::default()
    };
    let raw = e.bytes(4711).expect("render");
    let parsed = new_email_from_reader(&raw[..]).expect("parse");

    assert_eq!(parsed.subject, "Round Trip");
    assert_eq!(parsed.from, "Jordan Wright <test@example.com>");
    assert!(String::from_utf8_lossy(&parsed.text).contains("Hello, round trip!"));

    // Silence unused-mut on `e` in case attach paths change later.
    let _ = &mut e;
}

fn part(mimetype: &str, body: &[u8]) -> Part {
    Part {
        subparts: 0,
        mimetype: mimetype.into(),
        headers: Vec::new(),
        body: Some(body.to_vec()),
        is_base64: false,
        disposition: Vec::new(),
    }
}

#[test]
fn one_line_ending_is_stripped() {
    let cases: [(&[u8], &[u8]); 7] = [
        (b"a\r\n", b"a"),
        (b"a\n", b"a"),
        (b"a\r", b"a"),
        (b"a\n\n", b"a\n"),
        (b"a\n\r", b"a\n"),
        (b"a", b"a"),
        (b"", b""),
    ];
    for (before, after) in cases {
        let mut body = before.to_vec();
        strip_one_line_ending(&mut body);
        assert_eq!(body, after);
    }
}

#[test]
fn parts_are_distributed() {
    let mut root = part("multipart/mixed", b"");
    root.subparts = 4;
    root.headers = vec![
        ("SUBJECT".into(), "first".into()),
        ("to".into(), "a@b.c".into()),
        ("Bcc".into(), "h@b.c".into()),
        ("To".into(), "d@e.f".into()),
        ("x-tag".into(), "one".into()),
        ("Subject".into(), "last".into()),
        ("X-Tag".into(), "two".into()),
    ];
    let mut file = part("image/png", b"png\n");
    file.headers = vec![("content-type".into(), "image/png".into())];
    file.disposition = vec![
        ("filename".into(), "a.png".into()),
        ("size".into(), "4".into()),
    ];
    let mut broken = part("text/html", b"");
    broken.body = None;
    let parts = vec![root, part("text/plain", b"old"), part("text/plain", b"new\r\n"), file, broken];
    let e = email_from_parts(&parts);
    assert_eq!(e.subject, "last");
    assert_eq!(e.to, vec!["a@b.c".to_string(), "d@e.f".to_string()]);
    assert_eq!(e.bcc, vec!["h@b.c".to_string()]);
    assert_eq!(e.headers.get_all("X-TAG").unwrap().len(), 2);
    assert!(!e.headers.contains("Subject"));
    assert_eq!(e.text, b"new");
    assert_eq!(e.html, b"");
    assert_eq!(e.attachments.len(), 1);
    assert_eq!(e.attachments[0].filename, "a.png");
    assert_eq!(e.attachments[0].content, b"png");
    assert_eq!(e.attachments[0].header.get("Content-Type"), Some("image/png"));
    assert!(!e.attachments[0].html_related);
}

#[test]
fn the_body_of_a_lone_part_is_kept_whole() {
    let e = email_from_parts(&[part("text/plain", b"body\n")]);
    assert_eq!(e.text, b"body\n");
    let mut other = Email::default();
    distribute_parts(&[], &mut other);
    assert_eq!(other.text, b"");
}

#[test]
fn leading_space_is_ignored() {
    let a = new_email_from_reader(b"Subject: x\n\nbody").unwrap();
    let b = new_email_from_reader(b" \r\n\t\x0c\nSubject: x\n\nbody").unwrap();
    assert_eq!(a.subject, "x");
    assert_eq!(b.subject, "x");
    assert_eq!(a.text, b.text);
}

#[test]
fn an_attachment_is_parsed() {
    let raw = b"Content-Type: multipart/mixed; boundary=b\n\
\n\
--b\n\
Content-Type: image/gif\n\
Content-Disposition: attachment; filename=\"pic.gif\"\n\
Content-Transfer-Encoding: base64\n\
\n\
R0lG\n\
--b--\n";
    let e = new_email_from_reader(raw).unwrap();
    assert_eq!(e.attachments.len(), 1);
    assert_eq!(e.attachments[0].filename, "pic.gif");
    assert_eq!(e.attachments[0].content, b"GIF");
}

#[test]
fn a_broken_message_is_an_error() {
    match new_email_from_reader(b"Subject: x\n\rbody") {
        Err(Error::Parse(m)) => assert_eq!(
            m,
            "Headers were followed by an unexpected lone CR character!"
        ),
        _ => panic!("expected a parse error"),
    }
}

#[test]
fn an_attachment_keeps_its_last_line_ending() {
    for content in [&b"a\n"[..], &b"a\r\n"[..], &b"\n"[..], &b""[..]] {
        let mut e = Email {
            from: "a@b.c".into(),
            ..Default::default()
        };
        e.attach(content, "f.bin", "").unwrap();
        let raw = e.bytes(1).unwrap();
        let p = new_email_from_reader(&raw[..]).unwrap();
        assert_eq!(p.attachments.len(), 1);
        assert_eq!(p.attachments[0].filename, "f.bin");
        assert_eq!(p.attachments[0].content, content);
    }
    let mut encoded = part("image/png", b"x\n");
    encoded.is_base64 = true;
    let e = email_from_parts(&[part("text/plain", b"t\n"), encoded, part("image/gif", b"y\n")]);
    assert_eq!(e.attachments[0].content, b"x\n");
    assert_eq!(e.attachments[1].content, b"y");
}

#[test]
fn texts_and_attachments_survive() {
    let mut e = Email {
        from: "a@b.c".into(),
        text: "Zeile = 1 \nZeile ö 2".as_bytes().to_vec(),
        html: b"<p>\r\n</p>".to_vec(),
        ..Default::default()
    };
    let content: Vec<u8> = (0..=255u8).collect();
    e.attach(&content, "all.bin", "").unwrap();
    let raw = e.bytes(1).unwrap();
    let back = new_email_from_reader(&raw).unwrap();
    assert_eq!(back.text, "Zeile = 1 \r\nZeile ö 2".as_bytes());
    assert_eq!(back.html, b"<p>\r\n</p>");
    assert_eq!(back.attachments.len(), 1);
    assert_eq!(back.attachments[0].content, content);
    assert_eq!(back.attachments[0].filename, "all.bin");
}
