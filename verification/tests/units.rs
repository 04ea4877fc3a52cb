//! Encodings, addresses, headers, stamps and errors.

use pooledsmtp::address::{
    encode_display_name, extract_address, format_address, format_addresses, is_valid_addr,
    join_with_commas, parse_address,
};
use pooledsmtp::encoding::{base64_wrap, q_encode_if_needed, q_encode_word, qp_encode};
use pooledsmtp::header::canonicalize;
use pooledsmtp::multipart::MultipartWriter;
use pooledsmtp::names::content_type_by_extension;
use pooledsmtp::stamp::{generate_message_id, hex_string, message_id, random_boundary, Needs, Stamp};
use pooledsmtp::text::{decimal_string, same_text, text_at_most};
use pooledsmtp::{Email, Error, MimeHeader, SmtpError, SslType};

#[test]
fn test_base64_wrap() {
    let file = "I'm a file long enough to force the function to wrap a\n\
                couple of lines, but I stop short of the end of one line and\n\
                have some padding dangling at the end.";
    let expected = "SSdtIGEgZmlsZSBsb25nIGVub3VnaCB0byBmb3JjZSB0aGUgZnVuY3Rpb24gdG8gd3JhcCBhCmNv\r\n\
                    dXBsZSBvZiBsaW5lcywgYnV0IEkgc3RvcCBzaG9ydCBvZiB0aGUgZW5kIG9mIG9uZSBsaW5lIGFu\r\n\
                    ZApoYXZlIHNvbWUgcGFkZGluZyBkYW5nbGluZyBhdCB0aGUgZW5kLg==\r\n";
    let mut buf = Vec::new();
    base64_wrap(&mut buf, file.as_bytes());
    assert_eq!(String::from_utf8(buf).unwrap(), expected);
}

#[test]
fn test_parse_sender() {
    // (email, want, has_err)
    let cases: &[(Email, &str, bool)] = &[
        (
            Email {
                from: "from@test.com".into(),
                ..Default::default()
            },
            "from@test.com",
            false,
        ),
        (
            Email {
                sender: "sender@test.com".into(),
                from: "from@test.com".into(),
                ..Default::default()
            },
            "sender@test.com",
            false,
        ),
        (
            Email {
                sender: "bad_address_sender".into(),
                ..Default::default()
            },
            "",
            true,
        ),
        (
            Email {
                sender: "good@sender.com".into(),
                from: "bad_address_from".into(),
                ..Default::default()
            },
            "good@sender.com",
            false,
        ),
    ];

    for (i, (e, want, has_err)) in cases.iter().enumerate() {
        match e.parse_sender() {
            Ok(got) => {
                assert!(!*has_err, "case {}: expected error, got {got}", i + 1);
                assert_eq!(&got, want, "case {}", i + 1);
            }
            Err(_) => assert!(*has_err, "case {}: unexpected error", i + 1),
        }
    }
}

#[test]
fn test_qp_encode_body() {
    // A body ending in a bare LF becomes CRLF; printable ASCII is untouched.
    let mut out = Vec::new();
    qp_encode(&mut out, b"Text Body is, of course, supported!\n");
    assert_eq!(out, b"Text Body is, of course, supported!\r\n");
}

#[test]
fn test_format_address() {
    assert_eq!(
        format_address("Jordan Wright <test@example.com>").unwrap(),
        "Jordan Wright <test@example.com>"
    );
    assert_eq!(
        format_address("test_cc@example.com").unwrap(),
        "<test_cc@example.com>"
    );
    // Non-ASCII display name gets RFC 2047 Q-encoded.
    assert_eq!(
        format_address("Bécassine <test@example.com>").unwrap(),
        "=?utf-8?q?B=C3=A9cassine?= <test@example.com>"
    );
    assert!(format_address("not-an-address").is_err());
}

#[test]
fn test_conn_reuse_classification() {
    let e421 = Error::Smtp(SmtpError {
        message: "rate limited".into(),
        code: Some(421),
        retriable: false,
    });
    let e550 = Error::Smtp(SmtpError {
        message: "bad recipient".into(),
        code: Some(550),
        retriable: false,
    });
    let net = Error::Smtp(SmtpError {
        message: "broken pipe".into(),
        code: None,
        retriable: true,
    });

    assert!(e421.should_close_conn(), "421 should close the conn");
    assert!(!e550.should_close_conn(), "550 should keep the conn");
    assert!(
        net.should_close_conn(),
        "network error should close the conn"
    );

    assert!(net.is_retriable());
    assert!(!e550.is_retriable());
    assert!(!e421.is_retriable());
}

fn qp(data: &[u8]) -> String {
    let mut out = Vec::new();
    qp_encode(&mut out, data);
    String::from_utf8(out).unwrap()
}

#[test]
fn quoted_printable_escapes() {
    assert_eq!(qp(b"a=b"), "a=3Db");
    assert_eq!(qp("é".as_bytes()), "=C3=A9");
    assert_eq!(qp(b"a \nb\t"), "a=20\r\nb=09");
    assert_eq!(qp(b"a b"), "a b");
    assert_eq!(qp(b"1\r2\n3\r\n4"), "1\r\n2\r\n3\r\n4");
    assert_eq!(qp(b""), "");
}

#[test]
fn quoted_printable_wraps() {
    let long = vec![b'x'; 100];
    let text = qp(&long);
    assert_eq!(text, format!("{}=\r\n{}", "x".repeat(75), "x".repeat(25)));
    let bytes = vec![0xffu8; 60];
    for line in qp(&bytes).split("\r\n") {
        assert!(line.len() <= 76, "{line}");
    }
}

#[test]
fn base64_of_short_contents() {
    for (raw, text) in [("", ""), ("f", "Zg==\r\n"), ("fo", "Zm8=\r\n"), ("foo", "Zm9v\r\n")] {
        let mut out = Vec::new();
        base64_wrap(&mut out, raw.as_bytes());
        assert_eq!(String::from_utf8(out).unwrap(), text);
    }
    let mut out = Vec::new();
    base64_wrap(&mut out, &[0u8; 57]);
    assert_eq!(out.len(), 78);
}

#[test]
fn words_are_q_encoded() {
    assert_eq!(q_encode_word("a b-é"), "=?utf-8?q?a_b=2D=C3=A9?=");
    assert_eq!(q_encode_if_needed("plain (text)\t!"), "plain (text)\t!");
    assert_eq!(q_encode_if_needed("a\r\nb"), "=?utf-8?q?a=0D=0Ab?=");
}

#[test]
fn addresses_are_parsed() {
    let (name, addr) = parse_address(" \"Jo Doe\" < jo@d.e > trailing").unwrap();
    assert_eq!((name.as_str(), addr.as_str()), ("Jo Doe", "jo@d.e"));
    assert_eq!(extract_address("jo@d.e").unwrap(), "jo@d.e");
    for bad in ["", "jo", "@d.e", "jo@", "a@b@c", "Jo <jo@d.e", "Jo <>"] {
        match parse_address(bad) {
            Err(Error::Address(m)) => assert_eq!(m, format!("invalid address: {bad}")),
            _ => panic!("{bad} should be invalid"),
        }
    }
    assert!(is_valid_addr("a@b"));
    assert!(!is_valid_addr("a@b@"));
}

#[test]
fn names_are_quoted() {
    assert_eq!(encode_display_name("Doe, Jo"), "\"Doe, Jo\"");
    assert_eq!(encode_display_name("a\\b\"c"), "\"a\\\\b\\\"c\"");
    assert_eq!(encode_display_name("O'Neill {x}"), "O'Neill {x}");
}

#[test]
fn formatting_keeps_the_address() {
    for s in ["Jo Doe <jo@d.e>", "jo@d.e", "\"Doe, Jo\" <jo@d.e>", "Zoë <jo@d.e>"] {
        let f = format_address(s).unwrap();
        assert_eq!(extract_address(&f).unwrap(), "jo@d.e");
    }
    for s in ["Jo <jo@d.e>", "jo@d.e", "\"Doe, Jo\" <jo@d.e>", "Zoë \"x\" <jo@d.e>", "a<b <c@d>"] {
        let f = format_address(s).unwrap();
        assert_eq!(format_address(&f).unwrap(), f);
    }
    let list = vec!["jo@d.e".to_string(), "A <a@b>".to_string()];
    let shown = format_addresses(&list).unwrap();
    assert_eq!(join_with_commas(&shown), "<jo@d.e>, A <a@b>");
    assert!(format_addresses(&["a@b".to_string(), "c".to_string()]).is_err());
}

#[test]
fn keys_are_canonical() {
    assert_eq!(canonicalize("MESSAGE-id"), "Message-Id");
    assert_eq!(canonicalize("content-type"), "Content-Type");
    assert_eq!(canonicalize("x"), "X");
    assert_eq!(canonicalize("ß-É"), "SS-É");
    assert_eq!(canonicalize("aÉ"), "Aé");
    assert_eq!(canonicalize(&canonicalize("mIME-vERSION")), "Mime-Version");
}

#[test]
fn headers_are_looked_up_in_any_case() {
    let mut h = MimeHeader::new();
    h.add("x-a", "1");
    h.add("X-A", "2");
    h.set("X-B", "3");
    assert_eq!(h.get("X-a"), Some("1"));
    assert_eq!(h.get_all("x-A").unwrap(), &["1".to_string(), "2".to_string()]);
    h.set("x-a", "4");
    assert_eq!(h.get_all("X-A").unwrap(), &["4".to_string()]);
    assert!(h.contains("x-b"));
    assert!(!h.contains("x-c"));
    assert_eq!(h.get("x-c"), None);
    let keys: Vec<&str> = h.iter().map(|(k, _)| k.as_str()).collect();
    assert_eq!(keys, vec!["X-A", "X-B"]);
    let copy = h.clone();
    h.set("x-b", "5");
    assert_eq!(copy.get("x-b"), Some("3"));
}

#[test]
fn part_headers_are_sorted() {
    let mut h = MimeHeader::new();
    h.set("b", "2");
    h.set("a", "1");
    h.add("b", "3");
    let mut w = MultipartWriter::with_boundary("X");
    let mut out = Vec::new();
    w.create_part(&mut out, &h);
    w.create_part(&mut out, &MimeHeader::new());
    w.close(&mut out);
    assert_eq!(
        String::from_utf8(out).unwrap(),
        "--X\r\nA: 1\r\nB: 2\r\nB: 3\r\n\r\n\r\n--X\r\n\r\n\r\n--X--\r\n"
    );
    assert_eq!(w.boundary(), "X");
    assert_eq!(MultipartWriter::new().boundary().len(), 60);
}

#[test]
fn boundaries_are_hexadecimal() {
    let a = random_boundary();
    let b = random_boundary();
    assert_eq!(a.len(), 60);
    assert!(a.chars().all(|c| c.is_ascii_digit() || ('a'..='f').contains(&c)));
    assert_ne!(a, b);
    assert_eq!(hex_string(&[0, 10, 255]), "000aff");
}

#[test]
fn message_ids_have_their_form() {
    assert_eq!(
        message_id(17, 3, -5, Some("host.example".into())),
        "<17.3.5@host.example>"
    );
    assert_eq!(
        message_id(0, 0, i64::MIN, Some("host".into())),
        "<0.0.-9223372036854775808@localhost.localdomain>"
    );
    assert_eq!(message_id(1, 2, 3, None), "<1.2.3@localhost.localdomain>");
    let id = generate_message_id(42);
    assert!(id.starts_with('<') && id.ends_with('>'));
    assert!(id.contains(".42."));
    let nanos: u128 = id[1..id.find('.').unwrap()].parse().unwrap();
    assert!(nanos > 1_600_000_000_000_000_000);
    assert_ne!(id, generate_message_id(42));
}

#[test]
fn stamps_are_drawn() {
    let all = Needs {
        message_id: true,
        date: true,
        outer: true,
        nested: true,
        related: true,
    };
    let s = Stamp::draw(7, all);
    let date = chrono::DateTime::parse_from_rfc2822(&s.date).expect("a date");
    let now = chrono::Local::now().timestamp();
    assert!((now - date.timestamp()).abs() < 60);
    assert!(s.message_id.contains(".7."));
    assert_ne!(s.outer, s.nested);
    assert_ne!(s.nested, s.related);
    assert!(s.date.len() >= 31);

    let few = Needs {
        message_id: false,
        date: false,
        outer: true,
        nested: false,
        related: false,
    };
    let s = Stamp::draw(7, few);
    assert_eq!(s.message_id, "");
    assert_eq!(s.date, "");
    assert_eq!(s.outer.len(), 60);
    assert_eq!(s.nested, "");
    assert_eq!(s.related, "");
}

#[test]
fn the_host_is_named_where_it_has_a_domain() {
    let id = generate_message_id(1);
    let host = &id[id.find('@').unwrap() + 1..id.len() - 1];
    let real = hostname::get().ok().and_then(|h| h.into_string().ok());
    match real {
        Some(h) if h.contains('.') => assert_eq!(host, h),
        _ => assert_eq!(host, "localhost.localdomain"),
    }
}

#[test]
fn content_types_by_extension() {
    assert_eq!(content_type_by_extension("TXT"), "text/plain; charset=utf-8");
    assert_eq!(content_type_by_extension("htm"), "text/html; charset=utf-8");
    assert_eq!(content_type_by_extension("Jpeg"), "image/jpeg");
    assert_eq!(content_type_by_extension("gz"), "application/gzip");
    assert_eq!(content_type_by_extension("svg"), "image/svg+xml");
    assert_eq!(content_type_by_extension("exe"), "");
    assert_eq!(content_type_by_extension(""), "");
}

#[test]
fn texts_are_compared() {
    assert!(same_text("a", "a"));
    assert!(!same_text("a", "ab"));
    assert!(text_at_most("a", "ab"));
    assert!(!text_at_most("b", "ab"));
    assert!(text_at_most("Z", "a"));
    assert_eq!(decimal_string(0), "0");
    assert_eq!(decimal_string(u128::MAX), format!("{}", u128::MAX));
}

#[test]
fn errors_in_words() {
    let smtp = SmtpError {
        message: "no".into(),
        code: Some(550),
        retriable: false,
    };
    assert_eq!(smtp.message_text(), "smtp error 550: no");
    assert_eq!(Error::Smtp(smtp.clone()).message(), "smtp error 550: no");
    let lost = SmtpError {
        code: None,
        ..smtp
    };
    assert_eq!(lost.message_text(), "smtp error: no");
    assert_eq!(Error::PoolClosed.message(), "pool closed");
    assert_eq!(
        Error::PoolTimeout.message(),
        "timed out waiting for free conn in pool"
    );
    assert_eq!(Error::Config("c".into()).message(), "c");
    assert_eq!(Error::Parse("p".into()).message(), "p");
    let io = std::io::Error::new(std::io::ErrorKind::Other, "disk on fire");
    let e = Error::from(io);
    assert_eq!(e.message(), "disk on fire");
    assert_eq!(e.message_with("other words"), "other words");
    assert!(e.should_close_conn());
    assert!(!e.is_retriable());
    assert!(Error::PoolClosed.should_close_conn());
    assert!(matches!(SslType::default(), SslType::Plain));
}
