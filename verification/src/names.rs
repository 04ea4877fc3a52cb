//! The names that message headers are made of: header fields, content types and
//! transfer encodings.

use vstd::prelude::*;

use crate::text::same_text;

verus! {

// Content types.
pub const CONTENT_TYPE_PLAIN: &'static str = "text/plain";

pub const CONTENT_TYPE_HTML: &'static str = "text/html";

pub const CONTENT_TYPE_OCTET_STREAM: &'static str = "application/octet-stream";

pub const CONTENT_TYPE_MULTIPART_ALT: &'static str = "multipart/alternative";

pub const CONTENT_TYPE_MULTIPART_MIXED: &'static str = "multipart/mixed";

pub const CONTENT_TYPE_MULTIPART_RELATED: &'static str = "multipart/related";

// SMTP header field names.
pub const HDR_CONTENT_TYPE: &'static str = "Content-Type";

pub const HDR_SUBJECT: &'static str = "Subject";

pub const HDR_TO: &'static str = "To";

pub const HDR_CC: &'static str = "Cc";

pub const HDR_BCC: &'static str = "Bcc";

pub const HDR_FROM: &'static str = "From";

pub const HDR_REPLY_TO: &'static str = "Reply-To";

pub const HDR_DATE: &'static str = "Date";

pub const HDR_MESSAGE_ID: &'static str = "Message-Id";

pub const HDR_MIME_VERSION: &'static str = "MIME-Version";

pub const HDR_CONTENT_TRANSFER_ENCODING: &'static str = "Content-Transfer-Encoding";

pub const HDR_CONTENT_DISPOSITION: &'static str = "Content-Disposition";

pub const HDR_CONTENT_ID: &'static str = "Content-ID";

/// The character set of every text part.
pub const DEFAULT_CHAR_ENCODING: &'static str = "UTF-8";

pub const DEFAULT_MIME_VERSION: &'static str = "1.0";

/// The transfer encoding of every attachment.
pub const CONTENT_ENC_BASE64: &'static str = "base64";

/// The transfer encoding of every text part.
pub const CONTENT_ENC_QUOTED_PRINTABLE: &'static str = "quoted-printable";

/// `s` with its ASCII letters in lower case.
pub open spec fn ascii_lowercase(s: Seq<char>) -> Seq<char> {
    s.map_values(|c: char| crate::header::ascii_lower(c))
}

/// The content type of the files with the lower-case extension `ext`; empty for an
/// extension that is not known.
pub open spec fn content_type_of(ext: Seq<char>) -> Seq<char> {
    if ext == "txt"@ {
        "text/plain; charset=utf-8"@
    } else if ext == "html"@ || ext == "htm"@ {
        "text/html; charset=utf-8"@
    } else if ext == "css"@ {
        "text/css; charset=utf-8"@
    } else if ext == "csv"@ {
        "text/csv; charset=utf-8"@
    } else if ext == "json"@ {
        "application/json"@
    } else if ext == "xml"@ {
        "text/xml; charset=utf-8"@
    } else if ext == "pdf"@ {
        "application/pdf"@
    } else if ext == "png"@ {
        "image/png"@
    } else if ext == "jpg"@ || ext == "jpeg"@ {
        "image/jpeg"@
    } else if ext == "gif"@ {
        "image/gif"@
    } else if ext == "svg"@ {
        "image/svg+xml"@
    } else if ext == "zip"@ {
        "application/zip"@
    } else if ext == "gz"@ {
        "application/gzip"@
    } else {
        ""@
    }
}

/// `s` with its ASCII letters in lower case.
fn lowercased(s: &str) -> (r: String)
    ensures
        r@ == ascii_lowercase(s@),
{
    let mut out = String::new();
    let ghost lower = |c: char| crate::header::ascii_lower(c);
    for c in it: s.chars()
        invariant
            it.seq() == s@,
            lower == (|c: char| crate::header::ascii_lower(c)),
            out@ == s@.take(it.index() as int).map_values(lower),
    {
        let ghost before = out@;
        if 'A' <= c && c <= 'Z' {
            out.push(((c as u8) + 32) as char);
        } else {
            out.push(c);
        }
        assert(out@ == before.push(crate::header::ascii_lower(c)));
        assert(s@.take(it.index() + 1) == s@.take(it.index() as int).push(c));
        assert(out@ == s@.take(it.index() + 1).map_values(lower));
    }
    assert(s@.take(s@.len() as int) == s@);
    out
}

/// Returns a content type for the extension of a file name, in whichever case, or
/// an empty string (which makes an attachment fall back to
/// `application/octet-stream`).
pub fn content_type_by_extension(ext: &str) -> (r: String)
    ensures
        r@ == content_type_of(ascii_lowercase(ext@)),
{
    let lower = lowercased(ext);
    let ext = lower.as_str();
    let known = if same_text(ext, "txt") {
        "text/plain; charset=utf-8"
    } else if same_text(ext, "html") || same_text(ext, "htm") {
        "text/html; charset=utf-8"
    } else if same_text(ext, "css") {
        "text/css; charset=utf-8"
    } else if same_text(ext, "csv") {
        "text/csv; charset=utf-8"
    } else if same_text(ext, "json") {
        "application/json"
    } else if same_text(ext, "xml") {
        "text/xml; charset=utf-8"
    } else if same_text(ext, "pdf") {
        "application/pdf"
    } else if same_text(ext, "png") {
        "image/png"
    } else if same_text(ext, "jpg") || same_text(ext, "jpeg") {
        "image/jpeg"
    } else if same_text(ext, "gif") {
        "image/gif"
    } else if same_text(ext, "svg") {
        "image/svg+xml"
    } else if same_text(ext, "zip") {
        "application/zip"
    } else if same_text(ext, "gz") {
        "application/gzip"
    } else {
        ""
    };
    known.to_string()
}

/// The file extensions that are known, each with its content type.
pub open spec fn known_types() -> Seq<(Seq<char>, Seq<char>)> {
    seq![
        ("txt"@, "text/plain; charset=utf-8"@),
        ("html"@, "text/html; charset=utf-8"@),
        ("htm"@, "text/html; charset=utf-8"@),
        ("css"@, "text/css; charset=utf-8"@),
        ("csv"@, "text/csv; charset=utf-8"@),
        ("json"@, "application/json"@),
        ("xml"@, "text/xml; charset=utf-8"@),
        ("pdf"@, "application/pdf"@),
        ("png"@, "image/png"@),
        ("jpg"@, "image/jpeg"@),
        ("jpeg"@, "image/jpeg"@),
        ("gif"@, "image/gif"@),
        ("svg"@, "image/svg+xml"@),
        ("zip"@, "application/zip"@),
        ("gz"@, "application/gzip"@),
    ]
}

/// Law: each known extension has its content type, in whichever case it is written, and
/// any other has none.
pub proof fn law_content_types(ext: Seq<char>)
    ensures
        forall|i: int|
            0 <= i < known_types().len() ==> content_type_of((#[trigger] known_types()[i]).0)
                == known_types()[i].1,
        (forall|i: int| 0 <= i < known_types().len() ==> ext != (#[trigger] known_types()[i]).0)
            ==> content_type_of(ext).len() == 0,
{
    reveal_strlit("txt");
    reveal_strlit("html");
    reveal_strlit("htm");
    reveal_strlit("css");
    reveal_strlit("csv");
    reveal_strlit("json");
    reveal_strlit("xml");
    reveal_strlit("pdf");
    reveal_strlit("png");
    reveal_strlit("jpg");
    reveal_strlit("jpeg");
    reveal_strlit("gif");
    reveal_strlit("svg");
    reveal_strlit("zip");
    reveal_strlit("gz");
    reveal_strlit("");
    let k = known_types();
    assert(k.len() == 15);
    assert("txt"@[0] == 't' && "txt"@[1] == 'x' && "txt"@[2] == 't');
    assert("htm"@[0] == 'h' && "css"@[0] == 'c' && "css"@[2] == 's' && "csv"@[0] == 'c' && "csv"@[2]
        == 'v');
    assert("xml"@[0] == 'x' && "pdf"@[0] == 'p' && "pdf"@[1] == 'd' && "png"@[0] == 'p' && "png"@[1]
        == 'n');
    assert("jpg"@[0] == 'j' && "gif"@[0] == 'g' && "svg"@[0] == 's' && "zip"@[0] == 'z');
    assert("html"@[0] == 'h' && "json"@[0] == 'j' && "json"@[1] == 's' && "jpeg"@[0] == 'j'
        && "jpeg"@[1] == 'p');
    assert("gz"@.len() == 2 && "txt"@.len() == 3 && "html"@.len() == 4);
    assert(content_type_of("txt"@) == k[0].1);
    assert(content_type_of("html"@) == k[1].1);
    assert(content_type_of("htm"@) == k[2].1);
    assert(content_type_of("css"@) == k[3].1);
    assert(content_type_of("csv"@) == k[4].1);
    assert(content_type_of("json"@) == k[5].1);
    assert(content_type_of("xml"@) == k[6].1);
    assert(content_type_of("pdf"@) == k[7].1);
    assert(content_type_of("png"@) == k[8].1);
    assert(content_type_of("jpg"@) == k[9].1);
    assert(content_type_of("jpeg"@) == k[10].1);
    assert(content_type_of("gif"@) == k[11].1);
    assert(content_type_of("svg"@) == k[12].1);
    assert(content_type_of("zip"@) == k[13].1);
    assert(content_type_of("gz"@) == k[14].1);
    assert forall|i: int| 0 <= i < k.len() implies content_type_of((#[trigger] k[i]).0)
        == k[i].1 by {
        assert(i == 0 || i == 1 || i == 2 || i == 3 || i == 4 || i == 5 || i == 6 || i == 7 || i
            == 8 || i == 9 || i == 10 || i == 11 || i == 12 || i == 13 || i == 14);
    }
    assert(k[0].0 == "txt"@ && k[1].0 == "html"@ && k[2].0 == "htm"@ && k[3].0 == "css"@ && k[4].0
        == "csv"@ && k[5].0 == "json"@ && k[6].0 == "xml"@ && k[7].0 == "pdf"@ && k[8].0 == "png"@
        && k[9].0 == "jpg"@ && k[10].0 == "jpeg"@ && k[11].0 == "gif"@ && k[12].0 == "svg"@
        && k[13].0 == "zip"@ && k[14].0 == "gz"@);
}

/// Law: of a text in lower case the ASCII letters alone are changed, each into its
/// lower-case letter, so that the case of an extension has no part in its content type.
pub proof fn law_lowercase(s: Seq<char>, i: int)
    requires
        0 <= i < s.len(),
    ensures
        ascii_lowercase(s).len() == s.len(),
        ascii_lowercase(s)[i] == if 'A' <= s[i] <= 'Z' {
            ((s[i] as u32 + 32) as u32) as char
        } else {
            s[i]
        },
        ascii_lowercase(ascii_lowercase(s)) == ascii_lowercase(s),
{
    assert(ascii_lowercase(ascii_lowercase(s)) == ascii_lowercase(s));
}

/// Law: the content type of a file goes by its extension, in whichever case, and there is
/// none for an extension that is not known.
pub proof fn law_content_type_by_extension(ext: &str, r: String, i: int)
    requires
        call_ensures(content_type_by_extension, (ext,), r),
        0 <= i < known_types().len(),
    ensures
        ascii_lowercase(ext@) == known_types()[i].0 ==> r@ == known_types()[i].1,
        (forall|j: int|
            0 <= j < known_types().len() ==> ascii_lowercase(ext@) != (#[trigger] known_types()[j]).0)
            ==> r@.len() == 0,
{
    law_content_types(ascii_lowercase(ext@));
}

} // verus!
