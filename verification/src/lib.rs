//! `pooledsmtp` is the core of a pool of reusable SMTP connections for
//! high-throughput e-mailing, which gracefully handles idle connections, timeouts
//! and retries.
//!
//! The e-mail layer provides the message model ([`Email`], [`Attachment`],
//! [`Email::attach`]), its MIME serialization ([`Email::bytes`]) and parsing
//! ([`new_email_from_reader`]). The connection layer holds what a pool, configured
//! via [`Opt`], decides: how a connection is dialled, what is told the server, how
//! its errors are classified, when a connection is reused and when a message is
//! tried again.
//!
//! Every function states in its contract what it returns or changes. What holds of
//! several functions together is stated by the functions whose names start with
//! `law_`.

pub mod address;
pub mod email;
pub mod encoding;
pub mod error;
pub mod fields;
pub mod header;
pub mod multipart;
pub mod names;
pub mod parse;
pub mod pool;
pub mod readback;
pub mod render;
pub mod smtp;
pub mod span;
pub mod stamp;
pub mod text;
pub mod wire;

pub use email::{Attachment, Email};
pub use encoding::MAX_LINE_LENGTH;
pub use error::{Error, SmtpError, SslType};
pub use header::MimeHeader;
pub use names::{
    CONTENT_TYPE_HTML, CONTENT_TYPE_MULTIPART_ALT, CONTENT_TYPE_MULTIPART_MIXED,
    CONTENT_TYPE_MULTIPART_RELATED, CONTENT_TYPE_OCTET_STREAM, CONTENT_TYPE_PLAIN, HDR_BCC, HDR_CC,
    HDR_CONTENT_DISPOSITION, HDR_CONTENT_ID, HDR_CONTENT_TRANSFER_ENCODING, HDR_CONTENT_TYPE,
    HDR_DATE, HDR_FROM, HDR_MESSAGE_ID, HDR_MIME_VERSION, HDR_REPLY_TO, HDR_SUBJECT, HDR_TO,
};
pub use parse::new_email_from_reader;
pub use smtp::{Auth, AuthMechanism, Opt};
pub use span::Span;
