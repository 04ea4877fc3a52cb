//! The errors of the library and the classification that drives the pool's
//! retry and connection-reuse decisions.

use vstd::prelude::*;

use crate::text::{decimal_string, join2, join3};

verus! {

/// `std::io::Error` of the standard library, carried as it is.
#[verifier::external_type_specification]
#[verifier::external_body]
pub struct ExIoError(std::io::Error);

/// The kind of SSL/TLS to use for an SMTP connection.
#[derive(Clone, Copy, Debug, PartialEq, Eq, Structural)]
pub enum SslType {
    /// Plain, unencrypted connection.
    Plain,
    /// Implicit SSL/TLS connection (no STARTTLS).
    Tls,
    /// Plain connection upgraded via STARTTLS.
    StartTls,
}

impl Default for SslType {
    fn default() -> (r: Self)
        ensures
            r == SslType::Plain,
    {
        SslType::Plain
    }
}

/// Errors produced by this crate.
#[derive(Debug)]
pub enum Error {
    /// An e-mail construction error (e.g. inconsistent attachments).
    Email(String),
    /// An address failed to parse.
    Address(String),
    /// A message failed to parse.
    Parse(String),
    /// An underlying I/O error.
    Io(std::io::Error),
    /// An error from the SMTP transaction or connection.
    Smtp(SmtpError),
    /// The pool has been closed.
    PoolClosed,
    /// Timed out waiting for a free connection in the pool.
    PoolTimeout,
    /// Invalid pool configuration.
    Config(String),
}

/// Details of an SMTP-layer error, carrying enough classification to drive the
/// pool's retry and connection-reuse decisions.
#[derive(Debug)]
pub struct SmtpError {
    /// Human-readable message.
    pub message: String,
    /// The SMTP response code, if the server responded with one (e.g. 421, 550).
    pub code: Option<u16>,
    /// Whether the error is network-related and hence retriable.
    pub retriable: bool,
}

impl Clone for SmtpError {
    fn clone(&self) -> (r: Self)
        ensures
            r == *self,
    {
        SmtpError { message: self.message.clone(), code: self.code, retriable: self.retriable }
    }
}

impl SmtpError {
    /// What [`SmtpError::message_text`] gives.
    pub open spec fn text(&self) -> Seq<char> {
        match self.code {
            Some(c) => "smtp error "@ + crate::text::decimal(c as nat) + ": "@ + self.message@,
            None => "smtp error: "@ + self.message@,
        }
    }

    /// The error in words.
    pub fn message_text(&self) -> (r: String)
        ensures
            r@ == self.text(),
    {
        match self.code {
            Some(c) => {
                let digits = decimal_string(c as u128);
                let mut out = join3("smtp error ", digits.as_str(), ": ");
                out.append(self.message.as_str());
                out
            },
            None => join2("smtp error: ", self.message.as_str()),
        }
    }
}

impl Error {
    /// Whether this error is retriable (network-related).
    pub open spec fn retriable(&self) -> bool {
        self matches Error::Smtp(e) && e.retriable
    }

    /// Whether this error ends the connection: any error but a response of the
    /// server with a code other than 421.
    pub open spec fn closes_conn(&self) -> bool {
        !(self matches Error::Smtp(e) && e.code matches Some(code) && code != 421)
    }

    /// The error in words, where `io` are those of the I/O error that it may hold.
    pub open spec fn text(&self, io: Seq<char>) -> Seq<char> {
        match self {
            Error::Email(m) => m@,
            Error::Address(m) => m@,
            Error::Parse(m) => m@,
            Error::Io(_) => io,
            Error::Smtp(e) => e.text(),
            Error::PoolClosed => "pool closed"@,
            Error::PoolTimeout => "timed out waiting for free conn in pool"@,
            Error::Config(m) => m@,
        }
    }

    /// Whether this error is retriable (network-related).
    pub fn is_retriable(&self) -> (r: bool)
        ensures
            r == self.retriable(),
    {
        match self {
            Error::Smtp(e) => e.retriable,
            _ => false,
        }
    }

    /// Whether a connection that produced this error should be discarded rather
    /// than returned to the pool: network/non-SMTP errors and SMTP 421
    /// (rate-limit) close the connection; other SMTP response errors (e.g. 550)
    /// keep it (after RSET).
    pub fn should_close_conn(&self) -> (r: bool)
        ensures
            r == self.closes_conn(),
    {
        match self {
            Error::Smtp(e) => match e.code {
                Some(code) => code == 421,
                None => true,
            },
            _ => true,
        }
    }

    /// The error in words, where `io` are those of the I/O error that it may hold.
    pub fn message_with(&self, io: &str) -> (r: String)
        ensures
            r@ == self.text(io@),
    {
        match self {
            Error::Email(m) => m.clone(),
            Error::Address(m) => m.clone(),
            Error::Parse(m) => m.clone(),
            Error::Io(_) => io.to_string(),
            Error::Smtp(e) => e.message_text(),
            Error::PoolClosed => "pool closed".to_string(),
            Error::PoolTimeout => "timed out waiting for free conn in pool".to_string(),
            Error::Config(m) => m.clone(),
        }
    }

    /// The error in words. The words of an I/O error are those that it gives
    /// itself.
    pub fn message(&self) -> (r: String)
        ensures
            self matches Error::Io(e) ==> is_io_text(r@, *e),
            !(self is Io) ==> r@ == self.text(Seq::empty()),
    {
        match self {
            Error::Io(e) => io_error_text(e),
            _ => self.message_with(""),
        }
    }
}

/// Whether `t` are the words that an I/O error gives.
pub closed spec fn is_io_text(t: Seq<char>, e: std::io::Error) -> bool {
    exists|io: String| #[trigger] call_ensures(io_error_text, (&e,), io) && t == io@
}

/// `ToString` of `std::io::Error`. The text is the operating system's, so nothing
/// is claimed of it.
#[verifier::external_body]
fn io_error_text(e: &std::io::Error) -> (r: String) {
    e.to_string()
}

impl vstd::std_specs::convert::FromSpecImpl<std::io::Error> for Error {
    open spec fn obeys_from_spec() -> bool {
        true
    }

    open spec fn from_spec(e: std::io::Error) -> Self {
        Error::Io(e)
    }
}

impl From<std::io::Error> for Error {
    fn from(e: std::io::Error) -> (r: Self) {
        Error::Io(e)
    }
}

/// Law: an error is retriable only if it is an SMTP error marked so; and it spares the
/// connection only if it is a response of the server with a code other than 421.
pub proof fn law_error_classes(e: Error)
    ensures
        e.retriable() <==> e is Smtp && e->Smtp_0.retriable,
        e.closes_conn() <==> !(e is Smtp) || e->Smtp_0.code is None || e->Smtp_0.code == Some(
            421u16,
        ),
{
}

/// Law: the words of an error are its message; those of an SMTP error end with it, behind
/// the response code where there is one.
pub proof fn law_error_words(e: Error, io: Seq<char>)
    ensures
        match e {
            Error::Email(m) => e.text(io) == m@,
            Error::Address(m) => e.text(io) == m@,
            Error::Parse(m) => e.text(io) == m@,
            Error::Config(m) => e.text(io) == m@,
            Error::Io(_) => e.text(io) == io,
            Error::Smtp(s) => e.text(io) == (match s.code {
                None => "smtp error"@,
                Some(code) => "smtp error "@ + crate::text::decimal(code as nat),
            }) + ": "@ + s.message@,
            Error::PoolClosed => e.text(io) == "pool closed"@,
            Error::PoolTimeout => e.text(io) == "timed out waiting for free conn in pool"@,
        },
{
    reveal_strlit("smtp error: ");
    reveal_strlit("smtp error");
    reveal_strlit(": ");
    assert("smtp error"@ + ": "@ == "smtp error: "@);
}

/// Law: what is asked of an error is what it is: only an SMTP error marked so can be
/// retried, and only a response of the server with a code other than 421 spares the
/// connection.
pub proof fn law_error_calls(e: Error, retry: bool, close: bool)
    requires
        call_ensures(Error::is_retriable, (&e,), retry),
        call_ensures(Error::should_close_conn, (&e,), close),
    ensures
        retry <==> e is Smtp && e->Smtp_0.retriable,
        close <==> !(e is Smtp && e->Smtp_0.code is Some && e->Smtp_0.code != Some(421u16)),
{
}

} // verus!
