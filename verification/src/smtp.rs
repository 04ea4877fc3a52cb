//! The SMTP connection layer: pool configuration ([`Opt`]), the plan by which a
//! connection is dialled, the envelope of a message, and the mapping from the
//! errors of a connection to this crate's [`Error`] with the classification the
//! pool needs.

use lettre::transport::smtp::Error as ConnError;
use vstd::prelude::*;

use crate::address::extract_address;
use crate::email::{Email, EmailView};
use crate::error::{Error, SmtpError, SslType};
use crate::span::Span;
use crate::text::{join3, push_all};

verus! {

// ---------------------------------------------------------------------------
// Options
// ---------------------------------------------------------------------------

/// The SMTP authentication mechanism.
#[derive(Clone, Copy, Debug, PartialEq, Eq, Structural)]
pub enum AuthMechanism {
    /// AUTH PLAIN.
    Plain,
    /// AUTH LOGIN.
    Login,
}

/// SMTP authentication credentials.
#[derive(Debug)]
pub struct Auth {
    pub username: String,
    pub password: String,
    pub mechanism: AuthMechanism,
}

/// What [`Auth`] holds.
pub struct AuthView {
    pub username: Seq<char>,
    pub password: Seq<char>,
    pub mechanism: AuthMechanism,
}

impl View for Auth {
    type V = AuthView;

    open spec fn view(&self) -> AuthView {
        AuthView {
            username: self.username@,
            password: self.password@,
            mechanism: self.mechanism,
        }
    }
}

impl Clone for Auth {
    fn clone(&self) -> (r: Self)
        ensures
            r@ == self@,
    {
        Auth {
            username: self.username.clone(),
            password: self.password.clone(),
            mechanism: self.mechanism,
        }
    }
}

/// SMTP pool options.
#[derive(Debug)]
pub struct Opt {
    /// The SMTP server's hostname.
    pub host: String,
    /// The SMTP server port.
    pub port: u16,
    /// Optional hostname to pass with the HELO/EHLO command. Default `localhost`.
    pub hello_hostname: String,
    /// The maximum allowed concurrent SMTP connections. Must be >= 1.
    pub max_conns: usize,
    /// Number of times a message is retried if sending fails. Min/default 1.
    pub max_message_retries: usize,
    /// Optional delay before retrying a failed message.
    pub message_retry_delay: Span,
    /// Idle time before a pooled connection is swept and closed.
    pub idle_timeout: Span,
    /// Maximum time to wait for a free connection; also the dial timeout.
    pub pool_wait_timeout: Span,
    /// The kind of SSL/TLS to use.
    pub ssl: SslType,
    /// Optional authentication.
    pub auth: Option<Auth>,
    /// If true, invalid TLS certificates/hostnames are accepted (testing only).
    pub tls_dangerous_accept_invalid_certs: bool,
}

/// What an [`Opt`] holds.
pub struct OptView {
    pub host: Seq<char>,
    pub port: u16,
    pub hello_hostname: Seq<char>,
    pub max_conns: usize,
    pub max_message_retries: usize,
    pub message_retry_delay: Span,
    pub idle_timeout: Span,
    pub pool_wait_timeout: Span,
    pub ssl: SslType,
    pub auth: Option<AuthView>,
    pub tls_dangerous_accept_invalid_certs: bool,
}

/// What optional credentials hold.
pub open spec fn auth_view(auth: Option<Auth>) -> Option<AuthView> {
    match auth {
        Some(a) => Some(a@),
        None => None,
    }
}

impl View for Opt {
    type V = OptView;

    open spec fn view(&self) -> OptView {
        OptView {
            host: self.host@,
            port: self.port,
            hello_hostname: self.hello_hostname@,
            max_conns: self.max_conns,
            max_message_retries: self.max_message_retries,
            message_retry_delay: self.message_retry_delay,
            idle_timeout: self.idle_timeout,
            pool_wait_timeout: self.pool_wait_timeout,
            ssl: self.ssl,
            auth: auth_view(self.auth),
            tls_dangerous_accept_invalid_certs: self.tls_dangerous_accept_invalid_certs,
        }
    }
}

fn copy_auth(auth: &Option<Auth>) -> (r: Option<Auth>)
    ensures
        auth_view(r) == auth_view(*auth),
{
    match auth {
        Some(a) => Some(a.clone()),
        None => None,
    }
}

impl Clone for Opt {
    fn clone(&self) -> (r: Self)
        ensures
            r@ == self@,
    {
        Opt {
            host: self.host.clone(),
            port: self.port,
            hello_hostname: self.hello_hostname.clone(),
            max_conns: self.max_conns,
            max_message_retries: self.max_message_retries,
            message_retry_delay: self.message_retry_delay,
            idle_timeout: self.idle_timeout,
            pool_wait_timeout: self.pool_wait_timeout,
            ssl: self.ssl,
            auth: copy_auth(&self.auth),
            tls_dangerous_accept_invalid_certs: self.tls_dangerous_accept_invalid_certs,
        }
    }
}

/// The default options.
pub open spec fn default_opt() -> OptView {
    OptView {
        host: Seq::empty(),
        port: 25,
        hello_hostname: Seq::empty(),
        max_conns: 1,
        max_message_retries: 1,
        message_retry_delay: Span { nanos: 0 },
        idle_timeout: Span { nanos: 0 },
        pool_wait_timeout: Span { nanos: 2_000_000_000 },
        ssl: SslType::Plain,
        auth: None,
        tls_dangerous_accept_invalid_certs: false,
    }
}

impl Default for Opt {
    fn default() -> (r: Self)
        ensures
            r@ == default_opt(),
    {
        let r = Opt {
            host: String::new(),
            port: 25,
            hello_hostname: String::new(),
            max_conns: 1,
            max_message_retries: 1,
            message_retry_delay: Span::zero(),
            idle_timeout: Span::zero(),
            pool_wait_timeout: Span::from_secs(2),
            ssl: SslType::Plain,
            auth: None,
            tls_dangerous_accept_invalid_certs: false,
        };
        assert(r@.host == Seq::<char>::empty());
        assert(r@.hello_hostname == Seq::<char>::empty());
        r
    }
}

// ---------------------------------------------------------------------------
// Dialling
// ---------------------------------------------------------------------------

/// How TLS is set up.
pub struct TlsPlan {
    /// The host whose certificate is expected.
    pub host: String,
    /// Whether invalid certificates and hostnames are accepted.
    pub accept_invalid: bool,
}

/// What dialling a connection takes: connect to the host, at once over TLS or
/// plainly, greet, upgrade via STARTTLS, and authenticate.
pub struct DialPlan {
    pub host: String,
    pub port: u16,
    /// The name to greet with.
    pub hello: String,
    pub timeout: Span,
    /// The TLS to use, if any.
    pub tls: Option<TlsPlan>,
    /// Whether the connection starts plainly and is upgraded via STARTTLS.
    pub upgrade: bool,
    pub auth: Option<Auth>,
}

/// What a [`TlsPlan`] holds.
pub struct TlsPlanView {
    pub host: Seq<char>,
    pub accept_invalid: bool,
}

/// What a [`DialPlan`] holds.
pub struct DialPlanView {
    pub host: Seq<char>,
    pub port: u16,
    pub hello: Seq<char>,
    pub timeout: Span,
    pub tls: Option<TlsPlanView>,
    pub upgrade: bool,
    pub auth: Option<AuthView>,
}

impl View for DialPlan {
    type V = DialPlanView;

    open spec fn view(&self) -> DialPlanView {
        DialPlanView {
            host: self.host@,
            port: self.port,
            hello: self.hello@,
            timeout: self.timeout,
            tls: match self.tls {
                Some(t) => Some(TlsPlanView { host: t.host@, accept_invalid: t.accept_invalid }),
                None => None,
            },
            upgrade: self.upgrade,
            auth: auth_view(self.auth),
        }
    }
}

/// The plan by which a connection with the options `opt` is dialled.
pub open spec fn dial_plan(opt: OptView) -> DialPlanView {
    DialPlanView {
        host: opt.host,
        port: opt.port,
        hello: if opt.hello_hostname.len() == 0 {
            "localhost"@
        } else {
            opt.hello_hostname
        },
        timeout: opt.pool_wait_timeout,
        tls: if opt.ssl == SslType::Plain {
            None
        } else {
            Some(
                TlsPlanView {
                    host: opt.host,
                    accept_invalid: opt.tls_dangerous_accept_invalid_certs,
                },
            )
        },
        upgrade: opt.ssl == SslType::StartTls,
        auth: opt.auth,
    }
}

impl DialPlan {
    /// The plan by which a connection with the options `opt` is dialled.
    pub fn new(opt: &Opt) -> (r: Self)
        ensures
            r@ == dial_plan(opt@),
            r.upgrade ==> r.tls is Some,
    {
        let hello = if opt.hello_hostname.as_str().is_empty() {
            "localhost".to_string()
        } else {
            opt.hello_hostname.clone()
        };
        let tls = match opt.ssl {
            SslType::Plain => None,
            SslType::Tls | SslType::StartTls => Some(
                TlsPlan {
                    host: opt.host.clone(),
                    accept_invalid: opt.tls_dangerous_accept_invalid_certs,
                },
            ),
        };
        DialPlan {
            host: opt.host.clone(),
            port: opt.port,
            hello,
            timeout: opt.pool_wait_timeout,
            tls,
            upgrade: match opt.ssl {
                SslType::StartTls => true,
                _ => false,
            },
            auth: copy_auth(&opt.auth),
        }
    }
}

/// A step of dialling a connection.
#[derive(Clone, Copy, Debug, PartialEq, Eq, Structural)]
pub enum DialStep {
    /// Nothing was done yet.
    Begin,
    /// Set up TLS.
    Tls,
    /// Connect and greet, over TLS or plainly.
    Connect,
    /// Upgrade the connection via STARTTLS.
    Upgrade,
    /// Authenticate.
    Login,
}

/// What to do after a step of dialling.
#[derive(Clone, Copy, Debug, PartialEq, Eq, Structural)]
pub enum DialNext {
    /// Take the given step.
    Take(DialStep),
    /// Nothing: the connection is ready.
    Ready,
    /// Give up: the step failed.
    Stop,
}

/// The steps in which a connection is dialled: TLS is set up if it is used, then comes
/// the connection, then its upgrade if it is to be upgraded, and last the
/// authentication if there are credentials.
pub open spec fn dial_steps(plan: DialPlanView) -> Seq<DialStep> {
    (if plan.tls is Some {
        seq![DialStep::Tls]
    } else {
        Seq::empty()
    }) + seq![DialStep::Connect] + (if plan.upgrade {
        seq![DialStep::Upgrade]
    } else {
        Seq::empty()
    }) + (if plan.auth is Some {
        seq![DialStep::Login]
    } else {
        Seq::empty()
    })
}

/// What to do after the step `done`, which went well or not.
pub open spec fn dial_next(plan: DialPlanView, done: DialStep, ok: bool) -> DialNext {
    if !ok {
        DialNext::Stop
    } else if done == DialStep::Begin && plan.tls is Some {
        DialNext::Take(DialStep::Tls)
    } else if done == DialStep::Begin || done == DialStep::Tls {
        DialNext::Take(DialStep::Connect)
    } else if done == DialStep::Connect && plan.upgrade {
        DialNext::Take(DialStep::Upgrade)
    } else if done != DialStep::Login && plan.auth is Some {
        DialNext::Take(DialStep::Login)
    } else {
        DialNext::Ready
    }
}

impl DialPlan {
    /// Whether the connection is made over TLS from the start.
    pub fn over_tls(&self) -> (r: bool)
        ensures
            r == (self@.tls is Some && !self@.upgrade),
    {
        self.tls.is_some() && !self.upgrade
    }

    /// Decides what to do after the step `done` of dialling, which went well or not.
    /// The first step that fails ends it.
    pub fn next_step(&self, done: DialStep, ok: bool) -> (r: DialNext)
        ensures
            r == dial_next(self@, done, ok),
    {
        if !ok {
            return DialNext::Stop;
        }
        match done {
            DialStep::Begin => if self.tls.is_some() {
                DialNext::Take(DialStep::Tls)
            } else {
                DialNext::Take(DialStep::Connect)
            },
            DialStep::Tls => DialNext::Take(DialStep::Connect),
            DialStep::Connect => if self.upgrade {
                DialNext::Take(DialStep::Upgrade)
            } else if self.auth.is_some() {
                DialNext::Take(DialStep::Login)
            } else {
                DialNext::Ready
            },
            DialStep::Upgrade => if self.auth.is_some() {
                DialNext::Take(DialStep::Login)
            } else {
                DialNext::Ready
            },
            DialStep::Login => DialNext::Ready,
        }
    }
}

/// Law: while all goes well, a connection is dialled in the steps of its plan, one after
/// another and no others, and is ready after the last; a step that fails ends it. So
/// nobody authenticates before the connection is made, nor before it is upgraded where
/// it is to be.
pub proof fn law_dial_order(plan: DialPlanView)
    ensures
        dial_next(plan, DialStep::Begin, true) == DialNext::Take(dial_steps(plan)[0]),
        forall|i: int|
            0 <= i < dial_steps(plan).len() - 1 ==> dial_next(
                plan,
                #[trigger] dial_steps(plan)[i],
                true,
            ) == DialNext::Take(dial_steps(plan)[i + 1]),
        dial_next(plan, dial_steps(plan).last(), true) == DialNext::Ready,
        forall|done: DialStep| #[trigger] dial_next(plan, done, false) == DialNext::Stop,
        dial_steps(plan).contains(DialStep::Connect),
        forall|i: int, j: int|
            0 <= i < dial_steps(plan).len() && 0 <= j < dial_steps(plan).len() && (
            #[trigger] dial_steps(plan)[i]) == DialStep::Login && (#[trigger] dial_steps(plan)[j])
                != DialStep::Login ==> j < i,
{
    let tls: Seq<DialStep> = if plan.tls is Some {
        seq![DialStep::Tls]
    } else {
        Seq::empty()
    };
    let steps = dial_steps(plan);
    assert(steps[tls.len() as int] == DialStep::Connect);
    assert(plan.upgrade ==> steps[tls.len() as int + 1] == DialStep::Upgrade);
}

// ---------------------------------------------------------------------------
// Envelopes
// ---------------------------------------------------------------------------

/// What the `lettre` crate has against a bare address, in words, if anything.
pub uninterp spec fn address_fault(bare: Seq<char>) -> Option<Seq<char>>;

/// `Address::from_str` of the `lettre` crate: an address is accepted as it is
/// written, or refused with a reason. Which ones are refused, and why, depends on
/// the text alone and has a name; nothing else is claimed of it.
#[verifier::external_body]
fn check_address(bare: &str) -> (r: Result<String, String>)
    ensures
        match r {
            Ok(a) => address_fault(bare@) is None && a@ == bare@,
            Err(e) => address_fault(bare@) == Some(e@),
        },
{
    bare.parse::<lettre::Address>().map(|a| a.to_string()).map_err(|e| e.to_string())
}

/// The sender and the recipients that the server is told.
#[derive(Debug)]
pub struct Envelope {
    pub from: String,
    pub to: Vec<String>,
}

/// What an [`Envelope`] holds.
pub struct EnvelopeView {
    pub from: Seq<char>,
    pub to: Seq<Seq<char>>,
}

impl View for Envelope {
    type V = EnvelopeView;

    open spec fn view(&self) -> EnvelopeView {
        EnvelopeView { from: self.from@, to: self.to.deep_view() }
    }
}

/// What is said against a bare address: the address and the reason.
pub open spec fn refusal(bare: Seq<char>, reason: Seq<char>) -> Seq<char> {
    bare + ": "@ + reason
}

/// The bare address `bare`, or what is said against it, where `fault` is what
/// `lettre` has against it, if anything.
pub open spec fn checked(bare: Seq<char>, fault: Option<Seq<char>>) -> Result<
    Seq<char>,
    Seq<char>,
> {
    match fault {
        None => Ok(bare),
        Some(reason) => Err(refusal(bare, reason)),
    }
}

/// The bare address of a recipient, or what is said against it.
pub open spec fn recipient(addr: Seq<char>) -> Result<Seq<char>, Seq<char>> {
    match crate::address::parsed_address(addr) {
        Ok((_, bare)) => checked(bare, address_fault(bare)),
        Err(t) => Err("invalid address: "@ + t),
    }
}

/// The bare addresses of all recipients in `list`, or what is said against the
/// first bad one.
pub open spec fn recipients(list: Seq<Seq<char>>) -> Result<Seq<Seq<char>>, Seq<char>>
    decreases list.len(),
{
    if list.len() == 0 {
        Ok(Seq::empty())
    } else {
        match recipients(list.drop_last()) {
            Ok(done) => match recipient(list.last()) {
                Ok(bare) => Ok(done.push(bare)),
                Err(t) => Err(t),
            },
            Err(t) => Err(t),
        }
    }
}

/// The envelope of `e`, or what is said against the first bad address or against
/// the lack of recipients. The recipients are those of To, Cc and Bcc.
pub open spec fn envelope_of(e: EmailView) -> Result<EnvelopeView, Seq<char>> {
    match crate::email::sender_address(e) {
        Ok(bare) => match checked(bare, address_fault(bare)) {
            Ok(from) => match recipients(e.to + e.cc + e.bcc) {
                Ok(to) => if to.len() == 0 {
                    Err("missing destination address, invalid envelope"@)
                } else {
                    Ok(EnvelopeView { from, to })
                },
                Err(t) => Err(t),
            },
            Err(t) => Err(t),
        },
        Err(t) => Err("invalid address: "@ + t),
    }
}

/// Whether `e` is an address error with the given text.
pub open spec fn says(e: Error, t: Seq<char>) -> bool {
    e matches Error::Address(m) && m@ == t
}

/// The bare address as it is, or the error for it, where `fault` is what `lettre`
/// has against it, if anything.
pub fn judge_address(bare: &str, fault: Option<String>) -> (r: Result<String, Error>)
    ensures
        match (
            r,
            checked(
                bare@,
                match fault {
                    Some(f) => Some(f@),
                    None => None,
                },
            ),
        ) {
            (Ok(a), Ok(q)) => a@ == q,
            (Err(e), Err(t)) => says(e, t),
            _ => false,
        },
{
    match fault {
        None => Ok(bare.to_string()),
        Some(reason) => Err(Error::Address(join3(bare, ": ", reason.as_str()))),
    }
}

/// Checks a bare address.
pub fn parse_addr(bare: &str) -> (r: Result<String, Error>)
    ensures
        match (r, checked(bare@, address_fault(bare@))) {
            (Ok(a), Ok(q)) => a@ == q,
            (Err(e), Err(t)) => says(e, t),
            _ => false,
        },
{
    match check_address(bare) {
        Ok(a) => judge_address(a.as_str(), None),
        Err(reason) => judge_address(bare, Some(reason)),
    }
}

/// A bad recipient at the start of a list is the one that is reported.
proof fn lemma_first_bad(list: Seq<Seq<char>>, n: int)
    requires
        0 <= n <= list.len(),
        recipients(list.take(n)) is Err,
    ensures
        recipients(list) == recipients(list.take(n)),
    decreases list.len() - n,
{
    if n < list.len() {
        assert(list.take(n + 1).drop_last() == list.take(n));
        lemma_first_bad(list, n + 1);
    } else {
        assert(list.take(n) == list);
    }
}

/// Combines To/Cc/Bcc into a single list of checked recipient addresses.
pub fn combine_emails(e: &Email) -> (r: Result<Vec<String>, Error>)
    ensures
        match (r, recipients(e@.to + e@.cc + e@.bcc)) {
            (Ok(v), Ok(q)) => v.deep_view() == q,
            (Err(err), Err(t)) => says(err, t),
            _ => false,
        },
{
    let mut all: Vec<&String> = Vec::new();
    push_all(&mut all, &e.to);
    push_all(&mut all, &e.cc);
    push_all(&mut all, &e.bcc);
    let ghost list = e@.to + e@.cc + e@.bcc;
    assert(crate::text::texts(all@) == list);
    assert(all@.len() == list.len());
    let mut out: Vec<String> = Vec::new();
    let mut i: usize = 0;
    assert(out.deep_view() == Seq::<Seq<char>>::empty());
    while i < all.len()
        invariant
            i <= all@.len(),
            list == e@.to + e@.cc + e@.bcc,
            list == crate::text::texts(all@),
            recipients(list.take(i as int)) == Ok::<Seq<Seq<char>>, Seq<char>>(out.deep_view()),
        decreases all@.len() - i,
    {
        assert(list.take(i + 1).drop_last() == list.take(i as int));
        assert(list.take(i + 1).last() == all@[i as int]@);
        let ghost before = out.deep_view();
        let bare = match extract_address(all[i].as_str()) {
            Ok(bare) => bare,
            Err(err) => {
                proof {
                    lemma_first_bad(list, i + 1);
                }
                return Err(err);
            },
        };
        match parse_addr(bare.as_str()) {
            Ok(a) => {
                out.push(a);
                assert(out.deep_view() == before.push(a@));
            },
            Err(err) => {
                proof {
                    lemma_first_bad(list, i + 1);
                }
                return Err(err);
            },
        }
        i += 1;
    }
    assert(list.take(i as int) == list);
    Ok(out)
}

/// Builds the SMTP envelope from the message's sender and combined recipients.
pub fn build_envelope(e: &Email) -> (r: Result<Envelope, Error>)
    ensures
        match (r, envelope_of(e@)) {
            (Ok(v), Ok(q)) => v@ == q,
            (Err(err), Err(t)) => says(err, t),
            _ => false,
        },
{
    let sender = match e.parse_sender() {
        Ok(s) => s,
        Err(err) => {
            return Err(err);
        },
    };
    let from = match parse_addr(sender.as_str()) {
        Ok(a) => a,
        Err(err) => {
            return Err(err);
        },
    };
    let to = match combine_emails(e) {
        Ok(v) => v,
        Err(err) => {
            return Err(err);
        },
    };
    assert(to.deep_view().len() == to@.len());
    if to.is_empty() {
        return Err(
            Error::Address("missing destination address, invalid envelope".to_string()),
        );
    }
    Ok(Envelope { from, to })
}

// ---------------------------------------------------------------------------
// Errors of a connection
// ---------------------------------------------------------------------------

/// The error type of a `lettre` SMTP connection, carried as it is.
#[verifier::external_type_specification]
#[verifier::external_body]
pub struct ExSmtpFailure(ConnError);

/// What the error of an SMTP connection says of itself.
#[derive(Debug)]
pub struct Failure {
    /// The three digits of the response code, if the server responded with one.
    pub status: Option<(u8, u8, u8)>,
    /// Whether a response could not be understood.
    pub is_response: bool,
    /// Whether it is an internal error of the client.
    pub is_client: bool,
    /// Whether it is an error of TLS.
    pub is_tls: bool,
    /// The error in words.
    pub text: String,
}

/// The accessors of `lettre`'s SMTP error: `status`, `is_response`, `is_client`,
/// `is_tls`, and its text. Each digit of a status is at most nine. Nothing else is
/// claimed: the error comes from the network.
#[verifier::external_body]
fn read_failure(err: &ConnError) -> (r: Failure)
    ensures
        r.status matches Some((a, b, c)) ==> a <= 9 && b <= 9 && c <= 9,
{
    Failure {
        status: err.status().map(|c| (c.severity as u8, c.category as u8, c.detail as u8)),
        is_response: err.is_response(),
        is_client: err.is_client(),
        is_tls: err.is_tls(),
        text: err.to_string(),
    }
}

/// The response code that three digits make.
pub open spec fn code_of(status: Option<(u8, u8, u8)>) -> Option<u16> {
    match status {
        Some((severity, category, detail)) => Some(
            (severity * 100 + category * 10 + detail) as u16,
        ),
        None => None,
    }
}

/// Whether `e` is the error that a failure is mapped to. A network-type
/// (retriable) error is one where the server did not respond with an SMTP status
/// and which is not an internal client or TLS error.
pub open spec fn is_mapped(e: SmtpError, f: Failure) -> bool {
    &&& e.message@ == f.text@
    &&& e.code == code_of(f.status)
    &&& e.retriable == (f.status is None && !f.is_response && !f.is_client && !f.is_tls)
}

/// Maps what a failure says of itself into an [`SmtpError`].
pub fn classify(f: Failure) -> (r: SmtpError)
    ensures
        is_mapped(r, f),
{
    let code = match f.status {
        Some((severity, category, detail)) => Some(
            severity as u16 * 100 + category as u16 * 10 + detail as u16,
        ),
        None => None,
    };
    let retriable = code.is_none() && !f.is_response && !f.is_client && !f.is_tls;
    SmtpError { message: f.text, code, retriable }
}

/// Whether `e` is the error that `err` is mapped to: that of what its accessors give
/// for it.
pub closed spec fn is_mapped_from(e: SmtpError, err: ConnError) -> bool {
    exists|f: Failure| #[trigger] call_ensures(read_failure, (&err,), f) && is_mapped(e, f)
}

/// Maps a `lettre` SMTP error into an [`SmtpError`].
pub fn map_lettre(err: &ConnError) -> (r: SmtpError)
    ensures
        is_mapped_from(r, *err),
        r.code matches Some(code) ==> code <= 999,
        r.retriable ==> r.code is None,
{
    let f = read_failure(err);
    classify(f)
}

/// Maps a `lettre` SMTP error into this crate's [`Error::Smtp`].
pub fn map_smtp_error(err: ConnError) -> (r: Error)
    ensures
        r matches Error::Smtp(e) && is_mapped_from(e, err),
        r.retriable() ==> r.closes_conn(),
{
    Error::Smtp(map_lettre(&err))
}

// ---------------------------------------------------------------------------
// Sending on a connection
// ---------------------------------------------------------------------------

/// A message ready to be sent on a connection.
pub struct Prepared {
    pub envelope: Envelope,
    pub body: Vec<u8>,
}

/// Makes `e` ready to be sent by the process `pid`. Where that fails, the bool
/// says whether the message can be retried: so after an error of the addresses in
/// its envelope, not after one in rendering it.
pub fn prepare(e: &Email, pid: u32) -> (r: Result<Prepared, (bool, Error)>)
    ensures
        match (r, envelope_of(e@)) {
            (Ok(p), Ok(q)) => p.envelope@ == q && exists|s: crate::stamp::StampView|
                #[trigger] crate::stamp::is_stamp(s, pid, crate::render::needs(e@)) && crate::render::rendered(e@, s) == Ok::<
                    Seq<u8>,
                    crate::render::Fault,
                >(p.body@),
            (Err((retry, err)), Err(t)) => retry && says(err, t),
            (Err((retry, err)), Ok(_)) => !retry && forall|s: crate::stamp::StampView|
                #[trigger] crate::render::rendered(e@, s) matches Err(f)
                    && crate::render::is_fault(err, f),
            (Ok(_), Err(_)) => false,
        },
{
    let envelope = match build_envelope(e) {
        Ok(v) => v,
        Err(err) => {
            return Err((true, err));
        },
    };
    match e.bytes(pid) {
        Ok(body) => Ok(Prepared { envelope, body }),
        Err(err) => Err((false, err)),
    }
}

/// What comes of a message once the server has answered: whether it can be
/// retried, and the result. It can be after a network-type error alone.
pub fn sent(answer: Result<(), Error>) -> (r: (bool, Result<(), Error>))
    ensures
        r.1 == answer,
        r.0 == (answer matches Err(e) && e.retriable()),
{
    let retry = match &answer {
        Ok(_) => false,
        Err(e) => e.is_retriable(),
    };
    (retry, answer)
}

// ---------------------------------------------------------------------------
// Laws
// ---------------------------------------------------------------------------

/// Law: a network-type error closes the connection, and so does a 421; any other
/// response code keeps it and is not retried.
pub proof fn law_mapped_classes(e: SmtpError, f: Failure)
    requires
        is_mapped(e, f),
    ensures
        Error::Smtp(e).retriable() ==> Error::Smtp(e).closes_conn(),
        e.code == Some(421u16) ==> Error::Smtp(e).closes_conn() && !Error::Smtp(e).retriable(),
        e.code matches Some(code) && code != 421 ==> !Error::Smtp(e).closes_conn()
            && !Error::Smtp(e).retriable(),
{
}

/// Whether `bare` is the bare address in `addr`.
pub open spec fn is_bare_address(bare: Seq<char>, addr: Seq<char>) -> bool {
    crate::address::parsed_address(addr) matches Ok((_, a)) && a == bare
}

/// Law: the envelope of a message names its recipients of To, Cc and Bcc, in this
/// order, one for each, and there is at least one.
pub proof fn law_envelope_recipients(e: EmailView)
    ensures
        envelope_of(e) matches Ok(v) ==> {
            let list = e.to + e.cc + e.bcc;
            &&& v.to.len() == list.len() > 0
            &&& forall|i: int|
                0 <= i < list.len() ==> is_bare_address(v.to[i], #[trigger] list[i])
        },
{
    if envelope_of(e) is Ok {
        lemma_recipients(e.to + e.cc + e.bcc);
    }
}

proof fn lemma_recipients(list: Seq<Seq<char>>)
    ensures
        recipients(list) matches Ok(to) ==> to.len() == list.len() && forall|i: int|
            0 <= i < list.len() ==> is_bare_address(to[i], #[trigger] list[i]),
    decreases list.len(),
{
    if list.len() > 0 {
        lemma_recipients(list.drop_last());
        if let Ok(to) = recipients(list) {
            assert forall|i: int| 0 <= i < list.len() implies is_bare_address(
                to[i],
                #[trigger] list[i],
            ) by {
                if i < list.len() - 1 {
                    assert(list[i] == list.drop_last()[i]);
                }
            }
        }
    }
}

/// Law: a response code has the digits of the status that came back, so that it is 421
/// where these are 4, 2 and 1 and nowhere else; where no status came back there is no
/// code.
pub proof fn law_code_digits(e: SmtpError, f: Failure)
    requires
        is_mapped(e, f),
        f.status matches Some((a, b, c)) ==> a <= 9 && b <= 9 && c <= 9,
    ensures
        e.code is None <==> f.status is None,
        f.status matches Some((a, b, c)) ==> {
            &&& e.code->0 / 100 == a
            &&& e.code->0 / 10 % 10 == b
            &&& e.code->0 % 10 == c
            &&& e.code == Some(421u16) <==> a == 4 && b == 2 && c == 1
        },
        e.message@ == f.text@,
        e.retriable <==> f.status is None && !f.is_response && !f.is_client && !f.is_tls,
{
}

/// Law: two failures that agree in what they say of themselves are mapped to the same
/// classes; a failure with a status is never retried, whatever else it says.
pub proof fn law_retried_alike(e1: SmtpError, f1: Failure, e2: SmtpError, f2: Failure)
    requires
        is_mapped(e1, f1),
        is_mapped(e2, f2),
    ensures
        f1.status is Some ==> !e1.retriable,
        f1.is_response || f1.is_client || f1.is_tls ==> !e1.retriable,
        f1.status == f2.status ==> e1.code == e2.code,
        f1.status is None && f2.status is None && f1.is_response == f2.is_response
            && f1.is_client == f2.is_client && f1.is_tls == f2.is_tls ==> e1.retriable
            == e2.retriable,
{
}

/// Whether `addr` holds a bare address that nothing is said against.
pub open spec fn is_accepted(addr: Seq<char>) -> bool {
    crate::address::parsed_address(addr) matches Ok((_, bare)) && address_fault(bare) is None
}

/// What is said against the recipient `addr`: that it is no address, or the bare address
/// and the reason.
pub open spec fn is_refused_with(addr: Seq<char>, text: Seq<char>) -> bool {
    match crate::address::parsed_address(addr) {
        Err(t) => text == "invalid address: "@ + t,
        Ok((_, bare)) => address_fault(bare) matches Some(reason) && text == bare + ": "@ + reason,
    }
}

/// Law: the envelope of a message names as its sender the bare address in the message's
/// sender, or where it has none the one in its From.
pub proof fn law_envelope_sender(e: EmailView, other: EmailView)
    ensures
        envelope_of(e) matches Ok(v) ==> is_bare_address(
            v.from,
            if e.sender.len() > 0 {
                e.sender
            } else {
                e.from
            },
        ),
        e.sender == other.sender && e.from == other.from ==> (envelope_of(e) matches Ok(v) ==> (
        envelope_of(other) matches Ok(w) ==> v.from == w.from)),
{
}

/// Law: a message has an envelope if and only if it has a recipient and its sender and
/// all its recipients are accepted; else what is said is said against the sender, or
/// against the first recipient that is not accepted, or against the lack of recipients.
pub proof fn law_envelope_exists(e: EmailView)
    ensures
        ({
            let from = if e.sender.len() > 0 {
                e.sender
            } else {
                e.from
            };
            let list = e.to + e.cc + e.bcc;
            &&& envelope_of(e) is Ok <==> list.len() > 0 && is_accepted(from) && forall|i: int|
                0 <= i < list.len() ==> is_accepted(#[trigger] list[i])
            &&& !is_accepted(from) ==> is_refused_with(from, envelope_of(e)->Err_0)
            &&& is_accepted(from) && list.len() == 0 ==> envelope_of(e)->Err_0
                == "missing destination address, invalid envelope"@
            &&& forall|i: int|
                #![trigger list[i]]
                is_accepted(from) && 0 <= i < list.len() && !is_accepted(list[i]) && (forall|j: int|
                    0 <= j < i ==> is_accepted(#[trigger] list[j])) ==> is_refused_with(
                    list[i],
                    envelope_of(e)->Err_0,
                )
        }),
{
    let from = if e.sender.len() > 0 {
        e.sender
    } else {
        e.from
    };
    let list = e.to + e.cc + e.bcc;
    lemma_all_accepted(list);
    lemma_recipients(list);
    assert forall|i: int|
        #![trigger list[i]]
        is_accepted(from) && 0 <= i < list.len() && !is_accepted(list[i]) && (forall|j: int|
            0 <= j < i ==> is_accepted(#[trigger] list[j])) implies is_refused_with(
        list[i],
        envelope_of(e)->Err_0,
    ) by {
        let before = list.take(i);
        assert forall|j: int| 0 <= j < before.len() implies is_accepted(#[trigger] before[j]) by {
            assert(before[j] == list[j]);
        }
        lemma_all_accepted(before);
        assert(list.take(i + 1).drop_last() == before);
        assert(list.take(i + 1).last() == list[i]);
        lemma_first_bad(list, i + 1);
    }
}

proof fn lemma_all_accepted(list: Seq<Seq<char>>)
    ensures
        recipients(list) is Ok <==> forall|i: int|
            0 <= i < list.len() ==> is_accepted(#[trigger] list[i]),
    decreases list.len(),
{
    if list.len() > 0 {
        let init = list.drop_last();
        lemma_all_accepted(init);
        assert(list.last() == list[list.len() - 1]);
        if recipients(list) is Ok {
            assert forall|i: int| 0 <= i < list.len() implies is_accepted(#[trigger] list[i]) by {
                if i < init.len() {
                    assert(init[i] == list[i]);
                }
            }
        } else if forall|i: int| 0 <= i < list.len() ==> is_accepted(#[trigger] list[i]) {
            assert forall|i: int| 0 <= i < init.len() implies is_accepted(#[trigger] init[i]) by {
                assert(init[i] == list[i]);
            }
            assert(is_accepted(list[list.len() - 1]));
        }
    }
}

/// Law: a connection is dialled at the host and port of its options, within their wait
/// and with their credentials; it greets with the name that they give, or else as
/// localhost; it uses TLS unless it is to be plain, for that same host, and accepts
/// invalid certificates only where the options do; and it is upgraded only under STARTTLS.
pub proof fn law_dial_plan(opt: OptView)
    ensures
        dial_plan(opt).host == opt.host,
        dial_plan(opt).port == opt.port,
        dial_plan(opt).timeout == opt.pool_wait_timeout,
        dial_plan(opt).auth == opt.auth,
        opt.hello_hostname.len() > 0 ==> dial_plan(opt).hello == opt.hello_hostname,
        opt.hello_hostname.len() == 0 ==> dial_plan(opt).hello == "localhost"@,
        match opt.ssl {
            SslType::Plain => dial_plan(opt).tls is None && !dial_plan(opt).upgrade
                && !dial_steps(dial_plan(opt)).contains(DialStep::Tls),
            SslType::Tls => dial_plan(opt).tls is Some && !dial_plan(opt).upgrade,
            SslType::StartTls => dial_plan(opt).tls is Some && dial_plan(opt).upgrade
                && dial_steps(dial_plan(opt)).contains(DialStep::Upgrade),
        },
        dial_plan(opt).tls matches Some(t) ==> t.host == opt.host && t.accept_invalid
            == opt.tls_dangerous_accept_invalid_certs,
{
    let steps = dial_steps(dial_plan(opt));
    if opt.ssl == SslType::StartTls {
        assert(steps[2] == DialStep::Upgrade);
    }
}

/// Law: a message is retried after a network-type error and after no other answer, and
/// the answer is passed on as it is.
pub proof fn law_sent(answer: Result<(), Error>, r: (bool, Result<(), Error>))
    requires
        call_ensures(sent, (answer,), r),
    ensures
        r.1 == answer,
        r.0 <==> answer is Err && answer->Err_0 is Smtp && answer->Err_0->Smtp_0.retriable,
{
}

/// Law: a message that is ready goes to the bare addresses of its recipients, from the
/// one of its sender, and is the message as it is rendered; one that is not can be retried if and only if its addresses are at
/// fault.
pub proof fn law_prepared(e: Email, pid: u32, r: Result<Prepared, (bool, Error)>)
    requires
        call_ensures(prepare, (&e, pid), r),
    ensures
        r matches Ok(p) ==> {
            let list = e@.to + e@.cc + e@.bcc;
            &&& is_bare_address(
                p.envelope@.from,
                if e@.sender.len() > 0 {
                    e@.sender
                } else {
                    e@.from
                },
            )
            &&& p.envelope@.to.len() == list.len() > 0
            &&& forall|i: int|
                0 <= i < list.len() ==> is_bare_address(p.envelope@.to[i], #[trigger] list[i])
            &&& exists|s: crate::stamp::StampView| #[trigger]
                crate::render::rendered(e@, s) == Ok::<Seq<u8>, crate::render::Fault>(p.body@)
                    && crate::stamp::is_stamp(s, pid, crate::render::needs(e@))
        },
        r matches Err((retry, _)) ==> (retry <==> envelope_of(e@) is Err),
{
    if envelope_of(e@) is Ok {
        law_envelope_recipients(e@);
    }
}

/// Law: a connection is over TLS from the start only where TLS is used and is not set up
/// later by an upgrade.
pub proof fn law_over_tls(opt: Opt, plan: DialPlan, r: bool)
    requires
        call_ensures(DialPlan::new, (&opt,), plan),
        call_ensures(DialPlan::over_tls, (&plan,), r),
    ensures
        r <==> opt.ssl == SslType::Tls,
        plan.tls is Some <==> opt.ssl != SslType::Plain,
        plan.upgrade <==> opt.ssl == SslType::StartTls,
{
    law_dial_plan(opt@);
    assert(plan@.tls is Some <==> plan.tls is Some);
}

/// Law: a step that failed ends the dialling; else TLS comes before the connection, the
/// connection before its upgrade, and the authentication last, each only where it is
/// asked for.
pub proof fn law_dial_next(plan: DialPlanView, done: DialStep)
    ensures
        dial_next(plan, done, false) == DialNext::Stop,
        dial_next(plan, DialStep::Begin, true) == if plan.tls is Some {
            DialNext::Take(DialStep::Tls)
        } else {
            DialNext::Take(DialStep::Connect)
        },
        dial_next(plan, DialStep::Tls, true) == DialNext::Take(DialStep::Connect),
        dial_next(plan, DialStep::Connect, true) == if plan.upgrade {
            DialNext::Take(DialStep::Upgrade)
        } else if plan.auth is Some {
            DialNext::Take(DialStep::Login)
        } else {
            DialNext::Ready
        },
        dial_next(plan, DialStep::Upgrade, true) == if plan.auth is Some {
            DialNext::Take(DialStep::Login)
        } else {
            DialNext::Ready
        },
        dial_next(plan, DialStep::Login, true) == DialNext::Ready,
{
}

/// Law: the default options: plain SMTP on port 25, over one connection, with one retry
/// without delay and a wait of two seconds.
pub proof fn law_default_opt(o: OptView)
    requires
        o == default_opt(),
    ensures
        o.host.len() == 0,
        o.port == 25,
        o.hello_hostname.len() == 0,
        o.max_conns == 1,
        o.max_message_retries == 1,
        o.message_retry_delay.nanos == 0,
        o.idle_timeout.nanos == 0,
        o.pool_wait_timeout.nanos == 2_000_000_000,
        o.ssl == SslType::Plain,
        o.auth is None,
        !o.tls_dangerous_accept_invalid_certs,
{
}

/// Law: what is said of an address is an address error with these words; a bare address
/// that nothing is said against is passed on as it is, and one that something is said
/// against is named together with the reason.
pub proof fn law_judge_address(bare: &str, reason: String, r: Result<String, Error>)
    ensures
        call_ensures(judge_address, (bare, None), r) ==> r is Ok && r->Ok_0@ == bare@,
        call_ensures(judge_address, (bare, Some(reason)), r) ==> r is Err && r->Err_0 is Address
            && r->Err_0->Address_0@ == bare@ + ": "@ + reason@,
{
}

/// Law: the envelope of a message, or the error for it, is what its addresses decide.
pub proof fn law_build_envelope(e: Email, r: Result<Envelope, Error>)
    requires
        call_ensures(build_envelope, (&e,), r),
    ensures
        r is Ok <==> envelope_of(e@) is Ok,
        r matches Ok(v) ==> Ok::<EnvelopeView, Seq<char>>(v@) == envelope_of(e@),
        r matches Err(err) ==> (err matches Error::Address(m) && Err::<EnvelopeView, Seq<char>>(m@)
            == envelope_of(e@)),
{
}

/// Law: an error of the outside client is mapped by what it says of itself: its words,
/// its status and its kind.
proof fn law_mapped_from(e: SmtpError, err: ConnError)
    requires
        is_mapped_from(e, err),
    ensures
        exists|f: Failure| #[trigger]
            call_ensures(read_failure, (&err,), f) && e.message@ == f.text@ && (e.code is Some
                <==> f.status is Some) && (e.retriable <==> f.status is None && !f.is_response
                && !f.is_client && !f.is_tls) && (f.status matches Some((a, b, c)) ==> e.code->0
                == a * 100 + b * 10 + c),
{
    let f = choose|f: Failure| #[trigger] call_ensures(read_failure, (&err,), f) && is_mapped(e, f);
    law_code_digits(e, f);
}

/// Law: what a failure says of itself is what its error says: its words, the digits of its
/// status, and that it can be retried where it has no status and is neither a response nor
/// an error of the client or of TLS.
pub proof fn law_classify(f: Failure, r: SmtpError)
    requires
        call_ensures(classify, (f,), r),
        f.status matches Some((a, b, c)) ==> a <= 9 && b <= 9 && c <= 9,
    ensures
        r.message@ == f.text@,
        f.status is None ==> r.code is None,
        f.status matches Some((a, b, c)) ==> {
            &&& r.code is Some
            &&& r.code->0 / 100 == a
            &&& r.code->0 / 10 % 10 == b
            &&& r.code->0 % 10 == c
        },
        r.retriable <==> f.status is None && !f.is_response && !f.is_client && !f.is_tls,
{
    law_code_digits(r, f);
}

} // verus!
