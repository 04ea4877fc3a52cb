//! Options, dialling, envelopes, errors of a connection, and the decisions of the
//! pool.

use std::time::Duration;

use lettre::transport::smtp::client::SmtpConnection;
use lettre::transport::smtp::extension::ClientId;
use pooledsmtp::pool::{
    after_offer, after_reset, drain_interval, return_conn, sweep_interval, wait_error, Borrow,
    Concluded, Config, Delivery, Next, Outcome, PoolState, Return, Round, Sweep, Waited,
};
use pooledsmtp::smtp::{
    build_envelope, classify, combine_emails, judge_address, map_lettre, map_smtp_error,
    parse_addr, prepare, sent, DialNext, DialPlan, DialStep, Failure,
};
use pooledsmtp::{Auth, AuthMechanism, Email, Error, Opt, SmtpError, Span, SslType};

fn network() -> Error {
    Error::Smtp(SmtpError {
        message: "gone".into(),
        code: None,
        retriable: true,
    })
}

fn refused(code: u16) -> Error {
    Error::Smtp(SmtpError {
        message: "refused".into(),
        code: Some(code),
        retriable: false,
    })
}

fn secs(n: u64) -> Span {
    Span::from_secs(n)
}

#[test]
fn spans_split_into_seconds() {
    assert_eq!(Span { nanos: 2_000_000_005 }.split(), Some((2, 5)));
    assert_eq!(secs(u64::MAX).split(), Some((u64::MAX, 0)));
    assert_eq!(Span { nanos: u128::MAX }.split(), None);
    assert_eq!(Span::zero().split(), Some((0, 0)));
}

#[test]
fn default_options() {
    let opt = Opt::default();
    assert_eq!(opt.port, 25);
    assert_eq!(opt.max_conns, 1);
    assert_eq!(opt.max_message_retries, 1);
    assert_eq!(opt.pool_wait_timeout, secs(2));
    assert_eq!(opt.message_retry_delay, secs(0));
    assert_eq!(opt.idle_timeout, secs(0));
    assert_eq!(opt.ssl, SslType::Plain);
    assert!(opt.auth.is_none());
    assert!(!opt.tls_dangerous_accept_invalid_certs);
}

#[test]
fn plans_follow_the_options() {
    let mut opt = Opt {
        host: "mail.example".into(),
        port: 465,
        auth: Some(Auth {
            username: "u".into(),
            password: "p".into(),
            mechanism: AuthMechanism::Login,
        }),
        ..Default::default()
    };
    let plain = DialPlan::new(&opt);
    assert_eq!(plain.hello, "localhost");
    assert!(plain.tls.is_none());
    assert!(!plain.upgrade);
    assert_eq!(plain.timeout, secs(2));
    assert_eq!(plain.auth.as_ref().unwrap().mechanism, AuthMechanism::Login);

    opt.ssl = SslType::Tls;
    opt.hello_hostname = "me".into();
    opt.tls_dangerous_accept_invalid_certs = true;
    let tls = DialPlan::new(&opt);
    assert_eq!(tls.hello, "me");
    assert_eq!(tls.port, 465);
    assert_eq!(tls.tls.as_ref().unwrap().host, "mail.example");
    assert!(tls.tls.as_ref().unwrap().accept_invalid);
    assert!(!tls.upgrade);

    opt.ssl = SslType::StartTls;
    let upgraded = DialPlan::new(&opt);
    assert!(upgraded.upgrade);
    assert!(upgraded.tls.is_some());
}

/// The steps that are taken, where the given one fails.
fn dialled(plan: &DialPlan, failing: Option<DialStep>) -> (Vec<DialStep>, DialNext) {
    let mut steps = Vec::new();
    let mut next = plan.next_step(DialStep::Begin, true);
    while let DialNext::Take(step) = next {
        steps.push(step);
        next = plan.next_step(step, failing != Some(step));
    }
    (steps, next)
}

#[test]
fn dialling_goes_step_by_step() {
    let mut opt = Opt::default();
    let plain = DialPlan::new(&opt);
    assert_eq!(dialled(&plain, None), (vec![DialStep::Connect], DialNext::Ready));
    assert!(!plain.over_tls());

    opt.ssl = SslType::Tls;
    let tls = DialPlan::new(&opt);
    assert!(tls.over_tls());
    assert_eq!(
        dialled(&tls, None),
        (vec![DialStep::Tls, DialStep::Connect], DialNext::Ready)
    );

    opt.ssl = SslType::StartTls;
    opt.auth = Some(Auth {
        username: "u".into(),
        password: "p".into(),
        mechanism: AuthMechanism::Plain,
    });
    let all = vec![DialStep::Tls, DialStep::Connect, DialStep::Upgrade, DialStep::Login];
    let full = DialPlan::new(&opt);
    assert!(!full.over_tls());
    assert_eq!(dialled(&full, None), (all.clone(), DialNext::Ready));
    for i in 0..all.len() {
        assert_eq!(
            dialled(&full, Some(all[i])),
            (all[..=i].to_vec(), DialNext::Stop)
        );
    }
}

fn message() -> Email {
    Email {
        from: "From <from@a.example>".into(),
        to: vec!["To <to@a.example>".into()],
        cc: vec!["cc@a.example".into()],
        bcc: vec!["Bcc <bcc@a.example>".into()],
        text: b"hi".to_vec(),
        ..Default::default()
    }
}

#[test]
fn envelopes_name_all_recipients() {
    let v = build_envelope(&message()).unwrap();
    assert_eq!(v.from, "from@a.example");
    assert_eq!(v.to, vec!["to@a.example", "cc@a.example", "bcc@a.example"]);
    let mut e = message();
    e.sender = "bounce@a.example".into();
    assert_eq!(build_envelope(&e).unwrap().from, "bounce@a.example");
}

fn address_error(r: Result<String, Error>) -> String {
    match r {
        Err(Error::Address(m)) => m,
        _ => panic!("expected an address error"),
    }
}

#[test]
fn envelopes_report_bad_addresses() {
    let mut e = message();
    e.cc.push("nobody".into());
    e.bcc.push("a b@c d".into());
    match combine_emails(&e) {
        Err(Error::Address(m)) => assert_eq!(m, "invalid address: nobody"),
        _ => panic!("expected an address error"),
    }
    // An address with both parts that is refused all the same.
    let m = address_error(parse_addr("a b@c_d"));
    assert!(m.starts_with("a b@c_d: ") && m.len() > "a b@c_d: ".len(), "{m}");
    assert_eq!(parse_addr("x@y.example").unwrap(), "x@y.example");
    assert_eq!(
        address_error(judge_address("x", Some("too short".into()))),
        "x: too short"
    );
    assert_eq!(judge_address("x", None).unwrap(), "x");
}

#[test]
fn envelopes_need_a_recipient() {
    let e = Email {
        from: "from@a.example".into(),
        ..Default::default()
    };
    match build_envelope(&e) {
        Err(Error::Address(m)) => assert_eq!(m, "missing destination address, invalid envelope"),
        _ => panic!("expected an address error"),
    }
}

fn failure() -> Failure {
    Failure {
        status: None,
        is_response: false,
        is_client: false,
        is_tls: false,
        text: "words".into(),
    }
}

#[test]
fn failures_are_classified() {
    let lost = classify(failure());
    assert_eq!(lost.message, "words");
    assert_eq!(lost.code, None);
    assert!(lost.retriable);
    assert!(Error::Smtp(lost).should_close_conn());

    let mut f = failure();
    f.status = Some((4, 2, 1));
    let busy = classify(f);
    assert_eq!(busy.code, Some(421));
    assert!(!busy.retriable);
    assert!(Error::Smtp(busy).should_close_conn());

    let mut f = failure();
    f.status = Some((5, 5, 0));
    let bad = classify(f);
    assert_eq!(bad.code, Some(550));
    assert!(!Error::Smtp(bad).should_close_conn());

    for i in 0..3 {
        let mut f = failure();
        f.is_response = i == 0;
        f.is_client = i == 1;
        f.is_tls = i == 2;
        let e = classify(f);
        assert!(!e.retriable);
        assert!(Error::Smtp(e).should_close_conn());
    }
}

#[test]
fn a_refused_connection_is_a_network_error() {
    // Nothing listens on this port of the loopback interface.
    let err = SmtpConnection::connect(
        ("127.0.0.1", 1),
        Some(Duration::from_millis(500)),
        &ClientId::Domain("localhost".into()),
        None,
        None,
    )
    .err()
    .expect("no connection");
    let text = err.to_string();
    let mapped = map_lettre(&err);
    assert_eq!(mapped.message, text);
    assert_eq!(mapped.code, None);
    assert!(mapped.retriable);
    let e = map_smtp_error(err);
    assert!(e.is_retriable());
    assert!(e.should_close_conn());
    assert_eq!(e.message(), format!("smtp error: {text}"));
}

#[test]
fn messages_are_prepared() {
    let p = prepare(&message(), 9).ok().unwrap();
    assert_eq!(p.envelope.to.len(), 3);
    assert!(String::from_utf8(p.body).unwrap().contains("\r\n\r\nhi"));

    let mut e = message();
    e.to = vec!["nobody".into()];
    let (retry, _) = prepare(&e, 9).err().unwrap();
    assert!(retry);

    let mut e = message();
    e.reply_to = vec!["nobody".into()];
    let (retry, err) = prepare(&e, 9).err().unwrap();
    assert!(!retry);
    assert_eq!(err.message(), "invalid address: nobody");
}

#[test]
fn answers_decide_on_a_retry() {
    assert!(matches!(sent(Ok(())), (false, Ok(()))));
    assert!(matches!(sent(Err(network())), (true, Err(_))));
    assert!(matches!(sent(Err(refused(550))), (false, Err(_))));
    assert!(matches!(sent(Err(refused(421))), (false, Err(_))));
}

#[test]
fn configurations_are_made_consistent() {
    let none = Config::new(Opt {
        max_conns: 0,
        ..Default::default()
    });
    match none {
        Err(Error::Config(m)) => assert_eq!(m, "MaxConns should be >= 1"),
        _ => panic!("expected a configuration error"),
    }

    let c = Config::new(Opt {
        max_conns: 2,
        max_message_retries: 0,
        pool_wait_timeout: Span { nanos: 999_999_999 },
        idle_timeout: secs(1),
        ..Default::default()
    })
    .unwrap_or_else(|_| panic!("configuration"));
    assert_eq!(c.opt.max_message_retries, 1);
    assert_eq!(c.opt.pool_wait_timeout, secs(2));
    assert!(c.has_sweeper);

    let c = Config::new(Opt {
        max_conns: 1,
        pool_wait_timeout: secs(1),
        idle_timeout: secs(9),
        ..Default::default()
    })
    .unwrap_or_else(|_| panic!("configuration"));
    assert_eq!(c.opt.pool_wait_timeout, secs(1));
    assert!(!c.has_sweeper);
    assert_eq!(sweep_interval(), secs(2));
    assert_eq!(drain_interval(), secs(1));
}

#[test]
fn the_pool_grows_up_to_its_limit() {
    let mut s = PoolState::new(2);
    assert!(matches!(s.borrow_conn(0), Borrow::Dial));
    assert!(matches!(s.borrow_conn(1), Borrow::Wait));
    assert!(matches!(s.borrow_conn(0), Borrow::Dial));
    assert_eq!(s.created(), 2);
    assert!(matches!(s.borrow_conn(0), Borrow::Wait));
    s.discard();
    assert!(matches!(s.borrow_conn(0), Borrow::Dial));
    s.close();
    assert!(matches!(s.borrow_conn(0), Borrow::Refuse(Error::PoolClosed)));
    assert_eq!(s.created(), 2);
}

#[test]
fn waits_end() {
    assert!(wait_error(Waited::Received).is_none());
    assert!(matches!(wait_error(Waited::Gone), Some(Error::PoolClosed)));
    assert!(matches!(wait_error(Waited::Stopped), Some(Error::PoolClosed)));
    assert!(matches!(wait_error(Waited::TimedOut), Some(Error::PoolTimeout)));
}

#[test]
fn connections_are_reused_after_reset() {
    assert!(return_conn(None) == Return::Reset);
    assert!(return_conn(Some(&refused(550))) == Return::Reset);
    assert!(return_conn(Some(&refused(421))) == Return::Discard);
    assert!(return_conn(Some(&network())) == Return::Discard);
    assert!(return_conn(Some(&Error::Address("a".into()))) == Return::Discard);
    assert!(after_reset(true) == Return::Offer);
    assert!(after_reset(false) == Return::Discard);
    assert!(after_offer(true) == Return::Done);
    assert!(after_offer(false) == Return::Discard);
}

#[test]
fn idle_connections_are_swept() {
    let mut s = PoolState::new(3);
    assert!(matches!(s.borrow_conn(0), Borrow::Dial));
    assert!(matches!(s.borrow_conn(0), Borrow::Dial));
    assert!(matches!(s.sweep_round(), Round::Sweep { closed: false }));
    assert!(s.sweep_conn(false, secs(5), secs(5)) == Sweep::Keep);
    assert_eq!(s.created(), 2);
    assert!(s.sweep_conn(false, secs(6), secs(5)) == Sweep::Close);
    assert_eq!(s.created(), 1);
    s.close();
    assert!(matches!(s.sweep_round(), Round::Sweep { closed: true }));
    assert!(s.sweep_conn(true, secs(0), secs(5)) == Sweep::Quit);
    assert!(matches!(s.sweep_round(), Round::Stop));
}

fn retrying(times: usize, delay: Span) -> Delivery {
    Delivery::new(&Opt {
        max_message_retries: times,
        message_retry_delay: delay,
        ..Default::default()
    })
}

#[test]
fn a_delivery_gives_up_with_the_last_error() {
    // The first attempt, and two retries.
    let mut d = retrying(2, secs(1));
    for i in 0..3u16 {
        match d.next() {
            Next::Try(wait, a) => {
                assert_eq!(wait, if i == 0 { None } else { Some(secs(1)) });
                let outcome = if i == 1 {
                    Outcome::NoConn(network())
                } else {
                    Outcome::Failed(refused(400 + i), true)
                };
                match a.conclude(outcome) {
                    Concluded::Again(next) => d = next,
                    Concluded::Done(_) => panic!("decided too early"),
                }
            }
            Next::GiveUp(_) => panic!("gave up too early"),
        }
    }
    match d.next() {
        Next::GiveUp(Error::Smtp(e)) => assert_eq!(e.code, Some(402)),
        _ => panic!("expected to give up"),
    }
}

fn attempts(times: usize) -> usize {
    let mut d = retrying(times, secs(0));
    let mut n = 0;
    loop {
        match d.next() {
            Next::Try(_, a) => {
                n += 1;
                match a.conclude(Outcome::Failed(network(), true)) {
                    Concluded::Again(next) => d = next,
                    Concluded::Done(_) => panic!("decided"),
                }
            }
            Next::GiveUp(e) => {
                assert!(e.is_retriable());
                return n;
            }
        }
    }
}

#[test]
fn a_message_is_retried_as_often_as_allowed() {
    assert_eq!(attempts(0), 1);
    assert_eq!(attempts(1), 2);
    assert_eq!(attempts(5), 6);
    assert_eq!(attempts(Opt::default().max_message_retries), 2);
    assert!(matches!(retrying(usize::MAX, secs(0)).next(), Next::Try(None, _)));
}

fn first(d: Delivery, outcome: Outcome) -> Concluded {
    match d.next() {
        Next::Try(wait, a) => {
            assert_eq!(wait, None);
            a.conclude(outcome)
        }
        Next::GiveUp(_) => panic!("gave up"),
    }
}

#[test]
fn an_outcome_may_decide_a_delivery() {
    let d = || retrying(5, secs(0));
    assert!(matches!(first(d(), Outcome::Sent), Concluded::Done(Ok(()))));
    assert!(matches!(
        first(d(), Outcome::NoConn(Error::PoolClosed)),
        Concluded::Done(Err(Error::PoolClosed))
    ));
    assert!(matches!(
        first(d(), Outcome::Failed(network(), false)),
        Concluded::Done(Err(Error::Smtp(_)))
    ));
    match first(d(), Outcome::Failed(network(), true)) {
        Concluded::Again(next) => assert!(matches!(next.next(), Next::Try(None, _))),
        Concluded::Done(_) => panic!("decided"),
    }
}
