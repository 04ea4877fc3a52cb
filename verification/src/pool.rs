//! The decisions of the SMTP connection pool: a bounded set of lazily-created,
//! reusable connections with an idle sweeper, network-error retries, and the
//! 421-drops / 550-keeps-after-RSET reuse rule. What a decision asks for (dialling,
//! waiting, sending, closing) is up to the caller, who reports what came of it.

use vstd::prelude::*;

use crate::error::Error;
use crate::smtp::{Opt, OptView};
use crate::span::Span;

verus! {

// ---------------------------------------------------------------------------
// Configuration
// ---------------------------------------------------------------------------

/// How often idle connections are swept.
pub fn sweep_interval() -> (r: Span)
    ensures
        r == (Span { nanos: 2_000_000_000 }),
{
    Span::from_secs(2)
}

/// How long closing a pool without a sweeper waits before each round in which it
/// drains the connections.
pub fn drain_interval() -> (r: Span)
    ensures
        r == (Span { nanos: 1_000_000_000 }),
{
    Span::from_secs(1)
}

/// The options of a pool, made consistent.
pub struct Config {
    pub opt: Opt,
    /// Whether a background sweeper is to run.
    pub has_sweeper: bool,
}

/// `opt` with the values that are too small replaced by their defaults.
pub open spec fn normalized(opt: OptView) -> OptView {
    OptView {
        max_message_retries: if opt.max_message_retries == 0 {
            1
        } else {
            opt.max_message_retries
        },
        pool_wait_timeout: if opt.pool_wait_timeout.nanos < 1_000_000_000 {
            Span { nanos: 2_000_000_000 }
        } else {
            opt.pool_wait_timeout
        },
        ..opt
    }
}

/// Whether a pool with the options `opt` runs a background sweeper: so if
/// connections may idle for a second at least, and there may be several.
pub open spec fn needs_sweeper(opt: OptView) -> bool {
    opt.idle_timeout.nanos >= 1_000_000_000 && opt.max_conns > 1
}

impl Config {
    /// Makes the options of a pool consistent.
    pub fn new(mut opt: Opt) -> (r: Result<Config, Error>)
        ensures
            match r {
                Ok(c) => opt.max_conns >= 1 && c.opt@ == normalized(opt@) && c.has_sweeper
                    == needs_sweeper(opt@),
                Err(e) => opt.max_conns < 1 && (e matches Error::Config(m) && m@
                    == "MaxConns should be >= 1"@),
            },
    {
        if opt.max_conns < 1 {
            return Err(Error::Config("MaxConns should be >= 1".to_string()));
        }
        let one_second = Span::from_secs(1);
        if opt.max_message_retries == 0 {
            opt.max_message_retries = 1;
        }
        if opt.pool_wait_timeout.nanos < one_second.nanos {
            opt.pool_wait_timeout = Span::from_secs(2);
        }
        let has_sweeper = opt.idle_timeout.nanos >= one_second.nanos && opt.max_conns > 1;
        Ok(Config { opt, has_sweeper })
    }
}

// ---------------------------------------------------------------------------
// The connections of a pool
// ---------------------------------------------------------------------------

/// How many connections a pool has, and whether it is closed.
pub struct PoolState {
    max_conns: usize,
    created: usize,
    closed: bool,
}

/// What a [`PoolState`] holds.
pub struct PoolView {
    /// How many connections there may be.
    pub max_conns: nat,
    /// How many connections there are, those being dialled included.
    pub created: nat,
    pub closed: bool,
}

/// What to do to borrow a connection.
pub enum Borrow {
    /// Nothing: the pool is closed.
    Refuse(Error),
    /// Dial a new connection, which is counted from now on.
    Dial,
    /// Wait for a free connection.
    Wait,
}

/// How waiting for a free connection ended.
pub enum Waited {
    /// With a connection.
    Received,
    /// There can be no connection any more.
    Gone,
    /// The pool was closed.
    Stopped,
    /// In time none was free.
    TimedOut,
}

/// What to do with a connection after a message.
#[derive(Clone, Copy, PartialEq, Eq, Structural)]
pub enum Return {
    /// Close it, and report that it was discarded.
    Discard,
    /// Issue RSET.
    Reset,
    /// Put it back among the free ones.
    Offer,
    /// Nothing more.
    Done,
}

/// What to do in a round of sweeping.
pub enum Round {
    /// End the sweeping.
    Stop,
    /// Look at each free connection. In a closed pool all are drained.
    Sweep { closed: bool },
}

/// What to do with a free connection in a round of sweeping.
#[derive(Clone, Copy, PartialEq, Eq, Structural)]
pub enum Sweep {
    /// Send QUIT; it is not counted any more.
    Quit,
    /// Close it; it is not counted any more.
    Close,
    /// Put it back.
    Keep,
}

impl View for PoolState {
    type V = PoolView;

    closed spec fn view(&self) -> PoolView {
        PoolView {
            max_conns: self.max_conns as nat,
            created: self.created as nat,
            closed: self.closed,
        }
    }
}

impl PoolState {
    /// There are never more connections than there may be.
    #[verifier::type_invariant]
    spec fn bounded(self) -> bool {
        self.created <= self.max_conns
    }

    /// The state of a pool without connections.
    pub fn new(max_conns: usize) -> (r: Self)
        ensures
            r@ == (PoolView { max_conns: max_conns as nat, created: 0, closed: false }),
    {
        PoolState { max_conns, created: 0, closed: false }
    }

    /// How many connections there are.
    pub fn created(&self) -> (r: usize)
        ensures
            r == self@.created,
            self@.created <= self@.max_conns,
    {
        proof {
            use_type_invariant(self);
        }
        self.created
    }

    /// Decides how to borrow a connection when `idle` are free. If there are none,
    /// and there is room, a new one is dialled.
    pub fn borrow_conn(&mut self, idle: usize) -> (r: Borrow)
        ensures
            match r {
                Borrow::Refuse(e) => old(self)@.closed && e is PoolClosed && final(self)@ == old(
                    self,
                )@,
                Borrow::Dial => !old(self)@.closed && old(self)@.created < old(self)@.max_conns
                    && idle == 0 && final(self)@ == (PoolView {
                    created: (old(self)@.created + 1) as nat,
                    ..old(self)@
                }),
                Borrow::Wait => !old(self)@.closed && (old(self)@.created >= old(self)@.max_conns
                    || idle > 0) && final(self)@ == old(self)@,
            },
            final(self)@.created <= final(self)@.max_conns,
    {
        proof {
            use_type_invariant(&*self);
        }
        if self.closed {
            return Borrow::Refuse(Error::PoolClosed);
        }
        if self.created < self.max_conns && idle == 0 {
            self.created = self.created + 1;
            return Borrow::Dial;
        }
        Borrow::Wait
    }

    /// Takes note that a connection is gone: it could not be dialled, or it was
    /// closed.
    pub fn discard(&mut self)
        requires
            old(self)@.created > 0,
        ensures
            final(self)@ == (PoolView { created: (old(self)@.created - 1) as nat, ..old(self)@ }),
    {
        proof {
            use_type_invariant(&*self);
        }
        self.created = self.created - 1;
    }

    /// Closes the pool: no connection is lent any more.
    pub fn close(&mut self)
        ensures
            final(self)@ == (PoolView { closed: true, ..old(self)@ }),
    {
        proof {
            use_type_invariant(&*self);
        }
        self.closed = true;
    }

    /// Decides whether to go on sweeping. A closed pool is swept until it has no
    /// connections.
    pub fn sweep_round(&self) -> (r: Round)
        ensures
            match r {
                Round::Stop => self@.closed && self@.created == 0,
                Round::Sweep { closed } => closed == self@.closed && !(self@.closed
                    && self@.created == 0),
            },
    {
        if self.closed && self.created == 0 {
            Round::Stop
        } else {
            Round::Sweep { closed: self.closed }
        }
    }

    /// Decides what to do with a free connection that was last active `idle_for`
    /// ago, in a round of sweeping that found the pool `closed` or open.
    pub fn sweep_conn(&mut self, closed: bool, idle_for: Span, idle_timeout: Span) -> (r: Sweep)
        requires
            old(self)@.created > 0,
        ensures
            r == (if closed {
                Sweep::Quit
            } else if idle_for.nanos > idle_timeout.nanos {
                Sweep::Close
            } else {
                Sweep::Keep
            }),
            r is Keep ==> final(self)@ == old(self)@,
            !(r is Keep) ==> final(self)@ == (PoolView {
                created: (old(self)@.created - 1) as nat,
                ..old(self)@
            }),
    {
        if closed {
            self.discard();
            Sweep::Quit
        } else if idle_for.nanos > idle_timeout.nanos {
            self.discard();
            Sweep::Close
        } else {
            Sweep::Keep
        }
    }
}

/// The error with which waiting for a free connection ended, if any.
pub fn wait_error(waited: Waited) -> (r: Option<Error>)
    ensures
        match waited {
            Waited::Received => r is None,
            Waited::Gone | Waited::Stopped => r matches Some(e) && e is PoolClosed,
            Waited::TimedOut => r matches Some(e) && e is PoolTimeout,
        },
{
    match waited {
        Waited::Received => None,
        Waited::Gone | Waited::Stopped => Some(Error::PoolClosed),
        Waited::TimedOut => Some(Error::PoolTimeout),
    }
}

/// Decides what to do with a connection after a message that ended with
/// `last_err`, if with an error. Network/non-SMTP errors and SMTP 421 close the
/// connection; before any reuse comes RSET, as some servers throw "sender already
/// specified" or "commands out of sequence" errors otherwise.
pub fn return_conn(last_err: Option<&Error>) -> (r: Return)
    ensures
        r == (if last_err matches Some(e) && e.closes_conn() {
            Return::Discard
        } else {
            Return::Reset
        }),
{
    if let Some(err) = last_err {
        if err.should_close_conn() {
            return Return::Discard;
        }
    }
    Return::Reset
}

/// Decides what to do with a connection after RSET, which went well or not.
pub fn after_reset(ok: bool) -> (r: Return)
    ensures
        r == (if ok {
            Return::Offer
        } else {
            Return::Discard
        }),
{
    if ok {
        Return::Offer
    } else {
        Return::Discard
    }
}

/// Decides what to do with a connection that was offered as a free one, and was
/// taken or not.
pub fn after_offer(taken: bool) -> (r: Return)
    ensures
        r == (if taken {
            Return::Done
        } else {
            Return::Discard
        }),
{
    if taken {
        Return::Done
    } else {
        Return::Discard
    }
}

// ---------------------------------------------------------------------------
// Delivering a message
// ---------------------------------------------------------------------------

/// What came of one attempt to send a message.
pub enum Outcome {
    /// No connection could be borrowed.
    NoConn(Error),
    /// The message was not sent; the bool says whether it can be retried.
    Failed(Error, bool),
    /// The message was sent.
    Sent,
}

/// The result that an outcome decides at once, if it does: a message that was
/// sent, or an error that rules another attempt out.
pub open spec fn decided(o: Outcome) -> Option<Result<(), Error>> {
    match o {
        Outcome::NoConn(e) => if e.retriable() {
            None
        } else {
            Some(Err(e))
        },
        Outcome::Failed(e, retry) => if retry {
            None
        } else {
            Some(Err(e))
        },
        Outcome::Sent => Some(Ok(())),
    }
}

/// The result with which the delivery of a message ends that is retried `retries`
/// times at most and whose attempts had the given outcomes, if it has ended: that of
/// the first outcome that decides it, and else the error of the last attempt.
pub open spec fn verdict(retries: nat, outcomes: Seq<Outcome>) -> Option<Result<(), Error>>
    decreases outcomes.len(),
{
    if outcomes.len() == 0 {
        None
    } else {
        match verdict(retries, outcomes.drop_last()) {
            Some(r) => Some(r),
            None => match decided(outcomes.last()) {
                Some(r) => Some(r),
                None => if outcomes.len() > retries {
                    Some(Err(outcome_error(outcomes.last())))
                } else {
                    None
                },
            },
        }
    }
}

/// The error of an outcome that has one.
pub open spec fn outcome_error(o: Outcome) -> Error {
    match o {
        Outcome::NoConn(e) => e,
        Outcome::Failed(e, _) => e,
        Outcome::Sent => arbitrary(),
    }
}

/// The delivery of a message, between two attempts.
pub struct Delivery {
    max: usize,
    delay: Span,
    /// How often the message was retried.
    retried: usize,
    /// The error of the last attempt, if there was one.
    last: Option<Error>,
    outcomes: Ghost<Seq<Outcome>>,
}

/// The delivery of a message, during an attempt.
pub struct Attempt {
    max: usize,
    delay: Span,
    /// How often the message was retried, this attempt included.
    retried: usize,
    outcomes: Ghost<Seq<Outcome>>,
}

/// What to do next to deliver a message.
pub enum Next {
    /// Wait for the given time, if any, and make an attempt.
    Try(Option<Span>, Attempt),
    /// Nothing: all attempts failed.
    GiveUp(Error),
}

/// What an attempt leads to.
pub enum Concluded {
    /// There is more to do.
    Again(Delivery),
    /// The delivery has ended.
    Done(Result<(), Error>),
}

/// Whether none of `outcomes` decides a delivery.
pub open spec fn undecided(outcomes: Seq<Outcome>) -> bool {
    forall|i: int| 0 <= i < outcomes.len() ==> decided(#[trigger] outcomes[i]) is None
}

impl Delivery {
    /// How often the message is retried at most.
    pub closed spec fn limit(&self) -> nat {
        self.max as nat
    }

    /// How long to wait before a retry.
    pub closed spec fn pause(&self) -> Span {
        self.delay
    }

    /// What came of the attempts so far.
    pub closed spec fn history(&self) -> Seq<Outcome> {
        self.outcomes@
    }

    #[verifier::type_invariant]
    spec fn consistent(self) -> bool {
        &&& self.retried <= self.max
        &&& undecided(self.outcomes@)
        &&& match self.last {
            Some(e) => self.outcomes@.len() == self.retried + 1 && e == outcome_error(
                self.outcomes@.last(),
            ),
            None => self.outcomes@.len() == 0 && self.retried == 0,
        }
    }

    /// The delivery of a message with the options `opt`.
    pub fn new(opt: &Opt) -> (r: Self)
        ensures
            r.limit() == opt.max_message_retries,
            r.pause() == opt.message_retry_delay,
            r.history().len() == 0,
    {
        Delivery {
            max: opt.max_message_retries,
            delay: opt.message_retry_delay,
            retried: 0,
            last: None,
            outcomes: Ghost(Seq::empty()),
        }
    }

    /// Decides whether to make another attempt: the first one, or a retry after the
    /// delay while there are some left.
    pub fn next(self) -> (r: Next)
        ensures
            match r {
                Next::Try(wait, a) => {
                    &&& verdict(self.limit(), self.history()) is None
                    &&& self.history().len() <= self.limit()
                    &&& wait == if self.history().len() > 0 && self.pause().nanos > 0 {
                        Some(self.pause())
                    } else {
                        None
                    }
                    &&& a.limit() == self.limit()
                    &&& a.pause() == self.pause()
                    &&& a.history() == self.history()
                },
                Next::GiveUp(e) => {
                    &&& self.history().len() == self.limit() + 1
                    &&& verdict(self.limit(), self.history()) == Some(Err::<(), Error>(e))
                },
            },
    {
        proof {
            use_type_invariant(&self);
            law_retries_counted(self.max as nat, self.outcomes@);
        }
        let Delivery { max, delay, retried, last, outcomes } = self;
        match last {
            None => Next::Try(None, Attempt { max, delay, retried: 0, outcomes }),
            Some(e) => if retried < max {
                let wait = if delay.nanos > 0 {
                    Some(delay)
                } else {
                    None
                };
                Next::Try(wait, Attempt { max, delay, retried: retried + 1, outcomes })
            } else {
                Next::GiveUp(e)
            },
        }
    }
}

impl Attempt {
    /// How often the message is retried at most.
    pub closed spec fn limit(&self) -> nat {
        self.max as nat
    }

    /// How long to wait before a retry.
    pub closed spec fn pause(&self) -> Span {
        self.delay
    }

    /// What came of the attempts before this one.
    pub closed spec fn history(&self) -> Seq<Outcome> {
        self.outcomes@
    }

    #[verifier::type_invariant]
    spec fn consistent(self) -> bool {
        &&& self.retried == self.outcomes@.len()
        &&& self.retried <= self.max
        &&& undecided(self.outcomes@)
    }

    /// Decides what the outcome of the attempt leads to.
    pub fn conclude(self, outcome: Outcome) -> (r: Concluded)
        ensures
            match r {
                Concluded::Again(d) => {
                    &&& decided(outcome) is None
                    &&& d.limit() == self.limit()
                    &&& d.pause() == self.pause()
                    &&& d.history() == self.history().push(outcome)
                },
                Concluded::Done(res) => {
                    &&& decided(outcome) == Some(res)
                    &&& verdict(self.limit(), self.history().push(outcome)) == Some(res)
                },
            },
    {
        proof {
            use_type_invariant(&self);
            law_retries_counted(self.max as nat, self.outcomes@);
        }
        let ghost before = self.outcomes@;
        let ghost all = before.push(outcome);
        assert(all.drop_last() == before);
        let Attempt { max, delay, retried, outcomes } = self;
        match outcome {
            Outcome::Sent => Concluded::Done(Ok(())),
            Outcome::NoConn(e) => if e.is_retriable() {
                Concluded::Again(
                    Delivery { max, delay, retried, last: Some(e), outcomes: Ghost(all) },
                )
            } else {
                Concluded::Done(Err(e))
            },
            Outcome::Failed(e, retry) => if retry {
                Concluded::Again(
                    Delivery { max, delay, retried, last: Some(e), outcomes: Ghost(all) },
                )
            } else {
                Concluded::Done(Err(e))
            },
        }
    }
}

// ---------------------------------------------------------------------------
// Laws
// ---------------------------------------------------------------------------

/// Law: a message of which every attempt fails and can be retried is retried as
/// often as allowed, so that there is one attempt more than that; the result is then
/// the error of the last attempt.
pub proof fn law_retries_counted(retries: nat, outcomes: Seq<Outcome>)
    requires
        undecided(outcomes),
    ensures
        outcomes.len() <= retries ==> verdict(retries, outcomes) is None,
        outcomes.len() == retries + 1 ==> verdict(retries, outcomes) == Some(
            Err::<(), Error>(outcome_error(outcomes.last())),
        ),
    decreases outcomes.len(),
{
    if outcomes.len() > 0 {
        let init = outcomes.drop_last();
        assert forall|i: int| 0 <= i < init.len() implies decided(#[trigger] init[i]) is None by {
            assert(init[i] == outcomes[i]);
        }
        law_retries_counted(retries, init);
        assert(decided(outcomes[outcomes.len() - 1]) is None);
    }
}

/// Law: a delivery ends with the last retry that is allowed, if not before, and not
/// without an attempt; what comes after the end has no part in the result.
pub proof fn law_attempts_bounded(retries: nat, outcomes: Seq<Outcome>, more: Seq<Outcome>)
    ensures
        outcomes.len() > retries ==> verdict(retries, outcomes) is Some,
        outcomes.len() == 0 ==> verdict(retries, outcomes) is None,
        verdict(retries, outcomes) is Some ==> verdict(retries, outcomes + more) == verdict(
            retries,
            outcomes,
        ),
    decreases more.len(),
{
    if more.len() == 0 {
        assert(outcomes + more == outcomes);
    } else {
        law_attempts_bounded(retries, outcomes, more.drop_last());
        assert((outcomes + more).drop_last() == outcomes + more.drop_last());
    }
}

/// Law: a message is reported as sent exactly where an attempt within the limit
/// sent it, after attempts that all could be retried.
pub proof fn law_sent_is_sent(retries: nat, outcomes: Seq<Outcome>)
    ensures
        verdict(retries, outcomes) == Some(Ok::<(), Error>(())) <==> exists|i: int|
            0 <= i < outcomes.len() && i <= retries && (#[trigger] outcomes[i]) is Sent && undecided(
                outcomes.take(i),
            ),
    decreases outcomes.len(),
{
    if outcomes.len() > 0 {
        let init = outcomes.drop_last();
        law_sent_is_sent(retries, init);
        let n = outcomes.len() - 1;
        assert(outcomes.take(n) == init);
        if verdict(retries, outcomes) == Some(Ok::<(), Error>(())) {
            if verdict(retries, init) is Some {
                let i = choose|i: int|
                    0 <= i < init.len() && i <= retries && (#[trigger] init[i]) is Sent && undecided(
                        init.take(i),
                    );
                assert(outcomes[i] == init[i]);
                assert(outcomes.take(i) == init.take(i));
            } else {
                lemma_open(retries, init);
                assert(outcomes[n] is Sent);
            }
        }
        if exists|i: int|
            0 <= i < outcomes.len() && i <= retries && (#[trigger] outcomes[i]) is Sent && undecided(
                outcomes.take(i),
            ) {
            let i = choose|i: int|
                0 <= i < outcomes.len() && i <= retries && (#[trigger] outcomes[i]) is Sent && undecided(
                    outcomes.take(i),
                );
            if i < n {
                assert(init[i] == outcomes[i]);
                assert(init.take(i) == outcomes.take(i));
            } else {
                law_retries_counted(retries, init);
            }
        }
    }
}

/// A delivery that goes on has had no outcome that decides it, and has an attempt
/// left.
proof fn lemma_open(retries: nat, outcomes: Seq<Outcome>)
    requires
        verdict(retries, outcomes) is None,
    ensures
        undecided(outcomes),
        outcomes.len() <= retries,
    decreases outcomes.len(),
{
    if outcomes.len() > 0 {
        let init = outcomes.drop_last();
        lemma_open(retries, init);
        assert forall|i: int| 0 <= i < outcomes.len() implies decided(#[trigger] outcomes[i])
            is None by {
            if i < init.len() {
                assert(outcomes[i] == init[i]);
            }
        }
    }
}

/// Law: an attempt that failed ends the delivery with its error where it cannot be
/// retried, whatever the error, and not where it can; a missing connection ends it
/// unless the error is network-related; and a message that was sent ends it well.
pub proof fn law_outcomes_decide(e: Error)
    ensures
        decided(Outcome::Failed(e, false)) == Some(Err::<(), Error>(e)),
        decided(Outcome::Failed(e, true)) is None,
        decided(Outcome::NoConn(e)) == if e matches Error::Smtp(s) && s.retriable {
            None
        } else {
            Some(Err::<(), Error>(e))
        },
        decided(Outcome::Sent) == Some(Ok::<(), Error>(())),
        outcome_error(Outcome::Failed(e, true)) == e,
        outcome_error(Outcome::NoConn(e)) == e,
{
}

/// Law: a delivery with retries left goes on after a failure that can be retried, and
/// ends at once after one that cannot, with that error.
pub proof fn law_first_failure(retries: nat, e: Error)
    ensures
        verdict(retries, seq![Outcome::Failed(e, false)]) == Some(Err::<(), Error>(e)),
        retries > 0 ==> verdict(retries, seq![Outcome::Failed(e, true)]) is None,
        verdict(0, seq![Outcome::Failed(e, true)]) == Some(Err::<(), Error>(e)),
        verdict(retries, seq![Outcome::Sent]) == Some(Ok::<(), Error>(())),
{
    let none = Seq::<Outcome>::empty();
    assert(verdict(retries, none) is None);
    assert(verdict(0, none) is None);
    assert(seq![Outcome::Failed(e, false)].drop_last() == none);
    assert(seq![Outcome::Failed(e, true)].drop_last() == none);
    assert(seq![Outcome::Sent].drop_last() == none);
}

/// Law: of consistent options, a message is retried at least once and a wait takes at
/// least a second; values that were large enough stay, and so does all else. A sweeper
/// runs where connections may idle for a second or more and there may be several.
pub proof fn law_options_consistent(opt: OptView)
    ensures
        normalized(opt).max_message_retries >= 1,
        opt.max_message_retries >= 1 ==> normalized(opt).max_message_retries
            == opt.max_message_retries,
        opt.max_message_retries < 1 ==> normalized(opt).max_message_retries == 1,
        opt.pool_wait_timeout.nanos >= 1_000_000_000 ==> normalized(opt).pool_wait_timeout
            == opt.pool_wait_timeout,
        opt.pool_wait_timeout.nanos < 1_000_000_000
            ==> normalized(opt).pool_wait_timeout.nanos == 2_000_000_000,
        normalized(opt).host == opt.host,
        normalized(opt).port == opt.port,
        normalized(opt).hello_hostname == opt.hello_hostname,
        normalized(opt).max_conns == opt.max_conns,
        normalized(opt).message_retry_delay == opt.message_retry_delay,
        normalized(opt).idle_timeout == opt.idle_timeout,
        normalized(opt).ssl == opt.ssl,
        normalized(opt).auth == opt.auth,
        normalized(opt).tls_dangerous_accept_invalid_certs
            == opt.tls_dangerous_accept_invalid_certs,
        needs_sweeper(opt) <==> opt.max_conns >= 2 && opt.idle_timeout.nanos / 1_000_000_000 >= 1,
{
}

/// Law: borrowing is refused by a closed pool and by no other; a connection is dialled if
/// and only if none is free and there is room, and is then counted; else one is waited for.
pub proof fn law_borrow_conn(s: &mut PoolState, idle: usize, r: Borrow)
    requires
        call_ensures(PoolState::borrow_conn, (s, idle), r),
    ensures
        r is Refuse <==> old(s)@.closed,
        r matches Borrow::Refuse(e) ==> e is PoolClosed,
        r is Dial <==> !old(s)@.closed && idle == 0 && old(s)@.created < old(s)@.max_conns,
        r is Wait <==> !old(s)@.closed && (idle > 0 || old(s)@.created >= old(s)@.max_conns),
        final(s)@.created == if r is Dial {
            old(s)@.created + 1
        } else {
            old(s)@.created
        },
        final(s)@.created <= final(s)@.max_conns,
        final(s)@.max_conns == old(s)@.max_conns,
        final(s)@.closed == old(s)@.closed,
{
}

/// Law: a connection that is gone is not counted any more, and nothing else changes; a
/// pool that is closed keeps its count.
pub proof fn law_discard_and_close(s: &mut PoolState, t: &mut PoolState)
    requires
        old(s)@.created > 0,
        call_ensures(PoolState::discard, (s,), ()),
        call_ensures(PoolState::close, (t,), ()),
    ensures
        final(s)@.created == old(s)@.created - 1,
        final(s)@.max_conns == old(s)@.max_conns,
        final(s)@.closed == old(s)@.closed,
        final(t)@.closed,
        final(t)@.created == old(t)@.created,
        final(t)@.max_conns == old(t)@.max_conns,
{
}

/// Law: in a closed pool every free connection is told to quit; in an open one those that
/// idled for longer than allowed are closed, and those that did not are kept. What is not
/// kept is not counted any more.
pub proof fn law_sweep_conn(
    s: &mut PoolState,
    closed: bool,
    idle_for: Span,
    idle_timeout: Span,
    r: Sweep,
)
    requires
        old(s)@.created > 0,
        call_ensures(PoolState::sweep_conn, (s, closed, idle_for, idle_timeout), r),
    ensures
        r is Quit <==> closed,
        r is Close <==> !closed && idle_for.nanos > idle_timeout.nanos,
        r is Keep <==> !closed && idle_for.nanos <= idle_timeout.nanos,
        final(s)@.created == if r is Keep {
            old(s)@.created as int
        } else {
            old(s)@.created - 1
        },
        final(s)@.max_conns == old(s)@.max_conns,
        final(s)@.closed == old(s)@.closed,
{
}

/// Law: sweeping ends in a closed pool without connections, and nowhere else.
pub proof fn law_sweep_round(s: PoolState, r: Round)
    requires
        call_ensures(PoolState::sweep_round, (&s,), r),
    ensures
        r is Stop <==> s@.closed && s@.created == 0,
        r matches Round::Sweep { closed } ==> closed == s@.closed,
{
}

/// Law: what becomes of a connection after a message: it is discarded after an error other
/// than a response of the server, and after a response with the code 421; else it is reset,
/// and after that offered, unless the reset failed, and discarded where nobody takes it.
pub proof fn law_conn_returned(e: Error, flag: bool, r: Return)
    ensures
        call_ensures(return_conn, (Some(&e),), r) ==> r == if e is Smtp && e->Smtp_0.code is Some
            && e->Smtp_0.code != Some(421u16) {
            Return::Reset
        } else {
            Return::Discard
        },
        call_ensures(return_conn, (None,), r) ==> r == Return::Reset,
        call_ensures(after_reset, (flag,), r) ==> r == if flag {
            Return::Offer
        } else {
            Return::Discard
        },
        call_ensures(after_offer, (flag,), r) ==> r == if flag {
            Return::Done
        } else {
            Return::Discard
        },
{
}

/// Law: waiting for a connection ends well with one; else it ends with the error that says
/// that the pool is closed, or after its time with the one that says so.
pub proof fn law_wait_ends(r: Option<Error>)
    ensures
        call_ensures(wait_error, (Waited::Received,), r) ==> r is None,
        call_ensures(wait_error, (Waited::Gone,), r) ==> r == Some(Error::PoolClosed),
        call_ensures(wait_error, (Waited::Stopped,), r) ==> r == Some(Error::PoolClosed),
        call_ensures(wait_error, (Waited::TimedOut,), r) ==> r == Some(Error::PoolTimeout),
{
}

/// Law: options are refused where they allow no connection, and nowhere else; the options
/// of a pool are then consistent, and all else in them is as it was given.
pub proof fn law_config(opt: Opt, r: Result<Config, Error>)
    requires
        call_ensures(Config::new, (opt,), r),
    ensures
        r is Ok <==> opt.max_conns >= 1,
        r matches Err(e) ==> (e matches Error::Config(m) && m@ == "MaxConns should be >= 1"@),
        r matches Ok(c) ==> {
            &&& c.opt@.max_message_retries >= 1
            &&& c.opt@.pool_wait_timeout.nanos >= 1_000_000_000
            &&& opt@.max_message_retries >= 1 ==> c.opt@.max_message_retries
                == opt@.max_message_retries
            &&& opt@.pool_wait_timeout.nanos >= 1_000_000_000 ==> c.opt@.pool_wait_timeout
                == opt@.pool_wait_timeout
            &&& c.opt@.host == opt@.host
            &&& c.opt@.port == opt@.port
            &&& c.opt@.max_conns == opt@.max_conns
            &&& c.opt@.idle_timeout == opt@.idle_timeout
            &&& c.opt@.message_retry_delay == opt@.message_retry_delay
            &&& c.opt@.ssl == opt@.ssl
            &&& c.opt@.auth == opt@.auth
            &&& c.has_sweeper <==> opt.max_conns >= 2 && opt.idle_timeout.nanos >= 1_000_000_000
        },
{
}

/// Law: an attempt is made while there were no more attempts than retries; before a retry
/// the delay is waited for, if there is one, and before the first attempt nothing is.
pub proof fn law_next_attempt(d: Delivery, r: Next)
    requires
        call_ensures(Delivery::next, (d,), r),
    ensures
        r is Try <==> d.history().len() <= d.limit(),
        r matches Next::Try(wait, a) ==> {
            &&& d.history().len() == 0 ==> wait is None
            &&& d.history().len() > 0 && d.pause().nanos > 0 ==> wait == Some(d.pause())
            &&& d.pause().nanos == 0 ==> wait is None
            &&& a.history() == d.history()
            &&& a.limit() == d.limit()
            &&& a.pause() == d.pause()
        },
        r matches Next::GiveUp(e) ==> (undecided(d.history()) ==> e == outcome_error(
            d.history().last(),
        )),
{
    if let Next::GiveUp(e) = r {
        if undecided(d.history()) {
            law_retries_counted(d.limit(), d.history());
        }
    }
}

/// Law: a delivery ends with a message that was sent, and with an error that cannot be
/// retried, which is reported as it is; after one that can be retried it goes on, with the
/// same limit and delay and with one more attempt on record.
pub proof fn law_attempt_concluded(a: Attempt, e: Error, r: Concluded)
    ensures
        call_ensures(Attempt::conclude, (a, Outcome::Sent), r) ==> r == Concluded::Done(Ok(())),
        call_ensures(Attempt::conclude, (a, Outcome::Failed(e, false)), r) ==> r
            == Concluded::Done(Err(e)),
        call_ensures(Attempt::conclude, (a, Outcome::Failed(e, true)), r) ==> (
        r matches Concluded::Again(d) && goes_on(a, d, Outcome::Failed(e, true))),
        call_ensures(Attempt::conclude, (a, Outcome::NoConn(e)), r) ==> if e is Smtp
            && e->Smtp_0.retriable {
            r matches Concluded::Again(d) && goes_on(a, d, Outcome::NoConn(e))
        } else {
            r == Concluded::Done(Err(e))
        },
{
}

/// Whether the delivery `d` goes on after the attempt `a` with the given outcome.
pub open spec fn goes_on(a: Attempt, d: Delivery, outcome: Outcome) -> bool {
    &&& d.history() == a.history().push(outcome)
    &&& d.limit() == a.limit()
    &&& d.pause() == a.pause()
}

/// Law: a delivery starts with no attempt, and with the retries and the delay of its
/// options; sweeping happens every two seconds, and draining every second.
pub proof fn law_intervals(opt: Opt, d: Delivery, sweep: Span, drain: Span)
    requires
        call_ensures(Delivery::new, (&opt,), d),
        call_ensures(sweep_interval, (), sweep),
        call_ensures(drain_interval, (), drain),
    ensures
        d.history().len() == 0,
        d.limit() == opt.max_message_retries,
        d.pause() == opt.message_retry_delay,
        sweep.nanos == 2_000_000_000,
        drain.nanos == 1_000_000_000,
{
}

/// Law: the first outcome that decides a delivery, within the attempts that are allowed,
/// is its result, whatever comes behind it.
pub proof fn law_first_decides(
    retries: nat,
    before: Seq<Outcome>,
    o: Outcome,
    after: Seq<Outcome>,
)
    requires
        undecided(before),
        before.len() <= retries,
        decided(o) is Some,
    ensures
        verdict(retries, before + seq![o] + after) == decided(o),
{
    law_retries_counted(retries, before);
    let upto = before + seq![o];
    assert(upto.drop_last() == before);
    assert(verdict(retries, upto) == decided(o));
    law_attempts_bounded(retries, upto, after);
}

} // verus!
