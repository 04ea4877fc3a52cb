//! What a rendered message takes from outside itself: its Message-ID, its date
//! and its multipart boundaries. Chance, the clock and the host decide them; the
//! functions here say what is made of their answers.

use rand::RngCore;
use vstd::prelude::*;

use crate::text::{chars_of, decimal_string, hex_digit_of, join3};

verus! {

/// How the Date header is written.
pub const DATE_FORMAT: &'static str = "%a, %d %b %Y %H:%M:%S %z";

/// The host named in a Message-ID when the hostname is missing or not an FQDN.
pub const DEFAULT_HOSTNAME: &'static str = "localhost.localdomain";

/// Number of random bytes in a multipart boundary.
pub const BOUNDARY_BYTES: usize = 30;

// ---------------------------------------------------------------------------
// Outside answers
// ---------------------------------------------------------------------------

/// `RngCore::fill_bytes` of the `rand` crate, on its thread-local generator: `n`
/// bytes drawn at random, of which nothing else is claimed.
#[verifier::external_body]
fn random_bytes(n: usize) -> (r: Vec<u8>)
    requires
        n <= isize::MAX,
    ensures
        r@.len() == n,
{
    let mut b = vec![0u8; n];
    rand::thread_rng().fill_bytes(&mut b);
    b
}

/// `random` of the `rand` crate: any `i64`.
#[verifier::external_body]
fn random_i64() -> (r: i64) {
    rand::random::<i64>()
}

/// `std::time::SystemTime` of the standard library, carried as it is.
#[verifier::external_type_specification]
#[verifier::external_body]
pub struct ExSystemTime(std::time::SystemTime);

/// `SystemTime::now` of the standard library: the time on the clock, of which
/// nothing is claimed.
#[verifier::external_body]
fn now() -> (r: std::time::SystemTime) {
    std::time::SystemTime::now()
}

/// `SystemTime::duration_since` of the standard library, since the Unix epoch:
/// `None` for a time before it.
#[verifier::external_body]
fn since_epoch(t: std::time::SystemTime) -> (r: Option<std::time::Duration>) {
    t.duration_since(std::time::UNIX_EPOCH).ok()
}

/// `Duration::as_nanos` of the standard library: the nanoseconds of a duration,
/// which is not modelled.
#[verifier::external_body]
fn nanos_of(d: std::time::Duration) -> (r: u128) {
    d.as_nanos()
}

/// Whether `nanos` are the nanoseconds that a reading of the clock gives: those of the
/// duration from the Unix epoch to the time on it, and zero for a clock that stands
/// before the epoch.
pub closed spec fn is_clock_reading(nanos: u128) -> bool {
    exists|t: std::time::SystemTime, d: Option<std::time::Duration>|
        #![trigger call_ensures(since_epoch, (t,), d)]
        {
            &&& call_ensures(now, (), t)
            &&& call_ensures(since_epoch, (t,), d)
            &&& match d {
                Some(span) => call_ensures(nanos_of, (span,), nanos),
                None => nanos == 0,
            }
        }
}

/// Nanoseconds since the Unix epoch.
fn unix_nanos() -> (r: u128)
    ensures
        is_clock_reading(r),
{
    let t = now();
    let d = since_epoch(t);
    match d {
        Some(span) => nanos_of(span),
        None => 0,
    }
}

/// `get` of the `hostname` crate: the name of the host, or `None` where the
/// system gives none or one that is no UTF-8.
#[verifier::external_body]
fn host_name() -> (r: Option<String>) {
    hostname::get().ok().and_then(|h| h.into_string().ok())
}

/// `Local::now` of the `chrono` crate, written by its `format`: a local time in the
/// form of a Date header. The crate panics where a format is malformed, and where
/// the clock stands before the Unix epoch.
#[verifier::external_body]
fn local_time(format: &str) -> (r: String)
    requires
        format@ == DATE_FORMAT@,
    ensures
        is_date(r@),
{
    chrono::Local::now().format(format).to_string()
}

// ---------------------------------------------------------------------------
// Dates
// ---------------------------------------------------------------------------

/// A local time, in the parts that a Date header is made of.
pub struct Moment {
    /// Days since Sunday.
    pub weekday: nat,
    pub day: nat,
    /// Months since January.
    pub month: nat,
    pub year: nat,
    pub hour: nat,
    pub minute: nat,
    /// Sixty in a leap second.
    pub second: nat,
    /// Whether the local time is not behind UTC.
    pub ahead: bool,
    pub zone_hours: nat,
    pub zone_minutes: nat,
}

impl Moment {
    /// Whether every part is in its range. No clock after the Unix epoch shows an
    /// earlier year than 1969, wherever it is read.
    pub open spec fn is_valid(self) -> bool {
        &&& self.weekday < 7
        &&& 1 <= self.day <= 31
        &&& self.month < 12
        &&& 1969 <= self.year
        &&& self.hour < 24
        &&& self.minute < 60
        &&& self.second <= 60
        &&& self.zone_hours <= 24
        &&& self.zone_minutes < 60
    }
}

/// The `i`-th of the names of three letters that `names` is made of.
pub open spec fn short_name(names: Seq<char>, i: nat) -> Seq<char> {
    names.subrange(3 * i as int, 3 * i as int + 3)
}

/// `n` in two digits.
pub open spec fn two_digits(n: nat) -> Seq<char> {
    seq![crate::text::decimal_digit(n / 10), crate::text::decimal_digit(n % 10)]
}

/// A year, with a sign if it has more than four digits.
pub open spec fn year_text(year: nat) -> Seq<char> {
    if year <= 9999 {
        crate::text::decimal(year)
    } else {
        "+"@ + crate::text::decimal(year)
    }
}

/// The Date header for the local time `m`, in the form of [`DATE_FORMAT`].
pub open spec fn date_text(m: Moment) -> Seq<char> {
    short_name("SunMonTueWedThuFriSat"@, m.weekday) + ", "@ + two_digits(m.day) + " "@
        + short_name("JanFebMarAprMayJunJulAugSepOctNovDec"@, m.month) + " "@ + year_text(m.year)
        + " "@ + two_digits(m.hour) + ":"@ + two_digits(m.minute) + ":"@ + two_digits(m.second)
        + " "@ + (if m.ahead {
        "+"@
    } else {
        "-"@
    }) + two_digits(m.zone_hours) + two_digits(m.zone_minutes)
}

/// Whether `s` is the Date header for some local time.
pub open spec fn is_date(s: Seq<char>) -> bool {
    exists|m: Moment| m.is_valid() && s == #[trigger] date_text(m)
}

/// Whether `s` is a date that was read off the clock.
pub closed spec fn is_drawn_date(s: Seq<char>) -> bool {
    exists|t: String| #[trigger] call_ensures(local_time, (DATE_FORMAT,), t) && s == t@
}

/// The date on the clock.
fn draw_date() -> (r: String)
    ensures
        is_drawn_date(r@),
        is_date(r@),
{
    local_time(DATE_FORMAT)
}

// ---------------------------------------------------------------------------
// Boundaries
// ---------------------------------------------------------------------------

/// `bytes` in lower-case hexadecimal.
pub open spec fn hex_text(bytes: Seq<u8>) -> Seq<char>
    decreases bytes.len(),
{
    if bytes.len() == 0 {
        Seq::empty()
    } else {
        hex_text(bytes.drop_last()).push(
            crate::text::hex_digit(bytes.last() as int / 16, false) as char,
        ).push(crate::text::hex_digit(bytes.last() as int % 16, false) as char)
    }
}

/// Whether `s` is a boundary: the hexadecimal text of as many bytes as one has.
pub open spec fn is_boundary(s: Seq<char>) -> bool {
    exists|bytes: Seq<u8>| bytes.len() == BOUNDARY_BYTES && s == #[trigger] hex_text(bytes)
}

/// `bytes` in lower-case hexadecimal.
pub fn hex_string(bytes: &[u8]) -> (r: String)
    ensures
        r@ == hex_text(bytes@),
{
    let mut s = String::new();
    let mut i: usize = 0;
    while i < bytes.len()
        invariant
            i <= bytes@.len(),
            s@ == hex_text(bytes@.take(i as int)),
        decreases bytes@.len() - i,
    {
        let b = bytes[i];
        s.push(hex_digit_of(b / 16, false) as char);
        s.push(hex_digit_of(b % 16, false) as char);
        i += 1;
        assert(bytes@.take(i as int).drop_last() == bytes@.take(i - 1));
        assert(bytes@.take(i as int).last() == b);
    }
    assert(bytes@.take(i as int) == bytes@);
    s
}

/// Whether `s` is a boundary that was drawn at random: the hexadecimal text of what
/// the generator gave.
pub closed spec fn is_drawn_boundary(s: Seq<char>) -> bool {
    exists|b: Vec<u8>| #[trigger]
        call_ensures(random_bytes, (BOUNDARY_BYTES,), b) && s == hex_text(b@)
}

/// A fresh multipart boundary: 30 random bytes in hexadecimal.
pub fn random_boundary() -> (r: String)
    ensures
        is_drawn_boundary(r@),
        is_boundary(r@),
{
    let b = random_bytes(BOUNDARY_BYTES);
    hex_string(b.as_slice())
}

/// Law: a boundary is 60 characters long and made of hexadecimal digits, so it
/// needs no quoting as a header parameter.
pub proof fn law_boundary_shape(s: Seq<char>)
    requires
        is_boundary(s),
    ensures
        s.len() == 60,
        forall|i: int| 0 <= i < s.len() ==> '0' <= #[trigger] s[i] <= '9' || 'a' <= s[i] <= 'f',
{
    let bytes = choose|bytes: Seq<u8>|
        bytes.len() == BOUNDARY_BYTES && s == #[trigger] hex_text(bytes);
    lemma_hex_text(bytes);
}

/// Law: two boundaries are the same only where the bytes are that they were made of.
pub proof fn law_hex_injective(a: Seq<u8>, b: Seq<u8>)
    ensures
        hex_text(a) == hex_text(b) ==> a == b,
    decreases a.len(),
{
    lemma_hex_text(a);
    lemma_hex_text(b);
    if hex_text(a) == hex_text(b) && a.len() > 0 {
        let s = hex_text(a);
        let x = a.last();
        let y = b.last();
        assert(s.drop_last().drop_last() == hex_text(a.drop_last()));
        assert(s.drop_last().drop_last() == hex_text(b.drop_last()));
        law_hex_injective(a.drop_last(), b.drop_last());
        assert(s[s.len() - 1] == crate::text::hex_digit(x as int % 16, false) as char);
        assert(s[s.len() - 1] == crate::text::hex_digit(y as int % 16, false) as char);
        assert(s[s.len() - 2] == crate::text::hex_digit(x as int / 16, false) as char);
        assert(s[s.len() - 2] == crate::text::hex_digit(y as int / 16, false) as char);
        assert(x == y);
        assert(a == a.drop_last().push(x));
        assert(b == b.drop_last().push(y));
    }
}

proof fn lemma_hex_text(bytes: Seq<u8>)
    ensures
        hex_text(bytes).len() == 2 * bytes.len(),
        forall|i: int|
            0 <= i < hex_text(bytes).len() ==> '0' <= #[trigger] hex_text(bytes)[i] <= '9' || 'a'
                <= hex_text(bytes)[i] <= 'f',
    decreases bytes.len(),
{
    if bytes.len() > 0 {
        lemma_hex_text(bytes.drop_last());
        let before = hex_text(bytes.drop_last());
        assert forall|i: int| 0 <= i < hex_text(bytes).len() implies '0' <= #[trigger] hex_text(
            bytes,
        )[i] <= '9' || 'a' <= hex_text(bytes)[i] <= 'f' by {
            if i < before.len() {
                assert(hex_text(bytes)[i] == before[i]);
            }
        }
    }
}

// ---------------------------------------------------------------------------
// Message-ID
// ---------------------------------------------------------------------------

/// The host that a Message-ID names.
pub open spec fn message_host(host: Option<Seq<char>>) -> Seq<char> {
    match host {
        Some(h) => if h.contains('.') {
            h
        } else {
            DEFAULT_HOSTNAME@
        },
        None => DEFAULT_HOSTNAME@,
    }
}

/// The absolute value of `r` in decimal. That of the least value, which is no
/// `i64`, wraps around to itself.
pub open spec fn magnitude_text(r: i64) -> Seq<char> {
    if r == i64::MIN {
        "-9223372036854775808"@
    } else if r < 0 {
        crate::text::decimal((-r) as nat)
    } else {
        crate::text::decimal(r as nat)
    }
}

/// The Message-ID made of a time, a process, a random number and a host.
pub open spec fn message_id_text(
    nanos: u128,
    pid: u32,
    r: i64,
    host: Option<Seq<char>>,
) -> Seq<char> {
    "<"@ + crate::text::decimal(nanos as nat) + "."@ + crate::text::decimal(pid as nat) + "."@
        + magnitude_text(r) + "@"@ + message_host(host) + ">"@
}

/// Whether `id` is a Message-ID of the process `pid`.
pub open spec fn is_message_id(id: Seq<char>, pid: u32) -> bool {
    exists|nanos: u128, r: i64, host: Option<Seq<char>>|
        id == #[trigger] message_id_text(nanos, pid, r, host)
}

fn magnitude_string(r: i64) -> (s: String)
    ensures
        s@ == magnitude_text(r),
{
    if r == i64::MIN {
        "-9223372036854775808".to_string()
    } else if r < 0 {
        decimal_string((-r) as u128)
    } else {
        decimal_string(r as u128)
    }
}

fn has_dot(s: &str) -> (r: bool)
    ensures
        r == s@.contains('.'),
{
    let chars = chars_of(s);
    let mut i: usize = 0;
    while i < chars.len()
        invariant
            chars@ == s@,
            i <= chars@.len(),
            forall|j: int| 0 <= j < i ==> chars@[j] != '.',
        decreases chars@.len() - i,
    {
        if chars[i] == '.' {
            assert(s@.contains(s@[i as int]));
            return true;
        }
        i += 1;
    }
    false
}

/// The Message-ID `<{nanos}.{pid}.{number}@{host}>`, where the number is the absolute
/// value of `r`, or `r` itself if that is the least `i64`, and the host is a default
/// one if `host` is missing or not an FQDN.
pub fn message_id(nanos: u128, pid: u32, r: i64, host: Option<String>) -> (id: String)
    ensures
        id@ == message_id_text(nanos, pid, r, host_text(host)),
{
    let h = match host {
        Some(h) => if has_dot(h.as_str()) {
            h
        } else {
            DEFAULT_HOSTNAME.to_string()
        },
        None => DEFAULT_HOSTNAME.to_string(),
    };
    let mut out = join3("<", decimal_string(nanos).as_str(), ".");
    out.append(decimal_string(pid as u128).as_str());
    out.append(".");
    out.append(magnitude_string(r).as_str());
    out.append("@");
    out.append(h.as_str());
    out.append(">");
    out
}

/// The text of an optional host name.
pub open spec fn host_text(host: Option<String>) -> Option<Seq<char>> {
    match host {
        Some(h) => Some(h@),
        None => None,
    }
}

/// Whether `id` is a Message-ID of the process `pid` that was drawn: from a reading of
/// the clock, a random number and the name of the host.
pub closed spec fn is_drawn_message_id(id: Seq<char>, pid: u32) -> bool {
    exists|nanos: u128, r: i64, host: Option<String>|
        #![trigger is_clock_reading(nanos), call_ensures(random_i64, (), r), call_ensures(host_name, (), host)]
        {
            &&& is_clock_reading(nanos)
            &&& call_ensures(random_i64, (), r)
            &&& call_ensures(host_name, (), host)
            &&& id == message_id_text(nanos, pid, r, host_text(host))
        }
}

/// Generates an RFC 2822-compliant Message-ID for a message of the process
/// `pid`: `<{unix_nanos}.{pid}.{rand_i64}@{hostname}>`, falling back to
/// `localhost.localdomain` when the hostname is missing or not an FQDN, and to a
/// time of zero when the clock stands before the epoch.
pub fn generate_message_id(pid: u32) -> (r: String)
    ensures
        is_drawn_message_id(r@, pid),
        is_message_id(r@, pid),
{
    let nanos = unix_nanos();
    let number = random_i64();
    let host = host_name();
    let ghost name = host_text(host);
    let id = message_id(nanos, pid, number, host);
    assert(id@ == message_id_text(nanos, pid, number, name));
    id
}

// ---------------------------------------------------------------------------
// Stamps
// ---------------------------------------------------------------------------

/// All that one rendering of a message takes from outside the message.
pub struct Stamp {
    /// The Message-ID, unless the message brings its own.
    pub message_id: String,
    /// The date, unless the message brings its own.
    pub date: String,
    /// The boundary of the outermost multipart container.
    pub outer: String,
    /// The boundary of a `multipart/alternative` part inside it.
    pub nested: String,
    /// The boundary of a `multipart/related` part.
    pub related: String,
}

/// The texts of a [`Stamp`].
pub struct StampView {
    pub message_id: Seq<char>,
    pub date: Seq<char>,
    pub outer: Seq<char>,
    pub nested: Seq<char>,
    pub related: Seq<char>,
}

/// Which parts of a [`Stamp`] a message needs.
#[derive(Clone, Copy, Debug, PartialEq, Eq, Structural)]
pub struct Needs {
    pub message_id: bool,
    pub date: bool,
    pub outer: bool,
    pub nested: bool,
    pub related: bool,
}

impl View for Stamp {
    type V = StampView;

    open spec fn view(&self) -> StampView {
        StampView {
            message_id: self.message_id@,
            date: self.date@,
            outer: self.outer@,
            nested: self.nested@,
            related: self.related@,
        }
    }
}

/// How many random bytes a boundary takes that may be needed or not.
pub open spec fn bytes_for(needed: bool) -> int {
    if needed {
        BOUNDARY_BYTES as int
    } else {
        0
    }
}

/// Whether the boundaries of `s` are cut from the random bytes `b`, one behind another
/// and each from bytes of its own, where those that are not needed are empty.
pub open spec fn are_cut_from(s: StampView, b: Seq<u8>, needs: Needs) -> bool {
    let outer = bytes_for(needs.outer);
    let nested = outer + bytes_for(needs.nested);
    let related = nested + bytes_for(needs.related);
    &&& b.len() == related
    &&& s.outer == hex_text(b.subrange(0, outer))
    &&& s.nested == hex_text(b.subrange(outer, nested))
    &&& s.related == hex_text(b.subrange(nested, related))
}

/// Whether the boundaries of `s` are those of one draw of the generator, or empty where
/// none is needed, and so nothing drawn.
pub closed spec fn are_drawn_boundaries(s: StampView, needs: Needs) -> bool {
    ||| are_cut_from(s, Seq::empty(), needs)
    ||| exists|n: usize, b: Vec<u8>| #[trigger]
        call_ensures(random_bytes, (n,), b) && are_cut_from(s, b@, needs)
}

/// Whether `s` is a boundary, or empty where none is needed.
pub open spec fn is_boundary_for(s: Seq<char>, needed: bool) -> bool {
    if needed {
        is_boundary(s)
    } else {
        s.len() == 0
    }
}

/// Whether `s` is a stamp that the process `pid` may draw for a message with the
/// given needs. What is not needed is empty.
pub open spec fn is_stamp(s: StampView, pid: u32, needs: Needs) -> bool {
    &&& if needs.message_id {
        is_drawn_message_id(s.message_id, pid) && is_message_id(s.message_id, pid)
    } else {
        s.message_id.len() == 0
    }
    &&& if needs.date {
        is_drawn_date(s.date) && is_date(s.date)
    } else {
        s.date.len() == 0
    }
    &&& are_drawn_boundaries(s, needs)
    &&& is_boundary_for(s.outer, needs.outer)
    &&& is_boundary_for(s.nested, needs.nested)
    &&& is_boundary_for(s.related, needs.related)
}

/// The boundary made of the bytes of `b` from `start` to `end`.
fn cut_boundary(b: &[u8], start: usize, end: usize) -> (r: String)
    requires
        start <= end <= b@.len(),
    ensures
        r@ == hex_text(b@.subrange(start as int, end as int)),
{
    hex_string(vstd::slice::slice_subrange(b, start, end))
}

/// What is cut from as many bytes as a boundary takes is one.
proof fn lemma_cut(b: Seq<u8>, start: int, needed: bool)
    requires
        0 <= start,
        start + bytes_for(needed) <= b.len(),
    ensures
        is_boundary_for(hex_text(b.subrange(start, start + bytes_for(needed))), needed),
{
    let piece = b.subrange(start, start + bytes_for(needed));
    lemma_hex_text(piece);
    assert(needed ==> piece.len() == BOUNDARY_BYTES);
}

/// Random bytes, or none where none are asked for.
fn draw_bytes(n: usize) -> (r: Vec<u8>)
    requires
        n <= isize::MAX,
    ensures
        r@.len() == n,
        n > 0 ==> call_ensures(random_bytes, (n,), r),
{
    if n > 0 {
        random_bytes(n)
    } else {
        Vec::new()
    }
}

impl Stamp {
    /// Draws a fresh stamp for a message of the process `pid` with the given needs.
    /// The clock and the generator are asked for nothing else. The boundaries are cut
    /// from one draw, each from bytes of its own, so that they differ unless chance
    /// repeats itself.
    pub fn draw(pid: u32, needs: Needs) -> (r: Self)
        ensures
            is_stamp(r@, pid, needs),
    {
        let outer: usize = if needs.outer {
            BOUNDARY_BYTES
        } else {
            0
        };
        let nested: usize = if needs.nested {
            BOUNDARY_BYTES
        } else {
            0
        };
        let related: usize = if needs.related {
            BOUNDARY_BYTES
        } else {
            0
        };
        let b = draw_bytes(outer + nested + related);
        let r = Stamp {
            message_id: if needs.message_id {
                generate_message_id(pid)
            } else {
                String::new()
            },
            date: if needs.date {
                draw_date()
            } else {
                String::new()
            },
            outer: cut_boundary(b.as_slice(), 0, outer),
            nested: cut_boundary(b.as_slice(), outer, outer + nested),
            related: cut_boundary(b.as_slice(), outer + nested, b.len()),
        };
        proof {
            lemma_cut(b@, 0, needs.outer);
            lemma_cut(b@, outer as int, needs.nested);
            lemma_cut(b@, outer + nested, needs.related);
            assert(are_cut_from(r@, b@, needs));
            if outer + nested + related == 0 {
                assert(b@ == Seq::<u8>::empty());
            }
        }
        r
    }
}

/// Whether a Message-ID is made of the given parts.
pub open spec fn has_id_parts(
    id: Seq<char>,
    a: Seq<char>,
    b: Seq<char>,
    c: Seq<char>,
    h: Seq<char>,
) -> bool {
    id == "<"@ + a + "."@ + b + "."@ + c + "@"@ + h + ">"@
}

/// Law: a Message-ID says in decimal when it was made, by which process and with which
/// random number, and names the host behind an `@`, or where the host has no name with a
/// dot in it `localhost.localdomain`; all in angle brackets.
pub proof fn law_message_id(nanos: u128, pid: u32, r: i64, host: Option<Seq<char>>)
    ensures
        exists|a: Seq<char>, b: Seq<char>, c: Seq<char>, h: Seq<char>|
            {
                &&& #[trigger] has_id_parts(message_id_text(nanos, pid, r, host), a, b, c, h)
                &&& crate::text::decimal_value(a) == nanos
                &&& crate::text::decimal_value(b) == pid
                &&& r != i64::MIN ==> crate::text::decimal_value(c) == if r < 0 {
                    -r
                } else {
                    r as int
                }
                &&& r == i64::MIN ==> c == "-9223372036854775808"@
                &&& h == match host {
                    Some(name) => if name.contains('.') {
                        name
                    } else {
                        "localhost.localdomain"@
                    },
                    None => "localhost.localdomain"@,
                }
            },
{
    let a = crate::text::decimal(nanos as nat);
    let b = crate::text::decimal(pid as nat);
    let c = magnitude_text(r);
    let h = message_host(host);
    crate::text::law_decimal(nanos as nat);
    crate::text::law_decimal(pid as nat);
    if r < 0 {
        crate::text::law_decimal((-r) as nat);
    } else {
        crate::text::law_decimal(r as nat);
    }
    assert(crate::text::decimal_value(a) == nanos && crate::text::decimal_value(b) == pid);
    assert(r != i64::MIN ==> crate::text::decimal_value(c) == if r < 0 {
        -r
    } else {
        r as int
    });
    assert(has_id_parts(message_id_text(nanos, pid, r, host), a, b, c, h));
}

/// Law: a boundary has two lower-case hexadecimal digits for each byte that it was made
/// of, in their order.
pub proof fn law_hex_text(a: Seq<u8>, b: u8)
    ensures
        hex_text(a.push(b)) == hex_text(a) + seq![
            "0123456789abcdef"@[b as int / 16],
            "0123456789abcdef"@[b as int % 16],
        ],
        hex_text(a).len() == 2 * a.len(),
{
    reveal_strlit("0123456789abcdef");
    lemma_hex_text(a);
    assert(a.push(b).drop_last() == a);
    let hi = b as int / 16;
    let lo = b as int % 16;
    assert(crate::text::hex_digit(hi, false) as char == "0123456789abcdef"@[hi]);
    assert(crate::text::hex_digit(lo, false) as char == "0123456789abcdef"@[lo]);
}

/// Law: the boundaries that a message needs are cut from fresh bytes one behind the
/// other, each from thirty of its own; two of them are the same only where their bytes
/// are.
pub proof fn law_boundaries_apart(s: StampView, b: Seq<u8>, needs: Needs)
    requires
        are_cut_from(s, b, needs),
        needs.outer,
        needs.nested,
        needs.related,
    ensures
        b.len() == 90,
        s.outer == hex_text(b.subrange(0, 30)),
        s.nested == hex_text(b.subrange(30, 60)),
        s.related == hex_text(b.subrange(60, 90)),
        s.outer == s.nested ==> b.subrange(0, 30) == b.subrange(30, 60),
        s.outer == s.related ==> b.subrange(0, 30) == b.subrange(60, 90),
        s.nested == s.related ==> b.subrange(30, 60) == b.subrange(60, 90),
{
    law_hex_injective(b.subrange(0, 30), b.subrange(30, 60));
    law_hex_injective(b.subrange(0, 30), b.subrange(60, 90));
    law_hex_injective(b.subrange(30, 60), b.subrange(60, 90));
}

/// Law: a stamp brings what is needed and nothing else: a Message-ID of the process, a
/// date, and boundaries.
pub proof fn law_stamp(s: StampView, pid: u32, needs: Needs)
    requires
        is_stamp(s, pid, needs),
    ensures
        needs.message_id ==> is_message_id(s.message_id, pid) && is_drawn_message_id(
            s.message_id,
            pid,
        ),
        !needs.message_id ==> s.message_id.len() == 0,
        needs.date ==> is_date(s.date) && is_drawn_date(s.date),
        !needs.date ==> s.date.len() == 0,
        s.outer.len() == if needs.outer {
            60int
        } else {
            0
        },
        s.nested.len() == if needs.nested {
            60int
        } else {
            0
        },
        s.related.len() == if needs.related {
            60int
        } else {
            0
        },
{
    if needs.outer {
        law_boundary_shape(s.outer);
    }
    if needs.nested {
        law_boundary_shape(s.nested);
    }
    if needs.related {
        law_boundary_shape(s.related);
    }
}

/// Law: a date has the day of the week, the day, the month, the year, the time of day and
/// the distance from UTC at fixed places, for a year of four digits.
pub proof fn law_date_text(m: Moment)
    requires
        m.is_valid(),
        m.year <= 9999,
    ensures
        date_text(m).len() == 31,
        date_text(m).subrange(0, 3) == "SunMonTueWedThuFriSat"@.subrange(
            3 * m.weekday as int,
            3 * m.weekday as int + 3,
        ),
        crate::text::decimal_value(date_text(m).subrange(5, 7)) == m.day,
        date_text(m).subrange(8, 11) == "JanFebMarAprMayJunJulAugSepOctNovDec"@.subrange(
            3 * m.month as int,
            3 * m.month as int + 3,
        ),
        crate::text::decimal_value(date_text(m).subrange(12, 16)) == m.year,
        crate::text::decimal_value(date_text(m).subrange(17, 19)) == m.hour,
        crate::text::decimal_value(date_text(m).subrange(20, 22)) == m.minute,
        crate::text::decimal_value(date_text(m).subrange(23, 25)) == m.second,
        date_text(m)[26] == if m.ahead {
            '+'
        } else {
            '-'
        },
        crate::text::decimal_value(date_text(m).subrange(27, 29)) == m.zone_hours,
        crate::text::decimal_value(date_text(m).subrange(29, 31)) == m.zone_minutes,
{
    reveal_strlit("SunMonTueWedThuFriSat");
    reveal_strlit("JanFebMarAprMayJunJulAugSepOctNovDec");
    reveal_strlit(", ");
    reveal_strlit(" ");
    reveal_strlit(":");
    reveal_strlit("+");
    reveal_strlit("-");
    let d = date_text(m);
    let year = crate::text::decimal(m.year);
    crate::text::law_decimal(m.year);
    reveal_with_fuel(crate::text::decimal, 4);
    assert(year.len() == 4);
    lemma_two_digits(m.day);
    lemma_two_digits(m.hour);
    lemma_two_digits(m.minute);
    lemma_two_digits(m.second);
    lemma_two_digits(m.zone_hours);
    lemma_two_digits(m.zone_minutes);
    assert(short_name("SunMonTueWedThuFriSat"@, m.weekday).len() == 3);
    assert(short_name("JanFebMarAprMayJunJulAugSepOctNovDec"@, m.month).len() == 3);
    assert(d.len() == 31);
    assert(d.subrange(0, 3) == short_name("SunMonTueWedThuFriSat"@, m.weekday));
    assert(d.subrange(5, 7) == two_digits(m.day));
    assert(d.subrange(8, 11) == short_name("JanFebMarAprMayJunJulAugSepOctNovDec"@, m.month));
    assert(d.subrange(12, 16) == year);
    assert(d.subrange(17, 19) == two_digits(m.hour));
    assert(d.subrange(20, 22) == two_digits(m.minute));
    assert(d.subrange(23, 25) == two_digits(m.second));
    assert(d.subrange(27, 29) == two_digits(m.zone_hours));
    assert(d.subrange(29, 31) == two_digits(m.zone_minutes));
}

proof fn lemma_two_digits(n: nat)
    requires
        n < 100,
    ensures
        two_digits(n).len() == 2,
        crate::text::decimal_value(two_digits(n)) == n,
{
    let t = two_digits(n);
    let one = t.drop_last();
    assert(one == seq![t[0]]);
    assert(one.drop_last() == Seq::<char>::empty());
    assert(crate::text::decimal_value(one.drop_last()) == 0);
    assert(crate::text::decimal_value(one) == n / 10);
}

/// Law: the time in a Message-ID is what the clock says, and none before the epoch.
proof fn law_clock_reading(nanos: u128)
    ensures
        is_clock_reading(nanos) <==> exists|t: std::time::SystemTime, d: Option<
            std::time::Duration,
        >|
            {
                &&& call_ensures(now, (), t)
                &&& #[trigger] call_ensures(since_epoch, (t,), d)
                &&& d is Some ==> call_ensures(nanos_of, (d->0,), nanos)
                &&& d is None ==> nanos == 0
            },
{
}

/// Law: a boundary is drawn as thirty random bytes, and a date is what the clock says in
/// the format of a date; a Message-ID is made of the clock, of a random number and of the
/// name of the host.
proof fn law_drawn(text: Seq<char>, pid: u32)
    ensures
        is_drawn_boundary(text) <==> exists|b: Vec<u8>| #[trigger]
            call_ensures(random_bytes, (30usize,), b) && text == hex_text(b@),
        is_drawn_date(text) <==> exists|t: String| #[trigger]
            call_ensures(local_time, ("%a, %d %b %Y %H:%M:%S %z",), t) && text == t@,
        is_drawn_message_id(text, pid) <==> exists|nanos: u128, r: i64, host: Option<String>|
            #![trigger is_clock_reading(nanos), call_ensures(random_i64, (), r), call_ensures(host_name, (), host)]
            {
                &&& is_clock_reading(nanos)
                &&& call_ensures(random_i64, (), r)
                &&& call_ensures(host_name, (), host)
                &&& text == message_id_text(
                    nanos,
                    pid,
                    r,
                    match host {
                        Some(h) => Some(h@),
                        None => None,
                    },
                )
            },
{
}

/// Law: a Message-ID that is made of given values says them, and bytes are written as two
/// hexadecimal digits each.
pub proof fn law_stamp_calls(
    nanos: u128,
    pid: u32,
    r: i64,
    host: Option<String>,
    id: String,
    bytes: &[u8],
    hex: String,
)
    requires
        call_ensures(message_id, (nanos, pid, r, host), id),
        call_ensures(hex_string, (bytes,), hex),
    ensures
        id@ == message_id_text(nanos, pid, r, host_text(host)),
        id@[0] == '<',
        id@.last() == '>',
        hex@ == hex_text(bytes@),
        hex@.len() == 2 * bytes@.len(),
{
    reveal_strlit("<");
    reveal_strlit(">");
    lemma_hex_text(bytes@);
}

} // verus!
