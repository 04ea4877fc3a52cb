//! Lengths of time.

use vstd::prelude::*;

verus! {

/// Nanoseconds in a second.
pub const NANOS_PER_SEC: u128 = 1_000_000_000;

/// A length of time.
#[derive(Clone, Copy, Debug, PartialEq, Eq, Structural)]
pub struct Span {
    pub nanos: u128,
}

impl Span {
    /// No time at all.
    pub fn zero() -> (r: Self)
        ensures
            r.nanos == 0,
    {
        Span { nanos: 0 }
    }

    /// `secs` seconds.
    pub fn from_secs(secs: u64) -> (r: Self)
        ensures
            r.nanos == secs * NANOS_PER_SEC,
    {
        Span { nanos: secs as u128 * NANOS_PER_SEC }
    }

    /// The whole seconds and the nanoseconds beyond them, unless the seconds are
    /// too many for 64 bits.
    pub fn split(&self) -> (r: Option<(u64, u32)>)
        ensures
            r is Some <==> self.nanos / NANOS_PER_SEC <= u64::MAX,
            r matches Some((secs, nanos)) ==> nanos < NANOS_PER_SEC && secs * NANOS_PER_SEC + nanos
                == self.nanos,
    {
        let secs: u128 = self.nanos / NANOS_PER_SEC;
        if secs <= u64::MAX as u128 {
            Some((secs as u64, (self.nanos % NANOS_PER_SEC) as u32))
        } else {
            None
        }
    }
}

/// Law: seconds are a thousand million nanoseconds each, and a length of time is split
/// into whole seconds and the nanoseconds beyond them.
pub proof fn law_span(secs: u64, s: Span, t: Span, r: Option<(u64, u32)>)
    requires
        call_ensures(Span::from_secs, (secs,), s),
        call_ensures(Span::split, (&t,), r),
    ensures
        s.nanos == secs * 1_000_000_000,
        t.nanos < 0x1_0000_0000_0000_0000 * 1_000_000_000 <==> r is Some,
        r matches Some((whole, beyond)) ==> beyond < 1_000_000_000 && whole * 1_000_000_000 + beyond
            == t.nanos,
{
}

} // verus!
