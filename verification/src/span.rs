//! The numeric model of `std::time::Duration`: a count of nanoseconds.

use std::time::Duration;
use vstd::prelude::*;

verus! {

/// Nanoseconds in one second.
pub const NANOS_PER_SEC: u128 = 1_000_000_000;

/// The largest nanosecond count a `Duration` can hold:
/// `u64::MAX` whole seconds and 999,999,999 nanoseconds.
pub const MAX_NANOS: u128 = 18_446_744_073_709_551_615_999_999_999;

/// The whole seconds of a duration, as `Duration::as_secs` reports them.
pub uninterp spec fn whole_secs(d: Duration) -> u64;

/// The nanoseconds of a duration beyond its whole seconds, as
/// `Duration::subsec_nanos` reports them.
pub uninterp spec fn subsec_nanos(d: Duration) -> u32;

/// `Duration::as_secs` returns the whole seconds of the duration.
pub assume_specification[ Duration::as_secs ](d: &Duration) -> (secs: u64)
    ensures
        secs == whole_secs(*d),
;

/// `Duration::subsec_nanos` returns the fractional part in nanoseconds,
/// which is always less than one second.
pub assume_specification[ Duration::subsec_nanos ](d: &Duration) -> (sub: u32)
    ensures
        sub == subsec_nanos(*d),
        sub < 1_000_000_000,
;

/// `Duration::new` builds a duration from seconds and nanoseconds, carrying
/// whole seconds out of the nanoseconds. It panics when that carry overflows
/// the seconds, which the precondition rules out.
pub assume_specification[ Duration::new ](secs: u64, extra: u32) -> (d: Duration)
    requires
        secs + extra / 1_000_000_000 <= u64::MAX,
    ensures
        whole_secs(d) == secs + extra / 1_000_000_000,
        subsec_nanos(d) == extra % 1_000_000_000,
;

/// The length of a duration in nanoseconds.
pub open spec fn nanos(d: Duration) -> nat {
    whole_secs(d) as nat * 1_000_000_000 + subsec_nanos(d) as nat
}

/// The nanosecond counts of a sequence of durations, in order.
pub open spec fn nanos_seq(s: Seq<Duration>) -> Seq<nat> {
    Seq::new(s.len(), |i: int| nanos(s[i]))
}

/// Reads a duration as a nanosecond count.
pub fn to_nanos(d: &Duration) -> (n: u128)
    ensures
        n == nanos(*d),
        n <= MAX_NANOS,
{
    let secs: u128 = d.as_secs() as u128;
    let sub: u128 = d.subsec_nanos() as u128;
    secs * NANOS_PER_SEC + sub
}

/// Builds the duration of `n` nanoseconds.
pub fn from_nanos(n: u128) -> (d: Duration)
    requires
        n <= MAX_NANOS,
    ensures
        nanos(d) == n,
{
    let secs: u64 = (n / NANOS_PER_SEC) as u64;
    let sub: u32 = (n % NANOS_PER_SEC) as u32;
    Duration::new(secs, sub)
}

} // verus!
