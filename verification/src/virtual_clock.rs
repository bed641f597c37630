//! A clock that only moves when it is told to.

use std::time::Duration;
use vstd::prelude::*;

verus! {

/// The nanoseconds of the longest duration: 2^64 seconds but for one nanosecond.
pub const LONGEST_NANOS: u128 = 18_446_744_073_709_551_615_999_999_999;

/// The nanoseconds of the longest duration.
pub open spec fn longest_nanos() -> int {
    u64::MAX * 1_000_000_000 + 999_999_999
}

/// How many nanoseconds a [`Duration`] has.
pub uninterp spec fn duration_nanos(d: Duration) -> u128;

/// `Duration::as_nanos` gives the duration's nanoseconds. A duration has a 64-bit
/// number of seconds and less than a second beyond them, which bounds the result.
pub assume_specification[ Duration::as_nanos ](d: &Duration) -> (r: u128)
    ensures
        r == duration_nanos(*d),
        r <= longest_nanos(),
;

/// `Duration::new` makes a duration of whole seconds and further nanoseconds. With
/// a second or more in `nanos` it would carry over, which is left out here.
pub assume_specification[ Duration::new ](secs: u64, nanos: u32) -> (r: Duration)
    requires
        nanos < 1_000_000_000,
    ensures
        duration_nanos(r) == secs * 1_000_000_000 + nanos,
;

/// The duration of this many nanoseconds.
fn duration_of(nanos: u128) -> (d: Duration)
    requires
        nanos <= longest_nanos(),
    ensures
        duration_nanos(d) == nanos,
{
    let secs: u128 = nanos / 1_000_000_000;
    let rest: u128 = nanos % 1_000_000_000;
    Duration::new(secs as u64, rest as u32)
}

/// The sum of two durations, or the longest duration where the sum would be
/// longer.
pub fn saturating_sum(a: Duration, b: Duration) -> (d: Duration)
    ensures
        duration_nanos(d) == (if duration_nanos(a) + duration_nanos(b) > longest_nanos() {
            longest_nanos()
        } else {
            duration_nanos(a) + duration_nanos(b)
        }),
{
    let x = a.as_nanos();
    let y = b.as_nanos();
    if y > LONGEST_NANOS - x {
        duration_of(LONGEST_NANOS)
    } else {
        duration_of(x + y)
    }
}

/// How much longer `a` is than `b`: nothing where it is not.
pub fn saturating_difference(a: Duration, b: Duration) -> (d: Duration)
    ensures
        duration_nanos(d) == (if duration_nanos(a) <= duration_nanos(b) {
            0
        } else {
            duration_nanos(a) - duration_nanos(b)
        }),
{
    let x = a.as_nanos();
    let y = b.as_nanos();
    if x <= y {
        Duration::new(0, 0)
    } else {
        duration_of(x - y)
    }
}

/// A logical clock: how far it has been moved.
#[derive(Debug, Clone, Copy, PartialEq, Eq)]
pub struct VirtualClock {
    offset: Duration,
}

impl View for VirtualClock {
    type V = nat;

    /// The nanoseconds that the clock shows.
    closed spec fn view(&self) -> nat {
        duration_nanos(self.offset) as nat
    }
}

impl Default for VirtualClock {
    fn default() -> (r: Self)
        ensures
            r@ == 0,
    {
        VirtualClock::new()
    }
}

impl VirtualClock {
    /// A clock that shows zero.
    pub fn new() -> (r: Self)
        ensures
            r@ == 0,
    {
        VirtualClock { offset: Duration::new(0, 0) }
    }

    /// What the clock shows.
    pub fn now(&self) -> (d: Duration)
        ensures
            duration_nanos(d) == self@,
    {
        self.offset
    }

    /// Moves the clock forward.
    pub fn advance(&mut self, d: Duration)
        requires
            old(self)@ + duration_nanos(d) <= longest_nanos(),
        ensures
            final(self)@ == old(self)@ + duration_nanos(d),
    {
        let sum = self.offset.as_nanos() + d.as_nanos();
        self.offset = duration_of(sum);
    }

    /// Moves the clock forward, unless it cannot show that.
    pub fn try_advance(&mut self, d: Duration) -> (r: bool)
        ensures
            r == (old(self)@ + duration_nanos(d) <= longest_nanos()),
            final(self)@ == (if r {
                old(self)@ + duration_nanos(d)
            } else {
                old(self)@ as int
            }),
    {
        let now = self.offset.as_nanos();
        let by = d.as_nanos();
        if by > LONGEST_NANOS - now {
            return false;
        }
        self.advance(d);
        true
    }

    /// Moves the clock to a time.
    pub fn set(&mut self, t: Duration)
        ensures
            final(self)@ == duration_nanos(t),
    {
        self.offset = t;
    }
}

} // verus!
