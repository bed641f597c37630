//! The timers of a machine: which one goes off next, and what that means.
//!
//! A driver arms a timer for each [`crate::interpreter::Request::ArmTimer`], waits
//! until the next one is due, and does what [`Timers::go_off`] says. In real time
//! a timer goes off twice: first what runs above it is told to stop, and if it has
//! not stopped after a grace period, it is given up. With a virtual clock it is
//! given up at once.

use std::time::Duration;
use vstd::prelude::*;

use crate::virtual_clock::saturating_sum;

verus! {

/// The nanoseconds that something which was told to stop may take.
pub const GRACE_NANOS: u32 = 500_000_000;

/// A timer that was armed.
#[derive(Debug)]
struct Timer {
    level: usize,
    at: Duration,
    expired: bool,
}

/// What a timer holds: the level of its frame, the nanosecond at which it goes off
/// next, and whether what runs above it was told to stop.
pub struct TimerView {
    pub level: usize,
    pub at: nat,
    pub expired: bool,
}

impl View for Timer {
    type V = TimerView;

    closed spec fn view(&self) -> TimerView {
        TimerView {
            level: self.level,
            at: crate::virtual_clock::duration_nanos(self.at) as nat,
            expired: self.expired,
        }
    }
}

/// The timers of a machine, in the order in which they were armed.
#[derive(Debug)]
pub struct Timers {
    entries: Vec<Timer>,
}

impl View for Timers {
    type V = Seq<TimerView>;

    closed spec fn view(&self) -> Seq<TimerView> {
        self.entries@.map_values(|t: Timer| t@)
    }
}

/// What a driver does when a timer goes off.
#[derive(Debug, Clone, Copy, PartialEq, Eq, Structural)]
pub enum Alarm {
    /// What runs above this level is told to stop.
    Expire(usize),
    /// What runs above this level is given up.
    Abandon(usize),
}

/// The timer that goes off first; of several, the one armed first.
pub open spec fn earliest(s: Seq<TimerView>) -> Option<int>
    decreases s.len(),
{
    if s.len() == 0 {
        None
    } else {
        match earliest(s.drop_last()) {
            Some(i) => if s.last().at < s[i].at {
                Some(s.len() - 1)
            } else {
                Some(i)
            },
            None => Some(s.len() - 1),
        }
    }
}

/// The timers once those from a level on have expired. One that had expired before
/// goes off when it would have.
pub open spec fn expired_at(s: Seq<TimerView>, level: usize, now: nat) -> Seq<TimerView> {
    s.map_values(
        |t: TimerView|
            if t.level >= level && !t.expired {
                TimerView {
                    at: crate::semantics::deadline_of(now, GRACE_NANOS as nat),
                    expired: true,
                    ..t
                }
            } else {
                t
            },
    )
}

/// What it means if a timer goes off at this time.
pub open spec fn alarm(s: Seq<TimerView>, now: nat, real_time: bool) -> Option<Alarm> {
    match earliest(s) {
        Some(i) => if s[i].at > now {
            None
        } else if real_time && !s[i].expired {
            Some(Alarm::Expire(s[i].level))
        } else {
            Some(Alarm::Abandon(s[i].level))
        },
        None => None,
    }
}

/// The timer that goes off first is one of the timers, and none goes off before it.
proof fn lemma_earliest(s: Seq<TimerView>)
    ensures
        earliest(s) is None <==> s.len() == 0,
        earliest(s) matches Some(i) ==> 0 <= i < s.len() && forall|j: int|
            0 <= j < s.len() ==> s[i].at <= (#[trigger] s[j]).at,
    decreases s.len(),
{
    if s.len() > 0 {
        let before = s.drop_last();
        lemma_earliest(before);
        assert forall|j: int| 0 <= j < s.len() implies s[earliest(s)->0].at <= (
        #[trigger] s[j]).at by {
            if j < before.len() {
                assert(before[j] == s[j]);
            }
        }
    }
}

impl Timers {
    /// No timers.
    pub fn new() -> (r: Self)
        ensures
            r@ == Seq::<TimerView>::empty(),
    {
        let r = Timers { entries: Vec::new() };
        assert(r@ =~= Seq::empty());
        r
    }

    /// Arms a timer for a level.
    pub fn arm(&mut self, level: usize, now: Duration, duration: Duration)
        ensures
            final(self)@ == old(self)@.push(
                TimerView {
                    level,
                    at: crate::semantics::deadline_of(
                        crate::virtual_clock::duration_nanos(now) as nat,
                        crate::virtual_clock::duration_nanos(duration) as nat,
                    ),
                    expired: false,
                },
            ),
    {
        let at = saturating_sum(now, duration);
        self.entries.push(Timer { level, at, expired: false });
        assert(self@ =~= old(self)@.push(self.entries@.last()@));
    }

    /// Drops the timers whose frames are gone: those of a machine of this height.
    pub fn keep_below(&mut self, height: usize)
        ensures
            final(self)@ == old(self)@.filter(|t: TimerView| t.level < height),
    {
        let ghost all = old(self)@;
        let ghost keep = |t: TimerView| t.level < height;
        let mut kept: Vec<Timer> = Vec::new();
        let mut i: usize = 0;
        proof {
            reveal(Seq::filter);
            assert(all.take(0).filter(keep) =~= Seq::empty());
        }
        while i < self.entries.len()
            invariant
                i <= self.entries@.len(),
                self.entries@ == old(self).entries@,
                all == old(self)@,
                keep == (|t: TimerView| t.level < height),
                kept@.map_values(|t: Timer| t@) == all.take(i as int).filter(keep),
            decreases self.entries@.len() - i,
        {
            let t = &self.entries[i];
            proof {
                reveal(Seq::filter);
                assert(all.take(i + 1).drop_last() =~= all.take(i as int));
                assert(all.take(i + 1).last() == t@);
            }
            if t.level < height {
                let copy = Timer { level: t.level, at: t.at, expired: t.expired };
                let ghost before = kept@;
                kept.push(copy);
                assert(kept@.map_values(|t: Timer| t@) =~= before.map_values(|t: Timer| t@).push(
                    copy@,
                ));
            }
            i += 1;
        }
        assert(all.take(all.len() as int) =~= all);
        self.entries = kept;
    }

    /// The index of the timer that goes off first.
    fn first(&self) -> (r: Option<usize>)
        ensures
            match r {
                Some(i) => earliest(self@) == Some(i as int) && i < self.entries@.len(),
                None => self@.len() == 0,
            },
    {
        if self.entries.len() == 0 {
            return None;
        }
        let mut first: usize = 0;
        let mut i: usize = 1;
        proof {
            reveal_with_fuel(earliest, 2);
            assert(self@.take(1).drop_last() =~= Seq::empty());
        }
        while i < self.entries.len()
            invariant
                first < i <= self.entries@.len(),
                earliest(self@.take(i as int)) == Some(first as int),
            decreases self.entries@.len() - i,
        {
            proof {
                assert(self@.take(i + 1).drop_last() =~= self@.take(i as int));
                assert(self@.take(i + 1)[first as int] == self@[first as int]);
            }
            if self.entries[i].at.as_nanos() < self.entries[first].at.as_nanos() {
                first = i;
            }
            i += 1;
        }
        assert(self@.take(i as int) =~= self@);
        Some(first)
    }

    /// When the next timer goes off.
    pub fn next_time(&self) -> (r: Option<Duration>)
        ensures
            match r {
                Some(d) => earliest(self@) matches Some(i)
                    && crate::virtual_clock::duration_nanos(d) == self@[i].at,
                None => self@.len() == 0,
            },
    {
        match self.first() {
            Some(i) => Some(self.entries[i].at),
            None => None,
        }
    }

    /// Lets the timers from a level on expire. What runs above them is told to stop
    /// by other means.
    pub fn expire_from(&mut self, level: usize, now: Duration)
        ensures
            final(self)@ == expired_at(
                old(self)@,
                level,
                crate::virtual_clock::duration_nanos(now) as nat,
            ),
    {
        let at = saturating_sum(now, Duration::new(0, GRACE_NANOS));
        let ghost goal = expired_at(
            self@,
            level,
            crate::virtual_clock::duration_nanos(now) as nat,
        );
        let mut i: usize = 0;
        while i < self.entries.len()
            invariant
                i <= self.entries@.len(),
                self.entries@.len() == old(self).entries@.len(),
                goal == expired_at(
                    old(self)@,
                    level,
                    crate::virtual_clock::duration_nanos(now) as nat,
                ),
                crate::virtual_clock::duration_nanos(at) == crate::semantics::deadline_of(
                    crate::virtual_clock::duration_nanos(now) as nat,
                    GRACE_NANOS as nat,
                ),
                forall|j: int|
                    0 <= j < i ==> (#[trigger] self.entries@[j])@ == goal[j],
                forall|j: int|
                    i <= j < self.entries@.len() ==> #[trigger] self.entries@[j] == old(
                        self,
                    ).entries@[j],
            decreases self.entries@.len() - i,
        {
            if self.entries[i].level >= level && !self.entries[i].expired {
                self.entries[i].expired = true;
                self.entries[i].at = at;
            }
            i += 1;
        }
        assert(self@ =~= goal);
    }

    /// What it means that it is now this time, if a timer has gone off.
    pub fn go_off(&mut self, now: Duration, real_time: bool) -> (r: Option<Alarm>)
        ensures
            r == alarm(
                old(self)@,
                crate::virtual_clock::duration_nanos(now) as nat,
                real_time,
            ),
            final(self)@ == (match r {
                Some(Alarm::Expire(level)) => expired_at(
                    old(self)@,
                    level,
                    crate::virtual_clock::duration_nanos(now) as nat,
                ),
                _ => old(self)@,
            }),
    {
        let i = match self.first() {
            Some(i) => i,
            None => {
                return None;
            },
        };
        let level = self.entries[i].level;
        if self.entries[i].at.as_nanos() > now.as_nanos() {
            None
        } else if real_time && !self.entries[i].expired {
            self.expire_from(level, now);
            Some(Alarm::Expire(level))
        } else {
            Some(Alarm::Abandon(level))
        }
    }
}

/// Nothing goes off before its time: an alarm is that of a timer which is due, and
/// as long as no timer is due, there is none.
pub proof fn law_nothing_goes_off_early(s: Seq<TimerView>, now: nat, real_time: bool)
    ensures
        match alarm(s, now, real_time) {
            Some(Alarm::Expire(level)) => exists|i: int|
                0 <= i < s.len() && (#[trigger] s[i]).level == level && s[i].at <= now
                    && !s[i].expired,
            Some(Alarm::Abandon(level)) => exists|i: int|
                0 <= i < s.len() && (#[trigger] s[i]).level == level && s[i].at <= now && (
                s[i].expired || !real_time),
            None => forall|i: int| 0 <= i < s.len() ==> now < (#[trigger] s[i]).at,
        },
{
    lemma_earliest(s);
    if let Some(i) = earliest(s) {
        assert(s[i].at <= now || now < s[i].at);
    }
}

/// What is told to stop has time to: once the timers from a level on have expired,
/// none of them that had not expired before is a reason to give anything up until
/// the grace period is over. What is told to stop is told so once.
pub proof fn law_time_to_stop(s: Seq<TimerView>, level: usize, now: nat, later: nat)
    requires
        forall|i: int| 0 <= i < s.len() ==> !(#[trigger] s[i]).expired,
        later < crate::semantics::deadline_of(now, GRACE_NANOS as nat),
    ensures
        match alarm(expired_at(s, level, now), later, true) {
            Some(Alarm::Expire(l)) => l < level,
            Some(Alarm::Abandon(_)) => false,
            None => true,
        },
{
    let t = expired_at(s, level, now);
    lemma_earliest(t);
    if let Some(i) = earliest(t) {
        assert(t[i] == if s[i].level >= level {
            TimerView {
                at: crate::semantics::deadline_of(now, GRACE_NANOS as nat),
                expired: true,
                ..s[i]
            }
        } else {
            s[i]
        });
    }
}

/// With a virtual clock nothing is told to stop: what is late is given up.
pub proof fn law_virtual_time_gives_up_at_once(s: Seq<TimerView>, now: nat)
    ensures
        !(alarm(s, now, false) matches Some(Alarm::Expire(_))),
{
}

/// A timer is due when its duration has passed since it was armed, or at the latest
/// time there is.
pub proof fn law_due_time(now: nat, nanos: nat)
    ensures
        now + nanos <= 18_446_744_073_709_551_615_999_999_999 ==> crate::semantics::deadline_of(
            now,
            nanos,
        ) == now + nanos,
        now + nanos > 18_446_744_073_709_551_615_999_999_999 ==> crate::semantics::deadline_of(
            now,
            nanos,
        ) == 18_446_744_073_709_551_615_999_999_999,
{
}

/// Of several timers the one that is due first goes off, and of those that are due
/// at one time the one that was armed first.
pub proof fn law_first_due_goes_off(s: Seq<TimerView>, now: nat, real_time: bool, i: int)
    requires
        0 <= i < s.len(),
        s[i].at <= now,
        forall|j: int| 0 <= j < s.len() ==> s[i].at <= (#[trigger] s[j]).at,
        forall|j: int| 0 <= j < i ==> s[i].at < (#[trigger] s[j]).at,
    ensures
        earliest(s) == Some(i),
        alarm(s, now, real_time) == Some(
            if real_time && !s[i].expired {
                Alarm::Expire(s[i].level)
            } else {
                Alarm::Abandon(s[i].level)
            },
        ),
{
    lemma_first_of_earliest(s, i);
}

proof fn lemma_first_of_earliest(s: Seq<TimerView>, i: int)
    requires
        0 <= i < s.len(),
        forall|j: int| 0 <= j < s.len() ==> s[i].at <= (#[trigger] s[j]).at,
        forall|j: int| 0 <= j < i ==> s[i].at < (#[trigger] s[j]).at,
    ensures
        earliest(s) == Some(i),
    decreases s.len(),
{
    let before = s.drop_last();
    lemma_earliest(before);
    assert(forall|j: int| 0 <= j < before.len() ==> #[trigger] before[j] == s[j]);
    assert(s.last() == s[s.len() - 1]);
    if i < before.len() {
        lemma_first_of_earliest(before, i);
    } else if before.len() > 0 {
        let k = earliest(before)->0;
        assert(s[k] == before[k]);
        assert(s[i].at < s[k].at);
    }
}

/// Expiring tells each timer from a level on, once: it then has half a second more.
/// One that was told before keeps its time, and so does one further down.
pub proof fn law_told_once(s: Seq<TimerView>, level: usize, now: nat, i: int)
    requires
        0 <= i < s.len(),
        now + 500_000_000 <= 18_446_744_073_709_551_615_999_999_999,
    ensures
        expired_at(s, level, now).len() == s.len(),
        expired_at(s, level, now)[i].level == s[i].level,
        expired_at(s, level, now)[i].expired == (s[i].expired || s[i].level >= level),
        expired_at(s, level, now)[i].at == (if s[i].level >= level && !s[i].expired {
            now + 500_000_000
        } else {
            s[i].at
        }),
{
}

} // verus!
