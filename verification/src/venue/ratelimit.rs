//! A budget of request weight per rolling window. Accounting only: the time comes in, a verdict goes
//! out.

use vstd::prelude::*;

use crate::venue::clock::{clamped, later};

verus! {

/// The weight a venue grants per window where nothing else is said.
pub const DEFAULT_WEIGHT_BUDGET: u32 = 1_200;

/// The length of the window where nothing else is said, in milliseconds.
pub const DEFAULT_WINDOW_MS: i64 = 60_000;

/// The verdict on a request.
#[derive(Debug, Clone, Copy, PartialEq, Eq, Structural)]
pub enum Acquire {
    /// The weight fitted and was charged.
    Ready,
    /// Nothing was charged; ask again at this instant.
    WaitUntil(i64),
}

/// The state of a limiter.
pub struct Budget {
    /// The weight granted per window.
    pub budget: int,
    /// The length of the window in milliseconds.
    pub window_ms: int,
    /// When the current window began.
    pub window_start_ms: int,
    /// The weight charged in the current window.
    pub used: int,
    /// The instant before which the venue admits nothing.
    pub next_allowed_ms: int,
}

/// A limiter that has charged nothing yet.
pub open spec fn fresh(budget: int, window_ms: int) -> Budget {
    Budget {
        budget,
        window_ms,
        window_start_ms: i64::MIN as int,
        used: 0,
        next_allowed_ms: i64::MIN as int,
    }
}

/// When the current window ends.
pub open spec fn window_end(s: Budget) -> int {
    clamped(s.window_start_ms + s.window_ms)
}

/// The state with a new window begun at `now` where the current one has ended.
pub open spec fn rolled(s: Budget, now: int) -> Budget {
    if now >= window_end(s) {
        Budget { window_start_ms: now, used: 0, ..s }
    } else {
        s
    }
}

/// What asking for `weight` at `now` comes to.
pub open spec fn acquired(s: Budget, weight: int, now: int) -> (Budget, Acquire) {
    let t = rolled(s, now);
    if now < s.next_allowed_ms {
        (s, Acquire::WaitUntil(s.next_allowed_ms as i64))
    } else if t.used + weight <= t.budget {
        (Budget { used: t.used + weight, ..t }, Acquire::Ready)
    } else {
        (t, Acquire::WaitUntil(window_end(t) as i64))
    }
}

/// The state after the venue has said that nothing is admitted before `until`.
pub open spec fn floored(s: Budget, until: int) -> Budget {
    Budget {
        next_allowed_ms: if until > s.next_allowed_ms {
            until
        } else {
            s.next_allowed_ms
        },
        ..s
    }
}

/// Whether a state is one a limiter can be in.
pub open spec fn is_budget(s: Budget) -> bool {
    &&& 0 <= s.used <= s.budget <= u32::MAX
    &&& i64::MIN <= s.window_ms <= i64::MAX
    &&& i64::MIN <= s.window_start_ms <= i64::MAX
    &&& i64::MIN <= s.next_allowed_ms <= i64::MAX
}

/// A budget of request weight per rolling window.
#[derive(Debug)]
pub struct RateLimiter {
    budget: u32,
    window_ms: i64,
    window_start_ms: i64,
    used: u32,
    next_allowed_ms: i64,
}

impl View for RateLimiter {
    type V = Budget;

    closed spec fn view(&self) -> Budget {
        Budget {
            budget: self.budget as int,
            window_ms: self.window_ms as int,
            window_start_ms: self.window_start_ms as int,
            used: self.used as int,
            next_allowed_ms: self.next_allowed_ms as int,
        }
    }
}

impl RateLimiter {
    #[verifier::type_invariant]
    closed spec fn within_budget(self) -> bool {
        self.used <= self.budget
    }

    /// A limiter that grants `budget` per `window_ms`.
    pub fn new(budget: u32, window_ms: i64) -> (r: RateLimiter)
        ensures
            r@ == fresh(budget as int, window_ms as int),
    {
        RateLimiter {
            budget,
            window_ms,
            window_start_ms: i64::MIN,
            used: 0,
            next_allowed_ms: i64::MIN,
        }
    }

    /// A limiter with the default budget and window.
    pub fn with_defaults() -> (r: RateLimiter)
        ensures
            r@ == fresh(DEFAULT_WEIGHT_BUDGET as int, DEFAULT_WINDOW_MS as int),
    {
        RateLimiter::new(DEFAULT_WEIGHT_BUDGET, DEFAULT_WINDOW_MS)
    }

    /// Asks for `weight` at `now_ms`: charges it where it fits and the venue holds nothing back, and
    /// says when to ask again where not.
    pub fn acquire(&mut self, weight: u32, now_ms: i64) -> (r: Acquire)
        ensures
            (final(self)@, r) == acquired(old(self)@, weight as int, now_ms as int),
            is_budget(final(self)@),
    {
        proof {
            use_type_invariant(&*self);
        }
        if now_ms < self.next_allowed_ms {
            return Acquire::WaitUntil(self.next_allowed_ms);
        }
        if now_ms >= later(self.window_start_ms, self.window_ms) {
            self.used = 0;
            self.window_start_ms = now_ms;
        }
        if weight <= self.budget - self.used {
            self.used = self.used + weight;
            Acquire::Ready
        } else {
            Acquire::WaitUntil(later(self.window_start_ms, self.window_ms))
        }
    }

    /// Records that the venue admits nothing before `until_ms`.
    pub fn note_retry_after(&mut self, until_ms: i64)
        ensures
            final(self)@ == floored(old(self)@, until_ms as int),
    {
        proof {
            use_type_invariant(&*self);
        }
        if until_ms > self.next_allowed_ms {
            self.next_allowed_ms = until_ms;
        }
    }

    /// The weight granted per window. A request that weighs more never fits.
    pub fn budget(&self) -> (r: u32)
        ensures
            r == self@.budget,
            is_budget(self@),
    {
        proof {
            use_type_invariant(self);
        }
        self.budget
    }
}

impl Clone for RateLimiter {
    fn clone(&self) -> (r: RateLimiter)
        ensures
            r@ == self@,
    {
        proof {
            use_type_invariant(self);
        }
        RateLimiter {
            budget: self.budget,
            window_ms: self.window_ms,
            window_start_ms: self.window_start_ms,
            used: self.used,
            next_allowed_ms: self.next_allowed_ms,
        }
    }
}

/// A window never grants more than its budget, and only a granted request is charged.
pub proof fn law_charges_stay_within_the_budget(s: Budget, weight: int, now: int)
    requires
        is_budget(s),
        0 <= weight <= u32::MAX,
        i64::MIN <= now <= i64::MAX,
    ensures
        is_budget(acquired(s, weight, now).0),
        acquired(s, weight, now).1 == Acquire::Ready ==> acquired(s, weight, now).0.used
            == rolled(s, now).used + weight,
        acquired(s, weight, now).1 != Acquire::Ready ==> acquired(s, weight, now).0.used <= s.used,
        acquired(s, weight, now).0.budget == s.budget,
{
}

/// A request that fits in an empty window is delayed, never dropped: it is granted at the latest when
/// asked for a third time, each time no earlier than it was told to.
pub proof fn law_a_request_is_delayed_never_dropped(
    s: Budget,
    weight: int,
    first: int,
    second: int,
    third: int,
)
    requires
        is_budget(s),
        0 <= weight <= s.budget,
        i64::MIN <= first <= i64::MAX,
        i64::MIN <= second <= i64::MAX,
        i64::MIN <= third <= i64::MAX,
        acquired(s, weight, first).1 matches Acquire::WaitUntil(d) ==> second >= d,
        acquired(acquired(s, weight, first).0, weight, second).1 matches Acquire::WaitUntil(d)
            ==> third >= d,
    ensures
        ({
            let a = acquired(s, weight, first);
            let b = acquired(a.0, weight, second);
            let c = acquired(b.0, weight, third);
            a.1 == Acquire::Ready || b.1 == Acquire::Ready || c.1 == Acquire::Ready
        }),
{
}

/// Nothing is granted before the instant the venue named, and a later, earlier-lying instant does not
/// bring it forward.
pub proof fn law_retry_after_is_honoured(s: Budget, until: int, again: int, weight: int, now: int)
    requires
        is_budget(s),
        i64::MIN <= until <= i64::MAX,
        i64::MIN <= again <= i64::MAX,
        now < until,
    ensures
        acquired(floored(s, until), weight, now).1 matches Acquire::WaitUntil(d) && d >= until,
        acquired(floored(floored(s, until), again), weight, now).1 matches Acquire::WaitUntil(d)
            && d >= until,
        acquired(floored(s, until), weight, now).0 == floored(s, until),
{
}

/// A request is granted exactly if the venue holds nothing back and the weight fits into what is left of the
/// window, or into the whole budget once the window is over. What is not granted is told the instant the
/// venue named, or else the end of the window that is running.
pub proof fn law_a_grant_needs_time_and_budget(s: Budget, weight: int, now: int)
    requires
        is_budget(s),
        0 <= weight,
        i64::MIN <= now <= i64::MAX,
        s.window_start_ms + s.window_ms <= i64::MAX,
        now + s.window_ms <= i64::MAX,
        s.window_ms > 0,
    ensures
        ({
            let (after, verdict) = acquired(s, weight, now);
            let over = now >= s.window_start_ms + s.window_ms;
            let left = if over {
                s.budget
            } else {
                s.budget - s.used
            };
            &&& verdict == Acquire::Ready <==> now >= s.next_allowed_ms && weight <= left
            &&& now < s.next_allowed_ms ==> verdict == Acquire::WaitUntil(s.next_allowed_ms as i64)
                && after == s
            &&& now >= s.next_allowed_ms && weight > left ==> verdict == Acquire::WaitUntil(
                (if over {
                    now + s.window_ms
                } else {
                    s.window_start_ms + s.window_ms
                }) as i64,
            )
            &&& verdict == Acquire::Ready ==> after.budget - after.used == left - weight
            &&& now >= s.next_allowed_ms ==> after.window_start_ms == (if over {
                now
            } else {
                s.window_start_ms
            })
            &&& after.next_allowed_ms == s.next_allowed_ms
            &&& after.window_ms == s.window_ms
        }),
{
}

/// A limiter starts with its whole budget and nothing held back.
pub proof fn law_a_fresh_limiter_grants_its_budget(budget: int, window_ms: int, weight: int, now: int)
    requires
        0 <= budget <= u32::MAX,
        0 <= window_ms <= i64::MAX,
        i64::MIN <= now <= i64::MAX,
    ensures
        acquired(fresh(budget, window_ms), weight, now).1 == Acquire::Ready <==> weight <= budget,
{
}

} // verus!
