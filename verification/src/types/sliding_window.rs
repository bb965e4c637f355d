//! The sliding-window counter: the previous window counts by the share of it
//! that still overlaps the window ending now.

use crate::clock::duration_as_millis;
use crate::types::codec::{decode, encode, lemma_decode_encode};
use crate::types::fixed_window::FixedWindowInstance;
use crate::types::{admitted, stored_after, LimiterInstance, LimiterType, RateLimiterError};
use std::time::Duration;
use vstd::prelude::*;

verus! {

/// The parameters of a sliding-window counter.
#[derive(Debug, Clone, Copy)]
pub struct SlidingWindowCounter {
    pub threshold: u32,
    pub window_millis: u128,
}

impl SlidingWindowCounter {
    /// A window of no length is no configuration, nor is one so long that
    /// twice its length, or `threshold` times its length, does not fit the
    /// integers that the counts are weighed in.
    pub open spec fn valid_config(threshold: u32, window_millis: u128) -> bool {
        &&& window_millis > 0
        &&& 2 * window_millis <= u128::MAX
        &&& threshold * window_millis <= u128::MAX
    }

    pub fn new(threshold: u32, window_length: Duration) -> (r: Self)
        requires
            Self::valid_config(threshold, duration_as_millis(window_length)),
        ensures
            r.threshold == threshold,
            r.window_millis == duration_as_millis(window_length),
            r.wf(),
    {
        SlidingWindowCounter { threshold, window_millis: window_length.as_millis() }
    }

    /// The limiter for these parameters, or nothing when they are no
    /// configuration.
    pub fn try_new(threshold: u32, window_length: Duration) -> (r: Option<Self>)
        ensures
            r is Some <==> Self::valid_config(threshold, duration_as_millis(window_length)),
            r is Some ==> r.unwrap().threshold == threshold && r.unwrap().window_millis
                == duration_as_millis(window_length) && r.unwrap().wf(),
    {
        let millis = window_length.as_millis();
        assert(threshold * millis == millis * threshold) by (nonlinear_arith);
        if millis > 0 && millis.checked_add(millis).is_some() && millis.checked_mul(
            threshold as u128,
        ).is_some() {
            Some(Self::new(threshold, window_length))
        } else {
            None
        }
    }

    /// The two windows in force at `now`: the stored ones, shifted by one
    /// when the current window ended before `now`. A key with nothing stored
    /// starts with two empty windows at `now`.
    pub open spec fn windows_at(self, prev: Option<SlidingWindowInstance>, now: u128)
        -> SlidingWindowInstance {
        let fresh = FixedWindowInstance { window_start: now, count: 0 };
        match prev {
            Some(p) => if p.current.window_start + self.window_millis < now {
                SlidingWindowInstance { current: fresh, previous: p.current }
            } else {
                p
            },
            None => SlidingWindowInstance { current: fresh, previous: fresh },
        }
    }

    /// The milliseconds of the previous window that lie after the start of
    /// the window which ends at `now`.
    pub open spec fn overlap(self, previous_start: u128, now: u128) -> nat {
        let start = now - self.window_millis;
        let previous_end = previous_start + self.window_millis;
        if previous_end > start {
            (previous_end - start) as nat
        } else {
            0
        }
    }

    /// The weighted count, times the window length: the previous window's
    /// count by its overlap, and the current window's count in full.
    pub open spec fn weighted(self, s: SlidingWindowInstance, now: u128) -> int {
        s.previous.count * self.overlap(s.previous.window_start, now) + s.current.count
            * self.window_millis
    }

    /// The state after one admitted request at `now`, or nothing when the
    /// weighted count has reached the threshold.
    pub open spec fn next(self, prev: Option<SlidingWindowInstance>, now: u128) -> Option<
        SlidingWindowInstance,
    > {
        let s = self.windows_at(prev, now);
        if self.weighted(s, now) >= self.threshold * self.window_millis {
            None
        } else {
            Some(
                SlidingWindowInstance {
                    current: FixedWindowInstance {
                        window_start: s.current.window_start,
                        count: (s.current.count + 1) as u32,
                    },
                    previous: s.previous,
                },
            )
        }
    }

    /// `next` as an outcome.
    pub open spec fn outcome(self, prev: Option<SlidingWindowInstance>, now: u128) -> Result<
        LimiterInstance,
        RateLimiterError,
    > {
        match self.next(prev, now) {
            Some(n) => Ok(LimiterInstance::SlidingWindowInstance(n)),
            None => Err(RateLimiterError::RateExceeded),
        }
    }

    /// Whether the previous window, by its overlap, fills the room that the
    /// current window leaves under the threshold.
    fn previous_fills(&self, previous: &FixedWindowInstance, now: u128, room: u128) -> (r: bool)
        requires
            self.wf(),
            room > 0,
        ensures
            r == (previous.count * self.overlap(previous.window_start, now) >= room),
    {
        let ghost overlap = self.overlap(previous.window_start, now);
        if previous.count == 0 {
            assert(previous.count * overlap == 0) by (nonlinear_arith)
                requires
                    previous.count == 0,
            ;
            return false;
        }
        let twice: u128 = self.window_millis + self.window_millis;
        let ahead: u128 = if now >= previous.window_start {
            let behind = now - previous.window_start;
            if behind >= twice {
                0
            } else {
                twice - behind
            }
        } else {
            match twice.checked_add(previous.window_start - now) {
                Some(a) => a,
                None => {
                    assert(previous.count * overlap >= room) by (nonlinear_arith)
                        requires
                            previous.count >= 1,
                            overlap > u128::MAX,
                            room <= u128::MAX,
                    ;
                    return true;
                },
            }
        };
        assert(ahead == overlap);
        match ahead.checked_mul(previous.count as u128) {
            Some(weight) => {
                assert(previous.count * overlap == overlap * previous.count) by (nonlinear_arith);
                weight >= room
            },
            None => {
                assert(previous.count * overlap == overlap * previous.count) by (nonlinear_arith);
                true
            },
        }
    }
}

impl LimiterType for SlidingWindowCounter {
    open spec fn wf(&self) -> bool {
        &&& self.window_millis > 0
        &&& 2 * self.window_millis <= u128::MAX
        &&& self.threshold * self.window_millis <= u128::MAX
    }

    open spec fn verdict(&self, stored: Option<Seq<u8>>, now: u128) -> Result<
        LimiterInstance,
        RateLimiterError,
    > {
        match stored {
            None => self.outcome(None, now),
            Some(b) => match decode(b) {
                Ok(LimiterInstance::SlidingWindowInstance(i)) => self.outcome(Some(i), now),
                Ok(_) => Err(RateLimiterError::WrongLimiterInstanceType),
                Err(e) => Err(e),
            },
        }
    }

    fn is_valid(&self) -> (r: bool) {
        assert(self.threshold * self.window_millis == self.window_millis * self.threshold)
            by (nonlinear_arith);
        self.window_millis > 0 && self.window_millis.checked_add(self.window_millis).is_some()
            && self.window_millis.checked_mul(self.threshold as u128).is_some()
    }

    fn is_rate_limited_now(&self, now: u128, value: Option<Vec<u8>>) -> (r: Result<
        LimiterInstance,
        RateLimiterError,
    >) {
        let fresh = FixedWindowInstance { window_start: now, count: 0 };
        let mut instance = match value {
            Some(b) => {
                let stored = match self.window_instance(b) {
                    Ok(i) => i,
                    Err(e) => return Err(e),
                };
                match stored.as_sliding_window_instance() {
                    Ok(i) => i,
                    Err(e) => return Err(e),
                }
            },
            None => SlidingWindowInstance { current: fresh, previous: fresh },
        };
        if now > instance.current.window_start && now - instance.current.window_start
            > self.window_millis {
            instance.previous = instance.current;
            instance.current = fresh;
        }
        let ghost s = instance;
        let ghost limit = self.threshold * self.window_millis;
        let ghost from_previous = s.previous.count * self.overlap(s.previous.window_start, now);
        if instance.current.count >= self.threshold {
            assert(s.current.count * self.window_millis >= limit) by (nonlinear_arith)
                requires
                    s.current.count >= self.threshold,
                    limit == self.threshold * self.window_millis,
            ;
            assert(from_previous >= 0) by (nonlinear_arith)
                requires
                    from_previous == s.previous.count * self.overlap(s.previous.window_start, now),
            ;
            return Err(RateLimiterError::RateExceeded);
        }
        let left: u32 = self.threshold - instance.current.count;
        assert(left * self.window_millis == limit - s.current.count * self.window_millis
            && left * self.window_millis > 0) by (nonlinear_arith)
            requires
                left == self.threshold - s.current.count,
                left > 0,
                self.window_millis > 0,
                limit == self.threshold * self.window_millis,
        ;
        let room: u128 = left as u128 * self.window_millis;
        if self.previous_fills(&instance.previous, now, room) {
            return Err(RateLimiterError::RateExceeded);
        }
        instance.current.count += 1;
        Ok(LimiterInstance::SlidingWindowInstance(instance))
    }
}

/// What a sliding window remembers of one key: two adjacent windows.
#[derive(Debug, Clone, Copy, PartialEq, Eq, Structural)]
pub struct SlidingWindowInstance {
    pub current: FixedWindowInstance,
    pub previous: FixedWindowInstance,
}

impl SlidingWindowInstance {
    pub fn current_window(&self) -> (r: &FixedWindowInstance)
        ensures
            *r == self.current,
    {
        &self.current
    }

    pub fn previous_window(&self) -> (r: &FixedWindowInstance)
        ensures
            *r == self.previous,
    {
        &self.previous
    }
}

/// The bytes of a stored sliding window.
pub open spec fn stored_windows(s: SlidingWindowInstance) -> Option<Seq<u8>> {
    Some(encode(LimiterInstance::SlidingWindowInstance(s)))
}

proof fn lemma_full_window_denies(limiter: SlidingWindowCounter, s: SlidingWindowInstance, now: u128)
    requires
        s.current.count >= limiter.threshold,
    ensures
        limiter.weighted(s, now) >= limiter.threshold * limiter.window_millis,
{
    let overlap = limiter.overlap(s.previous.window_start, now);
    assert(s.previous.count * overlap >= 0) by (nonlinear_arith);
    assert(s.current.count * limiter.window_millis >= limiter.threshold * limiter.window_millis)
        by (nonlinear_arith)
        requires
            s.current.count >= limiter.threshold,
    ;
}

/// Requests that all come before the stored current window has ended, in any
/// order, raise its count one by one and never beyond the threshold: at most
/// `threshold` minus the count so far are admitted, whatever the previous
/// window adds to the weighted count.
pub proof fn lemma_sliding_window_bound(
    limiter: SlidingWindowCounter,
    start: SlidingWindowInstance,
    times: Seq<u128>,
)
    requires
        limiter.wf(),
        forall|i: int|
            0 <= i < times.len() ==> #[trigger] times[i] <= start.current.window_start
                + limiter.window_millis,
    ensures
        start.current.count >= limiter.threshold ==> admitted(
            limiter,
            stored_windows(start),
            times,
        ) == 0,
        start.current.count < limiter.threshold ==> start.current.count + admitted(
            limiter,
            stored_windows(start),
            times,
        ) <= limiter.threshold,
    decreases times.len(),
{
    if times.len() > 0 {
        lemma_decode_encode(LimiterInstance::SlidingWindowInstance(start));
        let rest = times.drop_first();
        assert forall|i: int| 0 <= i < rest.len() implies #[trigger] rest[i]
            <= start.current.window_start + limiter.window_millis by {
            assert(rest[i] == times[i + 1]);
        }
        assert(limiter.windows_at(Some(start), times[0]) == start);
        if start.current.count >= limiter.threshold {
            lemma_full_window_denies(limiter, start, times[0]);
        }
        match limiter.next(Some(start), times[0]) {
            Some(n) => {
                assert(stored_after(limiter, stored_windows(start), times[0]) == stored_windows(
                    n,
                ));
                lemma_sliding_window_bound(limiter, n, rest);
            },
            None => {
                assert(stored_after(limiter, stored_windows(start), times[0]) == stored_windows(
                    start,
                ));
                lemma_sliding_window_bound(limiter, start, rest);
            },
        }
    }
}

/// On a key with nothing stored, of the requests that come before the window
/// which the first of them opens has ended, at most `threshold` are admitted.
pub proof fn lemma_sliding_window_bound_fresh(limiter: SlidingWindowCounter, times: Seq<u128>)
    requires
        limiter.wf(),
        times.len() > 0,
        forall|i: int|
            0 <= i < times.len() ==> #[trigger] times[i] <= times[0] + limiter.window_millis,
    ensures
        admitted(limiter, None, times) <= limiter.threshold,
{
    let rest = times.drop_first();
    let opened = FixedWindowInstance { window_start: times[0], count: 0 };
    let empty = SlidingWindowInstance { current: opened, previous: opened };
    lemma_decode_encode(LimiterInstance::SlidingWindowInstance(empty));
    assert(limiter.windows_at(Some(empty), times[0]) == empty);
    assert(limiter.verdict(None, times[0]) == limiter.verdict(stored_windows(empty), times[0]));
    match limiter.next(None, times[0]) {
        Some(n) => {
            assert(admitted(limiter, None, times) == admitted(
                limiter,
                stored_windows(empty),
                times,
            ));
            lemma_sliding_window_bound(limiter, empty, times);
        },
        None => {
            assert(opened.count * limiter.overlap(times[0], times[0]) == 0) by (nonlinear_arith)
                requires
                    opened.count == 0,
            ;
            assert(opened.count * limiter.window_millis == 0) by (nonlinear_arith)
                requires
                    opened.count == 0,
            ;
            assert(limiter.threshold == 0) by (nonlinear_arith)
                requires
                    0 >= limiter.threshold * limiter.window_millis,
                    limiter.window_millis > 0,
            ;
            lemma_closed_window(limiter, None, times);
        },
    }
}

/// A threshold of zero admits nothing, whatever is stored.
pub proof fn lemma_closed_window(
    limiter: SlidingWindowCounter,
    stored: Option<Seq<u8>>,
    times: Seq<u128>,
)
    requires
        limiter.threshold == 0,
    ensures
        admitted(limiter, stored, times) == 0,
    decreases times.len(),
{
    if times.len() > 0 {
        match stored {
            Some(b) => match decode(b) {
                Ok(LimiterInstance::SlidingWindowInstance(i)) => {
                    lemma_full_window_denies(
                        limiter,
                        limiter.windows_at(Some(i), times[0]),
                        times[0],
                    );
                },
                _ => {},
            },
            None => {
                lemma_full_window_denies(limiter, limiter.windows_at(None, times[0]), times[0]);
            },
        }
        assert(limiter.verdict(stored, times[0]) is Err);
        lemma_closed_window(limiter, stored, times.drop_first());
    }
}

/// The stored state of another algorithm is of the wrong type, whatever
/// the time.
pub proof fn lemma_sliding_window_rejects_others(limiter: SlidingWindowCounter, state: LimiterInstance, now: u128)
    requires
        !(state is SlidingWindowInstance),
    ensures
        limiter.verdict(Some(encode(state)), now) == Err::<LimiterInstance, RateLimiterError>(
            RateLimiterError::WrongLimiterInstanceType,
        ),
{
    lemma_decode_encode(state);
}

/// Whether the previous window, if it counts at all, ended before the
/// current one began.
pub open spec fn windows_apart(limiter: SlidingWindowCounter, s: SlidingWindowInstance) -> bool {
    s.previous.count == 0 || s.previous.window_start + limiter.window_millis
        < s.current.window_start
}

/// From a key with nothing stored, and as long as no request comes before
/// the start of the current window, the two windows stay apart, and the
/// previous window weighs by less than its count: the overlap is a share of
/// the window, and a window that starts with the key weighs nothing.
pub proof fn lemma_weight_is_a_share(
    limiter: SlidingWindowCounter,
    prev: Option<SlidingWindowInstance>,
    now: u128,
)
    requires
        limiter.wf(),
        prev matches Some(p) ==> windows_apart(limiter, p) && p.current.window_start <= now,
    ensures
        ({
            let s = limiter.windows_at(prev, now);
            &&& windows_apart(limiter, s)
            &&& s.current.window_start <= now
            &&& s.previous.count * limiter.overlap(s.previous.window_start, now)
                <= s.previous.count * limiter.window_millis
            &&& limiter.weighted(s, now) <= (s.previous.count + s.current.count)
                * limiter.window_millis
        }),
        limiter.next(prev, now) matches Some(n) ==> windows_apart(limiter, n)
            && n.current.window_start <= now,
{
    let s = limiter.windows_at(prev, now);
    let overlap = limiter.overlap(s.previous.window_start, now);
    let w = limiter.window_millis;
    if s.previous.count == 0 {
        assert(s.previous.count * overlap == 0) by (nonlinear_arith)
            requires
                s.previous.count == 0,
        ;
        assert(s.previous.count * w == 0) by (nonlinear_arith)
            requires
                s.previous.count == 0,
        ;
    } else {
        assert(overlap <= w);
        assert(s.previous.count * overlap <= s.previous.count * w) by (nonlinear_arith)
            requires
                overlap <= w,
                s.previous.count >= 0,
        ;
    }
    assert((s.previous.count + s.current.count) * w == s.previous.count * w + s.current.count
        * w) by (nonlinear_arith);
}

/// An admitted request adds one window length to the weighted count, which
/// was below the threshold: after it, the weighted count is below the
/// threshold and one.
pub proof fn lemma_weighted_count_after(
    limiter: SlidingWindowCounter,
    prev: Option<SlidingWindowInstance>,
    now: u128,
)
    ensures
        limiter.next(prev, now) matches Some(n) ==> limiter.weighted(n, now) == limiter.weighted(
            limiter.windows_at(prev, now),
            now,
        ) + limiter.window_millis && limiter.weighted(n, now) < (limiter.threshold + 1)
            * limiter.window_millis,
{
    let s = limiter.windows_at(prev, now);
    let w = limiter.window_millis as int;
    if limiter.weighted(s, now) < limiter.threshold * w {
        let overlap = limiter.overlap(s.previous.window_start, now);
        assert(s.previous.count * overlap >= 0) by (nonlinear_arith);
        assert(s.current.count * w < limiter.threshold * w);
        assert(s.current.count < limiter.threshold) by (nonlinear_arith)
            requires
                s.current.count * w < limiter.threshold * w,
                w >= 0,
        ;
        assert((s.current.count + 1) * w == s.current.count * w + w) by (nonlinear_arith);
        assert((limiter.threshold + 1) * w == limiter.threshold * w + w) by (nonlinear_arith);
    }
}

} // verus!
