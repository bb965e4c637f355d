//! The fixed window: at most `threshold` requests per window.

use crate::clock::duration_as_millis;
use crate::types::codec::{decode, encode, lemma_decode_encode};
use crate::types::{
    admitted, elapsed, elapsed_millis, stored_after, LimiterInstance, LimiterType,
    RateLimiterError,
};
use std::time::Duration;
use vstd::prelude::*;

verus! {

/// The parameters of a fixed window.
#[derive(Debug, Clone, Copy)]
pub struct FixedWindow {
    pub threshold: u32,
    pub window_millis: u128,
}

impl FixedWindow {
    /// A window of no length is no configuration.
    pub open spec fn valid_config(threshold: u32, window_millis: u128) -> bool {
        window_millis > 0
    }

    pub fn new(threshold: u32, window_length: Duration) -> (r: Self)
        requires
            Self::valid_config(threshold, duration_as_millis(window_length)),
        ensures
            r.threshold == threshold,
            r.window_millis == duration_as_millis(window_length),
            r.wf(),
    {
        FixedWindow { threshold, window_millis: window_length.as_millis() }
    }

    /// The limiter for these parameters, or nothing when they are no
    /// configuration.
    pub fn try_new(threshold: u32, window_length: Duration) -> (r: Option<Self>)
        ensures
            r is Some <==> Self::valid_config(threshold, duration_as_millis(window_length)),
            r is Some ==> r.unwrap().threshold == threshold && r.unwrap().window_millis
                == duration_as_millis(window_length) && r.unwrap().wf(),
    {
        if window_length.as_millis() > 0 {
            Some(Self::new(threshold, window_length))
        } else {
            None
        }
    }

    /// The window in force at `now`: the stored one, or one that starts at
    /// `now` when nothing is stored or the stored one has run out.
    pub open spec fn window_at(self, prev: Option<FixedWindowInstance>, now: u128)
        -> FixedWindowInstance {
        let fresh = FixedWindowInstance { window_start: now, count: 0 };
        match prev {
            Some(p) => if elapsed_millis(p.window_start, now) >= self.window_millis {
                fresh
            } else {
                p
            },
            None => fresh,
        }
    }

    /// The state after one admitted request at `now`, or nothing when the
    /// window in force already holds `threshold` requests.
    pub open spec fn next(self, prev: Option<FixedWindowInstance>, now: u128) -> Option<
        FixedWindowInstance,
    > {
        let w = self.window_at(prev, now);
        if w.count >= self.threshold {
            None
        } else {
            Some(FixedWindowInstance { window_start: w.window_start, count: (w.count + 1) as u32 })
        }
    }

    /// `next` as an outcome.
    pub open spec fn outcome(self, prev: Option<FixedWindowInstance>, now: u128) -> Result<
        LimiterInstance,
        RateLimiterError,
    > {
        match self.next(prev, now) {
            Some(n) => Ok(LimiterInstance::FixedWindowInstance(n)),
            None => Err(RateLimiterError::RateExceeded),
        }
    }
}

impl LimiterType for FixedWindow {
    open spec fn wf(&self) -> bool {
        self.window_millis > 0
    }

    open spec fn verdict(&self, stored: Option<Seq<u8>>, now: u128) -> Result<
        LimiterInstance,
        RateLimiterError,
    > {
        match stored {
            None => self.outcome(None, now),
            Some(b) => match decode(b) {
                Ok(LimiterInstance::FixedWindowInstance(i)) => self.outcome(Some(i), now),
                Ok(_) => Err(RateLimiterError::WrongLimiterInstanceType),
                Err(e) => Err(e),
            },
        }
    }

    fn is_valid(&self) -> (r: bool) {
        self.window_millis > 0
    }

    fn is_rate_limited_now(&self, now: u128, value: Option<Vec<u8>>) -> (r: Result<
        LimiterInstance,
        RateLimiterError,
    >) {
        let mut instance = match value {
            Some(b) => {
                let stored = match self.window_instance(b) {
                    Ok(i) => i,
                    Err(e) => return Err(e),
                };
                match stored.as_fixed_window_instance() {
                    Ok(i) => i,
                    Err(e) => return Err(e),
                }
            },
            None => FixedWindowInstance { window_start: now, count: 0 },
        };
        if elapsed(instance.window_start, now) >= self.window_millis {
            instance.window_start = now;
            instance.count = 0;
        }
        if instance.count >= self.threshold {
            return Err(RateLimiterError::RateExceeded);
        }
        instance.count += 1;
        Ok(LimiterInstance::FixedWindowInstance(instance))
    }
}

/// What a fixed window remembers of one key.
#[derive(Debug, Clone, Copy, PartialEq, Eq, Structural)]
pub struct FixedWindowInstance {
    pub window_start: u128,
    pub count: u32,
}

impl FixedWindowInstance {
    pub fn new(window_start: u128, count: u32) -> (r: Self)
        ensures
            r == (FixedWindowInstance { window_start, count }),
    {
        FixedWindowInstance { window_start, count }
    }

    pub fn window_start(&self) -> (r: u128)
        ensures
            r == self.window_start,
    {
        self.window_start
    }

    pub fn window_count(&self) -> (r: u32)
        ensures
            r == self.count,
    {
        self.count
    }
}

/// The bytes of a stored fixed window.
pub open spec fn stored_window(w: FixedWindowInstance) -> Option<Seq<u8>> {
    Some(encode(LimiterInstance::FixedWindowInstance(w)))
}

/// Requests that all fall into the window of the stored state, in any order,
/// raise its count one by one and never beyond the threshold: at most
/// `threshold` minus the count so far are admitted.
pub proof fn lemma_fixed_window_bound(
    limiter: FixedWindow,
    start: FixedWindowInstance,
    times: Seq<u128>,
)
    requires
        limiter.wf(),
        forall|i: int|
            0 <= i < times.len() ==> elapsed_millis(start.window_start, #[trigger] times[i])
                < limiter.window_millis,
    ensures
        start.count >= limiter.threshold ==> admitted(limiter, stored_window(start), times) == 0,
        start.count < limiter.threshold ==> start.count + admitted(
            limiter,
            stored_window(start),
            times,
        ) <= limiter.threshold,
    decreases times.len(),
{
    if times.len() > 0 {
        lemma_decode_encode(LimiterInstance::FixedWindowInstance(start));
        let rest = times.drop_first();
        assert forall|i: int| 0 <= i < rest.len() implies elapsed_millis(
            start.window_start,
            #[trigger] rest[i],
        ) < limiter.window_millis by {
            assert(rest[i] == times[i + 1]);
        }
        assert(limiter.window_at(Some(start), times[0]) == start);
        match limiter.next(Some(start), times[0]) {
            Some(n) => {
                assert(stored_after(limiter, stored_window(start), times[0]) == stored_window(n));
                lemma_fixed_window_bound(limiter, n, rest);
            },
            None => {
                assert(stored_after(limiter, stored_window(start), times[0]) == stored_window(
                    start,
                ));
                lemma_fixed_window_bound(limiter, start, rest);
            },
        }
    }
}

/// On a key with nothing stored, of the requests that fall into the window
/// which the first of them opens, at most `threshold` are admitted.
pub proof fn lemma_fixed_window_bound_fresh(limiter: FixedWindow, times: Seq<u128>)
    requires
        limiter.wf(),
        times.len() > 0,
        forall|i: int|
            0 <= i < times.len() ==> elapsed_millis(times[0], #[trigger] times[i])
                < limiter.window_millis,
    ensures
        admitted(limiter, None, times) <= limiter.threshold,
{
    let rest = times.drop_first();
    assert forall|i: int| 0 <= i < rest.len() implies elapsed_millis(
        times[0],
        #[trigger] rest[i],
    ) < limiter.window_millis by {
        assert(rest[i] == times[i + 1]);
    }
    match limiter.next(None, times[0]) {
        Some(n) => {
            assert(stored_after(limiter, None, times[0]) == stored_window(n));
            lemma_fixed_window_bound(limiter, n, rest);
        },
        None => {
            assert(limiter.threshold == 0);
            lemma_always_denied(limiter, None, rest);
        },
    }
}

/// A threshold of zero admits nothing, whatever is stored.
pub proof fn lemma_always_denied(limiter: FixedWindow, stored: Option<Seq<u8>>, times: Seq<u128>)
    requires
        limiter.threshold == 0,
    ensures
        admitted(limiter, stored, times) == 0,
    decreases times.len(),
{
    if times.len() > 0 {
        assert(limiter.verdict(stored, times[0]) is Err);
        lemma_always_denied(limiter, stored, times.drop_first());
    }
}

/// The stored state of another algorithm is of the wrong type, whatever
/// the time.
pub proof fn lemma_fixed_window_rejects_others(limiter: FixedWindow, state: LimiterInstance, now: u128)
    requires
        !(state is FixedWindowInstance),
    ensures
        limiter.verdict(Some(encode(state)), now) == Err::<LimiterInstance, RateLimiterError>(
            RateLimiterError::WrongLimiterInstanceType,
        ),
{
    lemma_decode_encode(state);
}

/// A state that the window writes counts no more requests than the
/// threshold.
pub proof fn lemma_count_within_threshold(
    limiter: FixedWindow,
    prev: Option<FixedWindowInstance>,
    now: u128,
)
    ensures
        limiter.next(prev, now) matches Some(n) ==> 1 <= n.count <= limiter.threshold,
{
}

/// What a stored window can still admit before it runs out, and one full
/// window after it.
pub open spec fn two_windows(limiter: FixedWindow, start: FixedWindowInstance) -> nat {
    if start.count >= limiter.threshold {
        limiter.threshold as nat
    } else {
        (limiter.threshold - start.count + limiter.threshold) as nat
    }
}

/// Over requests whose times never go back and of which the last comes less
/// than a window's length after `from`, a time no later than the first: the
/// stored window runs out at most once, so at most what it can still admit
/// and one full window more are admitted. Across the boundary of two
/// windows, that is up to twice the threshold.
pub proof fn lemma_fixed_window_span_bound(
    limiter: FixedWindow,
    start: FixedWindowInstance,
    times: Seq<u128>,
    from: u128,
)
    requires
        limiter.wf(),
        times.len() > 0,
        crate::types::non_decreasing(times),
        from <= times[0],
        times.last() - from < limiter.window_millis,
    ensures
        admitted(limiter, stored_window(start), times) <= two_windows(limiter, start),
    decreases times.len(),
{
    lemma_decode_encode(LimiterInstance::FixedWindowInstance(start));
    let t0 = times[0];
    let rest = times.drop_first();
    assert(times[0] <= times[times.len() - 1]);
    assert forall|i: int| 0 <= i < rest.len() implies t0 <= #[trigger] rest[i] && rest[i]
        <= times.last() by {
        assert(rest[i] == times[i + 1]);
        assert(times[0] <= times[i + 1]);
        assert(times[i + 1] <= times[times.len() - 1]);
    }
    if rest.len() > 0 {
        assert(rest.last() == times.last());
        assert forall|i: int, j: int| 0 <= i <= j < rest.len() implies rest[i] <= rest[j] by {
            assert(rest[i] == times[i + 1] && rest[j] == times[j + 1]);
        }
    } else {
        assert(admitted(limiter, stored_window(start), rest) == 0);
    }
    let w = limiter.window_at(Some(start), t0);
    match limiter.next(Some(start), t0) {
        Some(n) => {
            assert(stored_after(limiter, stored_window(start), t0) == stored_window(n));
            if w == start {
                if rest.len() > 0 {
                    lemma_fixed_window_span_bound(limiter, n, rest, from);
                } else {
                    assert(admitted(limiter, stored_window(n), rest) == 0);
                }
            } else {
                // the stored window has run out: the rest falls into the new one
                lemma_fixed_window_bound(limiter, n, rest);
            }
        },
        None => {
            assert(stored_after(limiter, stored_window(start), t0) == stored_window(start));
            if w == start {
                if rest.len() > 0 {
                    lemma_fixed_window_span_bound(limiter, start, rest, from);
                }
            } else {
                assert(limiter.threshold == 0);
                lemma_always_denied(limiter, stored_window(start), times);
            }
        },
    }
}

} // verus!
