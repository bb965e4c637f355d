//! The leaky bucket: a request fills the bucket by one, and one request
//! leaks out every leak period.

use crate::clock::duration_as_millis;
use crate::types::codec::{decode, encode, lemma_decode_encode};
use crate::types::{
    admitted, elapsed, elapsed_millis, non_decreasing, stored_after, LimiterInstance, LimiterType,
    RateLimiterError,
};
use std::time::Duration;
use vstd::prelude::*;

verus! {

/// The parameters of a leaky bucket.
#[derive(Debug, Clone, Copy)]
pub struct LeakyBucket {
    pub capacity: u32,
    pub leak_millis: u128,
}

impl LeakyBucket {
    /// A leak period of no length is no configuration.
    pub open spec fn valid_config(capacity: u32, leak_millis: u128) -> bool {
        leak_millis > 0
    }

    pub fn new(capacity: u32, leak_frequency: Duration) -> (r: Self)
        requires
            Self::valid_config(capacity, duration_as_millis(leak_frequency)),
        ensures
            r.capacity == capacity,
            r.leak_millis == duration_as_millis(leak_frequency),
            r.wf(),
    {
        LeakyBucket { capacity, leak_millis: leak_frequency.as_millis() }
    }

    /// The limiter for these parameters, or nothing when they are no
    /// configuration.
    pub fn try_new(capacity: u32, leak_frequency: Duration) -> (r: Option<Self>)
        ensures
            r is Some <==> Self::valid_config(capacity, duration_as_millis(leak_frequency)),
            r is Some ==> r.unwrap().capacity == capacity && r.unwrap().leak_millis
                == duration_as_millis(leak_frequency) && r.unwrap().wf(),
    {
        if leak_frequency.as_millis() > 0 {
            Some(Self::new(capacity, leak_frequency))
        } else {
            None
        }
    }

    /// What is left in the bucket at `now`: one request has leaked for every
    /// whole leak period since the last leak, down to an empty bucket.
    pub open spec fn remaining(self, p: LeakyBucketInstance, now: u128) -> nat {
        let leaked = elapsed_millis(p.last_leaked, now) as nat / self.leak_millis as nat;
        if leaked >= p.processed {
            0
        } else {
            (p.processed - leaked) as nat
        }
    }

    /// The state after one admitted request at `now`, or nothing when the
    /// bucket is full after leaking.
    pub open spec fn next(self, prev: Option<LeakyBucketInstance>, now: u128) -> Option<
        LeakyBucketInstance,
    > {
        let p = match prev {
            Some(p) => p,
            None => LeakyBucketInstance { processed: 0, last_leaked: now },
        };
        let left = self.remaining(p, now);
        if left >= self.capacity {
            None
        } else {
            Some(LeakyBucketInstance { processed: (left + 1) as u32, last_leaked: now })
        }
    }

    /// `next` as an outcome.
    pub open spec fn outcome(self, prev: Option<LeakyBucketInstance>, now: u128) -> Result<
        LimiterInstance,
        RateLimiterError,
    > {
        match self.next(prev, now) {
            Some(n) => Ok(LimiterInstance::LeakyBucketInstance(n)),
            None => Err(RateLimiterError::RateExceeded),
        }
    }
}

impl LimiterType for LeakyBucket {
    open spec fn wf(&self) -> bool {
        self.leak_millis > 0
    }

    open spec fn verdict(&self, stored: Option<Seq<u8>>, now: u128) -> Result<
        LimiterInstance,
        RateLimiterError,
    > {
        match stored {
            None => self.outcome(None, now),
            Some(b) => match decode(b) {
                Ok(LimiterInstance::LeakyBucketInstance(i)) => self.outcome(Some(i), now),
                Ok(_) => Err(RateLimiterError::WrongLimiterInstanceType),
                Err(e) => Err(e),
            },
        }
    }

    fn is_valid(&self) -> (r: bool) {
        self.leak_millis > 0
    }

    fn is_rate_limited_now(&self, now: u128, value: Option<Vec<u8>>) -> (r: Result<
        LimiterInstance,
        RateLimiterError,
    >) {
        let mut instance = match value {
            Some(b) => {
                let stored = match self.window_instance(b) {
                    Ok(i) => i,
                    Err(e) => return Err(e),
                };
                match stored.as_leaky_bucket_instance() {
                    Ok(i) => i,
                    Err(e) => return Err(e),
                }
            },
            None => LeakyBucketInstance { processed: 0, last_leaked: now },
        };
        let leaked = elapsed(instance.last_leaked, now) / self.leak_millis;
        if leaked >= instance.processed as u128 {
            instance.processed = 0;
        } else {
            instance.processed = instance.processed - (leaked as u32);
        }
        instance.last_leaked = now;
        if instance.processed >= self.capacity {
            return Err(RateLimiterError::RateExceeded);
        }
        instance.processed += 1;
        Ok(LimiterInstance::LeakyBucketInstance(instance))
    }
}

/// What a leaky bucket remembers of one key.
#[derive(Debug, Clone, Copy, PartialEq, Eq, Structural)]
pub struct LeakyBucketInstance {
    pub processed: u32,
    pub last_leaked: u128,
}

impl LeakyBucketInstance {
    pub fn new(last_leaked: u128, processed: u32) -> (r: Self)
        ensures
            r == (LeakyBucketInstance { processed, last_leaked }),
    {
        LeakyBucketInstance { processed, last_leaked }
    }

    pub fn processed(&self) -> (r: u32)
        ensures
            r == self.processed,
    {
        self.processed
    }

    pub fn last_leaked(&self) -> (r: u128)
        ensures
            r == self.last_leaked,
    {
        self.last_leaked
    }
}

/// The bytes of a stored leaky bucket.
pub open spec fn stored_bucket(b: LeakyBucketInstance) -> Option<Seq<u8>> {
    Some(encode(LimiterInstance::LeakyBucketInstance(b)))
}

/// The room that a bucket with `processed` requests in it has left.
pub open spec fn room(capacity: u32, processed: u32) -> nat {
    if processed >= capacity {
        0
    } else {
        (capacity - processed) as nat
    }
}

proof fn lemma_periods_add_up(a: nat, b: nat, m: nat)
    requires
        m > 0,
    ensures
        a / m + b / m <= (a + b) / m,
{
    let qa = a / m;
    let qb = b / m;
    assert(a == m * qa + a % m && b == m * qb + b % m) by (nonlinear_arith)
        requires
            m > 0,
            qa == a / m,
            qb == b / m,
    ;
    assert((qa + qb) * m <= a + b) by (nonlinear_arith)
        requires
            a == m * qa + a % m,
            b == m * qb + b % m,
            a % m >= 0,
            b % m >= 0,
    ;
    vstd::arithmetic::div_mod::lemma_div_is_ordered(((qa + qb) * m) as int, (a + b) as int, m as int);
    vstd::arithmetic::div_mod::lemma_div_multiples_vanish((qa + qb) as int, m as int);
}

/// Over requests whose times never go back, from a stored bucket that last
/// leaked no later than the first of them: the admitted ones are at most the
/// room that the bucket had, and one more for every whole leak period between
/// that last leak and the last request.
pub proof fn lemma_leaky_bucket_bound(
    limiter: LeakyBucket,
    start: LeakyBucketInstance,
    times: Seq<u128>,
)
    requires
        limiter.wf(),
        times.len() > 0,
        non_decreasing(times),
        start.last_leaked <= times[0],
    ensures
        admitted(limiter, stored_bucket(start), times) <= room(limiter.capacity, start.processed)
            + (times.last() - start.last_leaked) / limiter.leak_millis as int,
    decreases times.len(),
{
    lemma_decode_encode(LimiterInstance::LeakyBucketInstance(start));
    let m = limiter.leak_millis as nat;
    let t0 = times[0];
    let rest = times.drop_first();
    let whole = (times.last() - start.last_leaked) as nat;
    assert(times[0] <= times[times.len() - 1]);
    if rest.len() > 0 {
        assert(rest.last() == times.last());
        assert(rest[0] == times[1]);
        assert(times[0] <= times[1]);
        assert forall|i: int, j: int| 0 <= i <= j < rest.len() implies rest[i] <= rest[j] by {
            assert(rest[i] == times[i + 1] && rest[j] == times[j + 1]);
        }
    }
    match limiter.next(Some(start), t0) {
        Some(n) => {
            assert(stored_after(limiter, stored_bucket(start), t0) == stored_bucket(n));
            let first = (t0 - start.last_leaked) as nat;
            if rest.len() > 0 {
                lemma_leaky_bucket_bound(limiter, n, rest);
                let later = (times.last() - t0) as nat;
                lemma_periods_add_up(first, later, m);
                assert(first + later == whole);
            } else {
                assert(admitted(limiter, stored_bucket(n), rest) == 0);
                assert(first == whole);
            }
        },
        None => {
            assert(stored_after(limiter, stored_bucket(start), t0) == stored_bucket(start));
            if rest.len() > 0 {
                lemma_leaky_bucket_bound(limiter, start, rest);
            } else {
                assert(admitted(limiter, stored_bucket(start), rest) == 0);
            }
        },
    }
}

/// Over requests whose times never go back, on a key with nothing stored: at
/// most `capacity` are admitted, and one more for every whole leak period
/// between the first request and the last.
pub proof fn lemma_leaky_bucket_bound_fresh(limiter: LeakyBucket, times: Seq<u128>)
    requires
        limiter.wf(),
        times.len() > 0,
        non_decreasing(times),
    ensures
        admitted(limiter, None, times) <= limiter.capacity + (times.last() - times[0])
            / limiter.leak_millis as int,
{
    let empty = LeakyBucketInstance { processed: 0, last_leaked: times[0] };
    lemma_decode_encode(LimiterInstance::LeakyBucketInstance(empty));
    if limiter.capacity == 0 {
        lemma_never_admitted(limiter, None, times);
        assert(times[0] <= times[times.len() - 1]);
        vstd::arithmetic::div_mod::lemma_div_pos_is_pos(
            times.last() - times[0],
            limiter.leak_millis as int,
        );
    } else {
        assert(limiter.verdict(None, times[0]) is Ok);
        assert(limiter.verdict(None, times[0]) == limiter.verdict(stored_bucket(empty), times[0]));
        assert(admitted(limiter, None, times) == admitted(limiter, stored_bucket(empty), times));
        lemma_leaky_bucket_bound(limiter, empty, times);
    }
}

/// A capacity of zero admits nothing, whatever is stored.
pub proof fn lemma_never_admitted(limiter: LeakyBucket, stored: Option<Seq<u8>>, times: Seq<u128>)
    requires
        limiter.capacity == 0,
    ensures
        admitted(limiter, stored, times) == 0,
    decreases times.len(),
{
    if times.len() > 0 {
        assert(limiter.verdict(stored, times[0]) is Err);
        lemma_never_admitted(limiter, stored, times.drop_first());
    }
}

/// The stored state of another algorithm is of the wrong type, whatever
/// the time.
pub proof fn lemma_leaky_bucket_rejects_others(limiter: LeakyBucket, state: LimiterInstance, now: u128)
    requires
        !(state is LeakyBucketInstance),
    ensures
        limiter.verdict(Some(encode(state)), now) == Err::<LimiterInstance, RateLimiterError>(
            RateLimiterError::WrongLimiterInstanceType,
        ),
{
    lemma_decode_encode(state);
}

/// A state that the bucket writes holds no more requests than the capacity.
pub proof fn lemma_fill_within_capacity(
    limiter: LeakyBucket,
    prev: Option<LeakyBucketInstance>,
    now: u128,
)
    ensures
        limiter.next(prev, now) matches Some(n) ==> 1 <= n.processed <= limiter.capacity
            && n.last_leaked == now,
{
}

} // verus!
