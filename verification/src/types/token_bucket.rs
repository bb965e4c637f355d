//! The token bucket: a request spends one token, and one token comes back
//! every fill period, up to the capacity.

use crate::clock::duration_as_millis;
use crate::types::codec::{decode, encode, lemma_decode_encode};
use crate::types::{
    admitted, elapsed, elapsed_millis, non_decreasing, stored_after, LimiterInstance, LimiterType,
    RateLimiterError,
};
use std::time::Duration;
use vstd::prelude::*;

verus! {

/// The parameters of a token bucket.
#[derive(Debug, Clone, Copy)]
pub struct TokenBucket {
    pub capacity: u32,
    pub fill_millis: u128,
}

impl TokenBucket {
    /// A fill period of no length is no configuration, nor is a bucket whose
    /// full content, counted in milliseconds of fill time, does not fit the
    /// stored field.
    pub open spec fn valid_config(capacity: u32, fill_millis: u128) -> bool {
        fill_millis > 0 && capacity * fill_millis <= u128::MAX
    }

    pub fn new(capacity: u32, fill_frequency: Duration) -> (r: Self)
        requires
            Self::valid_config(capacity, duration_as_millis(fill_frequency)),
        ensures
            r.capacity == capacity,
            r.fill_millis == duration_as_millis(fill_frequency),
            r.wf(),
    {
        TokenBucket { capacity, fill_millis: fill_frequency.as_millis() }
    }

    /// The limiter for these parameters, or nothing when they are no
    /// configuration.
    pub fn try_new(capacity: u32, fill_frequency: Duration) -> (r: Option<Self>)
        ensures
            r is Some <==> Self::valid_config(capacity, duration_as_millis(fill_frequency)),
            r is Some ==> r.unwrap().capacity == capacity && r.unwrap().fill_millis
                == duration_as_millis(fill_frequency) && r.unwrap().wf(),
    {
        let millis = fill_frequency.as_millis();
        if millis > 0 && millis.checked_mul(capacity as u128).is_some() {
            assert(capacity * millis == millis * capacity) by (nonlinear_arith);
            Some(Self::new(capacity, fill_frequency))
        } else {
            assert(capacity * millis == millis * capacity) by (nonlinear_arith);
            None
        }
    }

    /// The content of a full bucket, in milliseconds of fill time.
    pub open spec fn full(self) -> nat {
        (self.capacity * self.fill_millis) as nat
    }

    /// The content of the bucket at `now`: the stored credit and the time
    /// since the last admitted request, up to a full bucket.
    pub open spec fn refilled(self, p: TokenBucketInstance, now: u128) -> nat {
        let grown = p.credit + elapsed_millis(p.last_access, now);
        if grown >= self.full() {
            self.full()
        } else {
            grown as nat
        }
    }

    /// The state after one admitted request at `now`, or nothing when the
    /// bucket holds less than one token. A key with nothing stored starts
    /// with a full bucket.
    pub open spec fn next(self, prev: Option<TokenBucketInstance>, now: u128) -> Option<
        TokenBucketInstance,
    > {
        let content = match prev {
            Some(p) => self.refilled(p, now),
            None => self.full(),
        };
        if content < self.fill_millis {
            None
        } else {
            Some(
                TokenBucketInstance {
                    credit: (content - self.fill_millis) as u128,
                    last_access: now,
                },
            )
        }
    }

    /// `next` as an outcome.
    pub open spec fn outcome(self, prev: Option<TokenBucketInstance>, now: u128) -> Result<
        LimiterInstance,
        RateLimiterError,
    > {
        match self.next(prev, now) {
            Some(n) => Ok(LimiterInstance::TokenBucketInstance(n)),
            None => Err(RateLimiterError::RateExceeded),
        }
    }

    /// The whole tokens that a stored bucket holds.
    pub fn whole_tokens(&self, instance: &TokenBucketInstance) -> (r: u128)
        requires
            self.wf(),
        ensures
            r == instance.credit / self.fill_millis,
    {
        instance.credit / self.fill_millis
    }
}

impl LimiterType for TokenBucket {
    open spec fn wf(&self) -> bool {
        self.fill_millis > 0 && self.capacity * self.fill_millis <= u128::MAX
    }

    open spec fn verdict(&self, stored: Option<Seq<u8>>, now: u128) -> Result<
        LimiterInstance,
        RateLimiterError,
    > {
        match stored {
            None => self.outcome(None, now),
            Some(b) => match decode(b) {
                Ok(LimiterInstance::TokenBucketInstance(i)) => self.outcome(Some(i), now),
                Ok(_) => Err(RateLimiterError::WrongLimiterInstanceType),
                Err(e) => Err(e),
            },
        }
    }

    fn is_valid(&self) -> (r: bool) {
        assert(self.capacity * self.fill_millis == self.fill_millis * self.capacity)
            by (nonlinear_arith);
        self.fill_millis > 0 && self.fill_millis.checked_mul(self.capacity as u128).is_some()
    }

    fn is_rate_limited_now(&self, now: u128, value: Option<Vec<u8>>) -> (r: Result<
        LimiterInstance,
        RateLimiterError,
    >) {
        let full: u128 = self.capacity as u128 * self.fill_millis;
        let content: u128 = match value {
            Some(b) => {
                let stored = match self.window_instance(b) {
                    Ok(i) => i,
                    Err(e) => return Err(e),
                };
                let instance = match stored.as_token_bucket_instance() {
                    Ok(i) => i,
                    Err(e) => return Err(e),
                };
                let passed = elapsed(instance.last_access, now);
                if instance.credit >= full || passed >= full - instance.credit {
                    full
                } else {
                    instance.credit + passed
                }
            },
            None => full,
        };
        if content < self.fill_millis {
            return Err(RateLimiterError::RateExceeded);
        }
        Ok(
            LimiterInstance::TokenBucketInstance(
                TokenBucketInstance { credit: content - self.fill_millis, last_access: now },
            ),
        )
    }
}

/// What a token bucket remembers of one key.
///
/// `credit` is the bucket's content in milliseconds of fill time: one token
/// is worth one fill period, so a part of a token is kept exactly.
#[derive(Debug, Clone, Copy, PartialEq, Eq, Structural)]
pub struct TokenBucketInstance {
    pub credit: u128,
    pub last_access: u128,
}

impl TokenBucketInstance {
    pub fn new(last_access: u128, credit: u128) -> (r: Self)
        ensures
            r == (TokenBucketInstance { credit, last_access }),
    {
        TokenBucketInstance { credit, last_access }
    }

    pub fn credit(&self) -> (r: u128)
        ensures
            r == self.credit,
    {
        self.credit
    }

    pub fn last_access(&self) -> (r: u128)
        ensures
            r == self.last_access,
    {
        self.last_access
    }
}

/// The bytes of a stored token bucket.
pub open spec fn stored_tokens(b: TokenBucketInstance) -> Option<Seq<u8>> {
    Some(encode(LimiterInstance::TokenBucketInstance(b)))
}

/// The part of a stored credit that counts: no more than a full bucket.
pub open spec fn usable(limiter: TokenBucket, credit: u128) -> nat {
    if credit >= limiter.full() {
        limiter.full()
    } else {
        credit as nat
    }
}

/// Over requests whose times never go back, from a stored bucket last used no
/// later than the first of them: the fill time that the admitted requests
/// spend is at most the credit that counted at the start and the time from
/// that last use to the last request.
pub proof fn lemma_token_bucket_spend(
    limiter: TokenBucket,
    start: TokenBucketInstance,
    times: Seq<u128>,
)
    requires
        limiter.wf(),
        times.len() > 0,
        non_decreasing(times),
        start.last_access <= times[0],
    ensures
        admitted(limiter, stored_tokens(start), times) * limiter.fill_millis <= usable(
            limiter,
            start.credit,
        ) + (times.last() - start.last_access),
    decreases times.len(),
{
    lemma_decode_encode(LimiterInstance::TokenBucketInstance(start));
    let t0 = times[0];
    let rest = times.drop_first();
    let fill = limiter.fill_millis as int;
    assert(times[0] <= times[times.len() - 1]);
    if rest.len() > 0 {
        assert(rest.last() == times.last());
        assert(rest[0] == times[1]);
        assert(times[0] <= times[1]);
        assert forall|i: int, j: int| 0 <= i <= j < rest.len() implies rest[i] <= rest[j] by {
            assert(rest[i] == times[i + 1] && rest[j] == times[j + 1]);
        }
    }
    match limiter.next(Some(start), t0) {
        Some(n) => {
            assert(stored_after(limiter, stored_tokens(start), t0) == stored_tokens(n));
            let later = admitted(limiter, stored_tokens(n), rest);
            assert(admitted(limiter, stored_tokens(start), times) == 1 + later);
            if rest.len() > 0 {
                lemma_token_bucket_spend(limiter, n, rest);
            } else {
                assert(later == 0);
            }
            assert((1 + later) * fill == fill + later * fill) by (nonlinear_arith);
        },
        None => {
            assert(stored_after(limiter, stored_tokens(start), t0) == stored_tokens(start));
            if rest.len() > 0 {
                lemma_token_bucket_spend(limiter, start, rest);
            } else {
                assert(admitted(limiter, stored_tokens(start), rest) == 0);
            }
        },
    }
}

proof fn lemma_tokens_from_spend(count: nat, capacity: nat, span: nat, fill: nat)
    requires
        fill > 0,
        count * fill <= capacity * fill + span,
    ensures
        count <= capacity + span / fill,
{
    let q = span / fill;
    assert(span == fill * q + span % fill && 0 <= span % fill < fill) by (nonlinear_arith)
        requires
            fill > 0,
            q == span / fill,
    ;
    assert(count <= capacity + q) by (nonlinear_arith)
        requires
            fill > 0,
            count * fill <= capacity * fill + span,
            span == fill * q + span % fill,
            0 <= span % fill < fill,
    ;
}

/// From a full bucket, over requests whose times never go back: at most
/// `capacity` are admitted, and one more for every whole fill period between
/// the bucket's last use and the last request.
pub proof fn lemma_token_bucket_bound(
    limiter: TokenBucket,
    start: TokenBucketInstance,
    times: Seq<u128>,
)
    requires
        limiter.wf(),
        times.len() > 0,
        non_decreasing(times),
        start.last_access <= times[0],
        start.credit == limiter.full(),
    ensures
        admitted(limiter, stored_tokens(start), times) <= limiter.capacity + (times.last()
            - start.last_access) / limiter.fill_millis as int,
{
    lemma_token_bucket_spend(limiter, start, times);
    assert(times[0] <= times[times.len() - 1]);
    lemma_tokens_from_spend(
        admitted(limiter, stored_tokens(start), times),
        limiter.capacity as nat,
        (times.last() - start.last_access) as nat,
        limiter.fill_millis as nat,
    );
}

/// On a key with nothing stored, which starts with a full bucket, over
/// requests whose times never go back: at most `capacity` are admitted, and
/// one more for every whole fill period between the first request and the
/// last.
pub proof fn lemma_token_bucket_bound_fresh(limiter: TokenBucket, times: Seq<u128>)
    requires
        limiter.wf(),
        times.len() > 0,
        non_decreasing(times),
    ensures
        admitted(limiter, None, times) <= limiter.capacity + (times.last() - times[0])
            / limiter.fill_millis as int,
{
    let start = TokenBucketInstance { credit: limiter.full() as u128, last_access: times[0] };
    lemma_decode_encode(LimiterInstance::TokenBucketInstance(start));
    assert(limiter.refilled(start, times[0]) == limiter.full());
    assert(limiter.next(None, times[0]) == limiter.next(Some(start), times[0]));
    match limiter.next(None, times[0]) {
        Some(n) => {
            assert(admitted(limiter, None, times) == admitted(
                limiter,
                stored_tokens(start),
                times,
            ));
            lemma_token_bucket_bound(limiter, start, times);
        },
        None => {
            assert(limiter.capacity == 0) by (nonlinear_arith)
                requires
                    limiter.capacity * limiter.fill_millis < limiter.fill_millis,
                    limiter.fill_millis > 0,
            ;
            lemma_empty_bucket(limiter, None, times);
            assert(times[0] <= times[times.len() - 1]);
            vstd::arithmetic::div_mod::lemma_div_pos_is_pos(
                times.last() - times[0],
                limiter.fill_millis as int,
            );
        },
    }
}

/// A capacity of zero admits nothing, whatever is stored.
pub proof fn lemma_empty_bucket(limiter: TokenBucket, stored: Option<Seq<u8>>, times: Seq<u128>)
    requires
        limiter.wf(),
        limiter.capacity == 0,
    ensures
        admitted(limiter, stored, times) == 0,
    decreases times.len(),
{
    if times.len() > 0 {
        assert(limiter.full() == 0) by (nonlinear_arith)
            requires
                limiter.capacity == 0,
                limiter.full() == limiter.capacity * limiter.fill_millis,
        ;
        assert(limiter.verdict(stored, times[0]) is Err);
        lemma_empty_bucket(limiter, stored, times.drop_first());
    }
}

/// The stored state of another algorithm is of the wrong type, whatever
/// the time.
pub proof fn lemma_token_bucket_rejects_others(limiter: TokenBucket, state: LimiterInstance, now: u128)
    requires
        !(state is TokenBucketInstance),
    ensures
        limiter.verdict(Some(encode(state)), now) == Err::<LimiterInstance, RateLimiterError>(
            RateLimiterError::WrongLimiterInstanceType,
        ),
{
    lemma_decode_encode(state);
}

/// A state that the bucket writes holds no more than a full bucket less the
/// token that the request spent.
pub proof fn lemma_credit_within_capacity(
    limiter: TokenBucket,
    prev: Option<TokenBucketInstance>,
    now: u128,
)
    requires
        limiter.wf(),
    ensures
        limiter.next(prev, now) matches Some(n) ==> n.credit + limiter.fill_millis
            <= limiter.full() && n.last_access == now,
{
}

} // verus!
