//! Counter states, their byte layout, and the contract of a counting
//! algorithm.

pub mod codec;
pub mod fixed_window;
pub mod leaky_bucket;
pub mod sliding_window;
pub mod token_bucket;

use crate::backend::BackendError;
use crate::clock::unix_millis;
use crate::types::codec::{decode, decode_instance, encode, encode_instance};
use crate::types::fixed_window::FixedWindowInstance;
use crate::types::leaky_bucket::LeakyBucketInstance;
use crate::types::sliding_window::SlidingWindowInstance;
use crate::types::token_bucket::TokenBucketInstance;
use vstd::prelude::*;

verus! {

/// Why a request was not admitted.
#[derive(Debug, Clone)]
pub enum RateLimiterError {
    /// The stored bytes are no counter state.
    MalformedValue,
    /// The stored state belongs to another algorithm.
    WrongLimiterInstanceType,
    /// The algorithm turned the request down.
    RateExceeded,
    /// The store failed and the failure policy denies.
    BackendError(BackendError),
    /// Every write met a conflict and the conflict policy denies.
    BackendConflict,
}

impl RateLimiterError {
    /// The words of [`RateLimiterError::message`].
    pub open spec fn words(self) -> Seq<char> {
        match self {
            RateLimiterError::MalformedValue => "malformed value"@,
            RateLimiterError::WrongLimiterInstanceType => "wrong instance type provided"@,
            RateLimiterError::RateExceeded => "rate exceeded"@,
            RateLimiterError::BackendError(e) => e.words(),
            RateLimiterError::BackendConflict => "backend value conflict"@,
        }
    }

    /// The error in words.
    pub fn message(&self) -> (r: String)
        ensures
            r@ == self.words(),
    {
        match self {
            RateLimiterError::MalformedValue => "malformed value".to_string(),
            RateLimiterError::WrongLimiterInstanceType => "wrong instance type provided".to_string(),
            RateLimiterError::RateExceeded => "rate exceeded".to_string(),
            RateLimiterError::BackendError(e) => e.message(),
            RateLimiterError::BackendConflict => "backend value conflict".to_string(),
        }
    }
}

/// The counter state of one key, tagged by the algorithm that owns it.
#[derive(Debug, Clone, Copy, PartialEq, Eq, Structural)]
pub enum LimiterInstance {
    FixedWindowInstance(FixedWindowInstance),
    SlidingWindowInstance(SlidingWindowInstance),
    TokenBucketInstance(TokenBucketInstance),
    LeakyBucketInstance(LeakyBucketInstance),
}

impl LimiterInstance {
    /// The fixed window in this state; any other state is of the wrong type.
    pub fn as_fixed_window_instance(self) -> (r: Result<FixedWindowInstance, RateLimiterError>)
        ensures
            r == match self {
                LimiterInstance::FixedWindowInstance(i) => Ok::<
                    FixedWindowInstance,
                    RateLimiterError,
                >(i),
                _ => Err(RateLimiterError::WrongLimiterInstanceType),
            },
    {
        match self {
            LimiterInstance::FixedWindowInstance(i) => Ok(i),
            _ => Err(RateLimiterError::WrongLimiterInstanceType),
        }
    }

    /// The sliding window in this state; any other state is of the wrong type.
    pub fn as_sliding_window_instance(self) -> (r: Result<SlidingWindowInstance, RateLimiterError>)
        ensures
            r == match self {
                LimiterInstance::SlidingWindowInstance(i) => Ok::<
                    SlidingWindowInstance,
                    RateLimiterError,
                >(i),
                _ => Err(RateLimiterError::WrongLimiterInstanceType),
            },
    {
        match self {
            LimiterInstance::SlidingWindowInstance(i) => Ok(i),
            _ => Err(RateLimiterError::WrongLimiterInstanceType),
        }
    }

    /// The token bucket in this state; any other state is of the wrong type.
    pub fn as_token_bucket_instance(self) -> (r: Result<TokenBucketInstance, RateLimiterError>)
        ensures
            r == match self {
                LimiterInstance::TokenBucketInstance(i) => Ok::<
                    TokenBucketInstance,
                    RateLimiterError,
                >(i),
                _ => Err(RateLimiterError::WrongLimiterInstanceType),
            },
    {
        match self {
            LimiterInstance::TokenBucketInstance(i) => Ok(i),
            _ => Err(RateLimiterError::WrongLimiterInstanceType),
        }
    }

    /// The leaky bucket in this state; any other state is of the wrong type.
    pub fn as_leaky_bucket_instance(self) -> (r: Result<LeakyBucketInstance, RateLimiterError>)
        ensures
            r == match self {
                LimiterInstance::LeakyBucketInstance(i) => Ok::<
                    LeakyBucketInstance,
                    RateLimiterError,
                >(i),
                _ => Err(RateLimiterError::WrongLimiterInstanceType),
            },
    {
        match self {
            LimiterInstance::LeakyBucketInstance(i) => Ok(i),
            _ => Err(RateLimiterError::WrongLimiterInstanceType),
        }
    }

    /// Reads a state from stored bytes.
    pub fn from_bytes(bytes: Vec<u8>) -> (r: Result<LimiterInstance, RateLimiterError>)
        ensures
            r == decode(bytes@),
    {
        decode_instance(bytes.as_slice())
    }

    /// The bytes under which this state is stored.
    pub fn to_bytes(self) -> (r: Result<Vec<u8>, RateLimiterError>)
        ensures
            r is Ok,
            r.unwrap()@ == encode(self),
    {
        Ok(encode_instance(&self))
    }
}

/// The stored bytes as a sequence, where there are any.
pub open spec fn bytes_of(value: Option<Vec<u8>>) -> Option<Seq<u8>> {
    match value {
        Some(b) => Some(b@),
        None => None,
    }
}

/// A counting algorithm with its parameters.
///
/// `verdict` is the algorithm as a function of the stored bytes and the time:
/// the state to store when the request is admitted, `RateExceeded` when it is
/// not, and the decoding error when the stored bytes are no state of this
/// algorithm.
pub trait LimiterType: Clone {
    /// Whether the parameters are ones that the algorithm can work with.
    spec fn wf(&self) -> bool;

    /// The outcome of one request at `now` on the bytes stored for its key.
    spec fn verdict(&self, stored: Option<Seq<u8>>, now: u128) -> Result<
        LimiterInstance,
        RateLimiterError,
    >;

    /// Tells whether the parameters are ones that the algorithm can work
    /// with.
    fn is_valid(&self) -> (r: bool)
        ensures
            r == self.wf(),
    ;

    /// Decides one request at the given time.
    fn is_rate_limited_now(&self, now: u128, value: Option<Vec<u8>>) -> (r: Result<
        LimiterInstance,
        RateLimiterError,
    >)
        requires
            self.wf(),
        ensures
            r == self.verdict(bytes_of(value), now),
            r matches Err(e) ==> e is RateExceeded || (value is Some && (e is MalformedValue
                || e is WrongLimiterInstanceType)),
    ;

    /// Decides one request at the time that the system clock shows.
    fn is_ratelimited(&self, value: Option<Vec<u8>>) -> (r: Result<
        LimiterInstance,
        RateLimiterError,
    >)
        requires
            self.wf(),
        ensures
            exists|now: u128| r == #[trigger] self.verdict(bytes_of(value), now),
            r matches Err(e) ==> e is RateExceeded || (value is Some && (e is MalformedValue
                || e is WrongLimiterInstanceType)),
    {
        let now = unix_millis();
        self.is_rate_limited_now(now, value)
    }

    /// Reads the state that stored bytes stand for.
    fn window_instance(&self, value: Vec<u8>) -> (r: Result<LimiterInstance, RateLimiterError>)
        ensures
            r == decode(value@),
    {
        LimiterInstance::from_bytes(value)
    }
}

/// The bytes stored for a key after one request: those of the new state when
/// the request was admitted, the old ones when it was not.
pub open spec fn stored_after<L: LimiterType>(
    limiter: L,
    stored: Option<Seq<u8>>,
    now: u128,
) -> Option<Seq<u8>> {
    match limiter.verdict(stored, now) {
        Ok(i) => Some(encode(i)),
        Err(_) => stored,
    }
}

/// How many of the requests made at `times`, in that order, are admitted
/// when the first of them finds `stored`.
pub open spec fn admitted<L: LimiterType>(
    limiter: L,
    stored: Option<Seq<u8>>,
    times: Seq<u128>,
) -> nat
    decreases times.len(),
{
    if times.len() == 0 {
        0
    } else {
        let rest = admitted(limiter, stored_after(limiter, stored, times[0]), times.drop_first());
        if limiter.verdict(stored, times[0]) is Ok {
            1 + rest
        } else {
            rest
        }
    }
}

/// The bytes stored for a key after the requests made at `times`, in that
/// order, when the first of them finds `stored`.
pub open spec fn stored_at_end<L: LimiterType>(
    limiter: L,
    stored: Option<Seq<u8>>,
    times: Seq<u128>,
) -> Option<Seq<u8>>
    decreases times.len(),
{
    if times.len() == 0 {
        stored
    } else {
        stored_at_end(limiter, stored_after(limiter, stored, times[0]), times.drop_first())
    }
}

/// One more request at the end of a run is decided on what the run left
/// stored: it adds one to the admitted requests if it is admitted, and
/// leaves stored what `stored_after` says.
pub proof fn lemma_one_more_request<L: LimiterType>(
    limiter: L,
    stored: Option<Seq<u8>>,
    times: Seq<u128>,
    now: u128,
)
    ensures
        stored_at_end(limiter, stored, times.push(now)) == stored_after(
            limiter,
            stored_at_end(limiter, stored, times),
            now,
        ),
        admitted(limiter, stored, times.push(now)) == admitted(limiter, stored, times) + (
        if limiter.verdict(stored_at_end(limiter, stored, times), now) is Ok {
            1nat
        } else {
            0nat
        }),
    decreases times.len(),
{
    let longer = times.push(now);
    if times.len() == 0 {
        assert(longer.drop_first() =~= Seq::<u128>::empty());
        assert(longer[0] == now);
        assert(admitted(limiter, stored_after(limiter, stored, now), longer.drop_first()) == 0);
        assert(stored_at_end(limiter, stored_after(limiter, stored, now), longer.drop_first())
            == stored_after(limiter, stored, now));
    } else {
        assert(longer.drop_first() =~= times.drop_first().push(now));
        assert(longer[0] == times[0]);
        lemma_one_more_request(
            limiter,
            stored_after(limiter, stored, times[0]),
            times.drop_first(),
            now,
        );
    }
}

/// Whether no time in the sequence is earlier than the one before it.
pub open spec fn non_decreasing(times: Seq<u128>) -> bool {
    forall|i: int, j: int| 0 <= i <= j < times.len() ==> times[i] <= times[j]
}

/// Milliseconds from `since` to `now`; zero when the clock went backwards.
pub open spec fn elapsed_millis(since: u128, now: u128) -> u128 {
    if now >= since {
        (now - since) as u128
    } else {
        0
    }
}

/// Computes [`elapsed_millis`].
pub fn elapsed(since: u128, now: u128) -> (r: u128)
    ensures
        r == elapsed_millis(since, now),
{
    if now >= since {
        now - since
    } else {
        0
    }
}

} // verus!
