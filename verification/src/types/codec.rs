//! The byte layout of a stored counter state.
//!
//! A state is stored as a four-byte tag followed by its fields in declaration
//! order, every integer in little-endian order and at its full width.

use crate::types::fixed_window::FixedWindowInstance;
use crate::types::leaky_bucket::LeakyBucketInstance;
use crate::types::sliding_window::SlidingWindowInstance;
use crate::types::token_bucket::TokenBucketInstance;
use crate::types::{LimiterInstance, RateLimiterError};
use vstd::bytes::{
    lemma_auto_spec_u128_to_from_le_bytes, lemma_auto_spec_u32_to_from_le_bytes,
    spec_u128_from_le_bytes, spec_u128_to_le_bytes, spec_u32_from_le_bytes, spec_u32_to_le_bytes,
    u128_from_le_bytes, u128_to_le_bytes, u32_from_le_bytes, u32_to_le_bytes,
};
use vstd::prelude::*;
use vstd::slice::slice_subrange;

verus! {

pub const TAG_FIXED_WINDOW: u32 = 0;

pub const TAG_SLIDING_WINDOW: u32 = 1;

pub const TAG_TOKEN_BUCKET: u32 = 2;

pub const TAG_LEAKY_BUCKET: u32 = 3;

/// The tag that opens the bytes of a state.
pub open spec fn tag_of(instance: LimiterInstance) -> u32 {
    match instance {
        LimiterInstance::FixedWindowInstance(_) => TAG_FIXED_WINDOW,
        LimiterInstance::SlidingWindowInstance(_) => TAG_SLIDING_WINDOW,
        LimiterInstance::TokenBucketInstance(_) => TAG_TOKEN_BUCKET,
        LimiterInstance::LeakyBucketInstance(_) => TAG_LEAKY_BUCKET,
    }
}

/// The bytes of one window: its start, then its count.
pub open spec fn window_bytes(w: FixedWindowInstance) -> Seq<u8> {
    spec_u128_to_le_bytes(w.window_start) + spec_u32_to_le_bytes(w.count)
}

/// The window that twenty bytes stand for.
pub open spec fn window_of(b: Seq<u8>) -> FixedWindowInstance {
    FixedWindowInstance {
        window_start: spec_u128_from_le_bytes(b.subrange(0, 16)),
        count: spec_u32_from_le_bytes(b.subrange(16, 20)),
    }
}

/// The bytes that follow the tag.
pub open spec fn payload_of(instance: LimiterInstance) -> Seq<u8> {
    match instance {
        LimiterInstance::FixedWindowInstance(f) => window_bytes(f),
        LimiterInstance::SlidingWindowInstance(s) => window_bytes(s.current) + window_bytes(
            s.previous,
        ),
        LimiterInstance::TokenBucketInstance(t) => spec_u128_to_le_bytes(t.credit)
            + spec_u128_to_le_bytes(t.last_access),
        LimiterInstance::LeakyBucketInstance(l) => spec_u32_to_le_bytes(l.processed)
            + spec_u128_to_le_bytes(l.last_leaked),
    }
}

/// The stored form of a state.
pub open spec fn encode(instance: LimiterInstance) -> Seq<u8> {
    spec_u32_to_le_bytes(tag_of(instance)) + payload_of(instance)
}

/// How many bytes follow a tag; `None` for a tag that names no algorithm.
pub open spec fn payload_len(tag: u32) -> Option<nat> {
    if tag == TAG_FIXED_WINDOW {
        Some(20)
    } else if tag == TAG_SLIDING_WINDOW {
        Some(40)
    } else if tag == TAG_TOKEN_BUCKET {
        Some(32)
    } else if tag == TAG_LEAKY_BUCKET {
        Some(20)
    } else {
        None
    }
}

/// The state that a payload of the right length stands for under a tag.
pub open spec fn payload_value(tag: u32, p: Seq<u8>) -> LimiterInstance {
    if tag == TAG_FIXED_WINDOW {
        LimiterInstance::FixedWindowInstance(window_of(p))
    } else if tag == TAG_SLIDING_WINDOW {
        LimiterInstance::SlidingWindowInstance(
            SlidingWindowInstance {
                current: window_of(p.subrange(0, 20)),
                previous: window_of(p.subrange(20, 40)),
            },
        )
    } else if tag == TAG_TOKEN_BUCKET {
        LimiterInstance::TokenBucketInstance(
            TokenBucketInstance {
                credit: spec_u128_from_le_bytes(p.subrange(0, 16)),
                last_access: spec_u128_from_le_bytes(p.subrange(16, 32)),
            },
        )
    } else {
        LimiterInstance::LeakyBucketInstance(
            LeakyBucketInstance {
                processed: spec_u32_from_le_bytes(p.subrange(0, 4)),
                last_leaked: spec_u128_from_le_bytes(p.subrange(4, 20)),
            },
        )
    }
}

/// What stored bytes stand for: a state, or `MalformedValue` when they are too
/// short to hold a tag, the tag names no algorithm, or the length is not the
/// one that the tag calls for.
pub open spec fn decode(b: Seq<u8>) -> Result<LimiterInstance, RateLimiterError> {
    if b.len() < 4 {
        Err(RateLimiterError::MalformedValue)
    } else {
        let tag = spec_u32_from_le_bytes(b.subrange(0, 4));
        match payload_len(tag) {
            Some(n) if b.len() == 4 + n => Ok(payload_value(tag, b.subrange(4, b.len() as int))),
            _ => Err(RateLimiterError::MalformedValue),
        }
    }
}

proof fn lemma_window_round_trip(w: FixedWindowInstance)
    ensures
        window_bytes(w).len() == 20,
        window_of(window_bytes(w)) == w,
{
    lemma_auto_spec_u128_to_from_le_bytes();
    lemma_auto_spec_u32_to_from_le_bytes();
    let a = spec_u128_to_le_bytes(w.window_start);
    let c = spec_u32_to_le_bytes(w.count);
    assert((a + c).subrange(0, 16) =~= a);
    assert((a + c).subrange(16, 20) =~= c);
}

/// Decoding undoes encoding: every state is read back as it was written.
pub proof fn lemma_decode_encode(instance: LimiterInstance)
    ensures
        decode(encode(instance)) == Ok::<LimiterInstance, RateLimiterError>(instance),
{
    lemma_auto_spec_u128_to_from_le_bytes();
    lemma_auto_spec_u32_to_from_le_bytes();
    let t = spec_u32_to_le_bytes(tag_of(instance));
    let p = payload_of(instance);
    let b = encode(instance);
    assert(b.subrange(0, 4) =~= t);
    assert(b.subrange(4, b.len() as int) =~= p);
    match instance {
        LimiterInstance::FixedWindowInstance(f) => {
            lemma_window_round_trip(f);
        },
        LimiterInstance::SlidingWindowInstance(s) => {
            lemma_window_round_trip(s.current);
            lemma_window_round_trip(s.previous);
            assert(p.subrange(0, 20) =~= window_bytes(s.current));
            assert(p.subrange(20, 40) =~= window_bytes(s.previous));
        },
        LimiterInstance::TokenBucketInstance(k) => {
            let x = spec_u128_to_le_bytes(k.credit);
            let y = spec_u128_to_le_bytes(k.last_access);
            assert(p.subrange(0, 16) =~= x);
            assert(p.subrange(16, 32) =~= y);
        },
        LimiterInstance::LeakyBucketInstance(l) => {
            let x = spec_u32_to_le_bytes(l.processed);
            let y = spec_u128_to_le_bytes(l.last_leaked);
            assert(p.subrange(0, 4) =~= x);
            assert(p.subrange(4, 20) =~= y);
        },
    }
}

/// Bytes that decode to a state are the bytes of that state: no two byte
/// strings stand for the same state.
pub proof fn lemma_encode_decode(b: Seq<u8>)
    requires
        decode(b) is Ok,
    ensures
        encode(decode(b).unwrap()) == b,
{
    lemma_auto_spec_u128_to_from_le_bytes();
    lemma_auto_spec_u32_to_from_le_bytes();
    let tag = spec_u32_from_le_bytes(b.subrange(0, 4));
    let p = b.subrange(4, b.len() as int);
    let instance = decode(b).unwrap();
    assert(spec_u32_to_le_bytes(tag) == b.subrange(0, 4));
    assert(tag_of(instance) == tag);
    if tag == TAG_FIXED_WINDOW {
        assert(payload_of(instance) =~= p.subrange(0, 16) + p.subrange(16, 20));
    } else if tag == TAG_SLIDING_WINDOW {
        let c = p.subrange(0, 20);
        let q = p.subrange(20, 40);
        assert(window_bytes(window_of(c)) =~= c.subrange(0, 16) + c.subrange(16, 20));
        assert(window_bytes(window_of(q)) =~= q.subrange(0, 16) + q.subrange(16, 20));
        assert(c.subrange(0, 16) + c.subrange(16, 20) =~= c);
        assert(q.subrange(0, 16) + q.subrange(16, 20) =~= q);
        assert(payload_of(instance) =~= c + q);
    } else if tag == TAG_TOKEN_BUCKET {
        assert(payload_of(instance) =~= p.subrange(0, 16) + p.subrange(16, 32));
    } else {
        assert(payload_of(instance) =~= p.subrange(0, 4) + p.subrange(4, 20));
    }
    assert(payload_of(instance) =~= p);
    assert(encode(instance) =~= b.subrange(0, 4) + p);
    assert(b.subrange(0, 4) + p =~= b);
}

fn put_window(out: &mut Vec<u8>, w: &FixedWindowInstance)
    ensures
        final(out)@ == old(out)@ + window_bytes(*w),
{
    let mut a = u128_to_le_bytes(w.window_start);
    let mut c = u32_to_le_bytes(w.count);
    out.append(&mut a);
    out.append(&mut c);
    assert(out@ =~= old(out)@ + window_bytes(*w));
}

fn take_window(b: &[u8]) -> (w: FixedWindowInstance)
    requires
        b@.len() == 20,
    ensures
        w == window_of(b@),
{
    let window_start = u128_from_le_bytes(slice_subrange(b, 0, 16));
    let count = u32_from_le_bytes(slice_subrange(b, 16, 20));
    FixedWindowInstance { window_start, count }
}

/// Writes a state in its stored form.
pub fn encode_instance(instance: &LimiterInstance) -> (out: Vec<u8>)
    ensures
        out@ == encode(*instance),
{
    match instance {
        LimiterInstance::FixedWindowInstance(f) => {
            let mut out = u32_to_le_bytes(TAG_FIXED_WINDOW);
            put_window(&mut out, f);
            out
        },
        LimiterInstance::SlidingWindowInstance(s) => {
            let mut out = u32_to_le_bytes(TAG_SLIDING_WINDOW);
            put_window(&mut out, &s.current);
            put_window(&mut out, &s.previous);
            assert(out@ =~= encode(*instance));
            out
        },
        LimiterInstance::TokenBucketInstance(t) => {
            let mut out = u32_to_le_bytes(TAG_TOKEN_BUCKET);
            let mut x = u128_to_le_bytes(t.credit);
            let mut y = u128_to_le_bytes(t.last_access);
            out.append(&mut x);
            out.append(&mut y);
            assert(out@ =~= encode(*instance));
            out
        },
        LimiterInstance::LeakyBucketInstance(l) => {
            let mut out = u32_to_le_bytes(TAG_LEAKY_BUCKET);
            let mut x = u32_to_le_bytes(l.processed);
            let mut y = u128_to_le_bytes(l.last_leaked);
            out.append(&mut x);
            out.append(&mut y);
            assert(out@ =~= encode(*instance));
            out
        },
    }
}

/// Reads a state from its stored form.
pub fn decode_instance(bytes: &[u8]) -> (r: Result<LimiterInstance, RateLimiterError>)
    ensures
        r == decode(bytes@),
{
    let n = bytes.len();
    if n < 4 {
        return Err(RateLimiterError::MalformedValue);
    }
    let tag = u32_from_le_bytes(slice_subrange(bytes, 0, 4));
    let p = slice_subrange(bytes, 4, n);
    if tag == TAG_FIXED_WINDOW && n == 24 {
        Ok(LimiterInstance::FixedWindowInstance(take_window(p)))
    } else if tag == TAG_SLIDING_WINDOW && n == 44 {
        let current = take_window(slice_subrange(p, 0, 20));
        let previous = take_window(slice_subrange(p, 20, 40));
        Ok(LimiterInstance::SlidingWindowInstance(SlidingWindowInstance { current, previous }))
    } else if tag == TAG_TOKEN_BUCKET && n == 36 {
        let credit = u128_from_le_bytes(slice_subrange(p, 0, 16));
        let last_access = u128_from_le_bytes(slice_subrange(p, 16, 32));
        Ok(LimiterInstance::TokenBucketInstance(TokenBucketInstance { credit, last_access }))
    } else if tag == TAG_LEAKY_BUCKET && n == 24 {
        let processed = u32_from_le_bytes(slice_subrange(p, 0, 4));
        let last_leaked = u128_from_le_bytes(slice_subrange(p, 4, 20));
        Ok(LimiterInstance::LeakyBucketInstance(LeakyBucketInstance { processed, last_leaked }))
    } else {
        Err(RateLimiterError::MalformedValue)
    }
}

} // verus!
