use std::cell::Cell;
use std::rc::Rc;
use std::time::Duration;

use brakes::backend::{Backend, BackendError};
use brakes::coordinator::{KeyHasher, Next, Plan, PlainKey, Policy};
use brakes::types::fixed_window::{FixedWindow, FixedWindowInstance};
use brakes::types::leaky_bucket::LeakyBucketInstance;
use brakes::types::{LimiterInstance, RateLimiterError};
use brakes::{ConfigurationError, RateLimiter, RateLimiterBuilder, RetryStrategy};

// A store of which the first `failing` calls fail; after that reads find
// nothing and writes succeed.
#[derive(Clone)]
struct Flaky {
    failing: Rc<Cell<u32>>,
    reads: Rc<Cell<u32>>,
    writes: Rc<Cell<u32>>,
    deletes: Rc<Cell<u32>>,
    last_key: Rc<Cell<usize>>,
}

impl Flaky {
    fn new(failing: u32) -> Self {
        Flaky {
            failing: Rc::new(Cell::new(failing)),
            reads: Rc::new(Cell::new(0)),
            writes: Rc::new(Cell::new(0)),
            deletes: Rc::new(Cell::new(0)),
            last_key: Rc::new(Cell::new(0)),
        }
    }

    fn fails(&self) -> bool {
        let left = self.failing.get();
        if left > 0 {
            self.failing.set(left - 1);
            true
        } else {
            false
        }
    }
}

impl Backend for Flaky {
    fn get(&self, key: &str) -> Result<(Vec<u8>, Option<u64>), BackendError> {
        self.reads.set(self.reads.get() + 1);
        self.last_key.set(key.len());
        if self.fails() {
            Err(BackendError::MemCacheError(format!("read {}", self.reads.get())))
        } else {
            Err(BackendError::KeyMissing)
        }
    }

    fn set(&self, _: &str, _: &[u8], _: Option<u64>) -> Result<(), BackendError> {
        self.writes.set(self.writes.get() + 1);
        if self.fails() {
            Err(BackendError::RedisError(format!("write {}", self.writes.get())))
        } else {
            Ok(())
        }
    }

    fn delete(&self, _: &str) -> Result<(), BackendError> {
        self.deletes.set(self.deletes.get() + 1);
        if self.fails() {
            Err(BackendError::LocalMemLockError)
        } else {
            Ok(())
        }
    }
}

fn limiter_on(store: &Flaky, on_failure: RetryStrategy) -> RateLimiter<FixedWindow, Flaky> {
    RateLimiter::builder()
        .with_backend(store.clone())
        .with_limiter(FixedWindow::new(10, Duration::from_millis(1000)))
        .with_failure_strategy(on_failure)
        .build()
}

#[test]
fn failing_store_takes_every_try_and_then_the_fallback() {
    for n in [0u32, 1, 2, 7] {
        let store = Flaky::new(1000);
        let result = limiter_on(&store, RetryStrategy::RetryAndAllow(n)).is_ratelimited_at("k", 5);
        assert!(result.is_ok());
        assert_eq!(store.reads.get(), n + 1);
        assert_eq!(store.writes.get(), 0);

        let store = Flaky::new(1000);
        let result = limiter_on(&store, RetryStrategy::RetryAndDeny(n)).is_ratelimited_at("k", 5);
        assert!(matches!(
            result,
            Err(RateLimiterError::BackendError(BackendError::MemCacheError(e))) if e == format!("read {}", n + 1)
        ));
        assert_eq!(store.reads.get(), n + 1);
        assert_eq!(store.writes.get(), 0);
    }
    let store = Flaky::new(1000);
    assert!(limiter_on(&store, RetryStrategy::Allow).is_ratelimited_at("k", 5).is_ok());
    assert_eq!(store.reads.get(), 1);
    let store = Flaky::new(1000);
    assert!(matches!(
        limiter_on(&store, RetryStrategy::Deny).is_ratelimited_at("k", 5),
        Err(RateLimiterError::BackendError(BackendError::MemCacheError(_)))
    ));
    assert_eq!(store.reads.get(), 1);
}

#[test]
fn store_that_recovers_is_asked_again() {
    let store = Flaky::new(2);
    let limiter = limiter_on(&store, RetryStrategy::RetryAndDeny(3));
    // two failed reads, the third finds nothing, the write succeeds
    assert!(limiter.is_ratelimited_at("k", 5).is_ok());
    assert_eq!((store.reads.get(), store.writes.get()), (3, 1));

    let store = Flaky::new(2);
    let limiter = limiter_on(&store, RetryStrategy::RetryAndDeny(1));
    // two tries are not enough
    assert!(matches!(
        limiter.is_ratelimited_at("k", 5),
        Err(RateLimiterError::BackendError(BackendError::MemCacheError(e))) if e == "read 2"
    ));
    assert_eq!((store.reads.get(), store.writes.get()), (2, 0));
}

#[test]
fn default_strategies() {
    let store = Flaky::new(1000);
    let limiter = RateLimiter::builder()
        .with_backend(store.clone())
        .with_limiter(FixedWindow::new(10, Duration::from_millis(1000)))
        .build();
    assert_eq!(limiter.policy.on_failure, RetryStrategy::RetryAndAllow(2));
    assert_eq!(limiter.policy.on_conflict, RetryStrategy::RetryAndDeny(2));
    assert!(!limiter.policy.discard_invalid);
    assert!(limiter.is_ratelimited_at("k", 5).is_ok());
    assert_eq!(store.reads.get(), 3);
    let set = RateLimiter::builder()
        .with_backend(store.clone())
        .with_limiter(FixedWindow::new(10, Duration::from_millis(1000)))
        .with_failure_strategy(RetryStrategy::Deny)
        .with_conflict_strategy(RetryStrategy::Allow)
        .with_discard_invalid_cache_entries(true)
        .build();
    assert_eq!(
        set.policy,
        Policy {
            on_failure: RetryStrategy::Deny,
            on_conflict: RetryStrategy::Allow,
            discard_invalid: true
        }
    );
}

#[test]
fn tries_of_a_strategy() {
    assert_eq!(RetryStrategy::RetryAndAllow(2).tries(), 3);
    assert_eq!(RetryStrategy::RetryAndDeny(0).tries(), 1);
    assert_eq!(RetryStrategy::RetryAndDeny(u32::MAX).tries(), 4294967296);
    assert_eq!(RetryStrategy::Allow.tries(), 1);
    assert_eq!(RetryStrategy::Deny.tries(), 1);
    assert!(RetryStrategy::RetryAndAllow(9).allows_in_the_end());
    assert!(RetryStrategy::Allow.allows_in_the_end());
    assert!(!RetryStrategy::RetryAndDeny(9).allows_in_the_end());
    assert!(!RetryStrategy::Deny.allows_in_the_end());
    assert!(RetryStrategy::Allow.give_up(BackendError::LocalMemLockError).is_ok());
    assert!(matches!(
        RetryStrategy::Deny.give_up(BackendError::LocalMemLockError),
        Err(RateLimiterError::BackendError(BackendError::LocalMemLockError))
    ));
}

#[test]
fn retries_stop_at_an_answer() {
    let store = Flaky::new(2);
    assert!(matches!(store.get_with_retries("k", 5), Err(BackendError::KeyMissing)));
    assert_eq!(store.reads.get(), 3);
    let store = Flaky::new(9);
    assert!(matches!(
        store.get_with_retries("k", 4),
        Err(BackendError::MemCacheError(e)) if e == "read 4"
    ));
    assert_eq!(store.reads.get(), 4);
    let store = Flaky::new(1);
    assert!(store.set_with_retries("k", vec![1], None, 3).is_ok());
    assert_eq!(store.writes.get(), 2);
    let store = Flaky::new(9);
    assert!(matches!(
        store.set_with_retries("k", vec![1], None, 1),
        Err(BackendError::RedisError(e)) if e == "write 1"
    ));
    assert_eq!(store.writes.get(), 1);
    let store = Flaky::new(2);
    assert!(store.delete_with_retries("k", 3).is_ok());
    assert_eq!(store.deletes.get(), 3);
    let store = Flaky::new(9);
    assert!(matches!(
        store.delete_with_retries("k", 2),
        Err(BackendError::LocalMemLockError)
    ));
    assert_eq!(store.deletes.get(), 2);
}

#[test]
fn retries_are_counted() {
    let store = Flaky::new(2);
    let (reply, calls, _) = store.get_counted("k", 5);
    assert!(matches!(reply, Err(BackendError::KeyMissing)));
    assert_eq!(calls, 3);
    let store = Flaky::new(9);
    let (reply, calls, _) = store.get_counted("k", 4);
    assert!(matches!(reply, Err(BackendError::MemCacheError(_))));
    assert_eq!(calls, 4);
    let store = Flaky::new(1);
    let (reply, calls, _) = store.set_counted("k", &[1], None, 3);
    assert!(reply.is_ok());
    assert_eq!(calls, 2);
    let store = Flaky::new(0);
    let (reply, calls, _) = store.delete_counted("k", 3);
    assert!(reply.is_ok());
    assert_eq!(calls, 1);
    let store = Flaky::new(5);
    let (reply, calls, _) = store.delete_counted("k", 1);
    assert!(reply.is_err());
    assert_eq!(calls, 1);
    assert!(brakes::backend::is_settled(&Ok::<(), BackendError>(())));
    assert!(brakes::backend::is_settled(&Err::<(), BackendError>(BackendError::KeyMissing)));
    assert!(brakes::backend::is_settled(&Err::<(), BackendError>(BackendError::ValueChanged)));
    assert!(!brakes::backend::is_settled(&Err::<(), BackendError>(
        BackendError::LocalMemLockError
    )));
}

#[test]
fn steps_of_a_decision() {
    let store = Flaky::new(0);
    let limiter = limiter_on(&store, RetryStrategy::RetryAndDeny(1));
    let fresh = LimiterInstance::FixedWindowInstance(FixedWindowInstance::new(40, 1));
    assert!(matches!(
        limiter.plan(Err(BackendError::KeyMissing), 40),
        Plan::Write(i, None) if i == fresh
    ));
    let stored = LimiterInstance::FixedWindowInstance(FixedWindowInstance::new(30, 4));
    assert!(matches!(
        limiter.plan(Ok((stored.to_bytes().unwrap(), Some(12))), 40),
        Plan::Write(i, Some(12)) if i == LimiterInstance::FixedWindowInstance(FixedWindowInstance::new(30, 5))
    ));
    let full = LimiterInstance::FixedWindowInstance(FixedWindowInstance::new(30, 10));
    assert!(matches!(
        limiter.plan(Ok((full.to_bytes().unwrap(), Some(12))), 40),
        Plan::Finish(Err(RateLimiterError::RateExceeded))
    ));
    let foreign = LimiterInstance::LeakyBucketInstance(LeakyBucketInstance::new(30, 1));
    assert!(matches!(
        limiter.plan(Ok((foreign.to_bytes().unwrap(), Some(12))), 40),
        Plan::Finish(Err(RateLimiterError::WrongLimiterInstanceType))
    ));
    assert!(matches!(
        limiter.plan(Ok((vec![9, 9], Some(12))), 40),
        Plan::Finish(Err(RateLimiterError::MalformedValue))
    ));
    assert!(matches!(
        limiter.plan(Err(BackendError::LocalMemLockError), 40),
        Plan::Finish(Err(RateLimiterError::BackendError(BackendError::LocalMemLockError)))
    ));
    let mut discarding = limiter.clone();
    discarding.policy.discard_invalid = true;
    discarding.policy.on_failure = RetryStrategy::Allow;
    assert!(matches!(
        discarding.plan(Ok((foreign.to_bytes().unwrap(), Some(12))), 40),
        Plan::Write(i, None) if i == fresh
    ));
    assert!(matches!(
        discarding.plan(Ok((vec![9, 9], Some(12))), 40),
        Plan::Write(i, None) if i == fresh
    ));
    assert!(matches!(
        discarding.plan(Err(BackendError::LocalMemLockError), 40),
        Plan::Finish(Ok(()))
    ));

    let policy = limiter.policy;
    assert!(matches!(policy.after_write(Ok(())), Next::Finish(Ok(()))));
    assert!(matches!(policy.after_write(Err(BackendError::ValueChanged)), Next::Again));
    assert!(matches!(
        policy.after_write(Err(BackendError::KeyMissing)),
        Next::Finish(Err(RateLimiterError::BackendError(BackendError::KeyMissing)))
    ));
    assert!(matches!(policy.exhausted(), Err(RateLimiterError::BackendConflict)));
    assert!(matches!(
        discarding.policy.after_write(Err(BackendError::LocalMemLockError)),
        Next::Finish(Ok(()))
    ));
    let mut allowing = policy;
    allowing.on_conflict = RetryStrategy::RetryAndAllow(1);
    assert!(allowing.exhausted().is_ok());
}

#[test]
fn usage_of_a_read() {
    let store = Flaky::new(0);
    let limiter = limiter_on(&store, RetryStrategy::Deny);
    let stored = LimiterInstance::LeakyBucketInstance(LeakyBucketInstance::new(30, 1));
    assert_eq!(limiter.usage(Ok((stored.to_bytes().unwrap(), None))).unwrap(), stored);
    assert!(matches!(
        limiter.usage(Err(BackendError::KeyMissing)),
        Err(RateLimiterError::BackendError(BackendError::KeyMissing))
    ));
    assert!(matches!(limiter.usage(Ok((vec![], None))), Err(RateLimiterError::MalformedValue)));
    assert!(matches!(
        limiter.get_usage("k"),
        Err(RateLimiterError::BackendError(BackendError::KeyMissing))
    ));
}

struct Shorten;

impl KeyHasher for Shorten {
    fn hash_key(&self, key: &str) -> String {
        key.chars().take(3).collect()
    }
}

#[test]
fn keys_go_through_the_hasher() {
    assert_eq!(PlainKey.hash_key("a long key"), "a long key");
    let store = Flaky::new(0);
    let plain = limiter_on(&store, RetryStrategy::Deny);
    assert!(plain.is_ratelimited_at("a long key", 1).is_ok());
    assert_eq!(store.last_key.get(), 10);
    let hashed = RateLimiter::builder()
        .with_backend(store.clone())
        .with_limiter(FixedWindow::new(10, Duration::from_millis(1000)))
        .with_hasher(Shorten)
        .build();
    assert!(hashed.is_ratelimited_at("a long key", 1).is_ok());
    assert_eq!(store.last_key.get(), 3);
    let _ = hashed.get_usage("another long key");
    assert_eq!(store.last_key.get(), 3);
}

#[test]
fn error_words_of_a_decision() {
    assert_eq!(RateLimiterError::RateExceeded.message(), "rate exceeded");
    assert_eq!(RateLimiterError::BackendConflict.message(), "backend value conflict");
    assert_eq!(
        RateLimiterError::WrongLimiterInstanceType.message(),
        "wrong instance type provided"
    );
    assert_eq!(RateLimiterError::MalformedValue.message(), "malformed value");
    assert_eq!(
        RateLimiterError::BackendError(BackendError::KeyMissing).message(),
        "key missing"
    );
}

#[test]
fn a_decision_reports_what_it_did() {
    let store = Flaky::new(1000);
    let report = limiter_on(&store, RetryStrategy::RetryAndDeny(4)).decide("k", 5);
    assert!(matches!(
        report.outcome,
        Err(RateLimiterError::BackendError(BackendError::MemCacheError(_)))
    ));
    assert_eq!((report.reads, report.writes, report.cycles), (5, 0, 1));
    assert_eq!(store.reads.get(), 5);

    let store = Flaky::new(1000);
    let report = limiter_on(&store, RetryStrategy::RetryAndAllow(4)).decide("k", 5);
    assert!(report.outcome.is_ok());
    assert_eq!((report.reads, report.writes, report.cycles), (5, 0, 1));

    let store = Flaky::new(3);
    let report = limiter_on(&store, RetryStrategy::RetryAndDeny(2)).decide("k", 5);
    // three failed reads
    assert!(report.outcome.is_err());
    assert_eq!((report.reads, report.writes, report.cycles), (3, 0, 1));

    let store = Flaky::new(3);
    let report = limiter_on(&store, RetryStrategy::RetryAndDeny(3)).decide("k", 5);
    // three failed reads, one that finds nothing, one write
    assert!(report.outcome.is_ok());
    assert_eq!((report.reads, report.writes, report.cycles), (4, 1, 1));
    assert_eq!((store.reads.get(), store.writes.get()), (4, 1));
}

fn parts() -> RateLimiterBuilder<FixedWindow, Flaky> {
    RateLimiter::builder()
}

#[test]
fn parts_that_make_no_limiter() {
    let store = Flaky::new(0);
    let window = FixedWindow::new(10, Duration::from_millis(1000));
    assert_eq!(parts().try_build().err(), Some(ConfigurationError::NoBackend));
    assert_eq!(
        parts().with_limiter(window).try_build().err(),
        Some(ConfigurationError::NoBackend)
    );
    assert_eq!(
        parts().with_backend(store.clone()).try_build().err(),
        Some(ConfigurationError::NoLimiter)
    );
    let no_window = FixedWindow { threshold: 10, window_millis: 0 };
    assert_eq!(
        parts().with_backend(store.clone()).with_limiter(no_window).try_build().err(),
        Some(ConfigurationError::InvalidLimiter)
    );
    let limiter = parts()
        .with_backend(store.clone())
        .with_limiter(window)
        .with_conflict_strategy(RetryStrategy::Allow)
        .try_build()
        .unwrap();
    assert_eq!(limiter.limiter.threshold, 10);
    assert_eq!(limiter.policy.on_conflict, RetryStrategy::Allow);
    assert_eq!(limiter.policy.on_failure, RetryStrategy::RetryAndAllow(2));
    assert!(limiter.is_ratelimited_at("k", 3).is_ok());
}


// A store that holds nothing and fails every write; it keeps what it was
// asked to write.
#[derive(Clone)]
struct WriteFails {
    reads: Rc<Cell<u32>>,
    asked: Rc<std::cell::RefCell<Vec<(String, Vec<u8>, Option<u64>)>>>,
}

impl Backend for WriteFails {
    fn get(&self, _: &str) -> Result<(Vec<u8>, Option<u64>), BackendError> {
        self.reads.set(self.reads.get() + 1);
        Err(BackendError::KeyMissing)
    }

    fn set(&self, key: &str, value: &[u8], version: Option<u64>) -> Result<(), BackendError> {
        let mut asked = self.asked.borrow_mut();
        asked.push((key.to_string(), value.to_vec(), version));
        Err(BackendError::RedisError(format!("write {}", asked.len())))
    }

    fn delete(&self, _: &str) -> Result<(), BackendError> {
        Ok(())
    }
}

#[test]
fn failing_writes_are_tried_again_without_a_new_read() {
    let store = WriteFails {
        reads: Rc::new(Cell::new(0)),
        asked: Rc::new(std::cell::RefCell::new(Vec::new())),
    };
    let limiter = RateLimiter::builder()
        .with_backend(store.clone())
        .with_limiter(FixedWindow::new(10, Duration::from_millis(1000)))
        .with_failure_strategy(RetryStrategy::RetryAndDeny(3))
        .build();
    let report = limiter.decide("k", 70);
    assert!(matches!(
        report.outcome,
        Err(RateLimiterError::BackendError(BackendError::RedisError(ref e))) if e == "write 4"
    ));
    assert_eq!((report.reads, report.writes, report.cycles), (1, 4, 1));
    assert_eq!(store.reads.get(), 1);
    let asked = store.asked.borrow();
    assert_eq!(asked.len(), 4);
    let state = LimiterInstance::FixedWindowInstance(FixedWindowInstance::new(70, 1))
        .to_bytes()
        .unwrap();
    for call in asked.iter() {
        assert_eq!(call, &("k".to_string(), state.clone(), None));
    }
}

#[test]
fn a_state_at_its_limit_is_read_once_and_left_alone() {
    for (on_failure, on_conflict) in [
        (RetryStrategy::Allow, RetryStrategy::Allow),
        (RetryStrategy::RetryAndAllow(3), RetryStrategy::RetryAndAllow(3)),
        (RetryStrategy::Deny, RetryStrategy::RetryAndDeny(2)),
    ] {
        let store = brakes::backend::local::Memory::new();
        let limiter = RateLimiter::builder()
            .with_backend(store.clone())
            .with_limiter(FixedWindow::new(1, Duration::from_millis(1000)))
            .with_failure_strategy(on_failure)
            .with_conflict_strategy(on_conflict)
            .build();
        let first = limiter.decide("k", 10);
        assert!(first.outcome.is_ok());
        assert_eq!((first.reads, first.writes, first.cycles), (1, 1, 1));
        let stored = store.get("k").unwrap().0;
        let second = limiter.decide("k", 20);
        assert!(matches!(second.outcome, Err(RateLimiterError::RateExceeded)));
        assert_eq!((second.reads, second.writes, second.cycles), (1, 0, 1));
        assert_eq!(store.get("k").unwrap().0, stored);
    }
}
