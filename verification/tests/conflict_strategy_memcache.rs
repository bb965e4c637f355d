use std::cell::RefCell;
use std::collections::HashMap;
use std::rc::Rc;
use std::time::Duration;

use brakes::backend::{Backend, BackendError};
use brakes::types::fixed_window::FixedWindow;
use brakes::types::RateLimiterError;
use brakes::{RateLimiter, RetryStrategy};

// A store that hands out a version with every read and commits a write only
// against the version that was read. `rivals` holds, for each coming write,
// whether another writer commits just before it.
struct Shelf {
    values: HashMap<String, (Vec<u8>, u64)>,
    rivals: Vec<bool>,
    reads: u32,
    writes: u32,
    commits: u32,
}

#[derive(Clone)]
struct CasStore {
    shelf: Rc<RefCell<Shelf>>,
}

impl CasStore {
    fn new() -> Self {
        CasStore {
            shelf: Rc::new(RefCell::new(Shelf {
                values: HashMap::new(),
                rivals: Vec::new(),
                reads: 0,
                writes: 0,
                commits: 0,
            })),
        }
    }

    // the coming writes meet a rival where `plan` says so, first write first
    fn expect_rivals(&self, plan: &[bool]) {
        let mut rivals: Vec<bool> = plan.to_vec();
        rivals.reverse();
        self.shelf.borrow_mut().rivals = rivals;
    }

    fn counts(&self) -> (u32, u32, u32) {
        let shelf = self.shelf.borrow();
        (shelf.reads, shelf.writes, shelf.commits)
    }
}

impl Backend for CasStore {
    fn get(&self, key: &str) -> Result<(Vec<u8>, Option<u64>), BackendError> {
        let mut shelf = self.shelf.borrow_mut();
        shelf.reads += 1;
        match shelf.values.get(key) {
            Some((v, version)) => Ok((v.clone(), Some(*version))),
            None => Err(BackendError::KeyMissing),
        }
    }

    fn set(&self, key: &str, value: &[u8], version: Option<u64>) -> Result<(), BackendError> {
        let mut shelf = self.shelf.borrow_mut();
        shelf.writes += 1;
        if shelf.rivals.pop().unwrap_or(false) {
            let created = match shelf.values.get_mut(key) {
                Some(entry) => {
                    entry.1 += 1;
                    false
                }
                None => true,
            };
            if created {
                // the rival made the first request for a key that this writer found missing
                shelf.values.insert(key.to_string(), (value.to_vec(), 1));
                return Err(BackendError::ValueChanged);
            }
        }
        let current = shelf.values.get(key).map(|e| e.1);
        match (version, current) {
            (Some(v), Some(c)) if v != c => Err(BackendError::ValueChanged),
            (Some(_), None) => Err(BackendError::ValueChanged),
            (_, c) => {
                shelf.values.insert(key.to_string(), (value.to_vec(), c.unwrap_or(0) + 1));
                shelf.commits += 1;
                Ok(())
            }
        }
    }

    fn delete(&self, key: &str) -> Result<(), BackendError> {
        self.shelf.borrow_mut().values.remove(key);
        Ok(())
    }
}

fn count_outcomes(results: &[Result<(), RateLimiterError>]) -> (i32, i32) {
    let (mut ok, mut err) = (0, 0);
    for r in results {
        if r.is_ok() {
            ok += 1;
        } else {
            err += 1;
        }
    }
    (ok, err)
}

#[test]
fn conflict_strategy_memcache_retry_and_deny() {
    let cache = CasStore::new();
    let _ = cache.delete("key");

    let limiter = RateLimiter::builder()
        .with_backend(cache.clone())
        .with_limiter(FixedWindow::new(10000, Duration::from_millis(1000)))
        .with_conflict_strategy(RetryStrategy::RetryAndDeny(2))
        .build();

    // ten callers; the writes of the fourth and of the eighth lose three times
    let mut plan = vec![false, true, false, true, true, false];
    plan.extend_from_slice(&[true, true, true]);
    plan.extend_from_slice(&[false, false, true, false]);
    plan.extend_from_slice(&[true, true, true]);
    plan.extend_from_slice(&[false, false]);
    cache.expect_rivals(&plan);

    let mut results = vec![];
    for _ in 0..10 {
        let limiter = limiter.clone();
        results.push(limiter.is_ratelimited_at("key1", 500));
    }
    let (ok, err) = count_outcomes(&results);
    assert!(ok > 5);
    assert!(err < 5);
    assert_eq!(ok, 8);
    assert_eq!(err, 2);
    assert!(matches!(results[3], Err(RateLimiterError::BackendConflict)));
    assert!(matches!(results[7], Err(RateLimiterError::BackendConflict)));

    // every admitted request was counted once, and no denied one
    let usage = limiter.get_usage("key1").unwrap().as_fixed_window_instance().unwrap();
    assert_eq!(usage.window_count(), 8);
    let (reads, writes, commits) = cache.counts();
    assert_eq!(writes, 18);
    assert_eq!(reads, 18 + 1);
    assert_eq!(commits, 8);
}

#[test]
fn conflict_strategy_memcache_retry_and_allow() {
    let cache = CasStore::new();
    let _ = cache.delete("key");

    let limiter = RateLimiter::builder()
        .with_backend(cache.clone())
        .with_limiter(FixedWindow::new(100, Duration::from_millis(1000)))
        .with_conflict_strategy(RetryStrategy::RetryAndAllow(1))
        .build();

    cache.expect_rivals(&[false, true, true, true, false, false, true, true]);
    for _ in 0..5 {
        let limiter = limiter.clone();
        assert!(limiter.is_ratelimited_at("key2", 500).is_ok());
    }
    // two tries each for the second and the fifth caller, both in vain
    let (reads, writes, commits) = cache.counts();
    assert_eq!(writes, 8);
    assert_eq!(reads, 8);
    assert_eq!(commits, 3);
}

#[test]
fn conflict_strategy_memcache_deny() {
    let key = "key";

    let cache = CasStore::new();
    let _ = cache.delete("key");

    let limiter = RateLimiter::builder()
        .with_backend(cache.clone())
        .with_limiter(FixedWindow::new(100, Duration::from_millis(1000)))
        .with_conflict_strategy(RetryStrategy::Deny)
        .build();

    cache.expect_rivals(&[false, true, false, true, true, false, false, true, false, false]);
    let mut results = vec![];
    for _ in 0..10 {
        let limiter = limiter.clone();
        results.push(limiter.is_ratelimited_at(key, 500));
    }
    let (ok, err) = count_outcomes(&results);
    assert!(ok > 0 && ok < 10);
    assert!(err > 0 && err < 10);
    assert_eq!(ok, 6);
    assert!(matches!(results[1], Err(RateLimiterError::BackendConflict)));
    let (reads, writes, _) = cache.counts();
    assert_eq!(reads, 10);
    assert_eq!(writes, 10);
}

#[test]
fn conflict_strategy_memcache_allow() {
    let cache = CasStore::new();
    let _ = cache.delete("key");

    let limiter = RateLimiter::builder()
        .with_backend(cache.clone())
        .with_limiter(FixedWindow::new(100, Duration::from_millis(1000)))
        .with_conflict_strategy(RetryStrategy::Allow)
        .build();

    cache.expect_rivals(&[true, false, true, true, false]);
    for _ in 0..5 {
        let limiter = limiter.clone();
        assert!(limiter.is_ratelimited_at("key4", 500).is_ok());
    }
    let (reads, writes, commits) = cache.counts();
    assert_eq!((reads, writes, commits), (5, 5, 2));
}

#[test]
fn conflict_always_takes_every_cycle() {
    for (strategy, cycles, admitted) in [
        (RetryStrategy::RetryAndDeny(0), 1, false),
        (RetryStrategy::RetryAndDeny(2), 3, false),
        (RetryStrategy::RetryAndDeny(5), 6, false),
        (RetryStrategy::RetryAndAllow(3), 4, true),
        (RetryStrategy::Allow, 1, true),
        (RetryStrategy::Deny, 1, false),
    ] {
        let cache = CasStore::new();
        cache.expect_rivals(&[true; 16]);
        let limiter = RateLimiter::builder()
            .with_backend(cache.clone())
            .with_limiter(FixedWindow::new(100, Duration::from_millis(1000)))
            .with_conflict_strategy(strategy)
            .build();
        let result = limiter.is_ratelimited_at("k", 1);
        if admitted {
            assert!(result.is_ok());
        } else {
            assert!(matches!(result, Err(RateLimiterError::BackendConflict)));
        }
        let (reads, writes, commits) = cache.counts();
        assert_eq!(reads, cycles);
        assert_eq!(writes, cycles);
        assert_eq!(commits, 0);
    }
}

#[test]
fn loser_of_a_write_tries_again_and_wins() {
    let store = CasStore::new();
    let a = RateLimiter::builder()
        .with_backend(store.clone())
        .with_limiter(FixedWindow::new(100, Duration::from_millis(1000)))
        .with_conflict_strategy(RetryStrategy::RetryAndDeny(2))
        .build();
    let b = a.clone();
    assert!(a.is_ratelimited_at("k", 10).is_ok());
    // both read the same version; a's write commits first, as b's rival
    let (stored, version) = store.get("k").unwrap();
    let from_a = a.limiter.clone();
    let next = brakes::types::LimiterType::is_rate_limited_now(&from_a, 10, Some(stored.clone()))
        .unwrap()
        .to_bytes()
        .unwrap();
    assert!(store.set("k", &next, version).is_ok());
    assert!(matches!(store.set("k", &next, version), Err(BackendError::ValueChanged)));
    // b, in a decision of its own, loses once and then wins
    store.expect_rivals(&[true, false]);
    let before = store.counts();
    assert!(b.is_ratelimited_at("k", 10).is_ok());
    let after = store.counts();
    assert_eq!(after.0 - before.0, 2);
    assert_eq!(after.1 - before.1, 2);
    assert_eq!(after.2 - before.2, 1);
    let usage = b.get_usage("k").unwrap().as_fixed_window_instance().unwrap();
    assert_eq!(usage.window_count(), 3);
}

#[test]
fn storm_on_one_key_counts_each_winner_once() {
    let store = CasStore::new();
    let limiter = RateLimiter::builder()
        .with_backend(store.clone())
        .with_limiter(FixedWindow::new(1_000_000, Duration::from_millis(1000)))
        .with_conflict_strategy(RetryStrategy::RetryAndDeny(2))
        .build();
    // every third write meets a rival
    let mut plan = vec![];
    for i in 0..40 {
        plan.push(i % 3 == 2);
    }
    store.expect_rivals(&plan);
    let mut ok = 0;
    for _ in 0..10 {
        if limiter.clone().is_ratelimited_at("same-key", 77).is_ok() {
            ok += 1;
        }
    }
    assert!(ok >= 5 && ok <= 10);
    let usage = limiter.get_usage("same-key").unwrap().as_fixed_window_instance().unwrap();
    assert_eq!(usage.window_count(), ok);
    assert_eq!(store.counts().2, ok);
}

#[test]
fn conflicts_are_reported_after_every_cycle() {
    for n in [0u32, 1, 2, 6] {
        let cache = CasStore::new();
        cache.expect_rivals(&[true; 16]);
        let limiter = RateLimiter::builder()
            .with_backend(cache.clone())
            .with_limiter(FixedWindow::new(100, Duration::from_millis(1000)))
            .with_conflict_strategy(RetryStrategy::RetryAndDeny(n))
            .build();
        let report = limiter.decide("k", 1);
        assert!(matches!(report.outcome, Err(RateLimiterError::BackendConflict)));
        assert_eq!(report.cycles, n as u64 + 1);
        assert_eq!(report.reads, n as u128 + 1);
        assert_eq!(report.writes, n as u128 + 1);
    }
    let cache = CasStore::new();
    cache.expect_rivals(&[true, true, false]);
    let limiter = RateLimiter::builder()
        .with_backend(cache.clone())
        .with_limiter(FixedWindow::new(100, Duration::from_millis(1000)))
        .with_conflict_strategy(RetryStrategy::RetryAndDeny(5))
        .build();
    let report = limiter.decide("k", 1);
    assert!(report.outcome.is_ok());
    assert_eq!((report.reads, report.writes, report.cycles), (3, 3, 3));
}

