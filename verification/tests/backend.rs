use brakes::backend::redis_cluster::{
    pool_failure, settle_delete, settle_read, settle_watch, settle_write,
};
use brakes::backend::{local::Memory, Backend, BackendError};

#[test]
fn memory() {
    let backend = Memory::new();
    test_backend(backend);
}

fn test_backend(backend: impl Backend) {
    let key = "key";

    backend.set(key, &[], None).unwrap();

    let value = backend.get(key);
    assert!(value.is_ok());
    assert_eq!(value.unwrap().0, Vec::<u8>::new());

    assert!(backend.delete(key).is_ok());

    let value = backend.get(key);
    assert!(value.is_err());

    assert!(backend.delete(key).is_ok());
}

#[test]
fn memory_keeps_what_was_written() {
    let backend = Memory::new();
    let shared = backend.clone();
    assert!(matches!(backend.get("a"), Err(BackendError::KeyMissing)));
    backend.set("a", &[1, 2, 3], Some(7)).unwrap();
    backend.set("b", &[9], None).unwrap();
    assert_eq!(shared.get("a").unwrap(), (vec![1, 2, 3], None));
    assert_eq!(shared.get_with_retries("b", 3).unwrap(), (vec![9], None));
    shared.set_with_retries("a", vec![4], None, 2).unwrap();
    assert_eq!(backend.get("a").unwrap().0, vec![4]);
    backend.delete_with_retries("a", 2).unwrap();
    assert!(matches!(shared.get_with_retries("a", 5), Err(BackendError::KeyMissing)));
    assert_eq!(shared.get("b").unwrap().0, vec![9]);
}

#[test]
fn error_words() {
    assert_eq!(BackendError::LocalMemLockError.message(), "mutex poison error");
    assert_eq!(BackendError::ValueChanged.message(), "value changed");
    assert_eq!(BackendError::KeyMissing.message(), "key missing");
    assert_eq!(BackendError::RedisError("broken pipe".to_string()).message(), "broken pipe");
    assert_eq!(BackendError::R2D2Error("timed out".to_string()).message(), "timed out");
    assert_eq!(BackendError::MemCacheError("bad reply".to_string()).message(), "bad reply");
    assert!(BackendError::LocalMemLockError.transient());
    assert!(BackendError::RedisError(String::new()).transient());
    assert!(!BackendError::KeyMissing.transient());
    assert!(!BackendError::ValueChanged.transient());
}

#[test]
fn session_replies() {
    assert_eq!(settle_read(Ok(Some(vec![1, 2]))).unwrap(), (vec![1, 2], None));
    assert!(matches!(settle_read(Ok(None)), Err(BackendError::KeyMissing)));
    assert!(matches!(
        settle_read(Err("eof".to_string())),
        Err(BackendError::RedisError(e)) if e == "eof"
    ));
    assert!(settle_watch(Ok(())).is_none());
    assert!(matches!(
        settle_watch(Err("no watch".to_string())),
        Some(BackendError::RedisError(e)) if e == "no watch"
    ));
    assert!(settle_write(Ok(Some(())), Ok(())).is_ok());
    assert!(matches!(settle_write(Ok(None), Ok(())), Err(BackendError::ValueChanged)));
    assert!(matches!(
        settle_write(Err("eof".to_string()), Ok(())),
        Err(BackendError::RedisError(e)) if e == "eof"
    ));
    assert!(matches!(
        settle_write(Ok(None), Err("stuck".to_string())),
        Err(BackendError::RedisError(e)) if e == "stuck"
    ));
    assert!(settle_delete(Ok(())).is_ok());
    assert!(matches!(
        settle_delete(Err("eof".to_string())),
        Err(BackendError::RedisError(e)) if e == "eof"
    ));
    assert!(matches!(pool_failure("timed out".to_string()), BackendError::R2D2Error(e) if e == "timed out"));
}

#[test]
fn server_replies() {
    use_memcache_replies();
}

fn use_memcache_replies() {
    assert_eq!(
        brakes::backend::memcache::settle_read(Ok(Some((vec![7], Some(31))))).unwrap(),
        (vec![7], Some(31))
    );
    assert!(matches!(
        brakes::backend::memcache::settle_read(Ok(None)),
        Err(BackendError::KeyMissing)
    ));
    assert!(matches!(
        brakes::backend::memcache::settle_read(Err("down".to_string())),
        Err(BackendError::MemCacheError(e)) if e == "down"
    ));
    assert!(brakes::backend::memcache::settle_swap(Ok(true)).is_ok());
    assert!(matches!(
        brakes::backend::memcache::settle_swap(Ok(false)),
        Err(BackendError::ValueChanged)
    ));
    assert!(matches!(
        brakes::backend::memcache::settle_swap(Err("down".to_string())),
        Err(BackendError::MemCacheError(e)) if e == "down"
    ));
    assert!(brakes::backend::memcache::settle_store(Ok(())).is_ok());
    assert!(matches!(
        brakes::backend::memcache::settle_store(Err("down".to_string())),
        Err(BackendError::MemCacheError(e)) if e == "down"
    ));
    assert!(brakes::backend::memcache::settle_delete(Ok(false)).is_ok());
    assert!(brakes::backend::memcache::settle_delete(Ok(true)).is_ok());
    assert!(matches!(
        brakes::backend::memcache::settle_delete(Err("down".to_string())),
        Err(BackendError::MemCacheError(e)) if e == "down"
    ));
}

#[test]
fn lookup_replies() {
    let held = vec![4u8, 5, 6];
    assert_eq!(
        brakes::backend::local::settle_lookup(Some(&held)).unwrap(),
        (vec![4, 5, 6], None)
    );
    assert!(matches!(
        brakes::backend::local::settle_lookup(None),
        Err(BackendError::KeyMissing)
    ));
}

#[test]
fn clock_readings() {
    assert_eq!(
        brakes::clock::millis_of(Some(std::time::Duration::from_millis(1500))),
        1500
    );
    assert_eq!(
        brakes::clock::millis_of(Some(std::time::Duration::new(3, 999_999_999))),
        3999
    );
    assert_eq!(brakes::clock::millis_of(None), 0);
    assert!(brakes::clock::unix_millis() > 1_577_836_800_000);
}
