//! A store in the memory of one process.

use crate::backend::{read_view, Backend, BackendError, ReadReply, ReadView, WriteReply};
use std::collections::HashMap;
use std::sync::{Arc, Mutex, MutexGuard};
use vstd::prelude::*;
use vstd::slice::slice_to_vec;

verus! {

#[verifier::external_type_specification]
#[verifier::external_body]
#[verifier::reject_recursive_types(T)]
pub struct ExMutex<T: ?Sized>(Mutex<T>);

#[verifier::external_type_specification]
#[verifier::external_body]
#[verifier::reject_recursive_types(T)]
pub struct ExMutexGuard<'a, T: ?Sized + 'a>(MutexGuard<'a, T>);

/// `Mutex::new` makes a lock around the value.
pub assume_specification<T>[ Mutex::<T>::new ](t: T) -> Mutex<T>;

/// `Mutex::lock` waits for the lock and hands out its guard, or an error
/// when a holder of the lock panicked; the error is given as nothing.
#[verifier::external_body]
fn lock_map<'a>(store: &'a Mutex<HashMap<String, Vec<u8>>>) -> Option<
    MutexGuard<'a, HashMap<String, Vec<u8>>>,
> {
    match store.lock() {
        Ok(guard) => Some(guard),
        Err(_) => None,
    }
}

/// `HashMap::get` on the locked map: the value under the key, if there is
/// one. The map is shared, so nothing is claimed of what it holds.
#[verifier::external_body]
fn map_get<'a>(guard: &'a MutexGuard<HashMap<String, Vec<u8>>>, key: &str) -> Option<&'a Vec<u8>> {
    guard.get(key)
}

/// `HashMap::insert` on the locked map: puts the value under the key.
#[verifier::external_body]
fn map_insert(guard: &mut MutexGuard<HashMap<String, Vec<u8>>>, key: String, value: Vec<u8>) {
    guard.insert(key, value);
}

/// `HashMap::remove` on the locked map: drops what is under the key.
#[verifier::external_body]
fn map_remove(guard: &mut MutexGuard<HashMap<String, Vec<u8>>>, key: &str) {
    guard.remove(key);
}

/// A map behind one lock, shared by its clones. It hands out no version
/// token and writes unconditionally, so it is for a single process whose
/// requests for one key do not overlap.
#[derive(Debug, Clone)]
pub struct Memory {
    map: Arc<Mutex<HashMap<String, Vec<u8>>>>,
}

impl Memory {
    pub fn new() -> Self {
        Memory { map: Arc::new(Mutex::new(HashMap::new())) }
    }
}

/// The reply to a read, from what the map holds under the key: the bytes
/// without a token, or `KeyMissing`.
pub open spec fn lookup_reply(found: Option<&Vec<u8>>) -> ReadView {
    match found {
        Some(v) => Ok((v@, None)),
        None => Err(BackendError::KeyMissing),
    }
}

/// Turns what the map holds under the key into the reply to a read.
pub fn settle_lookup(found: Option<&Vec<u8>>) -> (r: ReadReply)
    ensures
        read_view(r) == lookup_reply(found),
{
    match found {
        Some(v) => Ok((v.clone(), None)),
        None => Err(BackendError::KeyMissing),
    }
}

impl Backend for Memory {
    /// A read gives the stored bytes without a token, `KeyMissing`, or
    /// `LocalMemLockError` when the lock is poisoned.
    open spec fn answers_read(&self, key: Seq<char>, reply: ReadView) -> bool {
        match reply {
            Ok((_, version)) => version is None,
            Err(e) => e is KeyMissing || e is LocalMemLockError,
        }
    }

    /// A write succeeds whatever the version, unless the lock is poisoned.
    open spec fn answers_write(
        &self,
        key: Seq<char>,
        value: Seq<u8>,
        version: Option<u64>,
        reply: WriteReply,
    ) -> bool {
        match reply {
            Ok(_) => true,
            Err(e) => e is LocalMemLockError,
        }
    }

    /// A delete succeeds, unless the lock is poisoned.
    open spec fn answers_delete(&self, key: Seq<char>, reply: WriteReply) -> bool {
        match reply {
            Ok(_) => true,
            Err(e) => e is LocalMemLockError,
        }
    }

    /// The bytes that the map holds under the key, without a token.
    fn get(&self, key: &str) -> (r: ReadReply) {
        match lock_map(&self.map) {
            Some(guard) => settle_lookup(map_get(&guard, key)),
            None => Err(BackendError::LocalMemLockError),
        }
    }

    /// Puts the bytes under the key, whatever the version.
    fn set(&self, key: &str, value: &[u8], version: Option<u64>) -> (r: WriteReply) {
        match lock_map(&self.map) {
            Some(mut guard) => {
                map_insert(&mut guard, key.to_string(), slice_to_vec(value));
                Ok(())
            },
            None => Err(BackendError::LocalMemLockError),
        }
    }

    /// Drops what the map holds under the key.
    fn delete(&self, key: &str) -> (r: WriteReply) {
        match lock_map(&self.map) {
            Some(mut guard) => {
                map_remove(&mut guard, key);
                Ok(())
            },
            None => Err(BackendError::LocalMemLockError),
        }
    }
}

} // verus!
