//! What a Memcached server's replies mean for a store that compares the
//! server's check-and-set tokens.

use crate::backend::{BackendError, ReadReply, WriteReply};
use vstd::prelude::*;

verus! {

/// The reply of a read, from what `gets` gave: the value with the server's
/// token, nothing for a key that the server does not hold, or its error.
pub open spec fn read_reply(found: Result<Option<(Vec<u8>, Option<u64>)>, String>) -> ReadReply {
    match found {
        Ok(Some((value, token))) => Ok((value, token)),
        Ok(None) => Err(BackendError::KeyMissing),
        Err(e) => Err(BackendError::MemCacheError(e)),
    }
}

/// Turns the reply of `gets` into the reply of a read.
pub fn settle_read(found: Result<Option<(Vec<u8>, Option<u64>)>, String>) -> (r: ReadReply)
    ensures
        r == read_reply(found),
{
    match found {
        Ok(Some((value, token))) => Ok((value, token)),
        Ok(None) => Err(BackendError::KeyMissing),
        Err(e) => Err(BackendError::MemCacheError(e)),
    }
}

/// The reply of a write under a token, from what `cas` gave: the server
/// says whether it stored the value, and it does not when the token is no
/// longer the key's.
pub open spec fn swap_reply(swapped: Result<bool, String>) -> WriteReply {
    match swapped {
        Ok(true) => Ok(()),
        Ok(false) => Err(BackendError::ValueChanged),
        Err(e) => Err(BackendError::MemCacheError(e)),
    }
}

/// Turns the reply of `cas` into the reply of a write.
pub fn settle_swap(swapped: Result<bool, String>) -> (r: WriteReply)
    ensures
        r == swap_reply(swapped),
{
    match swapped {
        Ok(true) => Ok(()),
        Ok(false) => Err(BackendError::ValueChanged),
        Err(e) => Err(BackendError::MemCacheError(e)),
    }
}

/// Turns the reply of `set`, a write without a token, into the reply of a
/// write.
pub fn settle_store(stored: Result<(), String>) -> (r: WriteReply)
    ensures
        r == match stored {
            Ok(_) => Ok::<(), BackendError>(()),
            Err(e) => Err(BackendError::MemCacheError(e)),
        },
{
    match stored {
        Ok(_) => Ok(()),
        Err(e) => Err(BackendError::MemCacheError(e)),
    }
}

/// Turns the reply of `delete` into the reply of a delete: whether the
/// server held the key does not matter.
pub fn settle_delete(deleted: Result<bool, String>) -> (r: WriteReply)
    ensures
        r == match deleted {
            Ok(_) => Ok::<(), BackendError>(()),
            Err(e) => Err(BackendError::MemCacheError(e)),
        },
{
    match deleted {
        Ok(_) => Ok(()),
        Err(e) => Err(BackendError::MemCacheError(e)),
    }
}

} // verus!
