//! What a Redis session's replies mean for a store that watches a key from
//! the read to the write.

use crate::backend::{BackendError, ReadReply, WriteReply};
use vstd::prelude::*;

verus! {

/// What a read does after `WATCH`: it goes on to `GET` where the watch was
/// set, and ends with the server's error where it was not.
pub open spec fn watch_failure(watched: Result<(), String>) -> Option<BackendError> {
    match watched {
        Ok(_) => None,
        Err(e) => Some(BackendError::RedisError(e)),
    }
}

/// Tells whether the watch failed, and with which error the read then ends.
pub fn settle_watch(watched: Result<(), String>) -> (r: Option<BackendError>)
    ensures
        r == watch_failure(watched),
{
    match watched {
        Ok(_) => None,
        Err(e) => Some(BackendError::RedisError(e)),
    }
}

/// The reply of a read whose watch was set, from what `GET` gave: the value,
/// nothing for a key that the server does not hold, or its error. The
/// session keeps the version, so no token is handed out.
pub open spec fn read_reply(fetched: Result<Option<Vec<u8>>, String>) -> ReadReply {
    match fetched {
        Ok(Some(v)) => Ok((v, None)),
        Ok(None) => Err(BackendError::KeyMissing),
        Err(e) => Err(BackendError::RedisError(e)),
    }
}

/// Turns the reply of `GET` into the reply of a read.
pub fn settle_read(fetched: Result<Option<Vec<u8>>, String>) -> (r: ReadReply)
    ensures
        r == read_reply(fetched),
{
    match fetched {
        Ok(Some(v)) => Ok((v, None)),
        Ok(None) => Err(BackendError::KeyMissing),
        Err(e) => Err(BackendError::RedisError(e)),
    }
}

/// The reply of a write: `committed` is what `EXEC` gave, with nothing for a
/// transaction that the server dropped because the watched key had changed;
/// `released` is what the `UNWATCH` after it gave. A failed release outweighs
/// whatever the transaction gave.
pub open spec fn write_reply(committed: Result<Option<()>, String>, released: Result<(), String>)
    -> WriteReply {
    match released {
        Err(e) => Err(BackendError::RedisError(e)),
        Ok(_) => match committed {
            Ok(Some(_)) => Ok(()),
            Ok(None) => Err(BackendError::ValueChanged),
            Err(e) => Err(BackendError::RedisError(e)),
        },
    }
}

/// Turns the replies of `EXEC` and `UNWATCH` into the reply of a write.
pub fn settle_write(committed: Result<Option<()>, String>, released: Result<(), String>) -> (r:
    WriteReply)
    ensures
        r == write_reply(committed, released),
{
    match released {
        Err(e) => Err(BackendError::RedisError(e)),
        Ok(_) => match committed {
            Ok(Some(_)) => Ok(()),
            Ok(None) => Err(BackendError::ValueChanged),
            Err(e) => Err(BackendError::RedisError(e)),
        },
    }
}

/// The reply of a delete, from what `DEL` gave.
pub fn settle_delete(deleted: Result<(), String>) -> (r: WriteReply)
    ensures
        r == match deleted {
            Ok(_) => Ok::<(), BackendError>(()),
            Err(e) => Err(BackendError::RedisError(e)),
        },
{
    match deleted {
        Ok(_) => Ok(()),
        Err(e) => Err(BackendError::RedisError(e)),
    }
}

/// A connection that the pool failed to hand out, as a store error.
pub fn pool_failure(reason: String) -> (r: BackendError)
    ensures
        r == BackendError::R2D2Error(reason),
{
    BackendError::R2D2Error(reason)
}

} // verus!
