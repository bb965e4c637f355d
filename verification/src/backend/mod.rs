//! The contract of a store, its error type, and the retries on transient
//! failures.

pub mod local;
pub mod memcache;
pub mod redis_cluster;

use vstd::prelude::*;

verus! {

/// Why a store operation did not succeed.
///
/// `KeyMissing` and `ValueChanged` are outcomes with a meaning of their own;
/// every other variant is a transient failure of the store and carries the
/// driver's words where it has any.
#[derive(Debug, Clone)]
pub enum BackendError {
    /// The connection pool could not hand out a connection.
    R2D2Error(String),
    /// The Redis server or its protocol failed.
    RedisError(String),
    /// The Memcached server or its protocol failed.
    MemCacheError(String),
    /// The lock of the in-process store is poisoned.
    LocalMemLockError,
    /// Nothing is stored under the key.
    KeyMissing,
    /// The stored value changed between the read and the write.
    ValueChanged,
}

/// What a read gives: the stored bytes and, from a store that hands out
/// version tokens, the token to pass to the write that follows.
pub type ReadReply = Result<(Vec<u8>, Option<u64>), BackendError>;

/// What a write or a delete gives.
pub type WriteReply = Result<(), BackendError>;

/// A read's reply with the bytes as a sequence.
pub type ReadView = Result<(Seq<u8>, Option<u64>), BackendError>;

/// The view of a read's reply.
pub open spec fn read_view(reply: ReadReply) -> ReadView {
    match reply {
        Ok((bytes, version)) => Ok((bytes@, version)),
        Err(e) => Err(e),
    }
}

impl BackendError {
    /// A transient failure is one that a retry may cure.
    pub open spec fn is_transient(self) -> bool {
        !(self is KeyMissing) && !(self is ValueChanged)
    }

    /// Tells whether a retry may cure this error.
    pub fn transient(&self) -> (r: bool)
        ensures
            r == self.is_transient(),
    {
        match self {
            BackendError::KeyMissing => false,
            BackendError::ValueChanged => false,
            _ => true,
        }
    }

    /// The error in words.
    pub fn message(&self) -> (r: String)
        ensures
            r@ == self.words(),
    {
        match self {
            BackendError::R2D2Error(e) => e.clone(),
            BackendError::RedisError(e) => e.clone(),
            BackendError::MemCacheError(e) => e.clone(),
            BackendError::LocalMemLockError => "mutex poison error".to_string(),
            BackendError::ValueChanged => "value changed".to_string(),
            BackendError::KeyMissing => "key missing".to_string(),
        }
    }

    /// The words of [`BackendError::message`].
    pub open spec fn words(self) -> Seq<char> {
        match self {
            BackendError::R2D2Error(e) => e@,
            BackendError::RedisError(e) => e@,
            BackendError::MemCacheError(e) => e@,
            BackendError::LocalMemLockError => "mutex poison error"@,
            BackendError::ValueChanged => "value changed"@,
            BackendError::KeyMissing => "key missing"@,
        }
    }
}

/// A reply is settled, and the operation not tried again, when it is a
/// success or an error that no retry cures: a missing key, a changed value.
pub open spec fn settled<T>(reply: Result<T, BackendError>) -> bool {
    match reply {
        Ok(_) => true,
        Err(e) => !e.is_transient(),
    }
}

/// Tells whether a reply is settled.
pub fn is_settled<T>(reply: &Result<T, BackendError>) -> (r: bool)
    ensures
        r == settled(*reply),
{
    match reply {
        Ok(_) => true,
        Err(e) => !e.transient(),
    }
}

/// Whether `run` is what one operation with up to `tries` tries hears from
/// the store, reply by reply: it makes at least one call and at most
/// `tries`, goes on after every reply that is not settled, and stops at the
/// first settled one. So the calls are as many as the replies up to the
/// first settled one, or `tries` where none is settled.
pub open spec fn retried<T>(run: Seq<Result<T, BackendError>>, tries: nat) -> bool {
    &&& 1 <= run.len() <= tries
    &&& forall|i: int| 0 <= i < run.len() - 1 ==> !settled(#[trigger] run[i])
    &&& run.len() < tries ==> settled(run.last())
}

/// Whether `replies` holds `run` from its place `made` on.
pub open spec fn holds_run<T>(
    replies: Seq<Result<T, BackendError>>,
    made: nat,
    run: Seq<Result<T, BackendError>>,
) -> bool {
    &&& made + run.len() <= replies.len()
    &&& forall|i: int| 0 <= i < run.len() ==> replies[made + i] == #[trigger] run[i]
}

/// How many calls an operation makes that is tried up to `tries` times on a
/// store whose calls so far number `made` and whose further calls are
/// answered by `replies[made]`, `replies[made + 1]` and so on: it stops at
/// the first settled reply, and after `tries` calls at the latest.
pub open spec fn calls_made<T>(replies: Seq<Result<T, BackendError>>, made: nat, tries: nat) -> nat
    decreases tries,
{
    if tries <= 1 || settled(replies[made as int]) {
        1
    } else {
        1 + calls_made(replies, made + 1, (tries - 1) as nat)
    }
}

/// The reply that such an operation returns: that of its last call.
pub open spec fn last_reply<T>(replies: Seq<Result<T, BackendError>>, made: nat, tries: nat)
    -> Result<T, BackendError> {
    replies[made + calls_made(replies, made, tries) - 1]
}

/// Such an operation makes at least one call and at most `tries`, hears no
/// settled reply before its last, and stops short of `tries` only on a
/// settled one.
pub proof fn lemma_calls_are_a_run<T>(replies: Seq<Result<T, BackendError>>, made: nat, tries: nat)
    requires
        tries >= 1,
    ensures
        1 <= calls_made(replies, made, tries) <= tries,
        forall|i: int|
            made <= i < made + calls_made(replies, made, tries) - 1 ==> !settled(
                #[trigger] replies[i],
            ),
        calls_made(replies, made, tries) < tries ==> settled(last_reply(replies, made, tries)),
    decreases tries,
{
    if !(tries <= 1 || settled(replies[made as int])) {
        lemma_calls_are_a_run(replies, made + 1, (tries - 1) as nat);
    }
}

/// Where the replies from `made` on are a run of an operation with `tries`
/// tries, the operation makes as many calls as the run has replies and
/// returns the last of them.
pub proof fn lemma_run_is_counted<T>(
    replies: Seq<Result<T, BackendError>>,
    made: nat,
    tries: nat,
    run: Seq<Result<T, BackendError>>,
)
    requires
        retried(run, tries),
        holds_run(replies, made, run),
    ensures
        calls_made(replies, made, tries) == run.len(),
        last_reply(replies, made, tries) == run.last(),
    decreases tries,
{
    assert(replies[made as int] == run[0]);
    if tries <= 1 {
    } else if settled(replies[made as int]) {
        if run.len() > 1 {
            assert(!settled(run[0]));
        }
    } else {
        let rest = run.drop_first();
        assert forall|i: int| 0 <= i < rest.len() implies replies[made + 1 + i]
            == #[trigger] rest[i] by {
            assert(rest[i] == run[i + 1]);
        }
        assert forall|i: int| 0 <= i < rest.len() - 1 implies !settled(#[trigger] rest[i]) by {
            assert(rest[i] == run[i + 1]);
        }
        assert(rest.len() > 0 ==> rest.last() == run.last());
        lemma_run_is_counted(replies, made + 1, (tries - 1) as nat, rest);
    }
}

/// A keyed store of byte strings with optimistic concurrency.
///
/// A read may hand out a version token; a write that is given one succeeds
/// only if the value is still the one that was read, and reports
/// `ValueChanged` otherwise. A write without a token is unconditional, unless
/// the store keeps its own watch on the key from the read before.
///
/// What a call returns is the store's to say, and a store says it in
/// `answers_read`, `answers_write` and `answers_delete`: the replies that it
/// may give to a call with these arguments. The operations with retries
/// return replies of the store to the very call that they were asked to
/// make.
pub trait Backend: Clone {
    /// Whether the store may give `reply` to a read of `key`. A store that
    /// does not say may give any.
    open spec fn answers_read(&self, key: Seq<char>, reply: ReadView) -> bool {
        true
    }

    /// Whether the store may give `reply` to a write of `value` under `key`
    /// and `version`. A store that does not say may give any.
    open spec fn answers_write(
        &self,
        key: Seq<char>,
        value: Seq<u8>,
        version: Option<u64>,
        reply: WriteReply,
    ) -> bool {
        true
    }

    /// Whether the store may give `reply` to a delete of `key`. A store that
    /// does not say may give any.
    open spec fn answers_delete(&self, key: Seq<char>, reply: WriteReply) -> bool {
        true
    }

    fn get(&self, key: &str) -> (r: ReadReply)
        ensures
            self.answers_read(key@, read_view(r)),
    ;

    fn set(&self, key: &str, value: &[u8], version: Option<u64>) -> (r: WriteReply)
        ensures
            self.answers_write(key@, value@, version, r),
    ;

    fn delete(&self, key: &str) -> (r: WriteReply)
        ensures
            self.answers_delete(key@, r),
    ;

    /// Reads, and reads again while the store fails transiently, `tries`
    /// times at most. A missing key is an answer and is not asked for again.
    /// The result is the last of the store's replies to the reads of `key`,
    /// which are a run of a retried operation.
    fn get_with_retries(&self, key: &str, tries: u64) -> (r: ReadReply)
        requires
            tries > 0,
        ensures
            self.answers_read(key@, read_view(r)),
            exists|run: Seq<ReadView>|
                #[trigger] retried(run, tries as nat) && run.last() == read_view(r) && forall|
                    i: int,
                |
                    0 <= i < run.len() ==> self.answers_read(key@, #[trigger] run[i]),
    {
        self.get_counted(key, tries).0
    }

    /// Writes, and writes again while the store fails transiently, `tries`
    /// times at most. A changed value is an answer and is not written over.
    /// The result is the last of the store's replies to the writes of
    /// `value` under `key` and `version`, which are a run of a retried
    /// operation.
    fn set_with_retries(&self, key: &str, value: Vec<u8>, version: Option<u64>, tries: u64) -> (r:
        WriteReply)
        requires
            tries > 0,
        ensures
            self.answers_write(key@, value@, version, r),
            exists|run: Seq<WriteReply>|
                #[trigger] retried(run, tries as nat) && run.last() == r && forall|i: int|
                    0 <= i < run.len() ==> self.answers_write(
                        key@,
                        value@,
                        version,
                        #[trigger] run[i],
                    ),
    {
        self.set_counted(key, value.as_slice(), version, tries).0
    }

    /// Deletes, and deletes again while the store fails transiently, `tries`
    /// times at most. The result is the last of the store's replies to the
    /// deletes of `key`, which are a run of a retried operation.
    fn delete_with_retries(&self, key: &str, tries: u64) -> (r: WriteReply)
        requires
            tries > 0,
        ensures
            self.answers_delete(key@, r),
            exists|run: Seq<WriteReply>|
                #[trigger] retried(run, tries as nat) && run.last() == r && forall|i: int|
                    0 <= i < run.len() ==> self.answers_delete(key@, #[trigger] run[i]),
    {
        self.delete_counted(key, tries).0
    }

    /// Reads with retries, and hands back with the last reply the number of
    /// calls that it made and the replies that it heard, first call first.
    fn get_counted(&self, key: &str, tries: u64) -> (r: (ReadReply, u64, Ghost<Seq<ReadView>>))
        requires
            tries > 0,
        ensures
            retried(r.2@, tries as nat),
            r.2@.len() == r.1,
            r.2@.last() == read_view(r.0),
            forall|i: int| 0 <= i < r.2@.len() ==> self.answers_read(key@, #[trigger] r.2@[i]),
    {
        let mut reply = self.get(key);
        let mut made: u64 = 1;
        let ghost mut run: Seq<ReadView> = seq![read_view(reply)];
        while made < tries && !is_settled(&reply)
            invariant
                1 <= made <= tries,
                run.len() == made,
                run.last() == read_view(reply),
                settled(read_view(reply)) == settled(reply),
                forall|i: int| 0 <= i < run.len() - 1 ==> !settled(#[trigger] run[i]),
                forall|i: int| 0 <= i < run.len() ==> self.answers_read(key@, #[trigger] run[i]),
            decreases tries - made,
        {
            reply = self.get(key);
            made += 1;
            proof {
                run = run.push(read_view(reply));
            }
        }
        (reply, made, Ghost(run))
    }

    /// Writes with retries, and hands back with the last reply the number of
    /// calls that it made and the replies that it heard, first call first.
    fn set_counted(&self, key: &str, value: &[u8], version: Option<u64>, tries: u64) -> (r: (
        WriteReply,
        u64,
        Ghost<Seq<WriteReply>>,
    ))
        requires
            tries > 0,
        ensures
            retried(r.2@, tries as nat),
            r.2@.len() == r.1,
            r.2@.last() == r.0,
            forall|i: int|
                0 <= i < r.2@.len() ==> self.answers_write(
                    key@,
                    value@,
                    version,
                    #[trigger] r.2@[i],
                ),
    {
        let mut reply = self.set(key, value, version);
        let mut made: u64 = 1;
        let ghost mut run: Seq<WriteReply> = seq![reply];
        while made < tries && !is_settled(&reply)
            invariant
                1 <= made <= tries,
                run.len() == made,
                run.last() == reply,
                forall|i: int| 0 <= i < run.len() - 1 ==> !settled(#[trigger] run[i]),
                forall|i: int|
                    0 <= i < run.len() ==> self.answers_write(
                        key@,
                        value@,
                        version,
                        #[trigger] run[i],
                    ),
            decreases tries - made,
        {
            reply = self.set(key, value, version);
            made += 1;
            proof {
                run = run.push(reply);
            }
        }
        (reply, made, Ghost(run))
    }

    /// Deletes with retries, and hands back with the last reply the number
    /// of calls that it made and the replies that it heard, first call
    /// first.
    fn delete_counted(&self, key: &str, tries: u64) -> (r: (WriteReply, u64, Ghost<Seq<WriteReply>>))
        requires
            tries > 0,
        ensures
            retried(r.2@, tries as nat),
            r.2@.len() == r.1,
            r.2@.last() == r.0,
            forall|i: int| 0 <= i < r.2@.len() ==> self.answers_delete(key@, #[trigger] r.2@[i]),
    {
        let mut reply = self.delete(key);
        let mut made: u64 = 1;
        let ghost mut run: Seq<WriteReply> = seq![reply];
        while made < tries && !is_settled(&reply)
            invariant
                1 <= made <= tries,
                run.len() == made,
                run.last() == reply,
                forall|i: int| 0 <= i < run.len() - 1 ==> !settled(#[trigger] run[i]),
                forall|i: int| 0 <= i < run.len() ==> self.answers_delete(key@, #[trigger] run[i]),
            decreases tries - made,
        {
            reply = self.delete(key);
            made += 1;
            proof {
                run = run.push(reply);
            }
        }
        (reply, made, Ghost(run))
    }
}

} // verus!
