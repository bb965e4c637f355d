//! The rules of one decision: the retry strategies, what follows a read and
//! a write, and the course of a decision against a store whose replies are
//! given.

use crate::backend::{
    calls_made, last_reply, lemma_calls_are_a_run, settled, BackendError, ReadView, WriteReply,
};
use crate::types::codec::{decode, encode};
use crate::types::{LimiterInstance, LimiterType, RateLimiterError};
use vstd::prelude::*;

verus! {

/// How often to try, and what to say when every try was in vain.
#[derive(Debug, Clone, Copy, PartialEq, Eq, Structural)]
pub enum RetryStrategy {
    /// Try again up to this many times, then admit the request.
    RetryAndAllow(u32),
    /// Try again up to this many times, then deny the request.
    RetryAndDeny(u32),
    /// Try once; admit the request if that fails.
    Allow,
    /// Try once; deny the request if that fails.
    Deny,
}

impl RetryStrategy {
    /// The number of tries: one, and one more for every retry.
    pub open spec fn attempts(self) -> nat {
        match self {
            RetryStrategy::RetryAndAllow(n) => (n + 1) as nat,
            RetryStrategy::RetryAndDeny(n) => (n + 1) as nat,
            RetryStrategy::Allow => 1,
            RetryStrategy::Deny => 1,
        }
    }

    /// Whether the request is admitted when every try was in vain.
    pub open spec fn allows(self) -> bool {
        self is RetryAndAllow || self is Allow
    }

    /// The number of tries.
    pub fn tries(&self) -> (r: u64)
        ensures
            r == self.attempts(),
            r > 0,
    {
        match self {
            RetryStrategy::RetryAndAllow(n) => *n as u64 + 1,
            RetryStrategy::RetryAndDeny(n) => *n as u64 + 1,
            RetryStrategy::Allow => 1,
            RetryStrategy::Deny => 1,
        }
    }

    /// Whether the request is admitted when every try was in vain.
    pub fn allows_in_the_end(&self) -> (r: bool)
        ensures
            r == self.allows(),
    {
        match self {
            RetryStrategy::RetryAndAllow(_) => true,
            RetryStrategy::Allow => true,
            _ => false,
        }
    }

    /// The outcome when the store failed for good with `e`.
    pub open spec fn given_up(self, e: BackendError) -> Result<(), RateLimiterError> {
        if self.allows() {
            Ok(())
        } else {
            Err(RateLimiterError::BackendError(e))
        }
    }

    /// Computes [`RetryStrategy::given_up`].
    pub fn give_up(&self, e: BackendError) -> (r: Result<(), RateLimiterError>)
        ensures
            r == self.given_up(e),
    {
        if self.allows_in_the_end() {
            Ok(())
        } else {
            Err(RateLimiterError::BackendError(e))
        }
    }
}

/// The choices that shape a decision.
#[derive(Debug, Clone, Copy, PartialEq, Eq, Structural)]
pub struct Policy {
    /// What to do about transient failures of the store.
    pub on_failure: RetryStrategy,
    /// What to do about writes that lose against another writer.
    pub on_conflict: RetryStrategy,
    /// Whether a stored value that is no state of the algorithm counts as
    /// absent.
    pub discard_invalid: bool,
}

/// What a decision does after a read.
#[derive(Debug)]
pub enum Plan {
    /// Write this state under this version.
    Write(LimiterInstance, Option<u64>),
    /// Return this outcome.
    Finish(Result<(), RateLimiterError>),
}

/// What a decision does after a write.
#[derive(Debug)]
pub enum Next {
    /// Return this outcome.
    Finish(Result<(), RateLimiterError>),
    /// Start over from the read, if a cycle is left.
    Again,
}

/// What to do about a stored value that is no state of the algorithm, which
/// `found` says: where such values are discarded, decide as on a key with
/// nothing stored and write without a version; report `found` otherwise.
pub open spec fn plan_without_stored<L: LimiterType>(
    policy: Policy,
    limiter: L,
    found: RateLimiterError,
    now: u128,
) -> Plan {
    if policy.discard_invalid {
        match limiter.verdict(None, now) {
            Ok(i) => Plan::Write(i, None),
            Err(e) => Plan::Finish(Err(e)),
        }
    } else {
        Plan::Finish(Err(found))
    }
}

/// What to do when the algorithm has decided on `stored`, read under
/// `version`.
pub open spec fn plan_on<L: LimiterType>(
    policy: Policy,
    limiter: L,
    stored: Option<Seq<u8>>,
    version: Option<u64>,
    now: u128,
) -> Plan {
    match limiter.verdict(stored, now) {
        Ok(i) => Plan::Write(i, version),
        Err(RateLimiterError::MalformedValue) => plan_without_stored(
            policy,
            limiter,
            RateLimiterError::MalformedValue,
            now,
        ),
        Err(RateLimiterError::WrongLimiterInstanceType) => plan_without_stored(
            policy,
            limiter,
            RateLimiterError::WrongLimiterInstanceType,
            now,
        ),
        Err(e) => Plan::Finish(Err(e)),
    }
}

/// What to do after a read: a missing key is a key with nothing stored, any
/// other error of the store ends the decision by the failure strategy.
pub open spec fn plan_of<L: LimiterType>(policy: Policy, limiter: L, reply: ReadView, now: u128)
    -> Plan {
    match reply {
        Ok((bytes, version)) => plan_on(policy, limiter, Some(bytes), version, now),
        Err(BackendError::KeyMissing) => plan_on(policy, limiter, None, None, now),
        Err(e) => Plan::Finish(policy.on_failure.given_up(e)),
    }
}

/// What to do after a write: a write that succeeded admits the request, one
/// that found the value changed starts the cycle over, any other error of
/// the store ends the decision by the failure strategy.
pub open spec fn after_write(policy: Policy, reply: WriteReply) -> Next {
    match reply {
        Ok(_) => Next::Finish(Ok(())),
        Err(BackendError::ValueChanged) => Next::Again,
        Err(e) => Next::Finish(policy.on_failure.given_up(e)),
    }
}

/// The outcome when every cycle ended in a write that found the value
/// changed.
pub open spec fn exhausted(policy: Policy) -> Result<(), RateLimiterError> {
    if policy.on_conflict.allows() {
        Ok(())
    } else {
        Err(RateLimiterError::BackendConflict)
    }
}

/// The state that a read shows: what the bytes stand for, or the store's
/// error.
pub open spec fn usage_of(reply: ReadView) -> Result<LimiterInstance, RateLimiterError> {
    match reply {
        Ok((bytes, _)) => decode(bytes),
        Err(e) => Err(RateLimiterError::BackendError(e)),
    }
}

impl Policy {
    /// The outcomes that this policy lets a decision have: a conflict or a
    /// failure of the store is reported only under a strategy that denies,
    /// and a stored value that is no state of the algorithm only where such
    /// values are kept.
    pub open spec fn permits(self, outcome: Result<(), RateLimiterError>) -> bool {
        match outcome {
            Ok(_) => true,
            Err(RateLimiterError::RateExceeded) => true,
            Err(RateLimiterError::BackendConflict) => !self.on_conflict.allows(),
            Err(RateLimiterError::BackendError(_)) => !self.on_failure.allows(),
            Err(RateLimiterError::MalformedValue) => !self.discard_invalid,
            Err(RateLimiterError::WrongLimiterInstanceType) => !self.discard_invalid,
        }
    }

    /// Computes [`after_write`].
    pub fn after_write(&self, reply: WriteReply) -> (r: Next)
        ensures
            r == after_write(*self, reply),
    {
        match reply {
            Ok(_) => Next::Finish(Ok(())),
            Err(BackendError::ValueChanged) => Next::Again,
            Err(e) => Next::Finish(self.on_failure.give_up(e)),
        }
    }

    /// Computes [`exhausted`].
    pub fn exhausted(&self) -> (r: Result<(), RateLimiterError>)
        ensures
            r == exhausted(*self),
    {
        if self.on_conflict.allows_in_the_end() {
            Ok(())
        } else {
            Err(RateLimiterError::BackendConflict)
        }
    }
}

/// What a decision did: its outcome, the calls that it made on the store,
/// and the cycles of read, decide and write that it began.
#[derive(Debug)]
pub struct Report {
    pub outcome: Result<(), RateLimiterError>,
    pub reads: u128,
    pub writes: u128,
    pub cycles: u64,
}

impl Report {
    /// What the policy allows a decision to do: it begins at least one
    /// cycle and at most as many as the conflict strategy has tries; every
    /// cycle reads, and every cycle but the last writes; no read and no
    /// write is tried more often than the failure strategy says.
    pub open spec fn within(self, policy: Policy) -> bool {
        &&& 1 <= self.cycles <= policy.on_conflict.attempts()
        &&& self.cycles <= self.reads <= self.cycles * policy.on_failure.attempts()
        &&& self.cycles - 1 <= self.writes <= self.cycles * policy.on_failure.attempts()
    }
}

/// How a decision goes against a store whose replies are given: its
/// outcome, the calls it makes on the store, the cycles of read, decide and
/// write that it begins, and what it hands to each of its writes.
pub struct Course {
    pub outcome: Result<(), RateLimiterError>,
    pub reads: nat,
    pub writes: nat,
    pub cycles: nat,
    /// The bytes and the version of every write, first call first.
    pub written: Seq<(Seq<u8>, Option<u64>)>,
}

/// A decision that has done nothing yet.
pub open spec fn begun() -> Course {
    Course { outcome: Ok(()), reads: 0, writes: 0, cycles: 0, written: Seq::empty() }
}

/// The same bytes and version, handed to `calls` writes.
pub open spec fn same_write(value: Seq<u8>, version: Option<u64>, calls: nat) -> Seq<
    (Seq<u8>, Option<u64>),
> {
    Seq::new(calls, |j: int| (value, version))
}

/// Whether `all` begins with `start`.
pub open spec fn begins<T>(all: Seq<T>, start: Seq<T>) -> bool {
    &&& start.len() <= all.len()
    &&& forall|i: int| 0 <= i < start.len() ==> #[trigger] all[i] == start[i]
}

/// The rest of a decision at `now` against a store that answers its reads
/// with `reads`, first call first, and its writes with `writes`, when
/// `so_far` tells what was done and `cycles_left` cycles may still begin.
///
/// A cycle reads with retries, plans by `plan_of`, writes with retries what
/// the plan says, and goes on by `after_write`; with no cycle left the
/// outcome is `exhausted`.
pub open spec fn course_from<L: LimiterType>(
    policy: Policy,
    limiter: L,
    now: u128,
    reads: Seq<ReadView>,
    writes: Seq<WriteReply>,
    so_far: Course,
    cycles_left: nat,
) -> Course
    decreases cycles_left,
{
    if cycles_left == 0 {
        Course { outcome: exhausted(policy), ..so_far }
    } else {
        let tries = policy.on_failure.attempts();
        let read = last_reply(reads, so_far.reads, tries);
        let after_read = Course {
            reads: so_far.reads + calls_made(reads, so_far.reads, tries),
            cycles: so_far.cycles + 1,
            ..so_far
        };
        match plan_of(policy, limiter, read, now) {
            Plan::Finish(outcome) => Course { outcome, ..after_read },
            Plan::Write(instance, version) => {
                let calls = calls_made(writes, so_far.writes, tries);
                let wrote = last_reply(writes, so_far.writes, tries);
                let after_both = Course {
                    writes: so_far.writes + calls,
                    written: so_far.written + same_write(encode(instance), version, calls),
                    ..after_read
                };
                match after_write(policy, wrote) {
                    Next::Finish(outcome) => Course { outcome, ..after_both },
                    Next::Again => course_from(
                        policy,
                        limiter,
                        now,
                        reads,
                        writes,
                        after_both,
                        (cycles_left - 1) as nat,
                    ),
                }
            },
        }
    }
}

/// A whole decision against such a store: as many cycles may begin as the
/// conflict strategy has tries. `RateLimiter::decide` ensures that what it
/// returns is this course over the replies that the store gave it.
pub open spec fn course<L: LimiterType>(
    policy: Policy,
    limiter: L,
    now: u128,
    reads: Seq<ReadView>,
    writes: Seq<WriteReply>,
) -> Course {
    course_from(policy, limiter, now, reads, writes, begun(), policy.on_conflict.attempts())
}

/// Whether the course heard no reply beyond those given: it made no more
/// reads than `reads` has replies, and no more writes than `writes` has.
pub open spec fn within_replies(went: Course, reads: Seq<ReadView>, writes: Seq<WriteReply>)
    -> bool {
    went.reads <= reads.len() && went.writes <= writes.len()
}

/// A decision only adds to what was done, and a cycle that begins makes the
/// calls of its read and, where it plans one, of its write.
pub proof fn lemma_course_grows<L: LimiterType>(
    policy: Policy,
    limiter: L,
    now: u128,
    reads: Seq<ReadView>,
    writes: Seq<WriteReply>,
    so_far: Course,
    cycles_left: nat,
)
    ensures
        ({
            let went = course_from(policy, limiter, now, reads, writes, so_far, cycles_left);
            let tries = policy.on_failure.attempts();
            &&& went.reads >= so_far.reads
            &&& went.writes >= so_far.writes
            &&& went.cycles >= so_far.cycles
            &&& cycles_left > 0 ==> went.reads >= so_far.reads + calls_made(
                reads,
                so_far.reads,
                tries,
            )
            &&& cycles_left > 0 && plan_of(
                policy,
                limiter,
                last_reply(reads, so_far.reads, tries),
                now,
            ) is Write ==> went.writes >= so_far.writes + calls_made(writes, so_far.writes, tries)
        }),
    decreases cycles_left,
{
    if cycles_left > 0 {
        let tries = policy.on_failure.attempts();
        lemma_calls_are_a_run(reads, so_far.reads, tries);
        lemma_calls_are_a_run(writes, so_far.writes, tries);
        let read = last_reply(reads, so_far.reads, tries);
        let after_read = Course {
            reads: so_far.reads + calls_made(reads, so_far.reads, tries),
            cycles: so_far.cycles + 1,
            ..so_far
        };
        match plan_of(policy, limiter, read, now) {
            Plan::Finish(_) => {},
            Plan::Write(instance, version) => {
                let calls = calls_made(writes, so_far.writes, tries);
                let after_both = Course {
                    writes: so_far.writes + calls,
                    written: so_far.written + same_write(encode(instance), version, calls),
                    ..after_read
                };
                lemma_course_grows(
                    policy,
                    limiter,
                    now,
                    reads,
                    writes,
                    after_both,
                    (cycles_left - 1) as nat,
                );
            },
        }
    }
}

/// Against a store of which every read fails transiently, a decision reads
/// as often as the failure strategy has tries, which is once under `Allow`
/// and `Deny` and one more than the retries otherwise, writes nothing, and
/// ends by that strategy: admitted where it allows, denied with the last
/// error of the store where it denies.
pub proof fn lemma_failing_store<L: LimiterType>(
    policy: Policy,
    limiter: L,
    now: u128,
    reads: Seq<ReadView>,
    writes: Seq<WriteReply>,
)
    requires
        forall|i: int| 0 <= i < reads.len() ==> !settled(#[trigger] reads[i]),
        within_replies(course(policy, limiter, now, reads, writes), reads, writes),
    ensures
        ({
            let went = course(policy, limiter, now, reads, writes);
            let tries = policy.on_failure.attempts();
            &&& went.reads == tries
            &&& went.writes == 0
            &&& went.cycles == 1
            &&& reads[tries - 1] matches Err(e) && went.outcome == policy.on_failure.given_up(e)
            &&& policy.on_failure.allows() ==> went.outcome is Ok
            &&& !policy.on_failure.allows() ==> went.outcome matches Err(
                RateLimiterError::BackendError(_),
            )
        }),
{
    let tries = policy.on_failure.attempts();
    lemma_course_grows(policy, limiter, now, reads, writes, begun(), policy.on_conflict.attempts());
    lemma_calls_are_a_run(reads, 0, tries);
    let calls = calls_made(reads, 0, tries);
    assert(calls <= reads.len());
    let last = last_reply(reads, 0, tries);
    assert(last == reads[calls - 1]);
    assert(!settled(last));
    assert(calls == tries);
}

/// Against a store that answers every read at once, with a value on which
/// the algorithm admits the request, and that finds the value changed at
/// every write, a decision goes through as many cycles as the conflict
/// strategy has tries, each of one read and one write, and ends by that
/// strategy: denied with `BackendConflict` where it denies.
pub proof fn lemma_conflicting_store<L: LimiterType>(
    policy: Policy,
    limiter: L,
    now: u128,
    reads: Seq<ReadView>,
    writes: Seq<WriteReply>,
)
    requires
        forall|i: int| 0 <= i < reads.len() ==> settled(#[trigger] reads[i]),
        forall|i: int|
            0 <= i < reads.len() ==> plan_of(policy, limiter, #[trigger] reads[i], now) is Write,
        forall|j: int|
            0 <= j < writes.len() ==> #[trigger] writes[j] == Err::<(), BackendError>(
                BackendError::ValueChanged,
            ),
        within_replies(course(policy, limiter, now, reads, writes), reads, writes),
    ensures
        ({
            let went = course(policy, limiter, now, reads, writes);
            let cycles = policy.on_conflict.attempts();
            &&& went.cycles == cycles
            &&& went.reads == cycles
            &&& went.writes == cycles
            &&& went.outcome == exhausted(policy)
            &&& !policy.on_conflict.allows() ==> went.outcome == Err::<(), RateLimiterError>(
                RateLimiterError::BackendConflict,
            )
        }),
{
    lemma_conflicts_all_the_way(
        policy,
        limiter,
        now,
        reads,
        writes,
        begun(),
        policy.on_conflict.attempts(),
    );
}

proof fn lemma_conflicts_all_the_way<L: LimiterType>(
    policy: Policy,
    limiter: L,
    now: u128,
    reads: Seq<ReadView>,
    writes: Seq<WriteReply>,
    so_far: Course,
    cycles_left: nat,
)
    requires
        forall|i: int| 0 <= i < reads.len() ==> settled(#[trigger] reads[i]),
        forall|i: int|
            0 <= i < reads.len() ==> plan_of(policy, limiter, #[trigger] reads[i], now) is Write,
        forall|j: int|
            0 <= j < writes.len() ==> #[trigger] writes[j] == Err::<(), BackendError>(
                BackendError::ValueChanged,
            ),
        within_replies(
            course_from(policy, limiter, now, reads, writes, so_far, cycles_left),
            reads,
            writes,
        ),
    ensures
        ({
            let went = course_from(policy, limiter, now, reads, writes, so_far, cycles_left);
            &&& went.cycles == so_far.cycles + cycles_left
            &&& went.reads == so_far.reads + cycles_left
            &&& went.writes == so_far.writes + cycles_left
            &&& went.outcome == exhausted(policy)
        }),
    decreases cycles_left,
{
    if cycles_left > 0 {
        let tries = policy.on_failure.attempts();
        lemma_course_grows(policy, limiter, now, reads, writes, so_far, cycles_left);
        lemma_calls_are_a_run(reads, so_far.reads, tries);
        lemma_calls_are_a_run(writes, so_far.writes, tries);
        let read = reads[so_far.reads as int];
        assert(settled(read));
        assert(calls_made(reads, so_far.reads, tries) == 1);
        assert(last_reply(reads, so_far.reads, tries) == read);
        match plan_of(policy, limiter, read, now) {
            Plan::Finish(_) => {},
            Plan::Write(instance, version) => {
                let wrote = writes[so_far.writes as int];
                assert(settled(wrote));
                assert(calls_made(writes, so_far.writes, tries) == 1);
                assert(last_reply(writes, so_far.writes, tries) == wrote);
                let after_both = Course {
                    reads: so_far.reads + 1,
                    writes: so_far.writes + 1,
                    cycles: so_far.cycles + 1,
                    written: so_far.written + same_write(encode(instance), version, 1),
                    ..so_far
                };
                lemma_conflicts_all_the_way(
                    policy,
                    limiter,
                    now,
                    reads,
                    writes,
                    after_both,
                    (cycles_left - 1) as nat,
                );
            },
        }
    }
}

/// Whether the store failed a read for good: it gave an error other than a
/// missing key.
pub open spec fn failed_read(reply: ReadView) -> bool {
    reply matches Err(e) && !(e is KeyMissing)
}

/// Whether the store failed a write for good: it gave an error other than a
/// changed value.
pub open spec fn failed_write(reply: WriteReply) -> bool {
    reply matches Err(e) && !(e is ValueChanged)
}

/// What admits a request: the store accepted the last write; or the conflict
/// strategy allows; or the failure strategy allows and the store failed the
/// last read or the last write for good.
pub open spec fn admitted_by(
    policy: Policy,
    went: Course,
    reads: Seq<ReadView>,
    writes: Seq<WriteReply>,
) -> bool {
    ||| went.writes > 0 && writes[went.writes - 1] is Ok
    ||| policy.on_conflict.allows()
    ||| policy.on_failure.allows() && went.reads > 0 && failed_read(reads[went.reads - 1])
    ||| policy.on_failure.allows() && went.writes > 0 && failed_write(writes[went.writes - 1])
}

/// A decision ends with the first write that the store accepts: no write
/// before its last was accepted, an accepted last write admits the request,
/// and a request is admitted only by an accepted last write or by a strategy
/// that allows. So where no strategy comes to allow, an admitted request
/// stands for one committed write.
pub proof fn lemma_admitted_by_one_write<L: LimiterType>(
    policy: Policy,
    limiter: L,
    now: u128,
    reads: Seq<ReadView>,
    writes: Seq<WriteReply>,
)
    ensures
        ({
            let went = course(policy, limiter, now, reads, writes);
            &&& forall|j: int| 0 <= j < went.writes - 1 ==> #[trigger] writes[j] is Err
            &&& went.writes > 0 && writes[went.writes - 1] is Ok ==> went.outcome is Ok
            &&& went.outcome is Ok ==> admitted_by(policy, went, reads, writes)
        }),
{
    lemma_one_write_from(
        policy,
        limiter,
        now,
        reads,
        writes,
        begun(),
        policy.on_conflict.attempts(),
    );
}

proof fn lemma_one_write_from<L: LimiterType>(
    policy: Policy,
    limiter: L,
    now: u128,
    reads: Seq<ReadView>,
    writes: Seq<WriteReply>,
    so_far: Course,
    cycles_left: nat,
)
    requires
        forall|j: int| 0 <= j < so_far.writes ==> #[trigger] writes[j] is Err,
        cycles_left + so_far.cycles > 0,
        cycles_left == 0 ==> so_far.writes > 0,
    ensures
        ({
            let went = course_from(policy, limiter, now, reads, writes, so_far, cycles_left);
            &&& forall|j: int| 0 <= j < went.writes - 1 ==> #[trigger] writes[j] is Err
            &&& went.writes > 0 && writes[went.writes - 1] is Ok ==> went.outcome is Ok
            &&& went.outcome is Ok ==> admitted_by(policy, went, reads, writes)
        }),
    decreases cycles_left,
{
    if cycles_left > 0 {
        let tries = policy.on_failure.attempts();
        lemma_calls_are_a_run(writes, so_far.writes, tries);
        let read = last_reply(reads, so_far.reads, tries);
        match plan_of(policy, limiter, read, now) {
            Plan::Finish(outcome) => {
                lemma_calls_are_a_run(reads, so_far.reads, tries);
                if so_far.writes > 0 {
                    assert(writes[so_far.writes - 1] is Err);
                }
                assert(reads[so_far.reads + calls_made(reads, so_far.reads, tries) - 1] == read);
            },
            Plan::Write(instance, version) => {
                let calls = calls_made(writes, so_far.writes, tries);
                let wrote = last_reply(writes, so_far.writes, tries);
                let after_both = Course {
                    reads: so_far.reads + calls_made(reads, so_far.reads, tries),
                    cycles: so_far.cycles + 1,
                    writes: so_far.writes + calls,
                    written: so_far.written + same_write(encode(instance), version, calls),
                    ..so_far
                };
                assert forall|j: int| 0 <= j < after_both.writes - 1 implies #[trigger] writes[j]
                    is Err by {
                    if j >= so_far.writes {
                        assert(!settled(writes[j]));
                    }
                }
                match after_write(policy, wrote) {
                    Next::Finish(_) => {},
                    Next::Again => {
                        assert(writes[after_both.writes - 1] is Err);
                        lemma_one_write_from(
                            policy,
                            limiter,
                            now,
                            reads,
                            writes,
                            after_both,
                            (cycles_left - 1) as nat,
                        );
                    },
                }
            },
        }
    } else {
        assert(writes[so_far.writes - 1] is Err);
    }
}

/// A first read that the store answers at once, and on which the plan is to
/// finish, ends the decision after that one read and without a write. So a
/// request on a state at its limit is denied with `RateExceeded` whatever
/// the strategies, and the stored value stays as it is.
pub proof fn lemma_ends_after_read<L: LimiterType>(
    policy: Policy,
    limiter: L,
    now: u128,
    reads: Seq<ReadView>,
    writes: Seq<WriteReply>,
)
    requires
        settled(reads[0]),
        plan_of(policy, limiter, reads[0], now) is Finish,
    ensures
        ({
            let went = course(policy, limiter, now, reads, writes);
            &&& Plan::Finish(went.outcome) == plan_of(policy, limiter, reads[0], now)
            &&& went.reads == 1
            &&& went.writes == 0
            &&& went.cycles == 1
        }),
{
    let tries = policy.on_failure.attempts();
    assert(calls_made(reads, 0, tries) == 1);
    assert(last_reply(reads, 0, tries) == reads[0]);
}

/// After a first read that the store answers at once and on which the plan
/// is to write, a store of which every write fails transiently is written as
/// often as the failure strategy has tries, each time with the same bytes
/// and version, and is not read again; the decision ends by the failure
/// strategy on the last error.
pub proof fn lemma_failing_writes<L: LimiterType>(
    policy: Policy,
    limiter: L,
    now: u128,
    reads: Seq<ReadView>,
    writes: Seq<WriteReply>,
)
    requires
        settled(reads[0]),
        plan_of(policy, limiter, reads[0], now) is Write,
        forall|j: int| 0 <= j < writes.len() ==> !settled(#[trigger] writes[j]),
        within_replies(course(policy, limiter, now, reads, writes), reads, writes),
    ensures
        ({
            let went = course(policy, limiter, now, reads, writes);
            let tries = policy.on_failure.attempts();
            &&& went.reads == 1
            &&& went.writes == tries
            &&& went.cycles == 1
            &&& plan_of(policy, limiter, reads[0], now) matches Plan::Write(instance, version)
                && went.written == same_write(encode(instance), version, tries)
            &&& writes[tries - 1] matches Err(e) && went.outcome == policy.on_failure.given_up(e)
        }),
{
    let tries = policy.on_failure.attempts();
    assert(calls_made(reads, 0, tries) == 1);
    assert(last_reply(reads, 0, tries) == reads[0]);
    lemma_course_grows(policy, limiter, now, reads, writes, begun(), policy.on_conflict.attempts());
    lemma_calls_are_a_run(writes, 0, tries);
    let calls = calls_made(writes, 0, tries);
    assert(calls <= writes.len());
    assert(last_reply(writes, 0, tries) == writes[calls - 1]);
    assert(!settled(writes[calls - 1]));
    assert(calls == tries);
    match plan_of(policy, limiter, reads[0], now) {
        Plan::Write(instance, version) => {
            assert(begun().written + same_write(encode(instance), version, tries) =~= same_write(
                encode(instance),
                version,
                tries,
            ));
        },
        Plan::Finish(_) => {},
    }
}

/// Where the first write loses and a second cycle is allowed, the decision
/// reads again, and a second write that the store accepts admits the
/// request: two reads and two writes, the second write carrying what the
/// plan makes of the second read.
pub proof fn lemma_loser_wins_next_cycle<L: LimiterType>(
    policy: Policy,
    limiter: L,
    now: u128,
    reads: Seq<ReadView>,
    writes: Seq<WriteReply>,
)
    requires
        policy.on_conflict.attempts() >= 2,
        settled(reads[0]),
        settled(reads[1]),
        plan_of(policy, limiter, reads[0], now) is Write,
        plan_of(policy, limiter, reads[1], now) is Write,
        writes[0] == Err::<(), BackendError>(BackendError::ValueChanged),
        writes[1] is Ok,
    ensures
        ({
            let went = course(policy, limiter, now, reads, writes);
            &&& went.outcome is Ok
            &&& went.reads == 2
            &&& went.writes == 2
            &&& went.cycles == 2
            &&& went.written.len() == 2
            &&& plan_of(policy, limiter, reads[1], now) matches Plan::Write(instance, version)
                && went.written[1] == (encode(instance), version)
        }),
{
    let tries = policy.on_failure.attempts();
    assert(calls_made(reads, 0, tries) == 1);
    assert(last_reply(reads, 0, tries) == reads[0]);
    assert(calls_made(writes, 0, tries) == 1);
    assert(last_reply(writes, 0, tries) == writes[0]);
    assert(calls_made(reads, 1, tries) == 1);
    assert(last_reply(reads, 1, tries) == reads[1]);
    assert(calls_made(writes, 1, tries) == 1);
    assert(last_reply(writes, 1, tries) == writes[1]);
    reveal_with_fuel(course_from, 3);
}

/// A stored value that the algorithm does not take for a state of its own
/// is reported as it was found where such values are kept; where they are
/// discarded, the decision is the one on a key with nothing stored, and its
/// write carries no version.
pub proof fn lemma_invalid_stored_value<L: LimiterType>(
    policy: Policy,
    limiter: L,
    bytes: Seq<u8>,
    version: Option<u64>,
    now: u128,
)
    requires
        limiter.verdict(Some(bytes), now) is Err,
        limiter.verdict(Some(bytes), now).unwrap_err() is MalformedValue || limiter.verdict(
            Some(bytes),
            now,
        ).unwrap_err() is WrongLimiterInstanceType,
    ensures
        !policy.discard_invalid ==> plan_of(policy, limiter, Ok((bytes, version)), now)
            == Plan::Finish(Err(limiter.verdict(Some(bytes), now).unwrap_err())),
        policy.discard_invalid ==> plan_of(policy, limiter, Ok((bytes, version)), now) == (
        match limiter.verdict(None, now) {
            Ok(i) => Plan::Write(i, None),
            Err(e) => Plan::Finish(Err(e)),
        }),
{
}

/// A function that every key goes through before the store sees it, to
/// bound the keys' number or to hide what they name. It is meant to give the
/// same result for the same key.
pub trait KeyHasher {
    /// Whether `hashed` is what the function may give for `key`. A hasher
    /// that does not say may give anything.
    open spec fn hashes(&self, key: Seq<char>, hashed: Seq<char>) -> bool {
        true
    }

    fn hash_key(&self, key: &str) -> (r: String)
        ensures
            self.hashes(key@, r@),
    ;
}

/// The hasher that leaves every key as it is.
#[derive(Debug, Clone, Copy)]
pub struct PlainKey;

impl KeyHasher for PlainKey {
    open spec fn hashes(&self, key: Seq<char>, hashed: Seq<char>) -> bool {
        hashed == key
    }

    fn hash_key(&self, key: &str) -> (r: String) {
        key.to_string()
    }
}

} // verus!
