//! Rate limiting for keyed traffic whose usage counters live in a shared
//! store. A [`RateLimiter`] joins a counting algorithm, a store with
//! optimistic concurrency, and two retry policies: one for transient failures
//! of the store, one for writes that lost against another writer.

pub mod backend;
pub mod clock;
pub mod coordinator;
pub mod history;
pub mod types;

pub use crate::coordinator::RetryStrategy;

use crate::backend::{
    holds_run, lemma_run_is_counted, read_view, settled, Backend, ReadView, WriteReply,
};
use crate::clock::unix_millis;
use crate::coordinator::{
    after_write, begins, begun, course, course_from, exhausted, failed_read, failed_write,
    lemma_admitted_by_one_write,
    lemma_conflicting_store, lemma_failing_store, plan_of, same_write, usage_of, Course,
    KeyHasher, Next, Plan, PlainKey, Policy, Report,
};
use crate::types::codec::{encode, encode_instance};
use crate::types::{LimiterInstance, LimiterType, RateLimiterError};
use vstd::prelude::*;

verus! {

/// One algorithm, one store and the policies that join them.
#[derive(Debug, Clone)]
pub struct RateLimiter<T, B, H = PlainKey> {
    pub limiter: T,
    pub backend: B,
    pub policy: Policy,
    pub hasher: H,
}

impl<T: LimiterType, B: Backend> RateLimiter<T, B, PlainKey> {
    pub fn builder() -> (r: RateLimiterBuilder<T, B, PlainKey>)
        ensures
            r.backend is None,
            r.limiter is None,
            r.on_failure is None,
            r.on_conflict is None,
            r.discard_invalid is None,
    {
        RateLimiterBuilder {
            backend: None,
            limiter: None,
            on_failure: None,
            on_conflict: None,
            discard_invalid: None,
            hasher: PlainKey,
        }
    }
}

impl<T: LimiterType, B: Backend, H: KeyHasher> RateLimiter<T, B, H> {
    /// Whether the limiter can be asked: its algorithm's parameters are
    /// usable.
    pub open spec fn wf(&self) -> bool {
        self.limiter.wf()
    }

    /// Whether a cycle that is to write `instance` under `version` can end
    /// a decision in `outcome`: the store answers the write of the state's
    /// bytes under the stored key and that version, and the outcome is what
    /// `after_write` makes of the answer, or `exhausted` where the write lost.
    pub open spec fn write_ends_in(
        &self,
        stored_key: Seq<char>,
        instance: LimiterInstance,
        version: Option<u64>,
        outcome: Result<(), RateLimiterError>,
    ) -> bool {
        exists|wrote: WriteReply| #[trigger]
            self.backend.answers_write(stored_key, encode(instance), version, wrote) && outcome
                == match after_write(self.policy, wrote) {
                Next::Finish(o) => o,
                Next::Again => exhausted(self.policy),
            }
    }

    /// Whether a cycle at `now` can end a decision in `outcome`: the store
    /// answers the read of the stored key, and either `plan_of` makes the
    /// outcome of that answer, or it plans a write that ends in the outcome.
    pub open spec fn cycle_ends_in(
        &self,
        stored_key: Seq<char>,
        now: u128,
        outcome: Result<(), RateLimiterError>,
    ) -> bool {
        exists|read: ReadView| #[trigger]
            self.backend.answers_read(stored_key, read) && match plan_of(
                self.policy,
                self.limiter,
                read,
                now,
            ) {
                Plan::Finish(o) => outcome == o,
                Plan::Write(i, v) => self.write_ends_in(stored_key, i, v, outcome),
            }
    }

    /// Whether a decision for `key` at `now` can end in `outcome`: the
    /// hasher gives the stored key, and the last cycle on that key ends in
    /// the outcome.
    pub open spec fn ends_in(
        &self,
        key: Seq<char>,
        now: u128,
        outcome: Result<(), RateLimiterError>,
    ) -> bool {
        exists|stored_key: Seq<char>| #[trigger]
            self.hasher.hashes(key, stored_key) && self.cycle_ends_in(stored_key, now, outcome)
    }

    /// Whether a look at `key` can show `usage`: the hasher gives the stored
    /// key, the store answers the read of it, and `usage_of` reads the
    /// answer.
    pub open spec fn shows(
        &self,
        key: Seq<char>,
        usage: Result<LimiterInstance, RateLimiterError>,
    ) -> bool {
        exists|stored_key: Seq<char>, read: ReadView|
            #![trigger self.hasher.hashes(key, stored_key), self.backend.answers_read(stored_key, read)]
            self.hasher.hashes(key, stored_key) && self.backend.answers_read(stored_key, read)
                && usage == usage_of(read)
    }

    /// Whether the store gave `reads` to the reads of the stored key, and
    /// `writes` to the writes of what `written` tells, call by call.
    pub open spec fn answered(
        &self,
        stored_key: Seq<char>,
        reads: Seq<ReadView>,
        writes: Seq<WriteReply>,
        written: Seq<(Seq<u8>, Option<u64>)>,
    ) -> bool {
        &&& written.len() == writes.len()
        &&& forall|i: int|
            0 <= i < reads.len() ==> self.backend.answers_read(stored_key, #[trigger] reads[i])
        &&& forall|j: int|
            0 <= j < writes.len() ==> self.backend.answers_write(
                stored_key,
                written[j].0,
                written[j].1,
                #[trigger] writes[j],
            )
    }

    /// Whether a decision for `key` at `now` that heard `reads` and `writes`
    /// from the store, first call first, ends in `outcome`: the outcome is
    /// that of `course` over these replies, which are all that the course
    /// hears, and the store gave them to the calls that the course makes on
    /// the key that the hasher gives.
    pub open spec fn decided(
        &self,
        key: Seq<char>,
        now: u128,
        reads: Seq<ReadView>,
        writes: Seq<WriteReply>,
        outcome: Result<(), RateLimiterError>,
    ) -> bool {
        let went = course(self.policy, self.limiter, now, reads, writes);
        &&& went.outcome == outcome
        &&& went.reads == reads.len()
        &&& went.writes == writes.len()
        &&& exists|stored_key: Seq<char>| #[trigger]
            self.hasher.hashes(key, stored_key) && self.answered(
                stored_key,
                reads,
                writes,
                went.written,
            )
    }

    /// Whether `report` tells of a decision for `key` at `now` that heard
    /// `reads` and `writes` from the store: the decision ends in the
    /// reported outcome, and the reported reads, writes and cycles are those
    /// of `course` over these replies.
    pub open spec fn followed(
        &self,
        key: Seq<char>,
        now: u128,
        reads: Seq<ReadView>,
        writes: Seq<WriteReply>,
        report: Report,
    ) -> bool {
        let went = course(self.policy, self.limiter, now, reads, writes);
        &&& self.decided(key, now, reads, writes, report.outcome)
        &&& went.reads == report.reads
        &&& went.writes == report.writes
        &&& went.cycles == report.cycles
    }

    /// Of a store that fails every read transiently, a decision makes as
    /// many reads as the failure strategy has tries and no write, begins one
    /// cycle, and ends by the failure strategy: admitted where it allows,
    /// denied with the store's error where it denies.
    pub proof fn lemma_decision_on_failing_store(
        &self,
        key: Seq<char>,
        now: u128,
        reads: Seq<ReadView>,
        writes: Seq<WriteReply>,
        report: Report,
    )
        requires
            self.followed(key, now, reads, writes, report),
            forall|k: Seq<char>, reply: ReadView| #[trigger]
                self.backend.answers_read(k, reply) ==> !settled(reply),
        ensures
            report.reads == self.policy.on_failure.attempts(),
            report.writes == 0,
            report.cycles == 1,
            self.policy.on_failure.allows() ==> report.outcome is Ok,
            !self.policy.on_failure.allows() ==> report.outcome matches Err(
                RateLimiterError::BackendError(_),
            ),
    {
        lemma_failing_store(self.policy, self.limiter, now, reads, writes);
    }

    /// Of a store that answers every read at once with a value on which the
    /// algorithm admits the request, and that finds the value changed at
    /// every write, a decision makes one read and one write in each of as
    /// many cycles as the conflict strategy has tries, and ends by that
    /// strategy: denied with `BackendConflict` where it denies.
    pub proof fn lemma_decision_on_conflicting_store(
        &self,
        key: Seq<char>,
        now: u128,
        reads: Seq<ReadView>,
        writes: Seq<WriteReply>,
        report: Report,
    )
        requires
            self.followed(key, now, reads, writes, report),
            forall|k: Seq<char>, reply: ReadView| #[trigger]
                self.backend.answers_read(k, reply) ==> settled(reply) && plan_of(
                    self.policy,
                    self.limiter,
                    reply,
                    now,
                ) is Write,
            forall|k: Seq<char>, value: Seq<u8>, version: Option<u64>, reply: WriteReply| #[trigger]
                self.backend.answers_write(k, value, version, reply) ==> reply == Err::<
                    (),
                    backend::BackendError,
                >(backend::BackendError::ValueChanged),
        ensures
            report.cycles == self.policy.on_conflict.attempts(),
            report.reads == self.policy.on_conflict.attempts(),
            report.writes == self.policy.on_conflict.attempts(),
            report.outcome == exhausted(self.policy),
    {
        lemma_conflicting_store(self.policy, self.limiter, now, reads, writes);
    }

    /// A decision ends with the first write that the store accepts: of the
    /// writes that it made, none before the last was accepted; an accepted
    /// last write admits the request; and where the conflict strategy denies
    /// and either the failure strategy denies too or the store did not fail,
    /// an admitted request was written, and its last write accepted. So an
    /// admitted request then stands for one committed write, and a denied
    /// one for none.
    pub proof fn lemma_decision_commits_once(
        &self,
        key: Seq<char>,
        now: u128,
        reads: Seq<ReadView>,
        writes: Seq<WriteReply>,
        report: Report,
    )
        requires
            self.followed(key, now, reads, writes, report),
        ensures
            writes.len() == report.writes,
            forall|j: int| 0 <= j < writes.len() - 1 ==> #[trigger] writes[j] is Err,
            writes.len() > 0 && writes.last() is Ok ==> report.outcome is Ok,
            report.outcome is Ok && !self.policy.on_failure.allows()
                && !self.policy.on_conflict.allows() ==> writes.len() > 0 && writes.last() is Ok,
            report.outcome is Ok && !self.policy.on_conflict.allows() && (forall|i: int|
                0 <= i < reads.len() ==> !failed_read(#[trigger] reads[i])) && (forall|j: int|
                0 <= j < writes.len() ==> !failed_write(#[trigger] writes[j])) ==> writes.len() > 0
                && writes.last() is Ok,
            report.outcome is Err ==> forall|j: int|
                0 <= j < writes.len() ==> #[trigger] writes[j] is Err,
    {
        lemma_admitted_by_one_write(self.policy, self.limiter, now, reads, writes);
    }

    /// Decides one request for `key` at the time that the system clock
    /// shows, which is read once. `Ok` admits the request.
    ///
    /// The outcome is that of `course`, at the time read, over the replies
    /// that the store gave, call by call. An error comes out only where the
    /// policy lets it: `BackendConflict` and `BackendError` only under a
    /// strategy that denies, a stored value that is no state of this
    /// algorithm only where such values are kept.
    pub fn is_ratelimited(&self, key: &str) -> (r: Result<(), RateLimiterError>)
        requires
            self.wf(),
        ensures
            self.policy.permits(r),
            exists|now: u128| #[trigger] self.ends_in(key@, now, r),
            exists|now: u128, reads: Seq<ReadView>, writes: Seq<WriteReply>| #[trigger]
                self.decided(key@, now, reads, writes, r),
    {
        let now = unix_millis();
        self.is_ratelimited_at(key, now)
    }

    /// Decides one request for `key` at the time `now`, in milliseconds.
    /// `Ok` admits the request.
    ///
    /// The outcome is that of `course` over the replies that the store
    /// gave, call by call: the decision reads and writes with retries, ends
    /// at the first reply that settles it, and starts over after a write
    /// that lost while a cycle is left.
    pub fn is_ratelimited_at(&self, key: &str, now: u128) -> (r: Result<(), RateLimiterError>)
        requires
            self.wf(),
        ensures
            self.policy.permits(r),
            self.ends_in(key@, now, r),
            exists|reads: Seq<ReadView>, writes: Seq<WriteReply>| #[trigger]
                self.decided(key@, now, reads, writes, r),
    {
        self.decide(key, now).outcome
    }

    /// Decides one request for `key` at the time `now`, and tells with the
    /// outcome what it did on the store.
    ///
    /// Up to `on_conflict.attempts()` times it reads the key, lets the
    /// algorithm decide on what was read, and writes the new state under the
    /// version that was read; each read and each write is tried up to
    /// `on_failure.attempts()` times. What follows a read is `plan_of`, what
    /// follows a write is `after_write`, and `exhausted` is the outcome when
    /// every write lost.
    ///
    /// The outcome and the numbers of reads, writes and cycles are those of
    /// `course` over the replies that the store gave, call by call. So what
    /// is proved of `course` holds of every decision: a store that fails
    /// every read is read as often as the failure strategy has tries and
    /// never written, a store that finds the value changed at every write
    /// is read and written once in each cycle that the conflict strategy
    /// allows, and a decision ends with the first write that the store
    /// accepts.
    pub fn decide(&self, key: &str, now: u128) -> (r: Report)
        requires
            self.wf(),
        ensures
            self.policy.permits(r.outcome),
            self.ends_in(key@, now, r.outcome),
            exists|reads: Seq<ReadView>, writes: Seq<WriteReply>| #[trigger]
                self.followed(key@, now, reads, writes, r),
            r.within(self.policy),
            r.outcome matches Err(RateLimiterError::BackendConflict) ==> r.cycles
                == self.policy.on_conflict.attempts() && r.writes >= r.cycles,
            r.outcome matches Err(RateLimiterError::BackendError(e)) ==> e.is_transient() ==> r.reads
                + r.writes >= 2 * (r.cycles - 1) + self.policy.on_failure.attempts(),
            r.outcome is Ok && !self.policy.on_failure.allows() ==> r.writes >= r.cycles,
    {
        let hashed = self.hasher.hash_key(key);
        let ghost stored_key = hashed@;
        let failure_tries = self.policy.on_failure.tries();
        let conflict_tries = self.policy.on_conflict.tries();
        let mut cycle: u64 = 0;
        let mut reads: u128 = 0;
        let mut writes: u128 = 0;
        let ghost mut heard: Seq<ReadView> = Seq::empty();
        let ghost mut told: Seq<WriteReply> = Seq::empty();
        let ghost mut so_far: Course = begun();
        while cycle < conflict_tries
            invariant
                self.wf(),
                failure_tries == self.policy.on_failure.attempts(),
                conflict_tries == self.policy.on_conflict.attempts(),
                0 < failure_tries <= 0x1_0000_0000,
                cycle <= conflict_tries <= 0x1_0000_0000,
                cycle <= reads <= cycle * failure_tries,
                cycle <= writes <= cycle * failure_tries,
                stored_key == hashed@,
                self.hasher.hashes(key@, stored_key),
                cycle > 0 ==> self.cycle_ends_in(stored_key, now, exhausted(self.policy)),
                so_far.reads == reads && heard.len() == reads,
                so_far.writes == writes && told.len() == writes,
                so_far.cycles == cycle,
                self.answered(stored_key, heard, told, so_far.written),
                forall|rs: Seq<ReadView>, ws: Seq<WriteReply>|
                    #![trigger begins(rs, heard), begins(ws, told)]
                    begins(rs, heard) && begins(ws, told) ==> course(
                        self.policy,
                        self.limiter,
                        now,
                        rs,
                        ws,
                    ) == course_from(
                        self.policy,
                        self.limiter,
                        now,
                        rs,
                        ws,
                        so_far,
                        (conflict_tries - cycle) as nat,
                    ),
            decreases conflict_tries - cycle,
        {
            assert((cycle + 1) * failure_tries == cycle * failure_tries + failure_tries
                && cycle * failure_tries <= 0x1_0000_0000 * 0x1_0000_0000) by (nonlinear_arith)
                requires
                    0 <= cycle <= 0x1_0000_0000,
                    0 < failure_tries <= 0x1_0000_0000,
            ;
            let ghost tries = failure_tries as nat;
            let ghost left = (conflict_tries - cycle) as nat;
            let ghost before = so_far;
            let ghost heard_before = heard;
            let ghost told_before = told;
            let (reply, calls, read_run) = self.backend.get_counted(
                hashed.as_str(),
                failure_tries,
            );
            let ghost read = read_view(reply);
            let ghost after_read = Course {
                reads: before.reads + read_run@.len(),
                cycles: before.cycles + 1,
                ..before
            };
            proof {
                heard = heard + read_run@;
                assert(begins(heard, heard_before));
                assert(holds_run(heard, before.reads, read_run@));
            }
            reads += calls as u128;
            match self.plan(reply, now) {
                Plan::Finish(outcome) => {
                    proof {
                        assert(begins(told, told_before));
                        lemma_run_is_counted(heard, before.reads, tries, read_run@);
                        let went = course(self.policy, self.limiter, now, heard, told);
                        assert(went == Course { outcome, ..after_read });
                        assert(self.backend.answers_read(stored_key, read));
                        assert(self.cycle_ends_in(stored_key, now, outcome));
                        assert(self.answered(stored_key, heard, told, went.written));
                        assert(self.decided(key@, now, heard, told, outcome));
                    }
                    let report = Report { outcome, reads, writes, cycles: cycle + 1 };
                    assert(self.followed(key@, now, heard, told, report));
                    return report;
                },
                Plan::Write(instance, version) => {
                    let bytes = encode_instance(&instance);
                    let (wrote, calls, write_run) = self.backend.set_counted(
                        hashed.as_str(),
                        bytes.as_slice(),
                        version,
                        failure_tries,
                    );
                    let ghost answer = wrote;
                    let ghost after_both = Course {
                        writes: before.writes + write_run@.len(),
                        written: before.written + same_write(
                            encode(instance),
                            version,
                            write_run@.len(),
                        ),
                        ..after_read
                    };
                    proof {
                        told = told + write_run@;
                        assert(begins(told, told_before));
                        assert(holds_run(told, before.writes, write_run@));
                        assert(self.answered(stored_key, heard, told, after_both.written));
                    }
                    writes += calls as u128;
                    match self.policy.after_write(wrote) {
                        Next::Finish(outcome) => {
                            proof {
                                lemma_run_is_counted(heard, before.reads, tries, read_run@);
                                lemma_run_is_counted(told, before.writes, tries, write_run@);
                                let went = course(self.policy, self.limiter, now, heard, told);
                                assert(went == Course { outcome, ..after_both });
                                assert(self.backend.answers_write(
                                    stored_key,
                                    encode(instance),
                                    version,
                                    answer,
                                ));
                                assert(self.write_ends_in(stored_key, instance, version, outcome));
                                assert(self.backend.answers_read(stored_key, read));
                                assert(self.cycle_ends_in(stored_key, now, outcome));
                                assert(self.decided(key@, now, heard, told, outcome));
                            }
                            let report = Report { outcome, reads, writes, cycles: cycle + 1 };
                            assert(self.followed(key@, now, heard, told, report));
                            return report;
                        },
                        Next::Again => {
                            proof {
                                assert(self.backend.answers_write(
                                    stored_key,
                                    encode(instance),
                                    version,
                                    answer,
                                ));
                                assert(self.write_ends_in(
                                    stored_key,
                                    instance,
                                    version,
                                    exhausted(self.policy),
                                ));
                                assert(self.backend.answers_read(stored_key, read));
                                assert forall|rs: Seq<ReadView>, ws: Seq<WriteReply>|
                                    #![trigger begins(rs, heard), begins(ws, told)]
                                    begins(rs, heard) && begins(ws, told) implies course(
                                    self.policy,
                                    self.limiter,
                                    now,
                                    rs,
                                    ws,
                                ) == course_from(
                                    self.policy,
                                    self.limiter,
                                    now,
                                    rs,
                                    ws,
                                    after_both,
                                    (left - 1) as nat,
                                ) by {
                                    assert(begins(rs, heard_before));
                                    assert(begins(ws, told_before));
                                    assert(holds_run(rs, before.reads, read_run@));
                                    assert(holds_run(ws, before.writes, write_run@));
                                    lemma_run_is_counted(rs, before.reads, tries, read_run@);
                                    lemma_run_is_counted(ws, before.writes, tries, write_run@);
                                }
                                so_far = after_both;
                            }
                        },
                    }
                },
            }
            cycle += 1;
        }
        let report = Report { outcome: self.policy.exhausted(), reads, writes, cycles: cycle };
        proof {
            assert(begins(heard, heard));
            assert(begins(told, told));
            let went = course(self.policy, self.limiter, now, heard, told);
            assert(went == Course { outcome: exhausted(self.policy), ..so_far });
            assert(self.decided(key@, now, heard, told, report.outcome));
            assert(self.followed(key@, now, heard, told, report));
        }
        report
    }

    /// What to do after a read: write the state that the algorithm gives,
    /// or finish. A stored value that is no state of this algorithm counts as
    /// absent where the policy discards such values, and is then written
    /// over without a version.
    pub fn plan(&self, reply: Result<(Vec<u8>, Option<u64>), backend::BackendError>, now: u128)
        -> (p: Plan)
        requires
            self.wf(),
        ensures
            p == plan_of(self.policy, self.limiter, read_view(reply), now),
            p matches Plan::Finish(outcome) ==> self.policy.permits(outcome),
            p matches Plan::Finish(Err(RateLimiterError::BackendError(e))) ==> reply == Err::<
                (Vec<u8>, Option<u64>),
                backend::BackendError,
            >(e),
            !(p matches Plan::Finish(Err(RateLimiterError::BackendConflict))),
    {
        let (stored, version) = match reply {
            Ok((bytes, version)) => (Some(bytes), version),
            Err(backend::BackendError::KeyMissing) => (None, None),
            Err(e) => {
                return Plan::Finish(self.policy.on_failure.give_up(e));
            },
        };
        match self.limiter.is_rate_limited_now(now, stored) {
            Ok(instance) => Plan::Write(instance, version),
            Err(RateLimiterError::MalformedValue) => self.without_stored(
                RateLimiterError::MalformedValue,
                now,
            ),
            Err(RateLimiterError::WrongLimiterInstanceType) => self.without_stored(
                RateLimiterError::WrongLimiterInstanceType,
                now,
            ),
            Err(e) => Plan::Finish(Err(e)),
        }
    }

    /// What to do about a stored value that is no state of this algorithm:
    /// start afresh where the policy discards such values, report it
    /// otherwise.
    fn without_stored(&self, found: RateLimiterError, now: u128) -> (p: Plan)
        requires
            self.wf(),
            found is MalformedValue || found is WrongLimiterInstanceType,
        ensures
            p == coordinator::plan_without_stored(self.policy, self.limiter, found, now),
            p matches Plan::Finish(outcome) ==> self.policy.permits(outcome) && !(
            outcome matches Err(RateLimiterError::BackendError(_))) && !(outcome matches Err(
                RateLimiterError::BackendConflict,
            )),
    {
        if self.policy.discard_invalid {
            match self.limiter.is_rate_limited_now(now, None) {
                Ok(instance) => Plan::Write(instance, None),
                Err(e) => Plan::Finish(Err(e)),
            }
        } else {
            Plan::Finish(Err(found))
        }
    }

    /// The state stored for `key`, read once and left as it is. A key with
    /// nothing stored gives `BackendError(KeyMissing)`.
    pub fn get_usage(&self, key: &str) -> (r: Result<LimiterInstance, RateLimiterError>)
        ensures
            self.shows(key@, r),
            r matches Err(e) ==> e is BackendError || e is MalformedValue,
    {
        let hashed = self.hasher.hash_key(key);
        let reply = self.backend.get(hashed.as_str());
        self.usage(reply)
    }

    /// The state that a read shows.
    pub fn usage(&self, reply: Result<(Vec<u8>, Option<u64>), backend::BackendError>) -> (r: Result<
        LimiterInstance,
        RateLimiterError,
    >)
        ensures
            r == usage_of(read_view(reply)),
    {
        match reply {
            Ok((bytes, _)) => self.limiter.window_instance(bytes),
            Err(e) => Err(RateLimiterError::BackendError(e)),
        }
    }
}

/// Why collected parts make no limiter.
#[derive(Debug, Clone, Copy, PartialEq, Eq, Structural)]
pub enum ConfigurationError {
    /// No store was given.
    NoBackend,
    /// No algorithm was given.
    NoLimiter,
    /// The algorithm's parameters are ones that it cannot work with, such as
    /// a window of no length.
    InvalidLimiter,
}

/// Collects the parts of a [`RateLimiter`].
pub struct RateLimiterBuilder<C, B, H = PlainKey> {
    pub backend: Option<B>,
    pub limiter: Option<C>,
    pub on_failure: Option<RetryStrategy>,
    pub on_conflict: Option<RetryStrategy>,
    pub discard_invalid: Option<bool>,
    pub hasher: H,
}

impl<C: LimiterType, B: Backend, H: KeyHasher> RateLimiterBuilder<C, B, H> {
    pub fn with_backend(self, backend: B) -> (r: Self)
        ensures
            r == (RateLimiterBuilder { backend: Some(backend), ..self }),
    {
        let mut this = self;
        this.backend = Some(backend);
        this
    }

    pub fn with_limiter(self, class: C) -> (r: Self)
        ensures
            r == (RateLimiterBuilder { limiter: Some(class), ..self }),
    {
        let mut this = self;
        this.limiter = Some(class);
        this
    }

    /// The policy on transient failures of the store.
    pub fn with_failure_strategy(self, strategy: RetryStrategy) -> (r: Self)
        ensures
            r == (RateLimiterBuilder { on_failure: Some(strategy), ..self }),
    {
        let mut this = self;
        this.on_failure = Some(strategy);
        this
    }

    /// The policy on writes that lose against another writer.
    pub fn with_conflict_strategy(self, strategy: RetryStrategy) -> (r: Self)
        ensures
            r == (RateLimiterBuilder { on_conflict: Some(strategy), ..self }),
    {
        let mut this = self;
        this.on_conflict = Some(strategy);
        this
    }

    /// Whether a stored value that is no state of the algorithm counts as
    /// absent.
    pub fn with_discard_invalid_cache_entries(self, discard: bool) -> (r: Self)
        ensures
            r == (RateLimiterBuilder { discard_invalid: Some(discard), ..self }),
    {
        let mut this = self;
        this.discard_invalid = Some(discard);
        this
    }

    /// The function that every key goes through before the store sees it.
    pub fn with_hasher<H2: KeyHasher>(self, hasher: H2) -> (r: RateLimiterBuilder<C, B, H2>)
        ensures
            r.backend == self.backend,
            r.limiter == self.limiter,
            r.on_failure == self.on_failure,
            r.on_conflict == self.on_conflict,
            r.discard_invalid == self.discard_invalid,
            r.hasher == hasher,
    {
        RateLimiterBuilder {
            backend: self.backend,
            limiter: self.limiter,
            on_failure: self.on_failure,
            on_conflict: self.on_conflict,
            discard_invalid: self.discard_invalid,
            hasher,
        }
    }

    /// The policy that `build` gives: what was set, and for the rest two
    /// retries and then admission on failures, two retries and then denial
    /// on conflicts, and stored values of another kind kept.
    pub open spec fn policy(self) -> Policy {
        Policy {
            on_failure: match self.on_failure {
                Some(s) => s,
                None => RetryStrategy::RetryAndAllow(2),
            },
            on_conflict: match self.on_conflict {
                Some(s) => s,
                None => RetryStrategy::RetryAndDeny(2),
            },
            discard_invalid: match self.discard_invalid {
                Some(d) => d,
                None => false,
            },
        }
    }

    /// The limiter of the collected parts, or why they make none: no store
    /// was given, no algorithm was given, or the algorithm's parameters are
    /// ones that it cannot work with.
    pub fn try_build(self) -> (r: Result<RateLimiter<C, B, H>, ConfigurationError>)
        ensures
            match r {
                Ok(limiter) => {
                    &&& self.backend == Some(limiter.backend)
                    &&& self.limiter == Some(limiter.limiter)
                    &&& limiter.hasher == self.hasher
                    &&& limiter.policy == self.policy()
                    &&& limiter.wf()
                },
                Err(ConfigurationError::NoBackend) => self.backend is None,
                Err(ConfigurationError::NoLimiter) => self.backend is Some && self.limiter is None,
                Err(ConfigurationError::InvalidLimiter) => self.backend is Some
                    && self.limiter is Some && !self.limiter.unwrap().wf(),
            },
    {
        if self.backend.is_none() {
            return Err(ConfigurationError::NoBackend);
        }
        let valid = match &self.limiter {
            Some(l) => l.is_valid(),
            None => {
                return Err(ConfigurationError::NoLimiter);
            },
        };
        if !valid {
            return Err(ConfigurationError::InvalidLimiter);
        }
        Ok(self.build())
    }

    /// The limiter of the collected parts. A store and an algorithm must
    /// have been given.
    pub fn build(self) -> (r: RateLimiter<C, B, H>)
        requires
            self.backend is Some,
            self.limiter is Some,
        ensures
            r.backend == self.backend.unwrap(),
            r.limiter == self.limiter.unwrap(),
            r.hasher == self.hasher,
            r.policy == self.policy(),
    {
        let on_failure = match self.on_failure {
            Some(s) => s,
            None => RetryStrategy::RetryAndAllow(2),
        };
        let on_conflict = match self.on_conflict {
            Some(s) => s,
            None => RetryStrategy::RetryAndDeny(2),
        };
        let discard_invalid = match self.discard_invalid {
            Some(d) => d,
            None => false,
        };
        RateLimiter {
            backend: self.backend.unwrap(),
            limiter: self.limiter.unwrap(),
            policy: Policy { on_failure, on_conflict, discard_invalid },
            hasher: self.hasher,
        }
    }
}

} // verus!
