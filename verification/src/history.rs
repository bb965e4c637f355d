//! Several callers deciding on one key of a store that compares versions:
//! whatever the order of their reads and writes, the writes that the store
//! commits are a run of the algorithm, one request after the other.
//!
//! This is a model. The store here is a cell with a version, and a caller's
//! decision is one read and one write of what the algorithm gives; nothing
//! in it is a contract of the code. What ties it to the code is that a
//! decision of a `RateLimiter` writes what the algorithm gives on the value
//! it read, under the version it read, and ends with the first write that
//! the store accepts, which is proved of `RateLimiter::decide`. That a store
//! commits a write only against the version that was read is the store's to
//! keep, and how many of several callers win depends on the order in which
//! they run.

use crate::types::codec::encode;
use crate::types::{admitted, lemma_one_more_request, stored_at_end, stored_after, LimiterType};
use vstd::prelude::*;

verus! {

/// What the store holds under the key: the bytes, if any, and a version that
/// every committed write raises.
pub struct Cell {
    pub value: Option<Seq<u8>>,
    pub version: nat,
}

/// What a caller does.
pub enum Event {
    /// The caller reads the key and keeps what it saw.
    Read { who: nat },
    /// The caller lets the algorithm decide at `now` on what it last read
    /// and, if it admits the request, writes the new state under the version
    /// that it read.
    Decide { who: nat, now: u128 },
}

/// The store, what each caller last read, and the times of the committed
/// writes in the order of their commits.
pub struct World {
    pub cell: Cell,
    pub seen: Map<nat, Cell>,
    pub commits: Seq<u128>,
}

/// Whether a decision commits: the caller has read, the algorithm admits the
/// request on what was read, and the version is still the one that was read.
pub open spec fn commits_now<L: LimiterType>(limiter: L, w: World, who: nat, now: u128) -> bool {
    &&& w.seen.contains_key(who)
    &&& limiter.verdict(w.seen[who].value, now) is Ok
    &&& w.seen[who].version == w.cell.version
}

/// The world after one event. A write under a version that is no longer the
/// store's changes nothing: the store reports that the value has changed.
pub open spec fn step<L: LimiterType>(limiter: L, w: World, e: Event) -> World {
    match e {
        Event::Read { who } => World { seen: w.seen.insert(who, w.cell), ..w },
        Event::Decide { who, now } => if commits_now(limiter, w, who, now) {
            World {
                cell: Cell {
                    value: Some(encode(limiter.verdict(w.seen[who].value, now).unwrap())),
                    version: w.cell.version + 1,
                },
                commits: w.commits.push(now),
                ..w
            }
        } else {
            w
        },
    }
}

/// The world after a sequence of events.
pub open spec fn after<L: LimiterType>(limiter: L, start: World, events: Seq<Event>) -> World
    decreases events.len(),
{
    if events.len() == 0 {
        start
    } else {
        step(limiter, after(limiter, start, events.drop_last()), events.last())
    }
}

/// The world in which nobody has read or written yet.
pub open spec fn untouched(stored: Option<Seq<u8>>) -> World {
    World {
        cell: Cell { value: stored, version: 0 },
        seen: Map::empty(),
        commits: Seq::empty(),
    }
}

/// What holds of every world that events lead to from an untouched one: the
/// version counts the commits, the store holds what a run of the algorithm
/// over the commits leaves, that run admits every one of them, and a caller
/// that saw the store's version saw the store's value.
pub open spec fn sequential<L: LimiterType>(limiter: L, stored: Option<Seq<u8>>, w: World) -> bool {
    &&& w.cell.version == w.commits.len()
    &&& w.cell.value == stored_at_end(limiter, stored, w.commits)
    &&& admitted(limiter, stored, w.commits) == w.commits.len()
    &&& forall|who: nat| #[trigger]
        w.seen.contains_key(who) ==> w.seen[who].version <= w.cell.version && (w.seen[who].version
            == w.cell.version ==> w.seen[who].value == w.cell.value)
}

/// In the model of this file: however the reads and the decisions of any
/// number of callers on one key follow each other, the committed writes are a
/// run of the algorithm in the
/// order of their commits: each of them is admitted on what the commits
/// before it left stored, and the store ends with what that run leaves. So no
/// more requests are committed than the algorithm admits one after the
/// other, and none is counted twice.
pub proof fn lemma_commits_are_a_run<L: LimiterType>(
    limiter: L,
    stored: Option<Seq<u8>>,
    events: Seq<Event>,
)
    ensures
        sequential(limiter, stored, after(limiter, untouched(stored), events)),
    decreases events.len(),
{
    if events.len() > 0 {
        lemma_commits_are_a_run(limiter, stored, events.drop_last());
        let w = after(limiter, untouched(stored), events.drop_last());
        match events.last() {
            Event::Read { who } => {},
            Event::Decide { who, now } => {
                if commits_now(limiter, w, who, now) {
                    lemma_one_more_request(limiter, stored, w.commits, now);
                }
            },
        }
    }
}

} // verus!
