//! Cancellation of running queries.
//!
//! Every running query owns a poison flag. Whoever holds a copy of the flag
//! can set it; the query looks at it between two rounds of its evaluation and
//! gives up once it finds it set. A flag is never cleared again. The registry
//! keeps the flags of the queries that are running, by id, so that a query can
//! be killed by its id and listed while it runs.

use crate::runtime::error::DbError;
use std::collections::BTreeMap;
use std::sync::atomic::{AtomicBool, Ordering};
use std::sync::Arc;
use vstd::prelude::*;
use vstd::std_specs::cmp::OrdSpec;
use vstd::std_specs::iter::IteratorSpec;

verus! {

/// What a query is told when it asks whether to go on, given the flag that it
/// has just read.
pub fn killed_result(killed: bool) -> (r: Result<(), DbError>)
    ensures
        r == if killed {
            Err::<(), DbError>(DbError::ProcessKilled)
        } else {
            Ok::<(), DbError>(())
        },
{
    if killed {
        Err(DbError::ProcessKilled)
    } else {
        Ok(())
    }
}

/// What an evaluation does next at the end of a round.
#[derive(Clone, Copy, Debug, PartialEq, Eq, Structural)]
pub enum RoundStep {
    /// The round derived something new: another round follows.
    Again,
    /// The round derived nothing new: the stratum is complete.
    Complete,
}

/// What an evaluation does at the end of a round, given the flag that it has
/// just read and whether the round derived anything new. A query whose flag
/// is set stops here, so it runs for one round at most after it was killed.
pub fn end_of_round(killed: bool, derived_new: bool) -> (r: Result<RoundStep, DbError>)
    ensures
        r == if killed {
            Err::<RoundStep, DbError>(DbError::ProcessKilled)
        } else if derived_new {
            Ok::<RoundStep, DbError>(RoundStep::Again)
        } else {
            Ok::<RoundStep, DbError>(RoundStep::Complete)
        },
{
    match killed_result(killed) {
        Err(e) => Err(e),
        Ok(()) => if derived_new {
            Ok(RoundStep::Again)
        } else {
            Ok(RoundStep::Complete)
        },
    }
}

/// The cancellation flag of one query, shared by all copies of the handle.
/// A flag can be set and read, and nothing else: there is no way to clear it.
#[derive(Clone)]
pub struct Poison(Arc<AtomicBool>);

impl Default for Poison {
    fn default() -> Poison {
        Poison::new()
    }
}

impl Poison {
    /// A flag of its own, not set. The flag lives in an atomic of the
    /// standard library, of whose content no contract can speak: that it
    /// starts unset is what the body does, and no clause says so.
    pub fn new() -> Poison {
        Poison(Arc::new(AtomicBool::new(false)))
    }

    /// Whether the flag is found set at the moment of the call. Another
    /// thread may set the flag at any time, so nothing is promised of the
    /// answer; what follows from it is decided by `killed_result` and
    /// `end_of_round`, which take it as an argument.
    pub fn is_set(&self) -> bool {
        self.0.load(Ordering::Relaxed)
    }

    /// Sets the flag.
    pub fn set(&self) {
        self.0.store(true, Ordering::Relaxed);
    }

    /// Fails if the flag is found set. The flag may be set by another thread
    /// at any time, so nothing is promised of the outcome but what
    /// `killed_result` says of the flag that was read.
    pub fn check(&self) -> (r: Result<(), DbError>)
        ensures
            r matches Err(e) ==> e is ProcessKilled,
    {
        killed_result(self.is_set())
    }
}

/// What the registry keeps of a running query.
pub struct RunningQueryHandle {
    /// Seconds since the epoch at which the query started, as the bit pattern
    /// of a binary64 number.
    pub started_at: u64,
    pub poison: Poison,
}

/// The queries that are running, by id.
pub struct RunningQueries {
    next_id: u64,
    queries: BTreeMap<u64, RunningQueryHandle>,
}

/// What became of a request to kill a query.
#[derive(Clone, Copy, Debug, PartialEq, Eq, Structural)]
pub enum KillStatus {
    /// The flag of the query was set.
    Killing,
    /// No query with that id is running.
    NotFound,
}

impl View for RunningQueries {
    type V = Map<u64, RunningQueryHandle>;

    closed spec fn view(&self) -> Map<u64, RunningQueryHandle> {
        self.queries@
    }
}

impl RunningQueries {
    /// Every id in use was given out by this registry.
    pub closed spec fn wf(&self) -> bool {
        forall|id: u64| self.queries@.contains_key(id) ==> id < self.next_id
    }

    /// The id that the next query will be given.
    pub closed spec fn next_id(&self) -> u64 {
        self.next_id
    }

    /// A registry without queries, whose first id is 0.
    pub fn new() -> (r: RunningQueries)
        ensures
            r.wf(),
            r@ == Map::<u64, RunningQueryHandle>::empty(),
            r.next_id() == 0,
    {
        RunningQueries { next_id: 0, queries: BTreeMap::new() }
    }

    /// Enters a query under the next id, and gives the id back. In a
    /// registry that was only ever changed through its own functions the id
    /// is fresh. Fails only when the ids are used up, and then changes
    /// nothing.
    pub fn register(&mut self, handle: RunningQueryHandle) -> (r: Option<u64>)
        ensures
            old(self).wf() ==> final(self).wf(),
            match r {
                Some(id) => {
                    &&& id == old(self).next_id()
                    &&& old(self).wf() ==> !old(self)@.contains_key(id)
                    &&& final(self)@ == old(self)@.insert(id, handle)
                    &&& final(self).next_id() == id + 1
                },
                None => {
                    &&& old(self).next_id() == u64::MAX
                    &&& final(self)@ == old(self)@
                    &&& final(self).next_id() == old(self).next_id()
                },
            },
    {
        if self.next_id == u64::MAX {
            return None;
        }
        let id = self.next_id;
        self.queries.insert(id, handle);
        self.next_id = id + 1;
        Some(id)
    }

    /// Takes the query with this id out of the registry and sets its flag.
    /// Tells whether there was one; if not, nothing changes.
    pub fn finish(&mut self, id: u64) -> (found: bool)
        ensures
            old(self).wf() ==> final(self).wf(),
            found == old(self)@.contains_key(id),
            final(self)@ == old(self)@.remove(id),
            !final(self)@.contains_key(id),
            final(self).next_id() == old(self).next_id(),
    {
        match self.queries.remove(&id) {
            Some(handle) => {
                handle.poison.set();
                true
            },
            None => false,
        }
    }

    /// Sets the flag of the query with this id, if it is running.
    pub fn kill(&self, id: u64) -> (r: KillStatus)
        ensures
            r == if self@.contains_key(id) {
                KillStatus::Killing
            } else {
                KillStatus::NotFound
            },
    {
        match self.queries.get(&id) {
            None => KillStatus::NotFound,
            Some(handle) => {
                handle.poison.set();
                KillStatus::Killing
            },
        }
    }

    /// The running queries with the times at which they started, by
    /// ascending id.
    pub fn list(&self) -> (rows: Vec<(u64, u64)>)
        ensures
            forall|i: int|
                0 <= i < rows@.len() ==> self@.contains_key(#[trigger] rows@[i].0)
                    && self@[rows@[i].0].started_at == rows@[i].1,
            forall|id: u64|
                self@.contains_key(id) ==> exists|i: int|
                    0 <= i < rows@.len() && (#[trigger] rows@[i]).0 == id,
            forall|i: int, j: int|
                0 <= i < j < rows@.len() ==> (#[trigger] rows@[i]).0 < (#[trigger] rows@[j]).0,
    {
        broadcast use vstd::std_specs::btree::group_btree_axioms;

        let mut rows: Vec<(u64, u64)> = Vec::new();
        let entries = self.queries.iter();
        let ghost all = entries.remaining();
        let ghost ids = all.map_values(|kv: (&u64, &RunningQueryHandle)| *kv.0);
        proof {
            assert(vstd::std_specs::btree::increasing_seq(ids));
            vstd::std_specs::btree::axiom_increasing_seq_meaning(ids);
            assert forall|i: int, j: int| 0 <= i < j < all.len() implies *(#[trigger] all[i]).0 < *(
            #[trigger] all[j]).0 by {
                assert(ids[i] == *all[i].0);
                assert(ids[j] == *all[j].0);
                assert(ids[i].cmp_spec(&ids[j]) is Less);
            }
        }
        for kv in it: entries
            invariant
                it.seq() == all,
                rows@.len() == it.index(),
                forall|i: int|
                    0 <= i < rows@.len() ==> (#[trigger] rows@[i]).0 == *all[i].0 && rows@[i].1
                        == all[i].1.started_at,
        {
            rows.push((*kv.0, kv.1.started_at));
        }
        proof {
            assert forall|id: u64| self@.contains_key(id) implies exists|i: int|
                0 <= i < rows@.len() && (#[trigger] rows@[i]).0 == id by {
                let kv = (&id, &self@[id]);
                assert(all.contains(kv));
                let i = choose|i: int| 0 <= i < all.len() && all[i] == kv;
                assert(rows@[i].0 == id);
            }
        }
        rows
    }
}

} // verus!
