//! The in-flight computation table of the scheduler: concurrent
//! requesters of one (key, version) pair converge on a single
//! computation, and a cancelled computation hands every waiter a
//! cancellation, never a stale or partial value.

use vstd::prelude::*;

use crate::keys::{DiceError, Key, WhichSpawner};

verus! {

/// Transient state of one key being computed: the requesters awaiting
/// it and its cancellation flag.
pub struct InFlight {
    pub key: Key,
    pub version: u64,
    pub waiters: Vec<u64>,
    pub cancelled: bool,
}

/// What a requester learns from `join_or_start`.
#[derive(Clone, Copy, PartialEq, Eq, Structural, Debug)]
pub enum JoinOutcome {
    Started,
    Joined,
}

/// The entry for `(key, v)`, if one is in flight.
pub open spec fn spec_fl(entries: Seq<InFlight>, key: Key, v: u64) -> Option<InFlight>
    decreases entries.len(),
{
    if entries.len() == 0 {
        None
    } else if entries[0].key == key && entries[0].version == v {
        Some(entries[0])
    } else {
        spec_fl(entries.subrange(1, entries.len() as int), key, v)
    }
}

proof fn lemma_fl_at(entries: Seq<InFlight>, key: Key, v: u64, i: int)
    requires
        0 <= i < entries.len(),
        entries[i].key == key && entries[i].version == v,
        forall|j: int| 0 <= j < i ==> !(entries[j].key == key && entries[j].version == v),
    ensures
        spec_fl(entries, key, v) == Some(entries[i]),
    decreases entries.len(),
{
    if i > 0 {
        let rest = entries.subrange(1, entries.len() as int);
        assert(rest[i - 1] == entries[i]);
        assert(forall|j: int| 0 <= j < i - 1 ==> rest[j] == entries[j + 1]);
        lemma_fl_at(rest, key, v, i - 1);
    }
}

proof fn lemma_fl_none(entries: Seq<InFlight>, key: Key, v: u64)
    requires
        forall|j: int|
            0 <= j < entries.len() ==> !(entries[j].key == key && entries[j].version == v),
    ensures
        spec_fl(entries, key, v) is None,
    decreases entries.len(),
{
    if entries.len() > 0 {
        let rest = entries.subrange(1, entries.len() as int);
        assert(forall|j: int| 0 <= j < rest.len() ==> rest[j] == entries[j + 1]);
        lemma_fl_none(rest, key, v);
    }
}

/// A copy of a waiter list.
fn clone_u64s(xs: &Vec<u64>) -> (r: Vec<u64>)
    ensures
        r@ == xs@,
{
    let mut out: Vec<u64> = Vec::new();
    let mut i: usize = 0;
    while i < xs.len()
        invariant
            i <= xs@.len(),
            out@ == xs@.subrange(0, i as int),
        decreases xs@.len() - i,
    {
        out.push(xs[i]);
        proof {
            assert(out@ =~= xs@.subrange(0, i + 1 as int));
        }
        i = i + 1;
    }
    proof {
        assert(out@ =~= xs@);
    }
    out
}

/// The scheduler's table of in-flight computations, under one
/// cancellation policy.
pub struct InFlightTable {
    pub policy: WhichSpawner,
    pub entries: Vec<InFlight>,
}

impl InFlightTable {
    /// At most one entry per (key, version) pair.
    pub open spec fn wf(self) -> bool {
        forall|a: int, b: int|
            0 <= a < b < self.entries@.len() ==> !((#[trigger] self.entries@[a]).key
                == (#[trigger] self.entries@[b]).key && self.entries@[a].version
                == self.entries@[b].version)
    }

    /// The entry for `(key, v)`, if one is in flight.
    pub open spec fn spec_entry(self, key: Key, v: u64) -> Option<InFlight> {
        spec_fl(self.entries@, key, v)
    }

    /// An empty table under the given cancellation policy.
    pub fn new(policy: WhichSpawner) -> (t: InFlightTable)
        ensures
            t.wf(),
            t.policy == policy,
            t.entries@.len() == 0,
    {
        InFlightTable { policy, entries: Vec::new() }
    }

    fn find_entry(&self, key: Key, v: u64) -> (r: Option<usize>)
        ensures
            r matches Some(i) ==> i < self.entries@.len() && self.entries@[i as int].key == key
                && self.entries@[i as int].version == v && self.spec_entry(key, v) == Some(
                self.entries@[i as int],
            ) && (forall|j: int|
                0 <= j < i ==> !(self.entries@[j].key == key && self.entries@[j].version == v)),
            r is None ==> self.spec_entry(key, v) is None && (forall|j: int|
                0 <= j < self.entries@.len() ==> !(self.entries@[j].key == key
                    && self.entries@[j].version == v)),
    {
        let mut i: usize = 0;
        while i < self.entries.len()
            invariant
                i <= self.entries@.len(),
                forall|j: int|
                    0 <= j < i ==> !(self.entries@[j].key == key && self.entries@[j].version == v),
            decreases self.entries@.len() - i,
        {
            if self.entries[i].key == key && self.entries[i].version == v {
                proof {
                    lemma_fl_at(self.entries@, key, v, i as int);
                }
                return Some(i);
            }
            i = i + 1;
        }
        proof {
            lemma_fl_none(self.entries@, key, v);
        }
        None
    }

    /// Deduplication: the first requester of a (key, version) pair
    /// starts the one computation; every further requester joins it as
    /// a waiter, and no second computation is ever started while one is
    /// in flight.
    pub fn join_or_start(&mut self, requester: u64, key: Key, v: u64) -> (r: JoinOutcome)
        requires
            old(self).wf(),
        ensures
            final(self).wf(),
            final(self).policy == old(self).policy,
            r == JoinOutcome::Started <==> old(self).spec_entry(key, v) is None,
            final(self).spec_entry(key, v) matches Some(e) && e.key == key && e.version == v
                && (match old(self).spec_entry(key, v) {
                Some(o) => e.waiters@ == o.waiters@.push(requester) && e.cancelled == o.cancelled,
                None => e.waiters@ == seq![requester] && !e.cancelled,
            }),
            forall|k2: Key, v2: u64|
                !(k2 == key && v2 == v) ==> final(self).spec_entry(k2, v2) == old(
                    self,
                ).spec_entry(k2, v2),
    {
        let found = self.find_entry(key, v);
        match found {
            Some(i) => {
                let ghost before = self.entries@;
                let mut waiters = clone_u64s(&self.entries[i].waiters);
                waiters.push(requester);
                let e = InFlight {
                    key,
                    version: v,
                    waiters,
                    cancelled: self.entries[i].cancelled,
                };
                self.entries[i] = e;
                proof {
                    Self::lemma_replace(before, self.entries@, i as int, key, v);
                }
                JoinOutcome::Joined
            },
            None => {
                let ghost before = self.entries@;
                let mut waiters: Vec<u64> = Vec::new();
                waiters.push(requester);
                let e = InFlight { key, version: v, waiters, cancelled: false };
                self.entries.push(e);
                proof {
                    Self::lemma_append(before, self.entries@, key, v);
                }
                JoinOutcome::Started
            },
        }
    }

    /// Replacing the entry at `i` (same pair) changes no other pair's
    /// entry, and the pair's own entry becomes the new record.
    proof fn lemma_replace(before: Seq<InFlight>, after: Seq<InFlight>, i: int, key: Key, v: u64)
        requires
            0 <= i < before.len(),
            after.len() == before.len(),
            before[i].key == key && before[i].version == v,
            after[i].key == key && after[i].version == v,
            forall|j: int| 0 <= j < before.len() && j != i ==> after[j] == before[j],
            forall|j: int| 0 <= j < i ==> !(before[j].key == key && before[j].version == v),
            forall|a: int, b: int|
                0 <= a < b < before.len() ==> !((#[trigger] before[a]).key == (
                #[trigger] before[b]).key && before[a].version == before[b].version),
        ensures
            forall|a: int, b: int|
                0 <= a < b < after.len() ==> !((#[trigger] after[a]).key == (#[trigger] after[b]).key
                    && after[a].version == after[b].version),
            spec_fl(after, key, v) == Some(after[i]),
            forall|k2: Key, v2: u64|
                !(k2 == key && v2 == v) ==> spec_fl(after, k2, v2) == spec_fl(before, k2, v2),
    {
        assert forall|a: int, b: int| 0 <= a < b < after.len() implies !((#[trigger] after[a]).key
            == (#[trigger] after[b]).key && after[a].version == after[b].version) by {
            assert(after[a].key == before[a].key && after[a].version == before[a].version);
            assert(after[b].key == before[b].key && after[b].version == before[b].version);
        }
        lemma_fl_at(after, key, v, i);
        assert forall|k2: Key, v2: u64| !(k2 == key && v2 == v) implies spec_fl(after, k2, v2)
            == spec_fl(before, k2, v2) by {
            Self::lemma_same_pairs(before, after, k2, v2);
        }
    }

    /// Two tables whose entries carry the same pairs in the same order,
    /// differing at most in a pair's own record, look the same to every
    /// other pair.
    proof fn lemma_same_pairs(before: Seq<InFlight>, after: Seq<InFlight>, k2: Key, v2: u64)
        requires
            after.len() == before.len(),
            forall|j: int|
                0 <= j < before.len() ==> ((#[trigger] after[j]).key == before[j].key
                    && after[j].version == before[j].version),
            forall|j: int|
                0 <= j < before.len() ==> (((#[trigger] before[j]).key == k2 && before[j].version
                    == v2) ==> after[j] == before[j]),
        ensures
            spec_fl(after, k2, v2) == spec_fl(before, k2, v2),
        decreases before.len(),
    {
        if before.len() > 0 {
            let rb = before.subrange(1, before.len() as int);
            let ra = after.subrange(1, after.len() as int);
            assert(forall|j: int| 0 <= j < rb.len() ==> rb[j] == before[j + 1]);
            assert(forall|j: int| 0 <= j < ra.len() ==> ra[j] == after[j + 1]);
            Self::lemma_same_pairs(rb, ra, k2, v2);
        }
    }

    proof fn lemma_append(before: Seq<InFlight>, after: Seq<InFlight>, key: Key, v: u64)
        requires
            after.len() == before.len() + 1,
            forall|j: int| 0 <= j < before.len() ==> after[j] == before[j],
            after[before.len() as int].key == key && after[before.len() as int].version == v,
            forall|j: int|
                0 <= j < before.len() ==> !(before[j].key == key && before[j].version == v),
            forall|a: int, b: int|
                0 <= a < b < before.len() ==> !((#[trigger] before[a]).key == (
                #[trigger] before[b]).key && before[a].version == before[b].version),
        ensures
            forall|a: int, b: int|
                0 <= a < b < after.len() ==> !((#[trigger] after[a]).key == (#[trigger] after[b]).key
                    && after[a].version == after[b].version),
            spec_fl(after, key, v) == Some(after[before.len() as int]),
            forall|k2: Key, v2: u64|
                !(k2 == key && v2 == v) ==> spec_fl(after, k2, v2) == spec_fl(before, k2, v2),
    {
        assert forall|a: int, b: int| 0 <= a < b < after.len() implies !((#[trigger] after[a]).key
            == (#[trigger] after[b]).key && after[a].version == after[b].version) by {
            if b < before.len() {
                assert(after[a] == before[a] && after[b] == before[b]);
            } else {
                assert(after[a] == before[a]);
            }
        }
        lemma_fl_at(after, key, v, before.len() as int);
        assert forall|k2: Key, v2: u64| !(k2 == key && v2 == v) implies spec_fl(after, k2, v2)
            == spec_fl(before, k2, v2) by {
            Self::lemma_push_other(before, after, k2, v2);
        }
    }

    proof fn lemma_push_other(before: Seq<InFlight>, after: Seq<InFlight>, k2: Key, v2: u64)
        requires
            after.len() == before.len() + 1,
            forall|j: int| 0 <= j < before.len() ==> after[j] == before[j],
            !(after[before.len() as int].key == k2 && after[before.len() as int].version == v2),
        ensures
            spec_fl(after, k2, v2) == spec_fl(before, k2, v2),
        decreases before.len(),
    {
        if before.len() == 0 {
            assert(after.subrange(1, 1) =~= Seq::<InFlight>::empty());
        } else {
            let rb = before.subrange(1, before.len() as int);
            let ra = after.subrange(1, after.len() as int);
            assert(forall|j: int| 0 <= j < rb.len() ==> rb[j] == before[j + 1]);
            assert(forall|j: int| 0 <= j < ra.len() ==> ra[j] == after[j + 1]);
            assert(ra[ra.len() - 1] == after[after.len() - 1]);
            Self::lemma_push_other(rb, ra, k2, v2);
        }
    }

    /// Proactive cancellation: under the explicit-cancel policy the
    /// in-flight computation for the pair is flagged cancelled; under
    /// run-to-completion the signal is ignored and the computation runs
    /// on.
    pub fn cancel(&mut self, key: Key, v: u64) -> (r: bool)
        requires
            old(self).wf(),
        ensures
            final(self).wf(),
            final(self).policy == old(self).policy,
            old(self).policy == WhichSpawner::RunToCompletion ==> *final(self) == *old(self) && !r,
            old(self).spec_entry(key, v) is None ==> final(self).entries@ == old(
                self,
            ).entries@ && !r,
            old(self).policy == WhichSpawner::ExplicitCancel ==> (old(self).spec_entry(key, v)
                matches Some(o) ==> ({
                &&& r
                &&& final(self).spec_entry(key, v) matches Some(e)
                &&& e.cancelled
                &&& e.key == key
                &&& e.version == v
                &&& e.waiters@ == o.waiters@
            })),
            forall|k2: Key, v2: u64|
                !(k2 == key && v2 == v) ==> final(self).spec_entry(k2, v2) == old(
                    self,
                ).spec_entry(k2, v2),
    {
        if matches!(self.policy, WhichSpawner::RunToCompletion) {
            return false;
        }
        let found = self.find_entry(key, v);
        match found {
            Some(i) => {
                let ghost before = self.entries@;
                let waiters = clone_u64s(&self.entries[i].waiters);
                let e = InFlight { key, version: v, waiters, cancelled: true };
                self.entries[i] = e;
                proof {
                    Self::lemma_replace(before, self.entries@, i as int, key, v);
                }
                true
            },
            None => false,
        }
    }

    /// Publish the outcome of the pair's computation to every waiter and
    /// destroy the entry. Every waiter receives the identical outcome:
    /// the computed value — or, when the computation was cancelled, a
    /// cancellation, never a stale or partial value.
    pub fn resolve(&mut self, key: Key, v: u64, value: u64) -> (outcomes: Vec<
        (u64, Result<u64, DiceError>),
    >)
        requires
            old(self).wf(),
        ensures
            final(self).wf(),
            final(self).policy == old(self).policy,
            final(self).spec_entry(key, v) is None,
            old(self).spec_entry(key, v) is None ==> final(self).entries@ == old(self).entries@
                && outcomes@.len() == 0,
            old(self).spec_entry(key, v) matches Some(o) ==> outcomes@.len() == o.waiters@.len()
                && (forall|w: int|
                0 <= w < outcomes@.len() ==> (#[trigger] outcomes@[w]).0 == o.waiters@[w]
                    && outcomes@[w].1 == (if o.cancelled {
                    Err::<u64, DiceError>(DiceError::Cancelled)
                } else {
                    Ok::<u64, DiceError>(value)
                })),
            forall|k2: Key, v2: u64|
                !(k2 == key && v2 == v) ==> final(self).spec_entry(k2, v2) == old(
                    self,
                ).spec_entry(k2, v2),
    {
        let found = self.find_entry(key, v);
        match found {
            Some(i) => {
                let ghost before = self.entries@;
                let e = self.entries.remove(i);
                proof {
                    Self::lemma_remove(before, self.entries@, i as int, key, v);
                }
                let mut outcomes: Vec<(u64, Result<u64, DiceError>)> = Vec::new();
                let mut w: usize = 0;
                while w < e.waiters.len()
                    invariant
                        w <= e.waiters@.len(),
                        outcomes@.len() == w,
                        forall|u: int|
                            0 <= u < w ==> (#[trigger] outcomes@[u]).0 == e.waiters@[u]
                                && outcomes@[u].1 == (if e.cancelled {
                                Err::<u64, DiceError>(DiceError::Cancelled)
                            } else {
                                Ok::<u64, DiceError>(value)
                            }),
                    decreases e.waiters@.len() - w,
                {
                    let outcome: Result<u64, DiceError> = if e.cancelled {
                        Err(DiceError::Cancelled)
                    } else {
                        Ok(value)
                    };
                    outcomes.push((e.waiters[w], outcome));
                    w = w + 1;
                }
                outcomes
            },
            None => Vec::new(),
        }
    }

    /// Removing the entry at `i` (the pair's only one) leaves no entry
    /// for the pair and every other pair's entry unchanged.
    proof fn lemma_remove(before: Seq<InFlight>, after: Seq<InFlight>, i: int, key: Key, v: u64)
        requires
            0 <= i < before.len(),
            after == before.remove(i),
            before[i].key == key && before[i].version == v,
            forall|a: int, b: int|
                0 <= a < b < before.len() ==> !((#[trigger] before[a]).key == (
                #[trigger] before[b]).key && before[a].version == before[b].version),
        ensures
            forall|a: int, b: int|
                0 <= a < b < after.len() ==> !((#[trigger] after[a]).key == (#[trigger] after[b]).key
                    && after[a].version == after[b].version),
            spec_fl(after, key, v) is None,
            forall|k2: Key, v2: u64|
                !(k2 == key && v2 == v) ==> spec_fl(after, k2, v2) == spec_fl(before, k2, v2),
        decreases before.len(),
    {
        assert forall|a: int, b: int| 0 <= a < b < after.len() implies !((#[trigger] after[a]).key
            == (#[trigger] after[b]).key && after[a].version == after[b].version) by {
            let a0: int = if a < i {
                a
            } else {
                a + 1
            };
            let b0: int = if b < i {
                b
            } else {
                b + 1
            };
            assert(after[a] == before[a0]);
            assert(after[b] == before[b0]);
        }
        assert forall|j: int| 0 <= j < after.len() implies !((#[trigger] after[j]).key == key
            && after[j].version == v) by {
            let j0: int = if j < i {
                j
            } else {
                j + 1
            };
            assert(after[j] == before[j0]);
        }
        lemma_fl_none(after, key, v);
        assert forall|k2: Key, v2: u64| !(k2 == key && v2 == v) implies spec_fl(after, k2, v2)
            == spec_fl(before, k2, v2) by {
            Self::lemma_remove_other(before, after, i, k2, v2);
        }
    }

    proof fn lemma_remove_other(
        before: Seq<InFlight>,
        after: Seq<InFlight>,
        i: int,
        k2: Key,
        v2: u64,
    )
        requires
            0 <= i < before.len(),
            after == before.remove(i),
            !(before[i].key == k2 && before[i].version == v2),
        ensures
            spec_fl(after, k2, v2) == spec_fl(before, k2, v2),
        decreases before.len(),
    {
        if i == 0 {
            assert(after =~= before.subrange(1, before.len() as int));
        } else {
            let rb = before.subrange(1, before.len() as int);
            let ra = after.subrange(1, after.len() as int);
            assert(before[0] == after[0]);
            assert(ra =~= rb.remove(i - 1));
            assert(rb[i - 1] == before[i]);
            Self::lemma_remove_other(rb, ra, i - 1, k2, v2);
        }
    }
}

} // verus!
