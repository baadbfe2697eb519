//! The evaluation engine: version commits, demand-driven evaluation with
//! memoization, lazy revalidation with early cutoff, dynamic edge
//! recording, and cycle detection over the active call chain.

use vstd::prelude::*;

use crate::keys::{DetectCycles, DiceError, Key, WhichSpawner};
use crate::registry::{
    commit_decision, dep_clean, find_def_at, spec_def_at, values_equal, KeyChange, KeyDef,
    KeyTypeDef,
};
use crate::store::{
    clone_keys, contains_key, dedup_first, find_node_index, lemma_dedup_first_contains,
    lemma_find_node_none, lemma_find_node_push, lemma_find_node_update, spec_dedup_first,
    spec_find_node, NodeRecord,
};

verus! {

/// Whether the store answers a read of `key` at version `v` from the
/// record alone: the value did not change after `v` and its validity has
/// been confirmed through `v`.
pub open spec fn spec_covers_at(nodes: Seq<NodeRecord>, key: Key, v: u64) -> bool {
    match spec_find_node(nodes, key) {
        Some(n) => n.changed_at <= v && v <= n.verified_at,
        None => false,
    }
}

/// The stored value of `key` (zero when no record exists).
pub open spec fn spec_value_of(nodes: Seq<NodeRecord>, key: Key) -> u64 {
    match spec_find_node(nodes, key) {
        Some(n) => n.value,
        None => 0,
    }
}

/// The stored change version of `key` (zero when no record exists).
pub open spec fn spec_changed_of(nodes: Seq<NodeRecord>, key: Key) -> u64 {
    match spec_find_node(nodes, key) {
        Some(n) => n.changed_at,
        None => 0,
    }
}

/// Addition modulo 2^64, the combining rule of compute routines.
pub open spec fn spec_wadd(a: u64, b: u64) -> u64 {
    if a + b <= u64::MAX {
        (a + b) as u64
    } else {
        (a + b - 0x1_0000_0000_0000_0000) as u64
    }
}

/// Add with wrap-around.
pub fn wadd(a: u64, b: u64) -> (r: u64)
    ensures
        r == spec_wadd(a, b),
{
    if b <= u64::MAX - a {
        a + b
    } else {
        b - (u64::MAX - a) - 1
    }
}

/// The value a compute routine produces from its base contribution and the
/// stored values of the first `t` keys it requests, in request order.
pub open spec fn spec_dep_sum(nodes: Seq<NodeRecord>, base: u64, deps: Seq<Key>, t: int) -> u64
    decreases t,
{
    if t <= 0 {
        base
    } else {
        spec_wadd(spec_dep_sum(nodes, base, deps, t - 1), spec_value_of(nodes, deps[t - 1]))
    }
}

/// Whether the declaration of `key` in force at `v` is a failing routine.
pub open spec fn spec_def_fails(defs: Seq<KeyDef>, key: Key, v: u64) -> bool {
    match spec_def_at(defs, key, v) {
        Some(di) => defs[di].fails,
        None => false,
    }
}

/// The first `t` summands read the same records in both stores, so the
/// combined value is the same.
proof fn lemma_dep_sum_congruent(
    nodes1: Seq<NodeRecord>,
    nodes2: Seq<NodeRecord>,
    base: u64,
    deps: Seq<Key>,
    t: int,
)
    requires
        forall|u: int|
            0 <= u < t ==> spec_find_node(nodes2, #[trigger] deps[u]) == spec_find_node(
                nodes1,
                deps[u],
            ),
    ensures
        spec_dep_sum(nodes2, base, deps, t) == spec_dep_sum(nodes1, base, deps, t),
    decreases t,
{
    if t > 0 {
        lemma_dep_sum_congruent(nodes1, nodes2, base, deps, t - 1);
    }
}

/// A store stays well formed when the record of one key is replaced in
/// place: every other key's lookup is untouched, and the key's own lookup
/// now yields the new record.
proof fn lemma_store_update(
    before: Seq<NodeRecord>,
    after: Seq<NodeRecord>,
    j: int,
    n: NodeRecord,
    types_len: int,
    version: u64,
)
    requires
        after == before.update(j, n),
        0 <= j < before.len(),
        before[j].key == n.key,
        forall|jj: int| 0 <= jj < j ==> before[jj].key != n.key,
        forall|a: int, b: int|
            0 <= a < b < before.len() ==> (#[trigger] before[a]).key != (#[trigger] before[b]).key,
        forall|i: int| 0 <= i < before.len() ==> (#[trigger] before[i]).key.tag < types_len,
        forall|i: int|
            0 <= i < before.len() ==> (#[trigger] before[i]).changed_at <= before[i].computed_at
                && before[i].computed_at <= before[i].verified_at && before[i].verified_at
                <= version,
        forall|i: int, d: int|
            0 <= i < before.len() && 0 <= d < (#[trigger] before[i]).deps@.len() ==> spec_find_node(
                before,
                #[trigger] before[i].deps@[d],
            ) is Some,
        n.key.tag < types_len,
        n.changed_at <= n.computed_at && n.computed_at <= n.verified_at && n.verified_at
            <= version,
        forall|d: int| 0 <= d < n.deps@.len() ==> spec_find_node(before, #[trigger] n.deps@[d])
            is Some,
    ensures
        forall|a: int, b: int|
            0 <= a < b < after.len() ==> (#[trigger] after[a]).key != (#[trigger] after[b]).key,
        forall|i: int| 0 <= i < after.len() ==> (#[trigger] after[i]).key.tag < types_len,
        forall|i: int|
            0 <= i < after.len() ==> (#[trigger] after[i]).changed_at <= after[i].computed_at
                && after[i].computed_at <= after[i].verified_at && after[i].verified_at <= version,
        forall|i: int, d: int|
            0 <= i < after.len() && 0 <= d < (#[trigger] after[i]).deps@.len() ==> spec_find_node(
                after,
                #[trigger] after[i].deps@[d],
            ) is Some,
        forall|k: Key| k != n.key ==> spec_find_node(after, k) == spec_find_node(before, k),
        spec_find_node(after, n.key) == Some(n),
        forall|k: Key|
            spec_find_node(before, k) is Some ==> spec_find_node(after, k) is Some,
{
    assert forall|k: Key| k != n.key implies spec_find_node(after, k) == spec_find_node(
        before,
        k,
    ) by {
        lemma_find_node_update(before, j, n, k);
    }
    lemma_find_node_update(before, j, n, n.key);
    assert forall|a: int, b: int| 0 <= a < b < after.len() implies (#[trigger] after[a]).key != (
    #[trigger] after[b]).key by {
        assert(after[a].key == before[a].key);
        assert(after[b].key == before[b].key);
    }
    assert forall|i: int, d: int|
        0 <= i < after.len() && 0 <= d < (#[trigger] after[i]).deps@.len() implies spec_find_node(
        after,
        #[trigger] after[i].deps@[d],
    ) is Some by {
        let dk = after[i].deps@[d];
        if i == j {
            assert(spec_find_node(before, dk) is Some);
        } else {
            assert(after[i] == before[i]);
            assert(spec_find_node(before, dk) is Some);
        }
        if dk == n.key {
        } else {
            lemma_find_node_update(before, j, n, dk);
        }
    }
}

/// A store stays well formed when a record for a fresh key is appended:
/// every other key's lookup is untouched, and the new key's lookup yields
/// the new record.
proof fn lemma_store_push(
    before: Seq<NodeRecord>,
    after: Seq<NodeRecord>,
    n: NodeRecord,
    types_len: int,
    version: u64,
)
    requires
        after == before.push(n),
        forall|i: int| 0 <= i < before.len() ==> (#[trigger] before[i]).key != n.key,
        forall|a: int, b: int|
            0 <= a < b < before.len() ==> (#[trigger] before[a]).key != (#[trigger] before[b]).key,
        forall|i: int| 0 <= i < before.len() ==> (#[trigger] before[i]).key.tag < types_len,
        forall|i: int|
            0 <= i < before.len() ==> (#[trigger] before[i]).changed_at <= before[i].computed_at
                && before[i].computed_at <= before[i].verified_at && before[i].verified_at
                <= version,
        forall|i: int, d: int|
            0 <= i < before.len() && 0 <= d < (#[trigger] before[i]).deps@.len() ==> spec_find_node(
                before,
                #[trigger] before[i].deps@[d],
            ) is Some,
        n.key.tag < types_len,
        n.changed_at <= n.computed_at && n.computed_at <= n.verified_at && n.verified_at
            <= version,
        forall|d: int| 0 <= d < n.deps@.len() ==> spec_find_node(before, #[trigger] n.deps@[d])
            is Some || n.deps@[d] == n.key,
    ensures
        forall|a: int, b: int|
            0 <= a < b < after.len() ==> (#[trigger] after[a]).key != (#[trigger] after[b]).key,
        forall|i: int| 0 <= i < after.len() ==> (#[trigger] after[i]).key.tag < types_len,
        forall|i: int|
            0 <= i < after.len() ==> (#[trigger] after[i]).changed_at <= after[i].computed_at
                && after[i].computed_at <= after[i].verified_at && after[i].verified_at <= version,
        forall|i: int, d: int|
            0 <= i < after.len() && 0 <= d < (#[trigger] after[i]).deps@.len() ==> spec_find_node(
                after,
                #[trigger] after[i].deps@[d],
            ) is Some,
        forall|k: Key| k != n.key ==> spec_find_node(after, k) == spec_find_node(before, k),
        spec_find_node(after, n.key) == Some(n),
        forall|k: Key|
            spec_find_node(before, k) is Some ==> spec_find_node(after, k) is Some,
{
    lemma_find_node_none(before, n.key);
    assert forall|k: Key| k != n.key implies spec_find_node(after, k) == spec_find_node(
        before,
        k,
    ) by {
        lemma_find_node_push(before, n, k);
    }
    lemma_find_node_push(before, n, n.key);
    assert forall|a: int, b: int| 0 <= a < b < after.len() implies (#[trigger] after[a]).key != (
    #[trigger] after[b]).key by {
        if b < before.len() {
        } else {
            assert(after[b] == n);
            assert(after[a] == before[a]);
        }
    }
    assert forall|i: int, d: int|
        0 <= i < after.len() && 0 <= d < (#[trigger] after[i]).deps@.len() implies spec_find_node(
        after,
        #[trigger] after[i].deps@[d],
    ) is Some by {
        let dk = after[i].deps@[d];
        if i < before.len() {
            assert(after[i] == before[i]);
            assert(spec_find_node(before, dk) is Some);
            if dk != n.key {
                lemma_find_node_push(before, n, dk);
            }
        } else {
            assert(after[i] == n);
            if dk != n.key {
                assert(spec_find_node(before, dk) is Some);
                lemma_find_node_push(before, n, dk);
            }
        }
    }
}

/// The position of the first occurrence of `key` on the call chain.
pub open spec fn spec_first_idx(stack: Seq<Key>, key: Key) -> int
    decreases stack.len(),
{
    if stack.len() == 0 {
        0
    } else if stack[0] == key {
        0
    } else {
        1 + spec_first_idx(stack.subrange(1, stack.len() as int), key)
    }
}

/// The cycle reported when `key` is requested while already on the call
/// chain: the chain from the repeated key back to itself.
pub open spec fn spec_cycle_of(stack: Seq<Key>, key: Key) -> Seq<Key> {
    stack.subrange(spec_first_idx(stack, key), stack.len() as int).push(key)
}

proof fn lemma_first_idx_at(stack: Seq<Key>, key: Key, i: int)
    requires
        0 <= i < stack.len(),
        stack[i] == key,
        forall|j: int| 0 <= j < i ==> stack[j] != key,
    ensures
        spec_first_idx(stack, key) == i,
    decreases stack.len(),
{
    if i > 0 {
        let rest = stack.subrange(1, stack.len() as int);
        assert(rest[i - 1] == stack[i]);
        assert(forall|j: int| 0 <= j < i - 1 ==> rest[j] == stack[j + 1] && rest[j] != key);
        lemma_first_idx_at(rest, key, i - 1);
    }
}

/// Detect whether requesting `key` closes a cycle over the active call
/// chain, and if so report the ordered cycle, from the repeated key back
/// to itself.
pub fn find_cycle(stack: &Vec<Key>, key: Key) -> (r: Option<Vec<Key>>)
    ensures
        r is Some <==> stack@.contains(key),
        r matches Some(c) ==> c@ == spec_cycle_of(stack@, key) && c@.len() >= 2 && c@[0] == key
            && c@[c@.len() - 1] == key && c@.contains(key),
{
    let mut i: usize = 0;
    while i < stack.len()
        invariant
            i <= stack@.len(),
            forall|j: int| 0 <= j < i ==> stack@[j] != key,
        decreases stack@.len() - i,
    {
        if stack[i] == key {
            proof {
                lemma_first_idx_at(stack@, key, i as int);
                assert(stack@.contains(key));
            }
            let mut c: Vec<Key> = Vec::new();
            let mut j: usize = i;
            while j < stack.len()
                invariant
                    i <= j <= stack@.len(),
                    c@ == stack@.subrange(i as int, j as int),
                decreases stack@.len() - j,
            {
                c.push(stack[j]);
                proof {
                    assert(c@ =~= stack@.subrange(i as int, j + 1 as int));
                }
                j = j + 1;
            }
            c.push(key);
            proof {
                assert(c@ =~= spec_cycle_of(stack@, key));
                assert(c@[0] == stack@[i as int]);
            }
            return Some(c);
        }
        i = i + 1;
    }
    proof {
        if stack@.contains(key) {
            let j = choose|j: int| 0 <= j < stack@.len() && stack@[j] == key;
            assert(false);
        }
    }
    None
}

/// The engine: the key-type registry, the append-only history of key
/// declarations with the version each took effect, the node store, the
/// current committed version, the two construction toggles, and the
/// chain of keys currently mid-computation.
pub struct DiceLegacy {
    pub types: Vec<KeyTypeDef>,
    pub defs: Vec<KeyDef>,
    pub nodes: Vec<NodeRecord>,
    pub version: u64,
    pub detect_cycles: DetectCycles,
    pub which_spawner: WhichSpawner,
    pub running: Vec<Key>,
}

/// Builds a `DiceLegacy` from the two construction toggles.
pub struct DiceLegacyBuilder {}

impl DiceLegacyBuilder {
    /// A fresh engine: no key types, no declarations, no nodes, version 0.
    pub fn build(self, detect_cycles: DetectCycles, which_spawner: WhichSpawner) -> (d:
        DiceLegacy)
        ensures
            d.wf(),
            d.types@.len() == 0,
            d.defs@.len() == 0,
            d.nodes@.len() == 0,
            d.version == 0,
            d.detect_cycles == detect_cycles,
            d.which_spawner == which_spawner,
            d.running@.len() == 0,
    {
        DiceLegacy {
            types: Vec::new(),
            defs: Vec::new(),
            nodes: Vec::new(),
            version: 0,
            detect_cycles,
            which_spawner,
            running: Vec::new(),
        }
    }
}

impl DiceLegacy {
    /// Internal consistency of the engine state.
    pub open spec fn wf(self) -> bool {
        &&& (forall|i: int, j: int|
            0 <= i < j < self.nodes@.len() ==> (#[trigger] self.nodes@[i]).key != (
            #[trigger] self.nodes@[j]).key)
        &&& (forall|i: int|
            0 <= i < self.nodes@.len() ==> (#[trigger] self.nodes@[i]).key.tag
                < self.types@.len())
        &&& (forall|i: int|
            0 <= i < self.nodes@.len() ==> (#[trigger] self.nodes@[i]).changed_at
                <= self.nodes@[i].computed_at && self.nodes@[i].computed_at
                <= self.nodes@[i].verified_at && self.nodes@[i].verified_at <= self.version)
        &&& (forall|i: int, d: int|
            0 <= i < self.nodes@.len() && 0 <= d < (#[trigger] self.nodes@[i]).deps@.len()
                ==> spec_find_node(self.nodes@, #[trigger] self.nodes@[i].deps@[d]) is Some)
        &&& (forall|i: int|
            0 <= i < self.defs@.len() ==> (#[trigger] self.defs@[i]).key.tag < self.types@.len()
                && self.defs@[i].since <= self.version)
    }

    /// Quiescent: consistent and with no computation mid-flight.
    pub open spec fn ready(self) -> bool {
        self.wf() && self.running@.len() == 0
    }

    pub fn builder() -> (b: DiceLegacyBuilder) {
        DiceLegacyBuilder {}
    }

    /// Register a key type under the next free tag.
    pub fn register_key_type(&mut self, name: Vec<u8>, eq_modulus: u64) -> (tag: u64)
        requires
            old(self).ready(),
        ensures
            final(self).ready(),
            tag as int == old(self).types@.len(),
            final(self).types@.len() == old(self).types@.len() + 1,
            forall|i: int|
                0 <= i < old(self).types@.len() ==> final(self).types@[i] == old(self).types@[i],
            final(self).types@[tag as int].name@ == name@,
            final(self).types@[tag as int].eq_modulus == eq_modulus,
            final(self).defs@ == old(self).defs@,
            final(self).nodes@ == old(self).nodes@,
            final(self).version == old(self).version,
            final(self).detect_cycles == old(self).detect_cycles,
            final(self).which_spawner == old(self).which_spawner,
    {
        let tag = self.types.len() as u64;
        self.types.push(KeyTypeDef { name, eq_modulus });
        tag
    }

    /// Commit the next version: every change in `changes` declares, from
    /// the new version on, what its key requests and contributes. Nothing
    /// is recomputed here; invalidity is discovered lazily on the next
    /// read.
    pub fn commit_version(&mut self, changes: Vec<KeyChange>) -> (v: u64)
        requires
            old(self).ready(),
            old(self).version < u64::MAX,
            forall|i: int|
                0 <= i < changes@.len() ==> (#[trigger] changes@[i]).key.tag
                    < old(self).types@.len(),
        ensures
            final(self).ready(),
            v == final(self).version && v == old(self).version + 1,
            final(self).defs@.len() == old(self).defs@.len() + changes@.len(),
            forall|i: int|
                0 <= i < old(self).defs@.len() ==> final(self).defs@[i] == old(self).defs@[i],
            forall|i: int|
                0 <= i < changes@.len() ==> {
                    let d = #[trigger] final(self).defs@[old(self).defs@.len() + i];
                    &&& d.key == changes@[i].key
                    &&& d.deps@ == changes@[i].deps@
                    &&& d.base == changes@[i].base
                    &&& d.fails == changes@[i].fails
                    &&& d.since == v
                },
            final(self).nodes@ == old(self).nodes@,
            final(self).types@ == old(self).types@,
            final(self).detect_cycles == old(self).detect_cycles,
            final(self).which_spawner == old(self).which_spawner,
    {
        let v = self.version + 1;
        self.version = v;
        let mut changes = changes;
        let ghost orig = changes@;
        let ghost base_len = self.defs@.len() as int;
        let mut i: usize = 0;
        while i < changes.len()
            invariant
                self.wf(),
                self.running@.len() == 0,
                i <= changes@.len(),
                changes@ == orig,
                self.version == v,
                forall|j: int| 0 <= j < orig.len() ==> (#[trigger] orig[j]).key.tag
                    < self.types@.len(),
                self.defs@.len() == base_len + i,
                forall|j: int| 0 <= j < base_len ==> self.defs@[j] == old(self).defs@[j],
                forall|j: int|
                    0 <= j < i ==> {
                        let d = #[trigger] self.defs@[base_len + j];
                        &&& d.key == orig[j].key
                        &&& d.deps@ == orig[j].deps@
                        &&& d.base == orig[j].base
                        &&& d.fails == orig[j].fails
                        &&& d.since == v
                    },
                self.nodes@ == old(self).nodes@,
                self.types@ == old(self).types@,
                self.detect_cycles == old(self).detect_cycles,
                self.which_spawner == old(self).which_spawner,
                base_len == old(self).defs@.len(),
                v == old(self).version + 1,
            decreases changes@.len() - i,
        {
            let c = &changes[i];
            let deps = clone_keys(&c.deps);
            let def = KeyDef { key: c.key, deps, base: c.base, fails: c.fails, since: v };
            self.defs.push(def);
            i = i + 1;
        }
        v
    }

    /// Evaluate `key` at version `v` on demand.
    ///
    /// The answer is always the stored record's value, confirmed valid
    /// through `v`. A record that already answers at `v` is returned as
    /// is, with the whole store untouched: concurrent requesters of one
    /// (key, version) pair converge on a single computation. A key found
    /// on the active call chain fails instead of being entered again:
    /// with detection enabled, with the ordered cycle; with detection
    /// disabled, with a plain computation failure, so a cyclic graph
    /// still fails rather than running forever.
    fn ensure_key(&mut self, v: u64, key: Key) -> (r: Result<(u64, u64), DiceError>)
        requires
            old(self).wf(),
            v <= old(self).version,
            old(self).running@.len() <= old(self).defs@.len(),
        ensures
            final(self).wf(),
            final(self).version == old(self).version,
            final(self).defs@ == old(self).defs@,
            final(self).types@ == old(self).types@,
            final(self).detect_cycles == old(self).detect_cycles,
            final(self).which_spawner == old(self).which_spawner,
            final(self).running@ == old(self).running@,
            forall|k: Key|
                spec_find_node(old(self).nodes@, k) is Some ==> spec_find_node(
                    final(self).nodes@,
                    k,
                ) is Some,
            forall|k: Key|
                spec_covers_at(old(self).nodes@, k, v) ==> spec_find_node(final(self).nodes@, k)
                    == spec_find_node(old(self).nodes@, k),
            forall|k: Key|
                old(self).running@.contains(k) ==> spec_find_node(final(self).nodes@, k)
                    == spec_find_node(old(self).nodes@, k),
            r matches Ok(p) ==> spec_covers_at(final(self).nodes@, key, v) && p.0
                == spec_value_of(final(self).nodes@, key) && p.1 == spec_changed_of(
                final(self).nodes@,
                key,
            ),
            old(self).running@.contains(key) ==> r is Err && final(self).nodes@ == old(
                self,
            ).nodes@,
            (old(self).detect_cycles == DetectCycles::Enabled && old(self).running@.contains(
                key,
            )) ==> (r matches Err(DiceError::Cycle { cycle }) && cycle@ == spec_cycle_of(
                old(self).running@,
                key,
            )),
            (!old(self).running@.contains(key) && spec_covers_at(old(self).nodes@, key, v)) ==> (
            final(self).nodes@ == old(self).nodes@ && r == Ok::<(u64, u64), DiceError>(
                (spec_value_of(old(self).nodes@, key), spec_changed_of(old(self).nodes@, key)),
            )),
            (!old(self).running@.contains(key) && !spec_covers_at(old(self).nodes@, key, v) && old(
                self,
            ).running@.len() < old(self).defs@.len() && spec_def_at(old(self).defs@, key, v)
                is None) ==> (r matches Err(e) && e is Registry),
            (!old(self).running@.contains(key) && !spec_covers_at(old(self).nodes@, key, v) && old(
                self,
            ).running@.len() < old(self).defs@.len() && spec_def_fails(old(self).defs@, key, v))
                ==> (r matches Err(e) && e is Compute),
            (!old(self).running@.contains(key) && spec_find_node(old(self).nodes@, key) is None
                && old(self).running@.len() < old(self).defs@.len() && (spec_def_at(
                old(self).defs@,
                key,
                v,
            ) matches Some(di) && !old(self).defs@[di].fails && old(self).defs@[di].deps@.len()
                == 0)) ==> r is Ok,
            r matches Ok(p) ==> ({
                ||| (spec_find_node(old(self).nodes@, key) matches Some(o) && p.0 == o.value
                    && p.1 == o.changed_at)
                ||| ({
                    &&& spec_def_at(old(self).defs@, key, v) matches Some(di)
                    &&& !old(self).defs@[di].fails
                    &&& spec_find_node(final(self).nodes@, key) matches Some(n)
                    &&& n.computed_at == v
                    &&& n.verified_at >= v
                    &&& n.changed_at == v
                    &&& n.deps@ == spec_dedup_first(old(self).defs@[di].deps@)
                    &&& n.value == spec_dep_sum(
                        final(self).nodes@,
                        old(self).defs@[di].base,
                        old(self).defs@[di].deps@,
                        old(self).defs@[di].deps@.len() as int,
                    )
                })
            }),
        decreases old(self).defs@.len() - old(self).running@.len(),
    {
        // A key already on the call chain is never entered again.
        if matches!(self.detect_cycles, DetectCycles::Enabled) {
            if let Some(cycle) = find_cycle(&self.running, key) {
                return Err(DiceError::Cycle { cycle });
            }
        } else {
            if contains_key(&self.running, key) {
                let mut chain = clone_keys(&self.running);
                chain.push(key);
                return Err(DiceError::Compute { chain });
            }
        }
        // Memoized hit: the record already answers at `v`.
        let idx_opt = find_node_index(&self.nodes, key);
        let mut reval_possible = false;
        let mut node_computed: u64 = 0;
        if let Some(i) = idx_opt {
            if self.nodes[i].changed_at <= v && v <= self.nodes[i].verified_at {
                return Ok((self.nodes[i].value, self.nodes[i].changed_at));
            }
            reval_possible = v > self.nodes[i].verified_at;
            node_computed = self.nodes[i].computed_at;
        }
        // Depth guard: the chain never grows past the number of
        // declarations, so evaluation terminates even without detection.
        if self.running.len() >= self.defs.len() {
            let mut chain = clone_keys(&self.running);
            chain.push(key);
            return Err(DiceError::Compute { chain });
        }
        // The declaration in force at `v`.
        let def_idx = match find_def_at(&self.defs, key, v) {
            Some(d) => d,
            None => {
                let mut chain = clone_keys(&self.running);
                chain.push(key);
                return Err(DiceError::Registry { key, chain });
            },
        };
        if self.defs[def_idx].fails {
            let mut chain = clone_keys(&self.running);
            chain.push(key);
            return Err(DiceError::Compute { chain });
        }
        // Lazy revalidation: when the declaration is unchanged since the
        // record's own computation, confirm each recorded dependency and,
        // if none changed afterwards, extend the record's validity to `v`
        // without recomputing.
        if reval_possible && self.defs[def_idx].since <= node_computed {
            let i = idx_opt.unwrap();
            let rdeps = clone_keys(&self.nodes[i].deps);
            self.running.push(key);
            let mut dirty = false;
            let mut m: usize = 0;
            while m < rdeps.len() && !dirty
                invariant
                    self.wf(),
                    v <= self.version,
                    self.version == old(self).version,
                    self.defs@ == old(self).defs@,
                    self.types@ == old(self).types@,
                    self.detect_cycles == old(self).detect_cycles,
                    self.which_spawner == old(self).which_spawner,
                    self.running@ == old(self).running@.push(key),
                    self.running@.len() <= self.defs@.len(),
                    !old(self).running@.contains(key),
                    !spec_covers_at(old(self).nodes@, key, v),
                    spec_find_node(old(self).nodes@, key) is Some,
                    spec_def_at(old(self).defs@, key, v) == Some(def_idx as int),
                    !old(self).defs@[def_idx as int].fails,
                    m <= rdeps@.len(),
                    forall|k: Key|
                        spec_find_node(old(self).nodes@, k) is Some ==> spec_find_node(self.nodes@, k)
                            is Some,
                    forall|k: Key|
                        spec_covers_at(old(self).nodes@, k, v) ==> spec_find_node(self.nodes@, k)
                            == spec_find_node(old(self).nodes@, k),
                    forall|k: Key|
                        old(self).running@.contains(k) ==> spec_find_node(self.nodes@, k)
                            == spec_find_node(old(self).nodes@, k),
                    spec_find_node(self.nodes@, key) == spec_find_node(old(self).nodes@, key),
                decreases rdeps@.len() - m,
            {
                let dep = rdeps[m];
                let ghost mid = *self;
                match self.ensure_key(v, dep) {
                    Ok(p) => {
                        let clean = dep_clean(p.1, node_computed);
                        proof {
                        assert forall|k: Key| old(self).running@.contains(k)
                            implies spec_find_node(self.nodes@, k) == spec_find_node(
                            old(self).nodes@,
                            k,
                        ) by {
                            let i = choose|i: int|
                                0 <= i < old(self).running@.len() && old(self).running@[i] == k;
                            assert(mid.running@[i] == k);
                            assert(mid.running@.contains(k));
                            assert(spec_find_node(mid.nodes@, k) == spec_find_node(
                                old(self).nodes@,
                                k,
                            ));
                        }
                        assert(mid.running@[mid.running@.len() - 1] == key);
                        assert(mid.running@.contains(key));
                        }
                        if !clean {
                            dirty = true;
                        }
                    },
                    Err(e) => {
                        proof {
                        assert forall|k: Key| old(self).running@.contains(k)
                            implies spec_find_node(self.nodes@, k) == spec_find_node(
                            old(self).nodes@,
                            k,
                        ) by {
                            let i = choose|i: int|
                                0 <= i < old(self).running@.len() && old(self).running@[i] == k;
                            assert(mid.running@[i] == k);
                            assert(mid.running@.contains(k));
                            assert(spec_find_node(mid.nodes@, k) == spec_find_node(
                                old(self).nodes@,
                                k,
                            ));
                        }
                        assert(mid.running@[mid.running@.len() - 1] == key);
                        assert(mid.running@.contains(key));
                        }
                        self.running.pop();
                        proof {
                            assert(self.running@ =~= old(self).running@);
                        }
                        return Err(e);
                    },
                }
                m = m + 1;
            }
            self.running.pop();
            proof {
                assert(self.running@ =~= old(self).running@);
            }
            if !dirty {
                let ridx = find_node_index(&self.nodes, key);
                let j = ridx.unwrap();
                let kept_deps = clone_keys(&self.nodes[j].deps);
                let n = NodeRecord {
                    key,
                    value: self.nodes[j].value,
                    changed_at: self.nodes[j].changed_at,
                    computed_at: self.nodes[j].computed_at,
                    verified_at: v,
                    deps: kept_deps,
                };
                let val = n.value;
                let ch = n.changed_at;
                let ghost before = self.nodes@;
                self.nodes[j] = n;
                proof {
                    assert(n.deps@ == before[j as int].deps@);
                    assert forall|d: int| 0 <= d < n.deps@.len() implies spec_find_node(
                        before,
                        #[trigger] n.deps@[d],
                    ) is Some by {
                        assert(spec_find_node(before, before[j as int].deps@[d]) is Some);
                    }
                    lemma_store_update(
                        before,
                        self.nodes@,
                        j as int,
                        n,
                        self.types@.len() as int,
                        self.version,
                    );
                }
                return Ok((val, ch));
            }
        }
        // Recompute: run the declared requests in order, recording edges.
        let base = self.defs[def_idx].base;
        let def_deps = clone_keys(&self.defs[def_idx].deps);
        proof {
            assert(self.defs@[def_idx as int].key == key);
            assert(key.tag < self.types@.len());
        }
        let tag_idx = key.tag as usize;
        let modulus = self.types[tag_idx].eq_modulus;
        self.running.push(key);
        let mut total: u64 = base;
        let mut m: usize = 0;
        while m < def_deps.len()
            invariant
                self.wf(),
                v <= self.version,
                self.version == old(self).version,
                self.defs@ == old(self).defs@,
                self.types@ == old(self).types@,
                self.detect_cycles == old(self).detect_cycles,
                self.which_spawner == old(self).which_spawner,
                self.running@ == old(self).running@.push(key),
                self.running@.len() <= self.defs@.len(),
                !old(self).running@.contains(key),
                !spec_covers_at(old(self).nodes@, key, v),
                spec_def_at(old(self).defs@, key, v) == Some(def_idx as int),
                def_deps@ == old(self).defs@[def_idx as int].deps@,
                !old(self).defs@[def_idx as int].fails,
                m <= def_deps@.len(),
                forall|k: Key|
                    spec_find_node(old(self).nodes@, k) is Some ==> spec_find_node(self.nodes@, k)
                        is Some,
                forall|k: Key|
                    spec_covers_at(old(self).nodes@, k, v) ==> spec_find_node(self.nodes@, k)
                        == spec_find_node(old(self).nodes@, k),
                forall|k: Key|
                    old(self).running@.contains(k) ==> spec_find_node(self.nodes@, k) == spec_find_node(
                        old(self).nodes@,
                        k,
                    ),
                spec_find_node(self.nodes@, key) == spec_find_node(old(self).nodes@, key),
                forall|t: int|
                    0 <= t < m ==> spec_covers_at(self.nodes@, #[trigger] def_deps@[t], v)
                        && def_deps@[t] != key,
                total == spec_dep_sum(self.nodes@, base, def_deps@, m as int),
            decreases def_deps@.len() - m,
        {
            let dep = def_deps[m];
            let ghost mid = *self;
            match self.ensure_key(v, dep) {
                Ok(p) => {
                    proof {
                        assert forall|k: Key| old(self).running@.contains(k)
                            implies spec_find_node(self.nodes@, k) == spec_find_node(
                            old(self).nodes@,
                            k,
                        ) by {
                            let i = choose|i: int|
                                0 <= i < old(self).running@.len() && old(self).running@[i] == k;
                            assert(mid.running@[i] == k);
                            assert(mid.running@.contains(k));
                            assert(spec_find_node(mid.nodes@, k) == spec_find_node(
                                old(self).nodes@,
                                k,
                            ));
                        }
                        assert(mid.running@[mid.running@.len() - 1] == key);
                        assert(mid.running@.contains(key));
                        if dep == key {
                            assert(mid.running@[mid.running@.len() - 1] == key);
                            assert(mid.running@.contains(key));
                            assert(false);
                        }
                        assert forall|t: int| 0 <= t < m implies spec_covers_at(
                            self.nodes@,
                            #[trigger] def_deps@[t],
                            v,
                        ) && spec_find_node(self.nodes@, def_deps@[t]) == spec_find_node(
                            mid.nodes@,
                            def_deps@[t],
                        ) by {
                            assert(spec_covers_at(mid.nodes@, def_deps@[t], v));
                        }
                        lemma_dep_sum_congruent(mid.nodes@, self.nodes@, base, def_deps@, m as int);
                    }
                    total = wadd(total, p.0);
                },
                Err(e) => {
                    proof {
                        assert forall|k: Key| old(self).running@.contains(k)
                            implies spec_find_node(self.nodes@, k) == spec_find_node(
                            old(self).nodes@,
                            k,
                        ) by {
                            let i = choose|i: int|
                                0 <= i < old(self).running@.len() && old(self).running@[i] == k;
                            assert(mid.running@[i] == k);
                            assert(mid.running@.contains(k));
                            assert(spec_find_node(mid.nodes@, k) == spec_find_node(
                                old(self).nodes@,
                                k,
                            ));
                        }
                        assert(mid.running@[mid.running@.len() - 1] == key);
                        assert(mid.running@.contains(key));
                    }
                    self.running.pop();
                    proof {
                        assert(self.running@ =~= old(self).running@);
                    }
                    return Err(e);
                },
            }
            m = m + 1;
        }
        self.running.pop();
        proof {
            assert(self.running@ =~= old(self).running@);
        }
        let edges = dedup_first(&def_deps);
        proof {
            lemma_dedup_first_contains(def_deps@);
        }
        // Commit, with early cutoff: a fresh value the comparator judges
        // equal to the recorded one keeps the recorded value and change
        // version, so dependents validated against it stay clean.
        let ridx = find_node_index(&self.nodes, key);
        match ridx {
            Some(j) => {
                let keeps = self.nodes[j].changed_at <= v && values_equal(
                    self.nodes[j].value,
                    total,
                    modulus,
                );
                let decided = commit_decision(
                    self.nodes[j].value,
                    self.nodes[j].changed_at,
                    total,
                    modulus,
                    v,
                );
                let val = decided.0;
                let ch = decided.1;
                let ver = if keeps && self.nodes[j].verified_at > v {
                    self.nodes[j].verified_at
                } else {
                    v
                };
                let n = NodeRecord {
                    key,
                    value: val,
                    changed_at: ch,
                    computed_at: v,
                    verified_at: ver,
                    deps: edges,
                };
                let ghost before = self.nodes@;
                self.nodes[j] = n;
                proof {
                    assert forall|d: int| 0 <= d < n.deps@.len() implies spec_find_node(
                        before,
                        #[trigger] n.deps@[d],
                    ) is Some by {
                        let dk = n.deps@[d];
                        assert(n.deps@.contains(dk));
                        assert(def_deps@.contains(dk));
                        let t = choose|t: int| 0 <= t < def_deps@.len() && def_deps@[t] == dk;
                        assert(spec_covers_at(before, def_deps@[t], v));
                    }
                    lemma_store_update(
                        before,
                        self.nodes@,
                        j as int,
                        n,
                        self.types@.len() as int,
                        self.version,
                    );
                    assert forall|u: int| 0 <= u < def_deps@.len() implies spec_find_node(
                        self.nodes@,
                        #[trigger] def_deps@[u],
                    ) == spec_find_node(before, def_deps@[u]) by {
                        lemma_find_node_update(before, j as int, n, def_deps@[u]);
                    }
                    lemma_dep_sum_congruent(
                        before,
                        self.nodes@,
                        base,
                        def_deps@,
                        def_deps@.len() as int,
                    );
                }
                Ok((val, ch))
            },
            None => {
                let n = NodeRecord {
                    key,
                    value: total,
                    changed_at: v,
                    computed_at: v,
                    verified_at: v,
                    deps: edges,
                };
                let ghost before = self.nodes@;
                self.nodes.push(n);
                proof {
                    assert forall|d: int| 0 <= d < n.deps@.len() implies spec_find_node(
                        before,
                        #[trigger] n.deps@[d],
                    ) is Some by {
                        let dk = n.deps@[d];
                        assert(n.deps@.contains(dk));
                        assert(def_deps@.contains(dk));
                        let t = choose|t: int| 0 <= t < def_deps@.len() && def_deps@[t] == dk;
                        assert(spec_covers_at(before, def_deps@[t], v));
                    }
                    lemma_store_push(
                        before,
                        self.nodes@,
                        n,
                        self.types@.len() as int,
                        self.version,
                    );
                    assert forall|u: int| 0 <= u < def_deps@.len() implies spec_find_node(
                        self.nodes@,
                        #[trigger] def_deps@[u],
                    ) == spec_find_node(before, def_deps@[u]) by {
                        lemma_find_node_push(before, n, def_deps@[u]);
                    }
                    lemma_dep_sum_congruent(
                        before,
                        self.nodes@,
                        base,
                        def_deps@,
                        def_deps@.len() as int,
                    );
                }
                Ok((total, v))
            },
        }
    }

    /// Evaluate `key` at version `v`: the public entry point of the
    /// scheduler. On success the returned value is exactly the stored
    /// value of the key, now confirmed valid through `v`; a key whose
    /// record already answers at `v` is served from the store with no
    /// computation and no change of state at all, so any number of
    /// requesters of one (key, version) pair get the identical result of
    /// a single computation. The set of keys mid-computation is empty
    /// again once the request completes, however it completes.
    pub fn request(&mut self, v: u64, key: Key) -> (r: Result<u64, DiceError>)
        requires
            old(self).ready(),
            v <= old(self).version,
        ensures
            final(self).ready(),
            final(self).version == old(self).version,
            final(self).defs@ == old(self).defs@,
            final(self).types@ == old(self).types@,
            final(self).detect_cycles == old(self).detect_cycles,
            final(self).which_spawner == old(self).which_spawner,
            forall|k: Key|
                spec_find_node(old(self).nodes@, k) is Some ==> spec_find_node(
                    final(self).nodes@,
                    k,
                ) is Some,
            forall|k: Key|
                spec_covers_at(old(self).nodes@, k, v) ==> spec_find_node(final(self).nodes@, k)
                    == spec_find_node(old(self).nodes@, k),
            r matches Ok(val) ==> spec_covers_at(final(self).nodes@, key, v) && val
                == spec_value_of(final(self).nodes@, key),
            spec_covers_at(old(self).nodes@, key, v) ==> (final(self).nodes@ == old(self).nodes@
                && r == Ok::<u64, DiceError>(spec_value_of(old(self).nodes@, key))),
            (!spec_covers_at(old(self).nodes@, key, v) && old(self).defs@.len() > 0
                && spec_def_at(old(self).defs@, key, v) is None) ==> (r matches Err(e)
                && e is Registry),
            (!spec_covers_at(old(self).nodes@, key, v) && old(self).defs@.len() > 0
                && spec_def_fails(old(self).defs@, key, v)) ==> (r matches Err(e) && e
                is Compute),
            (spec_find_node(old(self).nodes@, key) is None && old(self).defs@.len() > 0 && (
            spec_def_at(old(self).defs@, key, v) matches Some(di) && !old(self).defs@[di].fails
                && old(self).defs@[di].deps@.len() == 0)) ==> r is Ok,
            r matches Ok(val) ==> ({
                ||| (spec_find_node(old(self).nodes@, key) matches Some(o) && val == o.value)
                ||| ({
                    &&& spec_def_at(old(self).defs@, key, v) matches Some(di)
                    &&& !old(self).defs@[di].fails
                    &&& spec_find_node(final(self).nodes@, key) matches Some(n)
                    &&& n.computed_at == v
                    &&& n.changed_at == v
                    &&& n.deps@ == spec_dedup_first(old(self).defs@[di].deps@)
                    &&& n.value == spec_dep_sum(
                        final(self).nodes@,
                        old(self).defs@[di].base,
                        old(self).defs@[di].deps@,
                        old(self).defs@[di].deps@.len() as int,
                    )
                    &&& val == n.value
                })
            }),
    {
        match self.ensure_key(v, key) {
            Ok(p) => Ok(p.0),
            Err(e) => Err(e),
        }
    }
}

/// One stable outward face over the selectable engine variants: callers
/// stay oblivious to which backing variant is active.
pub enum DiceImplementation {
    Legacy(DiceLegacy),
    Modern(DiceModern),
}

/// The alternate engine variant; it carries its construction toggles but
/// offers no introspection.
pub struct DiceModern {
    pub detect_cycles: DetectCycles,
    pub which_spawner: WhichSpawner,
}

/// The engine handle handed to callers.
pub struct Dice {
    pub implementation: DiceImplementation,
}

} // verus!
