//! The key registry: the declared key types with their equality
//! comparators, the per-key compute declarations with the version from
//! which each applies, and the early-cutoff decision.

use vstd::prelude::*;

use crate::keys::Key;

verus! {

/// A registered key type: a display name and the equality comparator its
/// values use. The comparator need not be structural equality: a modulus
/// `m > 0` declares two values equal when they are congruent modulo `m`,
/// which lets a recomputation be judged equivalent for downstream purposes
/// even when the raw values differ; `m == 0` is structural equality.
pub struct KeyTypeDef {
    pub name: Vec<u8>,
    pub eq_modulus: u64,
}

/// The declared computation of one key, in force from version `since`:
/// the keys it requests in order (repeats allowed), the base contribution
/// of the key's own input, and whether the routine fails.
pub struct KeyDef {
    pub key: Key,
    pub deps: Vec<Key>,
    pub base: u64,
    pub fails: bool,
    pub since: u64,
}

/// One key's new declaration, handed to `commit_version`.
pub struct KeyChange {
    pub key: Key,
    pub deps: Vec<Key>,
    pub base: u64,
    pub fails: bool,
}

/// The declaration of `key` in force at version `v`: the newest entry for
/// `key` whose `since` does not exceed `v`. Declarations are append-only,
/// so the latest matching entry wins.
pub open spec fn spec_def_at(defs: Seq<KeyDef>, key: Key, v: u64) -> Option<int>
    decreases defs.len(),
{
    if defs.len() == 0 {
        None
    } else if defs.last().key == key && defs.last().since <= v {
        Some(defs.len() - 1)
    } else {
        spec_def_at(defs.drop_last(), key, v)
    }
}

pub proof fn lemma_def_at_in_range(defs: Seq<KeyDef>, key: Key, v: u64)
    ensures
        spec_def_at(defs, key, v) matches Some(i) ==> 0 <= i < defs.len() && defs[i].key == key
            && defs[i].since <= v,
    decreases defs.len(),
{
    if defs.len() > 0 {
        lemma_def_at_in_range(defs.drop_last(), key, v);
    }
}

/// Whatever is appended later, the declaration in force at `v` keeps its
/// meaning at every version from its `since` up to `v`: the same entry is
/// in force there.
pub proof fn lemma_def_at_stable(defs: Seq<KeyDef>, key: Key, v: u64, w: u64)
    requires
        spec_def_at(defs, key, v) matches Some(i) && defs[i].since <= w <= v,
    ensures
        spec_def_at(defs, key, w) == spec_def_at(defs, key, v),
    decreases defs.len(),
{
    lemma_def_at_in_range(defs, key, v);
    lemma_def_at_in_range(defs.drop_last(), key, v);
    if defs.len() > 0 {
        if defs.last().key == key && defs.last().since <= v {
        } else {
            lemma_def_at_stable(defs.drop_last(), key, v, w);
        }
    }
}

/// Find the index of the declaration of `key` in force at version `v`.
pub fn find_def_at(defs: &Vec<KeyDef>, key: Key, v: u64) -> (r: Option<usize>)
    ensures
        r matches Some(i) ==> spec_def_at(defs@, key, v) == Some(i as int) && i < defs@.len()
            && defs@[i as int].key == key && defs@[i as int].since <= v,
        r is None ==> spec_def_at(defs@, key, v) is None,
{
    let mut i: usize = defs.len();
    proof {
        assert(defs@.subrange(0, defs@.len() as int) =~= defs@);
    }
    while i > 0
        invariant
            i <= defs@.len(),
            spec_def_at(defs@, key, v) == spec_def_at(defs@.subrange(0, i as int), key, v),
        decreases i,
    {
        i = i - 1;
        let hit = defs[i].key == key && defs[i].since <= v;
        proof {
            let pre = defs@.subrange(0, i + 1 as int);
            assert(pre.last() == defs@[i as int]);
            assert(pre.drop_last() =~= defs@.subrange(0, i as int));
        }
        if hit {
            proof {
                lemma_def_at_in_range(defs@, key, v);
            }
            return Some(i);
        }
    }
    proof {
        assert(defs@.subrange(0, 0) =~= Seq::<KeyDef>::empty());
    }
    None
}

/// The equality comparator of a key type, over a value pair.
pub open spec fn spec_values_equal(a: u64, b: u64, modulus: u64) -> bool {
    if modulus == 0 {
        a == b
    } else {
        a % modulus == b % modulus
    }
}

/// Apply a key type's equality comparator.
pub fn values_equal(a: u64, b: u64, modulus: u64) -> (r: bool)
    ensures
        r == spec_values_equal(a, b, modulus),
{
    if modulus == 0 {
        a == b
    } else {
        a % modulus == b % modulus
    }
}

/// Whether a recomputation at version `v` keeps the previous value: the
/// comparator judged the fresh value equal to the one recorded since
/// `old_changed`.
pub open spec fn spec_cutoff_keeps(
    old_value: u64,
    old_changed: u64,
    fresh: u64,
    modulus: u64,
    v: u64,
) -> bool {
    old_changed <= v && spec_values_equal(old_value, fresh, modulus)
}

/// The value a recomputation commits.
pub open spec fn spec_committed_value(
    old_value: u64,
    old_changed: u64,
    fresh: u64,
    modulus: u64,
    v: u64,
) -> u64 {
    if spec_cutoff_keeps(old_value, old_changed, fresh, modulus, v) {
        old_value
    } else {
        fresh
    }
}

/// The change version a recomputation records.
pub open spec fn spec_committed_changed_at(
    old_value: u64,
    old_changed: u64,
    fresh: u64,
    modulus: u64,
    v: u64,
) -> u64 {
    if spec_cutoff_keeps(old_value, old_changed, fresh, modulus, v) {
        old_changed
    } else {
        v
    }
}

/// Decide what a recomputation at version `v` commits: the value and
/// the change version, with early cutoff applied.
pub fn commit_decision(old_value: u64, old_changed: u64, fresh: u64, modulus: u64, v: u64) -> (r:
    (u64, u64))
    ensures
        r.0 == spec_committed_value(old_value, old_changed, fresh, modulus, v),
        r.1 == spec_committed_changed_at(old_value, old_changed, fresh, modulus, v),
{
    if old_changed <= v && values_equal(old_value, fresh, modulus) {
        (old_value, old_changed)
    } else {
        (fresh, v)
    }
}

/// A dependency is clean for a reader when it has not changed since the
/// version at which the reader's own computation read its dependencies.
pub open spec fn spec_dep_clean(dep_changed_at: u64, reader_computed_at: u64) -> bool {
    dep_changed_at <= reader_computed_at
}

/// Whether a dependency read is still clean for a reader.
pub fn dep_clean(dep_changed_at: u64, reader_computed_at: u64) -> (r: bool)
    ensures
        r == spec_dep_clean(dep_changed_at, reader_computed_at),
{
    dep_changed_at <= reader_computed_at
}

/// Early cutoff: when a key recomputes at version `v` to a value its
/// comparator judges equal to the previous one, the committed value and
/// recorded change version are unchanged, so every dependent whose own
/// computation already read that change version stays clean and is not
/// recomputed — even though the dependent's edge points at a key that was
/// re-run at a newer version.
pub proof fn lemma_early_cutoff(
    old_value: u64,
    old_changed: u64,
    fresh: u64,
    modulus: u64,
    v: u64,
    reader_computed_at: u64,
)
    requires
        spec_values_equal(old_value, fresh, modulus),
        old_changed <= v,
        old_changed <= reader_computed_at,
    ensures
        spec_committed_value(old_value, old_changed, fresh, modulus, v) == old_value,
        spec_committed_changed_at(old_value, old_changed, fresh, modulus, v) == old_changed,
        spec_dep_clean(
            spec_committed_changed_at(old_value, old_changed, fresh, modulus, v),
            reader_computed_at,
        ),
{
}

} // verus!
