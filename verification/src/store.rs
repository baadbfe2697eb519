//! The node store: one record per key, holding the latest committed value,
//! the version bookkeeping that decides validity, and the recorded
//! dependency edges of the computation that produced the value.

use vstd::prelude::*;

use crate::keys::Key;

verus! {

/// The persistent record for one key.
///
/// * `value` is the latest committed result.
/// * `changed_at` is the version at which the value last actually changed;
///   a recomputation judged equal by the key type's comparator keeps it.
/// * `computed_at` is the version at which the dependencies were last read.
/// * `verified_at` is the latest version through which the record is known
///   valid, so the record answers every read in `changed_at ..= verified_at`.
/// * `deps` are the keys requested by that computation, in first-request
///   order with duplicates removed.
#[derive(Clone, Debug)]
pub struct NodeRecord {
    pub key: Key,
    pub value: u64,
    pub changed_at: u64,
    pub computed_at: u64,
    pub verified_at: u64,
    pub deps: Vec<Key>,
}

/// The record for `key` in `nodes`, if any; records have unique keys, so
/// the first match is the only one.
pub open spec fn spec_find_node(nodes: Seq<NodeRecord>, key: Key) -> Option<NodeRecord>
    decreases nodes.len(),
{
    if nodes.len() == 0 {
        None
    } else if nodes[0].key == key {
        Some(nodes[0])
    } else {
        spec_find_node(nodes.subrange(1, nodes.len() as int), key)
    }
}

pub proof fn lemma_find_node_at(nodes: Seq<NodeRecord>, key: Key, i: int)
    requires
        0 <= i < nodes.len(),
        nodes[i].key == key,
        forall|j: int| 0 <= j < i ==> nodes[j].key != key,
    ensures
        spec_find_node(nodes, key) == Some(nodes[i]),
    decreases nodes.len(),
{
    if i == 0 {
    } else {
        let rest = nodes.subrange(1, nodes.len() as int);
        assert(rest[i - 1] == nodes[i]);
        assert(forall|j: int| 0 <= j < i - 1 ==> rest[j] == nodes[j + 1] && rest[j].key != key);
        lemma_find_node_at(rest, key, i - 1);
    }
}

pub proof fn lemma_find_node_none(nodes: Seq<NodeRecord>, key: Key)
    requires
        forall|j: int| 0 <= j < nodes.len() ==> nodes[j].key != key,
    ensures
        spec_find_node(nodes, key) is None,
    decreases nodes.len(),
{
    if nodes.len() > 0 {
        let rest = nodes.subrange(1, nodes.len() as int);
        assert(forall|j: int| 0 <= j < rest.len() ==> rest[j] == nodes[j + 1]);
        lemma_find_node_none(rest, key);
    }
}

/// Appending a record leaves every other key's lookup unchanged.
pub proof fn lemma_find_node_push(nodes: Seq<NodeRecord>, n: NodeRecord, k: Key)
    ensures
        spec_find_node(nodes, k) is Some ==> spec_find_node(nodes.push(n), k) == spec_find_node(
            nodes,
            k,
        ),
        spec_find_node(nodes, k) is None && n.key == k ==> spec_find_node(nodes.push(n), k)
            == Some(n),
        spec_find_node(nodes, k) is None && n.key != k ==> spec_find_node(nodes.push(n), k)
            is None,
    decreases nodes.len(),
{
    if nodes.len() == 0 {
        assert(nodes.push(n)[0] == n);
        assert(nodes.push(n).subrange(1, 1) =~= Seq::<NodeRecord>::empty());
        assert(spec_find_node(Seq::<NodeRecord>::empty(), k) is None);
    } else {
        let rest = nodes.subrange(1, nodes.len() as int);
        assert(nodes.push(n)[0] == nodes[0]);
        assert(nodes.push(n).subrange(1, nodes.push(n).len() as int) =~= rest.push(n));
        lemma_find_node_push(rest, n, k);
    }
}

/// Replacing the record at `i` (same key) leaves every other key's lookup
/// unchanged, and redirects that key's lookup to the new record when `i`
/// is its first occurrence.
pub proof fn lemma_find_node_update(nodes: Seq<NodeRecord>, i: int, n: NodeRecord, k: Key)
    requires
        0 <= i < nodes.len(),
        nodes[i].key == n.key,
    ensures
        k != n.key ==> spec_find_node(nodes.update(i, n), k) == spec_find_node(nodes, k),
        (forall|j: int| 0 <= j < i ==> nodes[j].key != n.key) ==> spec_find_node(
            nodes.update(i, n),
            n.key,
        ) == Some(n),
    decreases nodes.len(),
{
    let upd = nodes.update(i, n);
    if i == 0 {
        if k != n.key {
            assert(upd.subrange(1, upd.len() as int) =~= nodes.subrange(1, nodes.len() as int));
        }
    } else {
        let rest = nodes.subrange(1, nodes.len() as int);
        assert(upd.subrange(1, upd.len() as int) =~= rest.update(i - 1, n));
        lemma_find_node_update(rest, i - 1, n, k);
        if forall|j: int| 0 <= j < i ==> nodes[j].key != n.key {
            assert(forall|j: int| 0 <= j < i - 1 ==> rest[j] == nodes[j + 1]);
        }
    }
}

/// Find the index of the record for `key`, if one exists.
pub fn find_node_index(nodes: &Vec<NodeRecord>, key: Key) -> (r: Option<usize>)
    ensures
        r matches Some(i) ==> i < nodes@.len() && nodes@[i as int].key == key && spec_find_node(
            nodes@,
            key,
        ) == Some(nodes@[i as int]) && (forall|j: int| 0 <= j < i ==> nodes@[j].key != key),
        r is None ==> spec_find_node(nodes@, key) is None && (forall|j: int|
            0 <= j < nodes@.len() ==> nodes@[j].key != key),
{
    let mut i: usize = 0;
    while i < nodes.len()
        invariant
            i <= nodes@.len(),
            forall|j: int| 0 <= j < i ==> nodes@[j].key != key,
        decreases nodes@.len() - i,
    {
        if nodes[i].key == key {
            proof {
                lemma_find_node_at(nodes@, key, i as int);
            }
            return Some(i);
        }
        i = i + 1;
    }
    proof {
        lemma_find_node_none(nodes@, key);
    }
    None
}

/// The requested keys with every repeat after the first removed; the order
/// of first occurrence is preserved.
pub open spec fn spec_dedup_first(s: Seq<Key>) -> Seq<Key>
    decreases s.len(),
{
    if s.len() == 0 {
        Seq::empty()
    } else {
        let prefix = spec_dedup_first(s.drop_last());
        if s.drop_last().contains(s.last()) {
            prefix
        } else {
            prefix.push(s.last())
        }
    }
}

/// Deduplication keeps exactly the requested keys.
pub proof fn lemma_dedup_first_contains(s: Seq<Key>)
    ensures
        forall|k: Key| #[trigger] spec_dedup_first(s).contains(k) <==> s.contains(k),
    decreases s.len(),
{
    if s.len() > 0 {
        let s0 = s.drop_last();
        let x = s.last();
        let d0 = spec_dedup_first(s0);
        let d = spec_dedup_first(s);
        lemma_dedup_first_contains(s0);
        assert forall|k: Key| #[trigger] s.contains(k) implies d.contains(k) by {
            let j = choose|j: int| 0 <= j < s.len() && s[j] == k;
            if j < s.len() - 1 {
                assert(s0[j] == k);
                assert(s0.contains(k));
                assert(d0.contains(k));
                let w = choose|w: int| 0 <= w < d0.len() && d0[w] == k;
                assert(d[w] == k);
                assert(d.contains(k));
            } else {
                assert(k == x);
                if s0.contains(x) {
                    assert(d0.contains(k));
                    let w = choose|w: int| 0 <= w < d0.len() && d0[w] == k;
                    assert(d[w] == k);
                    assert(d.contains(k));
                } else {
                    assert(d == d0.push(x));
                    assert(d[d.len() - 1] == k);
                    assert(d.contains(k));
                }
            }
        }
        assert forall|k: Key| #[trigger] d.contains(k) implies s.contains(k) by {
            let w = choose|w: int| 0 <= w < d.len() && d[w] == k;
            if w < d0.len() {
                assert(d0[w] == k);
                assert(d0.contains(k));
                assert(s0.contains(k));
                let j = choose|j: int| 0 <= j < s0.len() && s0[j] == k;
                assert(s[j] == k);
                assert(s.contains(k));
            } else {
                assert(k == x);
                assert(s[s.len() - 1] == k);
                assert(s.contains(k));
            }
        }
    }
}

/// Recorded edge sets carry no duplicate: each requested key keeps a
/// single entry, whatever the number of times the computation asked for it.
pub proof fn lemma_dedup_first_no_duplicates(s: Seq<Key>)
    ensures
        spec_dedup_first(s).no_duplicates(),
    decreases s.len(),
{
    if s.len() > 0 {
        lemma_dedup_first_no_duplicates(s.drop_last());
        lemma_dedup_first_contains(s.drop_last());
        let d0 = spec_dedup_first(s.drop_last());
        if !s.drop_last().contains(s.last()) {
            assert forall|i: int, j: int|
                0 <= i < d0.push(s.last()).len() && 0 <= j < d0.push(s.last()).len() && i
                    != j implies d0.push(s.last())[i] != d0.push(s.last())[j] by {
                if i < d0.len() && j < d0.len() {
                } else if i < d0.len() {
                    assert(d0.contains(d0[i]));
                } else if j < d0.len() {
                    assert(d0.contains(d0[j]));
                }
            }
        }
    }
}

/// Whether `keys` holds `k`.
pub fn contains_key(keys: &Vec<Key>, k: Key) -> (r: bool)
    ensures
        r == keys@.contains(k),
{
    let mut i: usize = 0;
    while i < keys.len()
        invariant
            i <= keys@.len(),
            forall|j: int| 0 <= j < i ==> keys@[j] != k,
        decreases keys@.len() - i,
    {
        if keys[i] == k {
            assert(keys@.contains(k));
            return true;
        }
        i = i + 1;
    }
    false
}

/// A copy of a key sequence.
pub fn clone_keys(keys: &Vec<Key>) -> (r: Vec<Key>)
    ensures
        r@ == keys@,
{
    let mut out: Vec<Key> = Vec::new();
    let mut i: usize = 0;
    while i < keys.len()
        invariant
            i <= keys@.len(),
            out@ == keys@.subrange(0, i as int),
        decreases keys@.len() - i,
    {
        out.push(keys[i]);
        proof {
            assert(out@ =~= keys@.subrange(0, i + 1 as int));
        }
        i = i + 1;
    }
    proof {
        assert(out@ =~= keys@);
    }
    out
}

/// Remove every repeat after the first from the requested keys.
pub fn dedup_first(s: &Vec<Key>) -> (r: Vec<Key>)
    ensures
        r@ == spec_dedup_first(s@),
{
    let mut out: Vec<Key> = Vec::new();
    let mut i: usize = 0;
    while i < s.len()
        invariant
            i <= s@.len(),
            out@ == spec_dedup_first(s@.subrange(0, i as int)),
        decreases s@.len() - i,
    {
        let prefix_has = contains_key(&out, s[i]);
        proof {
            lemma_dedup_first_contains(s@.subrange(0, i as int));
        }
        if !prefix_has {
            out.push(s[i]);
        }
        proof {
            assert(s@.subrange(0, i + 1 as int).drop_last() =~= s@.subrange(0, i as int));
            assert(s@.subrange(0, i + 1 as int).last() == s@[i as int]);
        }
        i = i + 1;
    }
    proof {
        assert(s@.subrange(0, s@.len() as int) =~= s@);
    }
    out
}

} // verus!
