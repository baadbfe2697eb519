use dice::engine::DiceLegacy;
use dice::keys::{DetectCycles, DiceError, Key, WhichSpawner};
use dice::registry::KeyChange;

fn change(key: Key, deps: Vec<Key>, base: u64) -> KeyChange {
    KeyChange { key, deps, base, fails: false }
}

/// A(n) requests A(n-1), except A(0), which requests B; B is a leaf.
fn scenario_engine(detect: DetectCycles) -> (DiceLegacy, u64) {
    let mut d = DiceLegacy::builder().build(detect, WhichSpawner::ExplicitCancel);
    let a = d.register_key_type(b"KeyA".to_vec(), 0);
    let b_tag = d.register_key_type(b"KeyB".to_vec(), 0);
    let b = Key::plain(b_tag);
    let mut changes = vec![change(b, vec![], 1)];
    changes.push(change(Key::with_arg(a, 0), vec![b], 0));
    for n in 1..=3u64 {
        changes.push(change(Key::with_arg(a, n), vec![Key::with_arg(a, n - 1)], 0));
    }
    let v = d.commit_version(changes);
    (d, v)
}

#[test]
fn test_scenario_chain() {
    let (mut d, v) = scenario_engine(DetectCycles::Enabled);
    let a3 = Key::with_arg(0, 3);
    let r = d.request(v, a3).unwrap();
    assert_eq!(r, 1);
    assert_eq!(d.nodes.len(), 5);
    assert!(d.running.is_empty());
}

#[test]
fn test_dedup_second_request_uses_cache() {
    let (mut d, v) = scenario_engine(DetectCycles::Enabled);
    let a3 = Key::with_arg(0, 3);
    let r1 = d.request(v, a3).unwrap();
    let snapshot: Vec<(Key, u64, u64)> =
        d.nodes.iter().map(|n| (n.key, n.value, n.computed_at)).collect();
    let r2 = d.request(v, a3).unwrap();
    let snapshot2: Vec<(Key, u64, u64)> =
        d.nodes.iter().map(|n| (n.key, n.value, n.computed_at)).collect();
    assert_eq!(r1, r2);
    assert_eq!(snapshot, snapshot2);
}

#[test]
fn test_version_consistency() {
    let mut d = DiceLegacy::builder().build(DetectCycles::Enabled, WhichSpawner::RunToCompletion);
    let t = d.register_key_type(b"Input".to_vec(), 0);
    let k = Key::plain(t);
    let v1 = d.commit_version(vec![change(k, vec![], 5)]);
    assert_eq!(d.request(v1, k).unwrap(), 5);
    let v2 = d.commit_version(vec![change(k, vec![], 7)]);
    // The read at the old version still answers from its snapshot.
    assert_eq!(d.request(v1, k).unwrap(), 5);
    assert_eq!(d.request(v2, k).unwrap(), 7);
    assert_eq!(d.request(v1, k).unwrap(), 5);
}

#[test]
fn test_early_cutoff() {
    let mut d = DiceLegacy::builder().build(DetectCycles::Enabled, WhichSpawner::RunToCompletion);
    // Values of K compare modulo 10.
    let kt = d.register_key_type(b"K".to_vec(), 10);
    let dt = d.register_key_type(b"D".to_vec(), 0);
    let k = Key::plain(kt);
    let dep = Key::plain(dt);
    let v1 = d.commit_version(vec![change(k, vec![], 3), change(dep, vec![k], 100)]);
    assert_eq!(d.request(v1, dep).unwrap(), 103);
    // K's input changes to a value its comparator judges equal (13 = 3 mod 10).
    let v2 = d.commit_version(vec![change(k, vec![], 13)]);
    assert_eq!(d.request(v2, dep).unwrap(), 103);
    let kn = d.nodes.iter().find(|n| n.key == k).unwrap();
    let dn = d.nodes.iter().find(|n| n.key == dep).unwrap();
    // K was re-run at v2, kept its value and change version;
    // the dependent was not recomputed.
    assert_eq!(kn.computed_at, v2);
    assert_eq!(kn.value, 3);
    assert_eq!(kn.changed_at, v1);
    assert_eq!(dn.computed_at, v1);
    // And a genuinely different value does propagate.
    let v3 = d.commit_version(vec![change(k, vec![], 24)]);
    assert_eq!(d.request(v3, dep).unwrap(), 124);
    let dn = d.nodes.iter().find(|n| n.key == dep).unwrap();
    assert_eq!(dn.computed_at, v3);
}

#[test]
fn test_cycle_detection_enabled() {
    let mut d = DiceLegacy::builder().build(DetectCycles::Enabled, WhichSpawner::ExplicitCancel);
    let t = d.register_key_type(b"C".to_vec(), 0);
    let a = Key::with_arg(t, 1);
    let b = Key::with_arg(t, 2);
    let v = d.commit_version(vec![change(a, vec![b], 0), change(b, vec![a], 0)]);
    for start in [a, b] {
        match d.request(v, start) {
            Err(DiceError::Cycle { cycle }) => {
                assert!(cycle.contains(&a));
                assert!(cycle.contains(&b));
            }
            other => panic!("expected a cycle failure, got {:?}", other.map(|_| ())),
        }
    }
}

#[test]
fn test_cycle_detection_disabled_still_fails() {
    let mut d = DiceLegacy::builder().build(DetectCycles::Disabled, WhichSpawner::ExplicitCancel);
    let t = d.register_key_type(b"C".to_vec(), 0);
    let a = Key::with_arg(t, 1);
    let b = Key::with_arg(t, 2);
    let v = d.commit_version(vec![change(a, vec![b], 0), change(b, vec![a], 0)]);
    match d.request(v, a) {
        Err(DiceError::Compute { chain }) => {
            assert!(chain.contains(&a));
            assert!(chain.contains(&b));
        }
        other => panic!("expected a computation failure, got {:?}", other.map(|_| ())),
    }
}

#[test]
fn test_edge_correctness() {
    let mut d = DiceLegacy::builder().build(DetectCycles::Enabled, WhichSpawner::RunToCompletion);
    let t = d.register_key_type(b"E".to_vec(), 0);
    let k = Key::with_arg(t, 0);
    let x = Key::with_arg(t, 1);
    let y = Key::with_arg(t, 2);
    let z = Key::with_arg(t, 3);
    let v = d.commit_version(vec![
        change(x, vec![], 1),
        change(y, vec![], 2),
        change(z, vec![], 4),
        // K requests X, Y, Z, and Z a second time.
        change(k, vec![x, y, z, z], 0),
    ]);
    assert_eq!(d.request(v, k).unwrap(), 1 + 2 + 4 + 4);
    let kn = d.nodes.iter().find(|n| n.key == k).unwrap();
    assert_eq!(kn.deps, vec![x, y, z]);
}

#[test]
fn test_registry_error() {
    let mut d = DiceLegacy::builder().build(DetectCycles::Enabled, WhichSpawner::RunToCompletion);
    let t = d.register_key_type(b"R".to_vec(), 0);
    let known = Key::plain(t);
    let unknown = Key::with_arg(t, 9);
    let v = d.commit_version(vec![change(known, vec![], 1)]);
    match d.request(v, unknown) {
        Err(DiceError::Registry { key, .. }) => assert_eq!(key, unknown),
        other => panic!("expected a registry failure, got {:?}", other.map(|_| ())),
    }
}

#[test]
fn test_compute_error_propagates_with_chain() {
    let mut d = DiceLegacy::builder().build(DetectCycles::Enabled, WhichSpawner::RunToCompletion);
    let t = d.register_key_type(b"F".to_vec(), 0);
    let top = Key::with_arg(t, 0);
    let bad = Key::with_arg(t, 1);
    let v = d.commit_version(vec![
        change(top, vec![bad], 0),
        KeyChange { key: bad, deps: vec![], base: 0, fails: true },
    ]);
    match d.request(v, top) {
        Err(DiceError::Compute { chain }) => {
            // The chain runs from the outermost request to the key at fault.
            assert_eq!(chain, vec![top, bad]);
        }
        other => panic!("expected a computation failure, got {:?}", other.map(|_| ())),
    }
}

#[test]
fn test_latest_declaration_wins() {
    let mut d = DiceLegacy::builder().build(DetectCycles::Enabled, WhichSpawner::RunToCompletion);
    let t = d.register_key_type(b"L".to_vec(), 0);
    let k = Key::plain(t);
    let v = d.commit_version(vec![change(k, vec![], 1), change(k, vec![], 9)]);
    assert_eq!(d.request(v, k).unwrap(), 9);
}

#[test]
fn test_lazy_revalidation() {
    let mut d = DiceLegacy::builder().build(DetectCycles::Enabled, WhichSpawner::RunToCompletion);
    let t = d.register_key_type(b"V".to_vec(), 0);
    let a = Key::with_arg(t, 0);
    let b = Key::with_arg(t, 1);
    let v1 = d.commit_version(vec![change(a, vec![b], 10), change(b, vec![], 1)]);
    assert_eq!(d.request(v1, a).unwrap(), 11);
    // A version with no relevant change: validity is extended on the
    // next read without recomputing anything.
    let v2 = d.commit_version(vec![]);
    assert_eq!(d.request(v2, a).unwrap(), 11);
    let an = d.nodes.iter().find(|n| n.key == a).unwrap();
    assert_eq!(an.computed_at, v1);
    assert_eq!(an.verified_at, v2);
    assert_eq!(an.changed_at, v1);
}
