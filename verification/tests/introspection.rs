use std::collections::HashMap;

use dice::dense::{deserialize_dense_graph, serialize_dense_graph};
use dice::engine::{Dice, DiceImplementation, DiceLegacy};
use dice::introspection::{serialize_graph, GraphIntrospectable, SerializedGraphNodesForKey};
use dice::keys::{DetectCycles, Key, WhichSpawner};
use dice::registry::KeyChange;

fn change(key: Key, deps: Vec<Key>, base: u64) -> KeyChange {
    KeyChange { key, deps, base, fails: false }
}

/// KeyA(n) requests KeyA(n-1), except KeyA(0), which requests KeyB.
fn evaluated_dice() -> Dice {
    let mut d = DiceLegacy::builder().build(DetectCycles::Disabled, WhichSpawner::ExplicitCancel);
    let a = d.register_key_type(b"KeyA".to_vec(), 0);
    let b_tag = d.register_key_type(b"KeyB".to_vec(), 0);
    let b = Key::plain(b_tag);
    let mut changes = vec![change(b, vec![], 0)];
    changes.push(change(Key::with_arg(a, 0), vec![b], 0));
    for n in 1..=3u64 {
        changes.push(change(Key::with_arg(a, n), vec![Key::with_arg(a, n - 1)], 0));
    }
    let v = d.commit_version(changes);
    d.request(v, Key::with_arg(a, 3)).unwrap();
    Dice { implementation: DiceImplementation::Legacy(d) }
}

#[test]
fn test_serialization() {
    let dice = evaluated_dice();
    let g = dice.to_introspectable();
    let (nodes, edges, nodes_currently_running) = serialize_graph(&g);
    let nodes = String::from_utf8(nodes).unwrap();
    let edges = String::from_utf8(edges).unwrap();

    let mut node_map = HashMap::<String, u64>::new();
    let mut edge_list = Vec::<(u64, u64)>::new();

    for line in nodes.lines() {
        let mut it = line.trim().split('\t');
        let idx = it.next().expect("No idx").parse().unwrap();
        let _key_type = it.next().expect("No key type");
        let key = it.next().expect("No key");
        node_map.insert(key.into(), idx);
    }

    for line in edges.lines() {
        let mut it = line.trim().split('\t');
        let from = it.next().expect("No idx").parse().unwrap();
        let to = it.next().expect("No key").parse().unwrap();
        edge_list.push((from, to));
    }

    let a3 = *node_map.get("KeyA(3)").expect("Missing key");
    let a2 = *node_map.get("KeyA(2)").expect("Missing key");
    let a1 = *node_map.get("KeyA(1)").expect("Missing key");
    let a0 = *node_map.get("KeyA(0)").expect("Missing key");
    let b = *node_map.get("KeyB").expect("Missing key");

    let mut expected_edge_list = vec![(a3, a2), (a2, a1), (a1, a0), (a0, b)];
    expected_edge_list.sort_unstable();
    edge_list.sort_unstable();
    assert_eq!(expected_edge_list, edge_list);

    assert!(nodes_currently_running.is_empty());
}

#[test]
fn test_serialization_dense() {
    let dice = evaluated_dice();
    let g = dice.to_introspectable();
    let bytes = serialize_dense_graph(&g);
    let out: GraphIntrospectable = deserialize_dense_graph(&bytes).unwrap();
    let _nodes: &Vec<SerializedGraphNodesForKey> = &out.nodes;
    assert_eq!(out.nodes.len(), g.nodes.len());
}

#[test]
fn test_dense_round_trip() {
    let g = GraphIntrospectable {
        nodes: vec![
            SerializedGraphNodesForKey {
                index: 0,
                type_tag: 4,
                text: b"KeyA(1)".to_vec(),
                deps: vec![1],
            },
            SerializedGraphNodesForKey {
                index: 1,
                type_tag: 5,
                text: b"KeyB".to_vec(),
                deps: vec![],
            },
        ],
        running: vec![b"KeyA(2)".to_vec(), b"KeyC".to_vec()],
    };
    let bytes = serialize_dense_graph(&g);
    let out = deserialize_dense_graph(&bytes).expect("whole snapshot");
    assert_eq!(out.nodes.len(), 2);
    assert_eq!(out.nodes[0].index, 0);
    assert_eq!(out.nodes[0].type_tag, 4);
    assert_eq!(out.nodes[0].text, b"KeyA(1)".to_vec());
    assert_eq!(out.nodes[0].deps, vec![1]);
    assert_eq!(out.nodes[1].index, 1);
    assert_eq!(out.nodes[1].type_tag, 5);
    assert_eq!(out.nodes[1].text, b"KeyB".to_vec());
    assert!(out.nodes[1].deps.is_empty());
    assert_eq!(out.running, vec![b"KeyA(2)".to_vec(), b"KeyC".to_vec()]);
    // A truncated stream is rejected rather than misread.
    let cut = bytes[..bytes.len() - 1].to_vec();
    assert!(deserialize_dense_graph(&cut).is_none());
}

#[test]
fn test_running_set_after_completion() {
    let dice = evaluated_dice();
    let g = dice.to_introspectable();
    assert_eq!(g.nodes.len(), 5);
    assert!(g.running.is_empty());
}
