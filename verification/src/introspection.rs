//! Read-only introspection of the live graph: a snapshot of the node
//! store as indexed records, rendered either as tab-separated text
//! records or through the compact binary form of the `dense` module.

use vstd::prelude::*;

use crate::engine::{Dice, DiceImplementation, DiceLegacy};
use crate::keys::Key;
use crate::registry::KeyTypeDef;
use crate::store::find_node_index;
use crate::textfmt::{clone_bytes, push_bytes, push_dec, spec_dec_digits};

verus! {

/// One node of the snapshot: its index in the node list, its key-type
/// tag, the key's display text, and the indices of its dependencies.
pub struct SerializedGraphNodesForKey {
    pub index: u64,
    pub type_tag: u64,
    pub text: Vec<u8>,
    pub deps: Vec<u64>,
}

/// A snapshot of the graph: the node records and the display texts of
/// the keys that were mid-computation when the snapshot was taken.
pub struct GraphIntrospectable {
    pub nodes: Vec<SerializedGraphNodesForKey>,
    pub running: Vec<Vec<u8>>,
}

/// The display text of a key: its type name, with the argument in
/// parentheses when the key carries one.
pub open spec fn spec_display_of(types: Seq<KeyTypeDef>, key: Key) -> Seq<u8> {
    if key.has_arg {
        types[key.tag as int].name@ + seq![40u8] + spec_dec_digits(key.arg as nat) + seq![41u8]
    } else {
        types[key.tag as int].name@
    }
}

/// Render the display text of a key.
pub fn display_of(types: &Vec<KeyTypeDef>, key: Key) -> (r: Vec<u8>)
    requires
        key.tag < types@.len(),
    ensures
        r@ == spec_display_of(types@, key),
{
    let nlen = types.len();
    proof {
        assert(key.tag < nlen);
    }
    let tag_idx = key.tag as usize;
    let mut out = clone_bytes(&types[tag_idx].name);
    proof {
        assert(out@ == types@[key.tag as int].name@);
    }
    if key.has_arg {
        let ghost name = types@[key.tag as int].name@;
        out.push(40);
        proof {
            assert(out@ =~= name + seq![40u8]);
        }
        push_dec(&mut out, key.arg);
        proof {
            assert(out@ =~= name + seq![40u8] + spec_dec_digits(key.arg as nat));
        }
        out.push(41);
        proof {
            assert(out@ =~= name + seq![40u8] + spec_dec_digits(key.arg as nat) + seq![41u8]);
        }
    }
    out
}

impl DiceLegacy {
    /// A consistent snapshot of the node store: one record per node, in
    /// store order, each dependency translated to the index of its own
    /// record; and the display texts of the keys mid-computation.
    pub fn to_introspectable(&self) -> (g: GraphIntrospectable)
        requires
            self.wf(),
            forall|i: int|
                0 <= i < self.running@.len() ==> (#[trigger] self.running@[i]).tag
                    < self.types@.len(),
        ensures
            g.nodes@.len() == self.nodes@.len(),
            forall|i: int|
                0 <= i < g.nodes@.len() ==> {
                    let r = #[trigger] g.nodes@[i];
                    &&& r.index == i as u64
                    &&& r.type_tag == self.nodes@[i].key.tag
                    &&& r.text@ == spec_display_of(self.types@, self.nodes@[i].key)
                    &&& r.deps@.len() == self.nodes@[i].deps@.len()
                    &&& forall|d: int|
                        0 <= d < r.deps@.len() ==> ((#[trigger] r.deps@[d]) as int)
                            < self.nodes@.len() && self.nodes@[r.deps@[d] as int].key
                            == self.nodes@[i].deps@[d]
                },
            g.running@.len() == self.running@.len(),
            forall|i: int|
                0 <= i < g.running@.len() ==> (#[trigger] g.running@[i])@ == spec_display_of(
                    self.types@,
                    self.running@[i],
                ),
    {
        let mut recs: Vec<SerializedGraphNodesForKey> = Vec::new();
        let mut i: usize = 0;
        while i < self.nodes.len()
            invariant
                self.wf(),
                i <= self.nodes@.len(),
                recs@.len() == i,
                forall|a: int|
                    0 <= a < i ==> {
                        let r = #[trigger] recs@[a];
                        &&& r.index == a as u64
                        &&& r.type_tag == self.nodes@[a].key.tag
                        &&& r.text@ == spec_display_of(self.types@, self.nodes@[a].key)
                        &&& r.deps@.len() == self.nodes@[a].deps@.len()
                        &&& forall|d: int|
                            0 <= d < r.deps@.len() ==> ((#[trigger] r.deps@[d]) as int)
                                < self.nodes@.len() && self.nodes@[r.deps@[d] as int].key
                                == self.nodes@[a].deps@[d]
                    },
            decreases self.nodes@.len() - i,
        {
            let key = self.nodes[i].key;
            let text = display_of(&self.types, key);
            let mut dep_idx: Vec<u64> = Vec::new();
            let mut d: usize = 0;
            while d < self.nodes[i].deps.len()
                invariant
                    self.wf(),
                    i < self.nodes@.len(),
                    d <= self.nodes@[i as int].deps@.len(),
                    dep_idx@.len() == d,
                    forall|u: int|
                        0 <= u < d ==> ((#[trigger] dep_idx@[u]) as int) < self.nodes@.len()
                            && self.nodes@[dep_idx@[u] as int].key == self.nodes@[i as int].deps@[u],
                decreases self.nodes@[i as int].deps@.len() - d,
            {
                let dep = self.nodes[i].deps[d];
                let found = find_node_index(&self.nodes, dep);
                let j = found.unwrap();
                dep_idx.push(j as u64);
                d = d + 1;
            }
            recs.push(
                SerializedGraphNodesForKey {
                    index: i as u64,
                    type_tag: key.tag,
                    text,
                    deps: dep_idx,
                },
            );
            i = i + 1;
        }
        let mut running_texts: Vec<Vec<u8>> = Vec::new();
        let mut w: usize = 0;
        while w < self.running.len()
            invariant
                self.wf(),
                forall|u: int|
                    0 <= u < self.running@.len() ==> (#[trigger] self.running@[u]).tag
                        < self.types@.len(),
                w <= self.running@.len(),
                running_texts@.len() == w,
                forall|u: int|
                    0 <= u < w ==> (#[trigger] running_texts@[u])@ == spec_display_of(
                        self.types@,
                        self.running@[u],
                    ),
            decreases self.running@.len() - w,
        {
            let t = display_of(&self.types, self.running[w]);
            running_texts.push(t);
            w = w + 1;
        }
        GraphIntrospectable { nodes: recs, running: running_texts }
    }
}

impl Dice {
    /// The legacy engine behind this handle, when that is the active
    /// variant.
    pub open spec fn spec_legacy(self) -> DiceLegacy {
        self.implementation->Legacy_0
    }

    /// Snapshot the active engine variant; only the legacy variant
    /// offers introspection.
    pub fn to_introspectable(&self) -> (g: GraphIntrospectable)
        requires
            self.implementation is Legacy,
            self.spec_legacy().wf(),
            forall|i: int|
                0 <= i < self.spec_legacy().running@.len() ==> (#[trigger] self.spec_legacy()
                    .running@[i]).tag < self.spec_legacy().types@.len(),
        ensures
            g.nodes@.len() == self.spec_legacy().nodes@.len(),
            forall|i: int|
                0 <= i < g.nodes@.len() ==> {
                    let r = #[trigger] g.nodes@[i];
                    &&& r.index == i as u64
                    &&& r.type_tag == self.spec_legacy().nodes@[i].key.tag
                    &&& r.text@ == spec_display_of(
                        self.spec_legacy().types@,
                        self.spec_legacy().nodes@[i].key,
                    )
                    &&& r.deps@.len() == self.spec_legacy().nodes@[i].deps@.len()
                    &&& forall|d: int|
                        0 <= d < r.deps@.len() ==> ((#[trigger] r.deps@[d]) as int)
                            < self.spec_legacy().nodes@.len() && self.spec_legacy().nodes@[r.deps@[d] as int].key
                            == self.spec_legacy().nodes@[i].deps@[d]
                },
            g.running@.len() == self.spec_legacy().running@.len(),
            forall|i: int|
                0 <= i < g.running@.len() ==> (#[trigger] g.running@[i])@ == spec_display_of(
                    self.spec_legacy().types@,
                    self.spec_legacy().running@[i],
                ),
    {
        match &self.implementation {
            DiceImplementation::Legacy(d) => d.to_introspectable(),
            DiceImplementation::Modern(_) => vstd::pervasive::unreached(),
        }
    }
}

/// One node record of the text form: index, key-type tag and display
/// text, tab-separated, newline-terminated.
pub open spec fn spec_node_line(r: SerializedGraphNodesForKey) -> Seq<u8> {
    spec_dec_digits(r.index as nat) + seq![9u8] + spec_dec_digits(r.type_tag as nat) + seq![9u8]
        + r.text@ + seq![10u8]
}

/// The node records of the first `t` nodes.
pub open spec fn spec_node_lines(rs: Seq<SerializedGraphNodesForKey>, t: int) -> Seq<u8>
    decreases t,
{
    if t <= 0 {
        Seq::empty()
    } else {
        spec_node_lines(rs, t - 1) + spec_node_line(rs[t - 1])
    }
}

/// The first `d` edge records of one node: from-index and to-index,
/// tab-separated, newline-terminated.
pub open spec fn spec_edge_lines_one(idx: u64, deps: Seq<u64>, d: int) -> Seq<u8>
    decreases d,
{
    if d <= 0 {
        Seq::empty()
    } else {
        spec_edge_lines_one(idx, deps, d - 1) + spec_dec_digits(idx as nat) + seq![9u8]
            + spec_dec_digits(deps[d - 1] as nat) + seq![10u8]
    }
}

/// The edge records of the first `t` nodes.
pub open spec fn spec_edge_lines(rs: Seq<SerializedGraphNodesForKey>, t: int) -> Seq<u8>
    decreases t,
{
    if t <= 0 {
        Seq::empty()
    } else {
        spec_edge_lines(rs, t - 1) + spec_edge_lines_one(
            rs[t - 1].index,
            rs[t - 1].deps@,
            rs[t - 1].deps@.len() as int,
        )
    }
}

/// Render a snapshot as the streaming text form: one node record per
/// line, one edge record per line, and the running set as the plain
/// display texts.
pub fn serialize_graph(g: &GraphIntrospectable) -> (res: (Vec<u8>, Vec<u8>, Vec<Vec<u8>>))
    ensures
        res.0@ == spec_node_lines(g.nodes@, g.nodes@.len() as int),
        res.1@ == spec_edge_lines(g.nodes@, g.nodes@.len() as int),
        res.2@.len() == g.running@.len(),
        forall|i: int|
            0 <= i < g.running@.len() ==> (#[trigger] res.2@[i])@ == g.running@[i]@,
{
    let mut nodes_out: Vec<u8> = Vec::new();
    let mut edges_out: Vec<u8> = Vec::new();
    let mut i: usize = 0;
    while i < g.nodes.len()
        invariant
            i <= g.nodes@.len(),
            nodes_out@ == spec_node_lines(g.nodes@, i as int),
            edges_out@ == spec_edge_lines(g.nodes@, i as int),
        decreases g.nodes@.len() - i,
    {
        let r = &g.nodes[i];
        push_dec(&mut nodes_out, r.index);
        nodes_out.push(9);
        push_dec(&mut nodes_out, r.type_tag);
        nodes_out.push(9);
        push_bytes(&mut nodes_out, &r.text);
        nodes_out.push(10);
        proof {
            assert(nodes_out@ =~= spec_node_lines(g.nodes@, i + 1 as int));
        }
        let mut d: usize = 0;
        while d < r.deps.len()
            invariant
                i < g.nodes@.len(),
                d <= g.nodes@[i as int].deps@.len(),
                r == &g.nodes@[i as int],
                edges_out@ == spec_edge_lines(g.nodes@, i as int) + spec_edge_lines_one(
                    g.nodes@[i as int].index,
                    g.nodes@[i as int].deps@,
                    d as int,
                ),
            decreases g.nodes@[i as int].deps@.len() - d,
        {
            push_dec(&mut edges_out, r.index);
            edges_out.push(9);
            push_dec(&mut edges_out, r.deps[d]);
            edges_out.push(10);
            proof {
                assert(edges_out@ =~= spec_edge_lines(g.nodes@, i as int) + spec_edge_lines_one(
                    g.nodes@[i as int].index,
                    g.nodes@[i as int].deps@,
                    d + 1 as int,
                ));
            }
            d = d + 1;
        }
        proof {
            assert(edges_out@ =~= spec_edge_lines(g.nodes@, i + 1 as int));
        }
        i = i + 1;
    }
    let mut running_out: Vec<Vec<u8>> = Vec::new();
    let mut w: usize = 0;
    while w < g.running.len()
        invariant
            w <= g.running@.len(),
            running_out@.len() == w,
            forall|u: int|
                0 <= u < w ==> (#[trigger] running_out@[u])@ == g.running@[u]@,
        decreases g.running@.len() - w,
    {
        running_out.push(clone_bytes(&g.running[w]));
        w = w + 1;
    }
    (nodes_out, edges_out, running_out)
}

} // verus!
