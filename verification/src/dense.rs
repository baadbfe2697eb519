//! The compact binary form of a graph snapshot: a length-prefixed
//! sequence of node records followed by the running set, losslessly
//! round-trippable back into the same node / edge / running-set view.

use vstd::prelude::*;
use vstd::bytes::{
    lemma_auto_spec_u64_to_from_le_bytes, spec_u64_from_le_bytes, spec_u64_to_le_bytes,
    u64_from_le_bytes, u64_to_le_bytes,
};

use crate::introspection::{GraphIntrospectable, SerializedGraphNodesForKey};

verus! {

/// The logical content of one node record.
pub open spec fn rec_view(r: SerializedGraphNodesForKey) -> (u64, u64, Seq<u8>, Seq<u64>) {
    (r.index, r.type_tag, r.text@, r.deps@)
}

/// The logical content of a record list.
pub open spec fn recs_view(rs: Seq<SerializedGraphNodesForKey>) -> Seq<(u64, u64, Seq<u8>, Seq<u64>)> {
    rs.map_values(|r: SerializedGraphNodesForKey| rec_view(r))
}

/// The logical content of the running set.
pub open spec fn texts_view(ts: Seq<Vec<u8>>) -> Seq<Seq<u8>> {
    ts.map_values(|t: Vec<u8>| t@)
}

pub open spec fn spec_enc_u64(x: u64) -> Seq<u8> {
    spec_u64_to_le_bytes(x)
}

/// A byte string, prefixed with its length.
pub open spec fn spec_enc_bytes(b: Seq<u8>) -> Seq<u8> {
    spec_enc_u64(b.len() as u64) + b
}

/// A dependency index list, one word each.
pub open spec fn spec_enc_deps(deps: Seq<u64>) -> Seq<u8>
    decreases deps.len(),
{
    if deps.len() == 0 {
        Seq::empty()
    } else {
        spec_enc_u64(deps[0]) + spec_enc_deps(deps.subrange(1, deps.len() as int))
    }
}

/// One node record: index, type tag, display text, dependency indices.
pub open spec fn spec_enc_record(r: (u64, u64, Seq<u8>, Seq<u64>)) -> Seq<u8> {
    spec_enc_u64(r.0) + spec_enc_u64(r.1) + spec_enc_bytes(r.2) + spec_enc_u64(r.3.len() as u64)
        + spec_enc_deps(r.3)
}

pub open spec fn spec_enc_records(rs: Seq<(u64, u64, Seq<u8>, Seq<u64>)>) -> Seq<u8>
    decreases rs.len(),
{
    if rs.len() == 0 {
        Seq::empty()
    } else {
        spec_enc_record(rs[0]) + spec_enc_records(rs.subrange(1, rs.len() as int))
    }
}

pub open spec fn spec_enc_texts(ts: Seq<Seq<u8>>) -> Seq<u8>
    decreases ts.len(),
{
    if ts.len() == 0 {
        Seq::empty()
    } else {
        spec_enc_bytes(ts[0]) + spec_enc_texts(ts.subrange(1, ts.len() as int))
    }
}

/// The whole snapshot: node count, node records, running count, texts.
pub open spec fn spec_serialize_dense(
    rs: Seq<(u64, u64, Seq<u8>, Seq<u64>)>,
    ts: Seq<Seq<u8>>,
) -> Seq<u8> {
    spec_enc_u64(rs.len() as u64) + spec_enc_records(rs) + spec_enc_u64(ts.len() as u64)
        + spec_enc_texts(ts)
}

proof fn lemma_enc_deps_snoc(deps: Seq<u64>, x: u64)
    ensures
        spec_enc_deps(deps.push(x)) == spec_enc_deps(deps) + spec_enc_u64(x),
    decreases deps.len(),
{
    if deps.len() == 0 {
        assert(deps.push(x)[0] == x);
        assert(deps.push(x).subrange(1, 1) =~= Seq::<u64>::empty());
        assert(spec_enc_deps(Seq::<u64>::empty()) == Seq::<u8>::empty());
        assert(spec_enc_deps(deps.push(x)) =~= spec_enc_deps(deps) + spec_enc_u64(x));
    } else {
        let s2 = deps.subrange(1, deps.len() as int);
        assert(deps.push(x)[0] == deps[0]);
        assert(deps.push(x).subrange(1, deps.push(x).len() as int) =~= s2.push(x));
        lemma_enc_deps_snoc(s2, x);
        assert(spec_enc_deps(deps.push(x)) == spec_enc_u64(deps[0]) + spec_enc_deps(s2.push(x)));
        assert(spec_enc_deps(deps) == spec_enc_u64(deps[0]) + spec_enc_deps(s2));
        assert(spec_enc_deps(deps.push(x)) =~= spec_enc_deps(deps) + spec_enc_u64(x));
    }
}

proof fn lemma_enc_records_snoc(rs: Seq<(u64, u64, Seq<u8>, Seq<u64>)>, r: (u64, u64, Seq<u8>, Seq<u64>))
    ensures
        spec_enc_records(rs.push(r)) == spec_enc_records(rs) + spec_enc_record(r),
    decreases rs.len(),
{
    if rs.len() == 0 {
        assert(rs.push(r)[0] == r);
        assert(rs.push(r).subrange(1, 1) =~= Seq::<(u64, u64, Seq<u8>, Seq<u64>)>::empty());
        assert(spec_enc_records(Seq::<(u64, u64, Seq<u8>, Seq<u64>)>::empty())
            == Seq::<u8>::empty());
        assert(spec_enc_records(rs.push(r)) =~= spec_enc_records(rs) + spec_enc_record(r));
    } else {
        let s2 = rs.subrange(1, rs.len() as int);
        assert(rs.push(r)[0] == rs[0]);
        assert(rs.push(r).subrange(1, rs.push(r).len() as int) =~= s2.push(r));
        lemma_enc_records_snoc(s2, r);
        assert(spec_enc_records(rs.push(r)) == spec_enc_record(rs[0]) + spec_enc_records(
            s2.push(r),
        ));
        assert(spec_enc_records(rs) == spec_enc_record(rs[0]) + spec_enc_records(s2));
        assert(spec_enc_records(rs.push(r)) =~= spec_enc_records(rs) + spec_enc_record(r));
    }
}

proof fn lemma_enc_texts_snoc(ts: Seq<Seq<u8>>, t: Seq<u8>)
    ensures
        spec_enc_texts(ts.push(t)) == spec_enc_texts(ts) + spec_enc_bytes(t),
    decreases ts.len(),
{
    if ts.len() == 0 {
        assert(ts.push(t)[0] == t);
        assert(ts.push(t).subrange(1, 1) =~= Seq::<Seq<u8>>::empty());
        assert(spec_enc_texts(Seq::<Seq<u8>>::empty()) == Seq::<u8>::empty());
        assert(spec_enc_texts(ts.push(t)) =~= spec_enc_texts(ts) + spec_enc_bytes(t));
    } else {
        let s2 = ts.subrange(1, ts.len() as int);
        assert(ts.push(t)[0] == ts[0]);
        assert(ts.push(t).subrange(1, ts.push(t).len() as int) =~= s2.push(t));
        lemma_enc_texts_snoc(s2, t);
        assert(spec_enc_texts(ts.push(t)) == spec_enc_bytes(ts[0]) + spec_enc_texts(s2.push(t)));
        assert(spec_enc_texts(ts) == spec_enc_bytes(ts[0]) + spec_enc_texts(s2));
        assert(spec_enc_texts(ts.push(t)) =~= spec_enc_texts(ts) + spec_enc_bytes(t));
    }
}

// ---------------------------------------------------------------------
// Decoding
// ---------------------------------------------------------------------

pub open spec fn spec_dec_u64(b: Seq<u8>, p: int) -> Option<(u64, int)> {
    if 0 <= p && p + 8 <= b.len() {
        Some((spec_u64_from_le_bytes(b.subrange(p, p + 8)), p + 8))
    } else {
        None
    }
}

pub open spec fn spec_dec_bytes(b: Seq<u8>, p: int) -> Option<(Seq<u8>, int)> {
    match spec_dec_u64(b, p) {
        Some((l, p1)) => if p1 + l <= b.len() {
            Some((b.subrange(p1, p1 + l as int), p1 + l as int))
        } else {
            None
        },
        None => None,
    }
}

pub open spec fn spec_dec_deps(b: Seq<u8>, p: int, cnt: nat) -> Option<(Seq<u64>, int)>
    decreases cnt,
{
    if cnt == 0 {
        Some((Seq::empty(), p))
    } else {
        match spec_dec_u64(b, p) {
            Some((x, p1)) => match spec_dec_deps(b, p1, (cnt - 1) as nat) {
                Some((rest, p2)) => Some((seq![x] + rest, p2)),
                None => None,
            },
            None => None,
        }
    }
}

pub open spec fn spec_dec_record(b: Seq<u8>, p: int) -> Option<((u64, u64, Seq<u8>, Seq<u64>), int)> {
    match spec_dec_u64(b, p) {
        Some((index, p1)) => match spec_dec_u64(b, p1) {
            Some((tag, p2)) => match spec_dec_bytes(b, p2) {
                Some((text, p3)) => match spec_dec_u64(b, p3) {
                    Some((cnt, p4)) => match spec_dec_deps(b, p4, cnt as nat) {
                        Some((deps, p5)) => Some(((index, tag, text, deps), p5)),
                        None => None,
                    },
                    None => None,
                },
                None => None,
            },
            None => None,
        },
        None => None,
    }
}

pub open spec fn spec_dec_records(b: Seq<u8>, p: int, cnt: nat) -> Option<(
    Seq<(u64, u64, Seq<u8>, Seq<u64>)>,
    int,
)>
    decreases cnt,
{
    if cnt == 0 {
        Some((Seq::empty(), p))
    } else {
        match spec_dec_record(b, p) {
            Some((r, p1)) => match spec_dec_records(b, p1, (cnt - 1) as nat) {
                Some((rest, p2)) => Some((seq![r] + rest, p2)),
                None => None,
            },
            None => None,
        }
    }
}

pub open spec fn spec_dec_texts(b: Seq<u8>, p: int, cnt: nat) -> Option<(Seq<Seq<u8>>, int)>
    decreases cnt,
{
    if cnt == 0 {
        Some((Seq::empty(), p))
    } else {
        match spec_dec_bytes(b, p) {
            Some((t, p1)) => match spec_dec_texts(b, p1, (cnt - 1) as nat) {
                Some((rest, p2)) => Some((seq![t] + rest, p2)),
                None => None,
            },
            None => None,
        }
    }
}

/// The logical view a byte stream decodes to, when it is a whole,
/// exactly consumed snapshot.
pub open spec fn spec_dec_graph(b: Seq<u8>) -> Option<(
    Seq<(u64, u64, Seq<u8>, Seq<u64>)>,
    Seq<Seq<u8>>,
)> {
    match spec_dec_u64(b, 0) {
        Some((n, p1)) => match spec_dec_records(b, p1, n as nat) {
            Some((rs, p2)) => match spec_dec_u64(b, p2) {
                Some((m, p3)) => match spec_dec_texts(b, p3, m as nat) {
                    Some((ts, p4)) => if p4 == b.len() {
                        Some((rs, ts))
                    } else {
                        None
                    },
                    None => None,
                },
                None => None,
            },
            None => None,
        },
        None => None,
    }
}

// ---------------------------------------------------------------------
// The round trip, proved at the level of the two codecs
// ---------------------------------------------------------------------

/// Splitting a window that holds two encodings in sequence.
proof fn lemma_peel(b: Seq<u8>, p: int, s1: Seq<u8>, s2: Seq<u8>)
    requires
        0 <= p,
        p + s1.len() + s2.len() <= b.len(),
        b.subrange(p, p + s1.len() + s2.len()) == s1 + s2,
    ensures
        b.subrange(p, p + s1.len()) == s1,
        b.subrange(p + s1.len(), p + s1.len() + s2.len()) == s2,
{
    let w = b.subrange(p, p + s1.len() + s2.len());
    assert forall|i: int| 0 <= i < s1.len() implies b[p + i] == s1[i] by {
        assert(w[i] == b[p + i]);
        assert(w[i] == (s1 + s2)[i]);
    }
    assert(b.subrange(p, p + s1.len() as int) =~= s1);
    assert forall|i: int| 0 <= i < s2.len() implies b[p + s1.len() + i] == s2[i] by {
        assert(w[s1.len() + i] == b[p + s1.len() + i]);
        assert(w[s1.len() + i] == (s1 + s2)[s1.len() + i]);
    }
    assert(b.subrange(p + s1.len(), p + s1.len() + s2.len()) =~= s2);
}

proof fn lemma_dec_u64_enc(b: Seq<u8>, p: int, x: u64)
    requires
        0 <= p,
        p + 8 <= b.len(),
        b.subrange(p, p + 8) == spec_enc_u64(x),
    ensures
        spec_dec_u64(b, p) == Some((x, p + 8)),
{
    lemma_auto_spec_u64_to_from_le_bytes();
}

proof fn lemma_dec_bytes_enc(b: Seq<u8>, p: int, s: Seq<u8>)
    requires
        0 <= p,
        s.len() <= u64::MAX,
        p + spec_enc_bytes(s).len() <= b.len(),
        b.subrange(p, p + spec_enc_bytes(s).len()) == spec_enc_bytes(s),
    ensures
        spec_enc_bytes(s).len() == 8 + s.len(),
        spec_dec_bytes(b, p) == Some((s, p + spec_enc_bytes(s).len())),
{
    lemma_auto_spec_u64_to_from_le_bytes();
    lemma_peel(b, p, spec_enc_u64(s.len() as u64), s);
    lemma_dec_u64_enc(b, p, s.len() as u64);
}

proof fn lemma_dec_deps_enc(b: Seq<u8>, p: int, deps: Seq<u64>)
    requires
        0 <= p,
        p + spec_enc_deps(deps).len() <= b.len(),
        b.subrange(p, p + spec_enc_deps(deps).len()) == spec_enc_deps(deps),
    ensures
        spec_enc_deps(deps).len() == 8 * deps.len(),
        spec_dec_deps(b, p, deps.len()) == Some((deps, p + spec_enc_deps(deps).len())),
    decreases deps.len(),
{
    lemma_auto_spec_u64_to_from_le_bytes();
    if deps.len() == 0 {
        assert(deps =~= Seq::<u64>::empty());
    } else {
        let rest = deps.subrange(1, deps.len() as int);
        lemma_peel(b, p, spec_enc_u64(deps[0]), spec_enc_deps(rest));
        lemma_dec_u64_enc(b, p, deps[0]);
        lemma_dec_deps_enc(b, p + 8, rest);
        assert(seq![deps[0]] + rest =~= deps);
    }
}

proof fn lemma_dec_record_enc(b: Seq<u8>, p: int, r: (u64, u64, Seq<u8>, Seq<u64>))
    requires
        0 <= p,
        r.2.len() <= u64::MAX,
        r.3.len() <= u64::MAX,
        p + spec_enc_record(r).len() <= b.len(),
        b.subrange(p, p + spec_enc_record(r).len()) == spec_enc_record(r),
    ensures
        spec_dec_record(b, p) == Some((r, p + spec_enc_record(r).len())),
{
    lemma_auto_spec_u64_to_from_le_bytes();
    let e1 = spec_enc_u64(r.0);
    let e2 = spec_enc_u64(r.1);
    let e3 = spec_enc_bytes(r.2);
    let e4 = spec_enc_u64(r.3.len() as u64);
    let e5 = spec_enc_deps(r.3);
    assert(spec_enc_record(r) =~= e1 + (e2 + (e3 + (e4 + e5))));
    lemma_peel(b, p, e1, e2 + (e3 + (e4 + e5)));
    lemma_dec_u64_enc(b, p, r.0);
    let p1 = p + 8;
    assert(b.subrange(p1, p1 + (e2 + (e3 + (e4 + e5))).len()) =~= e2 + (e3 + (e4 + e5)));
    lemma_peel(b, p1, e2, e3 + (e4 + e5));
    lemma_dec_u64_enc(b, p1, r.1);
    let p2 = p1 + 8;
    assert(b.subrange(p2, p2 + (e3 + (e4 + e5)).len()) =~= e3 + (e4 + e5));
    lemma_peel(b, p2, e3, e4 + e5);
    lemma_dec_bytes_enc(b, p2, r.2);
    let p3 = p2 + e3.len();
    assert(b.subrange(p3, p3 + (e4 + e5).len()) =~= e4 + e5);
    lemma_peel(b, p3, e4, e5);
    lemma_dec_u64_enc(b, p3, r.3.len() as u64);
    let p4 = p3 + 8;
    lemma_dec_deps_enc(b, p4, r.3);
}

pub open spec fn spec_record_bounded(r: (u64, u64, Seq<u8>, Seq<u64>)) -> bool {
    r.2.len() <= u64::MAX && r.3.len() <= u64::MAX
}

proof fn lemma_dec_records_enc(b: Seq<u8>, p: int, rs: Seq<(u64, u64, Seq<u8>, Seq<u64>)>)
    requires
        0 <= p,
        forall|i: int| 0 <= i < rs.len() ==> spec_record_bounded(#[trigger] rs[i]),
        p + spec_enc_records(rs).len() <= b.len(),
        b.subrange(p, p + spec_enc_records(rs).len()) == spec_enc_records(rs),
    ensures
        spec_dec_records(b, p, rs.len()) == Some((rs, p + spec_enc_records(rs).len())),
    decreases rs.len(),
{
    if rs.len() == 0 {
        assert(rs =~= Seq::<(u64, u64, Seq<u8>, Seq<u64>)>::empty());
    } else {
        let rest = rs.subrange(1, rs.len() as int);
        lemma_peel(b, p, spec_enc_record(rs[0]), spec_enc_records(rest));
        lemma_dec_record_enc(b, p, rs[0]);
        let p1 = p + spec_enc_record(rs[0]).len();
        lemma_dec_records_enc(b, p1, rest);
        assert(seq![rs[0]] + rest =~= rs);
    }
}

proof fn lemma_dec_texts_enc(b: Seq<u8>, p: int, ts: Seq<Seq<u8>>)
    requires
        0 <= p,
        forall|i: int| 0 <= i < ts.len() ==> (#[trigger] ts[i]).len() <= u64::MAX,
        p + spec_enc_texts(ts).len() <= b.len(),
        b.subrange(p, p + spec_enc_texts(ts).len()) == spec_enc_texts(ts),
    ensures
        spec_dec_texts(b, p, ts.len()) == Some((ts, p + spec_enc_texts(ts).len())),
    decreases ts.len(),
{
    if ts.len() == 0 {
        assert(ts =~= Seq::<Seq<u8>>::empty());
    } else {
        let rest = ts.subrange(1, ts.len() as int);
        lemma_peel(b, p, spec_enc_bytes(ts[0]), spec_enc_texts(rest));
        lemma_dec_bytes_enc(b, p, ts[0]);
        let p1 = p + spec_enc_bytes(ts[0]).len();
        lemma_dec_texts_enc(b, p1, rest);
        assert(seq![ts[0]] + rest =~= ts);
    }
}

/// Round trip: decoding an encoded snapshot gives back exactly the node
/// records and running set that were encoded — the same node count, the
/// same edges, the same running texts.
pub proof fn lemma_dense_round_trip(rs: Seq<(u64, u64, Seq<u8>, Seq<u64>)>, ts: Seq<Seq<u8>>)
    requires
        rs.len() <= u64::MAX,
        ts.len() <= u64::MAX,
        forall|i: int| 0 <= i < rs.len() ==> spec_record_bounded(#[trigger] rs[i]),
        forall|i: int| 0 <= i < ts.len() ==> (#[trigger] ts[i]).len() <= u64::MAX,
    ensures
        spec_dec_graph(spec_serialize_dense(rs, ts)) == Some((rs, ts)),
{
    lemma_auto_spec_u64_to_from_le_bytes();
    let b = spec_serialize_dense(rs, ts);
    let e1 = spec_enc_u64(rs.len() as u64);
    let e2 = spec_enc_records(rs);
    let e3 = spec_enc_u64(ts.len() as u64);
    let e4 = spec_enc_texts(ts);
    assert(b =~= e1 + (e2 + (e3 + e4)));
    assert(b.subrange(0, b.len() as int) =~= b);
    lemma_peel(b, 0, e1, e2 + (e3 + e4));
    lemma_dec_u64_enc(b, 0, rs.len() as u64);
    let p1 = 8;
    assert(b.subrange(p1, p1 + (e2 + (e3 + e4)).len()) =~= e2 + (e3 + e4));
    lemma_peel(b, p1, e2, e3 + e4);
    lemma_dec_records_enc(b, p1, rs);
    let p2 = p1 + e2.len();
    assert(b.subrange(p2, p2 + (e3 + e4).len()) =~= e3 + e4);
    lemma_peel(b, p2, e3, e4);
    lemma_dec_u64_enc(b, p2, ts.len() as u64);
    let p3 = p2 + 8;
    lemma_dec_texts_enc(b, p3, ts);
}

// ---------------------------------------------------------------------
// The executable codec
// ---------------------------------------------------------------------

fn push_enc_u64(out: &mut Vec<u8>, x: u64)
    ensures
        final(out)@ == old(out)@ + spec_enc_u64(x),
{
    let mut b = u64_to_le_bytes(x);
    out.append(&mut b);
}

fn push_enc_bytes(out: &mut Vec<u8>, b: &Vec<u8>)
    ensures
        final(out)@ == old(out)@ + spec_enc_bytes(b@),
{
    push_enc_u64(out, b.len() as u64);
    crate::textfmt::push_bytes(out, b);
    proof {
        assert(out@ =~= old(out)@ + spec_enc_bytes(b@));
    }
}

fn push_enc_record(out: &mut Vec<u8>, r: &SerializedGraphNodesForKey)
    ensures
        final(out)@ == old(out)@ + spec_enc_record(rec_view(*r)),
{
    push_enc_u64(out, r.index);
    push_enc_u64(out, r.type_tag);
    push_enc_bytes(out, &r.text);
    push_enc_u64(out, r.deps.len() as u64);
    let ghost head = out@;
    let mut d: usize = 0;
    while d < r.deps.len()
        invariant
            d <= r.deps@.len(),
            out@ == head + spec_enc_deps(r.deps@.subrange(0, d as int)),
        decreases r.deps@.len() - d,
    {
        push_enc_u64(out, r.deps[d]);
        proof {
            lemma_enc_deps_snoc(r.deps@.subrange(0, d as int), r.deps@[d as int]);
            assert(r.deps@.subrange(0, d as int).push(r.deps@[d as int]) =~= r.deps@.subrange(
                0,
                d + 1 as int,
            ));
        }
        d = d + 1;
    }
    proof {
        assert(r.deps@.subrange(0, r.deps@.len() as int) =~= r.deps@);
        assert(out@ =~= old(out)@ + spec_enc_record(rec_view(*r)));
    }
}

/// Render a snapshot in the compact binary form.
pub fn serialize_dense_graph(g: &GraphIntrospectable) -> (out: Vec<u8>)
    ensures
        out@ == spec_serialize_dense(recs_view(g.nodes@), texts_view(g.running@)),
{
    let mut out: Vec<u8> = Vec::new();
    push_enc_u64(&mut out, g.nodes.len() as u64);
    proof {
        assert(recs_view(g.nodes@).len() == g.nodes@.len());
    }
    let mut i: usize = 0;
    while i < g.nodes.len()
        invariant
            i <= g.nodes@.len(),
            out@ == spec_enc_u64(g.nodes@.len() as u64) + spec_enc_records(
                recs_view(g.nodes@).subrange(0, i as int),
            ),
        decreases g.nodes@.len() - i,
    {
        push_enc_record(&mut out, &g.nodes[i]);
        proof {
            let rv = recs_view(g.nodes@);
            lemma_enc_records_snoc(rv.subrange(0, i as int), rv[i as int]);
            assert(rv[i as int] == rec_view(g.nodes@[i as int]));
            assert(rv.subrange(0, i as int).push(rv[i as int]) =~= rv.subrange(0, i + 1 as int));
        }
        i = i + 1;
    }
    push_enc_u64(&mut out, g.running.len() as u64);
    let ghost head = out@;
    let mut w: usize = 0;
    while w < g.running.len()
        invariant
            w <= g.running@.len(),
            out@ == head + spec_enc_texts(texts_view(g.running@).subrange(0, w as int)),
        decreases g.running@.len() - w,
    {
        push_enc_bytes(&mut out, &g.running[w]);
        proof {
            let tv = texts_view(g.running@);
            lemma_enc_texts_snoc(tv.subrange(0, w as int), tv[w as int]);
            assert(tv[w as int] == g.running@[w as int]@);
            assert(tv.subrange(0, w as int).push(tv[w as int]) =~= tv.subrange(0, w + 1 as int));
        }
        w = w + 1;
    }
    proof {
        let rv = recs_view(g.nodes@);
        let tv = texts_view(g.running@);
        assert(rv.subrange(0, rv.len() as int) =~= rv);
        assert(tv.subrange(0, tv.len() as int) =~= tv);
        assert(out@ =~= spec_serialize_dense(rv, tv));
    }
    out
}

fn dec_u64_at(b: &Vec<u8>, p: usize) -> (r: Option<(u64, usize)>)
    ensures
        r matches Some(pr) ==> spec_dec_u64(b@, p as int) == Some((pr.0, pr.1 as int)) && pr.1
            <= b@.len(),
        r is None ==> spec_dec_u64(b@, p as int) is None,
{
    if p <= b.len() && b.len() - p >= 8 {
        let mut w: Vec<u8> = Vec::new();
        let mut k: usize = 0;
        while k < 8
            invariant
                p + 8 <= b@.len(),
                b@.len() <= usize::MAX,
                k <= 8,
                w@ == b@.subrange(p as int, p + k as int),
            decreases 8 - k,
        {
            w.push(b[p + k]);
            proof {
                assert(w@ =~= b@.subrange(p as int, p + (k + 1) as int));
            }
            k = k + 1;
        }
        let x = u64_from_le_bytes(w.as_slice());
        Some((x, p + 8))
    } else {
        None
    }
}

fn dec_bytes_at(b: &Vec<u8>, p: usize) -> (r: Option<(Vec<u8>, usize)>)
    ensures
        r matches Some(pr) ==> spec_dec_bytes(b@, p as int) == Some((pr.0@, pr.1 as int)) && pr.1
            <= b@.len(),
        r is None ==> spec_dec_bytes(b@, p as int) is None,
{
    match dec_u64_at(b, p) {
        Some((l, p1)) => {
            if l <= (b.len() - p1) as u64 {
                let ln = l as usize;
                let mut w: Vec<u8> = Vec::new();
                let mut k: usize = 0;
                while k < ln
                    invariant
                        p1 + ln <= b@.len(),
                        b@.len() <= usize::MAX,
                        k <= ln,
                        w@ == b@.subrange(p1 as int, p1 + k as int),
                    decreases ln - k,
                {
                    w.push(b[p1 + k]);
                    proof {
                        assert(w@ =~= b@.subrange(p1 as int, p1 + (k + 1) as int));
                    }
                    k = k + 1;
                }
                Some((w, p1 + ln))
            } else {
                None
            }
        },
        None => None,
    }
}

fn dec_deps_at(b: &Vec<u8>, p: usize, cnt: u64) -> (r: Option<(Vec<u64>, usize)>)
    ensures
        r matches Some(pr) ==> spec_dec_deps(b@, p as int, cnt as nat) == Some((
            pr.0@,
            pr.1 as int,
        )),
        r is None ==> spec_dec_deps(b@, p as int, cnt as nat) is None,
    decreases cnt,
{
    if cnt == 0 {
        Some((Vec::new(), p))
    } else {
        match dec_u64_at(b, p) {
            Some((x, p1)) => match dec_deps_at(b, p1, cnt - 1) {
                Some((mut rest, p2)) => {
                    let mut out: Vec<u64> = Vec::new();
                    out.push(x);
                    out.append(&mut rest);
                    proof {
                        assert(out@ =~= seq![x] + spec_dec_deps(
                            b@,
                            p1 as int,
                            (cnt - 1) as nat,
                        )->Some_0.0);
                    }
                    Some((out, p2))
                },
                None => None,
            },
            None => None,
        }
    }
}

fn dec_record_at(b: &Vec<u8>, p: usize) -> (r: Option<(SerializedGraphNodesForKey, usize)>)
    ensures
        r matches Some(pr) ==> spec_dec_record(b@, p as int) == Some((
            rec_view(pr.0),
            pr.1 as int,
        )),
        r is None ==> spec_dec_record(b@, p as int) is None,
{
    match dec_u64_at(b, p) {
        Some((index, p1)) => match dec_u64_at(b, p1) {
            Some((tag, p2)) => match dec_bytes_at(b, p2) {
                Some((text, p3)) => match dec_u64_at(b, p3) {
                    Some((cnt, p4)) => match dec_deps_at(b, p4, cnt) {
                        Some((deps, p5)) => Some(
                            (SerializedGraphNodesForKey { index, type_tag: tag, text, deps }, p5),
                        ),
                        None => None,
                    },
                    None => None,
                },
                None => None,
            },
            None => None,
        },
        None => None,
    }
}

fn dec_records_at(b: &Vec<u8>, p: usize, cnt: u64) -> (r: Option<(
    Vec<SerializedGraphNodesForKey>,
    usize,
)>)
    ensures
        r matches Some(pr) ==> spec_dec_records(b@, p as int, cnt as nat) == Some((
            recs_view(pr.0@),
            pr.1 as int,
        )),
        r is None ==> spec_dec_records(b@, p as int, cnt as nat) is None,
    decreases cnt,
{
    if cnt == 0 {
        let out: Vec<SerializedGraphNodesForKey> = Vec::new();
        proof {
            assert(recs_view(out@) =~= Seq::<(u64, u64, Seq<u8>, Seq<u64>)>::empty());
        }
        Some((out, p))
    } else {
        match dec_record_at(b, p) {
            Some((rec, p1)) => match dec_records_at(b, p1, cnt - 1) {
                Some((mut rest, p2)) => {
                    let ghost rest_snapshot = rest@;
                    let mut out: Vec<SerializedGraphNodesForKey> = Vec::new();
                    out.push(rec);
                    out.append(&mut rest);
                    proof {
                        assert(out@ =~= seq![rec] + rest_snapshot);
                        assert(recs_view(out@) =~= seq![rec_view(rec)] + recs_view(rest_snapshot));
                    }
                    Some((out, p2))
                },
                None => None,
            },
            None => None,
        }
    }
}

fn dec_texts_at(b: &Vec<u8>, p: usize, cnt: u64) -> (r: Option<(Vec<Vec<u8>>, usize)>)
    ensures
        r matches Some(pr) ==> spec_dec_texts(b@, p as int, cnt as nat) == Some((
            texts_view(pr.0@),
            pr.1 as int,
        )),
        r is None ==> spec_dec_texts(b@, p as int, cnt as nat) is None,
    decreases cnt,
{
    if cnt == 0 {
        let out: Vec<Vec<u8>> = Vec::new();
        proof {
            assert(texts_view(out@) =~= Seq::<Seq<u8>>::empty());
        }
        Some((out, p))
    } else {
        match dec_bytes_at(b, p) {
            Some((t, p1)) => match dec_texts_at(b, p1, cnt - 1) {
                Some((mut rest, p2)) => {
                    let ghost t_snapshot = t@;
                    let ghost rest_snapshot = rest@;
                    let mut out: Vec<Vec<u8>> = Vec::new();
                    out.push(t);
                    out.append(&mut rest);
                    proof {
                        assert(out@ =~= seq![out@[0]] + rest_snapshot);
                        assert(texts_view(out@) =~= seq![t_snapshot] + texts_view(rest_snapshot));
                    }
                    Some((out, p2))
                },
                None => None,
            },
            None => None,
        }
    }
}

/// Read a snapshot back from the compact binary form; `None` when the
/// bytes are not one whole, exactly consumed snapshot.
pub fn deserialize_dense_graph(b: &Vec<u8>) -> (r: Option<GraphIntrospectable>)
    ensures
        r matches Some(g) ==> spec_dec_graph(b@) == Some((
            recs_view(g.nodes@),
            texts_view(g.running@),
        )),
        r is None ==> spec_dec_graph(b@) is None,
{
    match dec_u64_at(b, 0) {
        Some((n, p1)) => match dec_records_at(b, p1, n) {
            Some((rs, p2)) => match dec_u64_at(b, p2) {
                Some((m, p3)) => match dec_texts_at(b, p3, m) {
                    Some((ts, p4)) => {
                        if p4 == b.len() {
                            Some(GraphIntrospectable { nodes: rs, running: ts })
                        } else {
                            None
                        }
                    },
                    None => None,
                },
                None => None,
            },
            None => None,
        },
        None => None,
    }
}

} // verus!
