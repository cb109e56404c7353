//! The binary tile format: a fixed little-endian encoding of a tile's edge
//! collection, the durable contract of the tile files. A tile is the edge
//! count, then each edge as `from`, `to`, a oneway byte, the node count, and
//! the node ids; every integer is eight bytes, little-endian.

use vstd::prelude::*;
use vstd::bytes::{
    spec_u64_to_le_bytes, spec_u64_from_le_bytes, u64_to_le_bytes, u64_from_le_bytes,
    lemma_auto_spec_u64_to_from_le_bytes,
};
use vstd::slice::slice_subrange;
use crate::NodeId;
use crate::model::{Edge, Tile};
use crate::graph::{edge_model, ids_of};

verus! {

/// The model a tile encodes: the models of its edges, in order.
pub open spec fn tile_model(t: Tile) -> Seq<(i64, i64, bool, Seq<i64>)> {
    t.edges@.map_values(|e: Edge| edge_model(e))
}

/// The encoding of a node id list: eight little-endian bytes per id.
pub open spec fn spec_encode_nodes(nodes: Seq<i64>) -> Seq<u8>
    decreases nodes.len(),
{
    if nodes.len() == 0 {
        Seq::empty()
    } else {
        spec_u64_to_le_bytes(nodes[0] as u64) + spec_encode_nodes(nodes.drop_first())
    }
}

/// The encoding of one edge model.
pub open spec fn spec_encode_edge(e: (i64, i64, bool, Seq<i64>)) -> Seq<u8> {
    spec_u64_to_le_bytes(e.0 as u64) + spec_u64_to_le_bytes(e.1 as u64) + seq![
        if e.2 {
            1u8
        } else {
            0u8
        },
    ] + spec_u64_to_le_bytes(e.3.len() as u64) + spec_encode_nodes(e.3)
}

/// The encoding of an edge list.
pub open spec fn spec_encode_edges(edges: Seq<(i64, i64, bool, Seq<i64>)>) -> Seq<u8>
    decreases edges.len(),
{
    if edges.len() == 0 {
        Seq::empty()
    } else {
        spec_encode_edge(edges[0]) + spec_encode_edges(edges.drop_first())
    }
}

/// The encoding of a whole tile: the edge count, then the edges.
pub open spec fn spec_encode_tile(m: Seq<(i64, i64, bool, Seq<i64>)>) -> Seq<u8> {
    spec_u64_to_le_bytes(m.len() as u64) + spec_encode_edges(m)
}

/// The integer stored at `off`.
pub open spec fn spec_read_u64(bytes: Seq<u8>, off: int) -> u64
    recommends
        0 <= off,
        off + 8 <= bytes.len(),
{
    spec_u64_from_le_bytes(bytes.subrange(off, off + 8))
}

/// Decodes `n` node ids starting at `off`; `None` when the bytes run out.
pub open spec fn spec_decode_nodes(bytes: Seq<u8>, off: int, n: nat) -> Option<(Seq<i64>, int)>
    decreases n,
{
    if n == 0 {
        Some((Seq::empty(), off))
    } else if off + 8 > bytes.len() {
        None
    } else {
        let v = spec_read_u64(bytes, off) as i64;
        match spec_decode_nodes(bytes, off + 8, (n - 1) as nat) {
            None => None,
            Some((rest, end)) => Some((seq![v] + rest, end)),
        }
    }
}

/// Decodes one edge starting at `off`; `None` on truncated bytes or a oneway
/// byte that is neither zero nor one.
pub open spec fn spec_decode_edge(bytes: Seq<u8>, off: int) -> Option<
    ((i64, i64, bool, Seq<i64>), int),
> {
    if off < 0 || off + 25 > bytes.len() {
        None
    } else {
        let from = spec_read_u64(bytes, off) as i64;
        let to = spec_read_u64(bytes, off + 8) as i64;
        let owb = bytes[off + 16];
        let cnt = spec_read_u64(bytes, off + 17);
        if owb != 0 && owb != 1 {
            None
        } else {
            match spec_decode_nodes(bytes, off + 25, cnt as nat) {
                None => None,
                Some((nodes, end)) => Some(((from, to, owb == 1, nodes), end)),
            }
        }
    }
}

/// Decodes `n` edges starting at `off`.
pub open spec fn spec_decode_edges(bytes: Seq<u8>, off: int, n: nat) -> Option<
    (Seq<(i64, i64, bool, Seq<i64>)>, int),
>
    decreases n,
{
    if n == 0 {
        Some((Seq::empty(), off))
    } else {
        match spec_decode_edge(bytes, off) {
            None => None,
            Some((e, off2)) => match spec_decode_edges(bytes, off2, (n - 1) as nat) {
                None => None,
                Some((rest, end)) => Some((seq![e] + rest, end)),
            },
        }
    }
}

/// Decodes a whole tile; every byte must be consumed.
pub open spec fn spec_decode_tile(bytes: Seq<u8>) -> Option<Seq<(i64, i64, bool, Seq<i64>)>> {
    if bytes.len() < 8 {
        None
    } else {
        let n = spec_read_u64(bytes, 0);
        match spec_decode_edges(bytes, 8, n as nat) {
            None => None,
            Some((edges, end)) => if end == bytes.len() {
                Some(edges)
            } else {
                None
            },
        }
    }
}

proof fn lemma_read_of_encode(pre: Seq<u8>, x: u64, suf: Seq<u8>)
    ensures
        spec_read_u64(pre + spec_u64_to_le_bytes(x) + suf, pre.len() as int) == x,
        spec_u64_to_le_bytes(x).len() == 8,
{
    lemma_auto_spec_u64_to_from_le_bytes();
    assert((pre + spec_u64_to_le_bytes(x) + suf).subrange(pre.len() as int, pre.len() as int + 8)
        =~= spec_u64_to_le_bytes(x));
}

proof fn lemma_decode_nodes_of_encode(pre: Seq<u8>, nodes: Seq<i64>, suf: Seq<u8>)
    ensures
        spec_encode_nodes(nodes).len() == 8 * nodes.len(),
        spec_decode_nodes(pre + spec_encode_nodes(nodes) + suf, pre.len() as int, nodes.len())
            == Some((nodes, pre.len() + spec_encode_nodes(nodes).len() as int)),
    decreases nodes.len(),
{
    lemma_auto_spec_u64_to_from_le_bytes();
    if nodes.len() == 0 {
        assert(pre + spec_encode_nodes(nodes) + suf =~= pre + suf);
        assert(spec_decode_nodes(pre + suf, pre.len() as int, 0) == Some((
            Seq::<i64>::empty(),
            pre.len() as int,
        )));
        assert(nodes =~= Seq::<i64>::empty());
    } else {
        let head = spec_u64_to_le_bytes(nodes[0] as u64);
        let tail = spec_encode_nodes(nodes.drop_first());
        let bytes = pre + spec_encode_nodes(nodes) + suf;
        assert(bytes =~= pre + head + (tail + suf));
        assert(bytes =~= (pre + head) + tail + suf);
        lemma_read_of_encode(pre, nodes[0] as u64, tail + suf);
        let v0 = nodes[0];
        assert(((v0 as u64) as i64) == v0) by (bit_vector);
        lemma_decode_nodes_of_encode(pre + head, nodes.drop_first(), suf);
        assert(seq![nodes[0]] + nodes.drop_first() =~= nodes);
    }
}

proof fn lemma_decode_edge_of_encode(pre: Seq<u8>, e: (i64, i64, bool, Seq<i64>), suf: Seq<u8>)
    requires
        e.3.len() <= u64::MAX,
    ensures
        spec_encode_edge(e).len() == 25 + 8 * e.3.len(),
        spec_decode_edge(pre + spec_encode_edge(e) + suf, pre.len() as int) == Some((
            e,
            pre.len() + spec_encode_edge(e).len() as int,
        )),
{
    lemma_auto_spec_u64_to_from_le_bytes();
    let fb = spec_u64_to_le_bytes(e.0 as u64);
    let tb = spec_u64_to_le_bytes(e.1 as u64);
    let ob = seq![
        if e.2 {
            1u8
        } else {
            0u8
        },
    ];
    let cb = spec_u64_to_le_bytes(e.3.len() as u64);
    let nb = spec_encode_nodes(e.3);
    let bytes = pre + spec_encode_edge(e) + suf;
    lemma_decode_nodes_of_encode(pre + fb + tb + ob + cb, e.3, suf);
    assert(bytes =~= pre + fb + (tb + ob + cb + nb + suf));
    lemma_read_of_encode(pre, e.0 as u64, tb + ob + cb + nb + suf);
    assert(bytes =~= (pre + fb) + tb + (ob + cb + nb + suf));
    lemma_read_of_encode(pre + fb, e.1 as u64, ob + cb + nb + suf);
    assert(bytes[pre.len() as int + 16] == ob[0]);
    assert(bytes =~= (pre + fb + tb + ob) + cb + (nb + suf));
    lemma_read_of_encode(pre + fb + tb + ob, e.3.len() as u64, nb + suf);
    assert(bytes =~= (pre + fb + tb + ob + cb) + nb + suf);
    let x = e.0;
    let y = e.1;
    assert(((x as u64) as i64) == x) by (bit_vector);
    assert(((y as u64) as i64) == y) by (bit_vector);
    assert((e.3.len() as u64) as nat == e.3.len());
}

proof fn lemma_decode_edges_of_encode(
    pre: Seq<u8>,
    edges: Seq<(i64, i64, bool, Seq<i64>)>,
    suf: Seq<u8>,
)
    requires
        forall|i: int| 0 <= i < edges.len() ==> (#[trigger] edges[i]).3.len() <= u64::MAX,
    ensures
        spec_decode_edges(pre + spec_encode_edges(edges) + suf, pre.len() as int, edges.len())
            == Some((edges, pre.len() + spec_encode_edges(edges).len() as int)),
    decreases edges.len(),
{
    if edges.len() == 0 {
        assert(pre + spec_encode_edges(edges) + suf =~= pre + suf);
        assert(edges =~= Seq::<(i64, i64, bool, Seq<i64>)>::empty());
    } else {
        let head = spec_encode_edge(edges[0]);
        let tail = spec_encode_edges(edges.drop_first());
        let bytes = pre + spec_encode_edges(edges) + suf;
        assert(bytes =~= pre + head + (tail + suf));
        assert(bytes =~= (pre + head) + tail + suf);
        lemma_decode_edge_of_encode(pre, edges[0], tail + suf);
        assert(forall|i: int|
            0 <= i < edges.drop_first().len() ==> (#[trigger] edges.drop_first()[i]).3.len()
                <= u64::MAX);
        lemma_decode_edges_of_encode(pre + head, edges.drop_first(), suf);
        assert(seq![edges[0]] + edges.drop_first() =~= edges);
    }
}

/// Decoding an encoded tile gives back exactly the edges that were encoded:
/// the round trip of the tile file format, for every tile whose counts fit
/// the format's integers.
pub proof fn lemma_tile_codec_round_trip(m: Seq<(i64, i64, bool, Seq<i64>)>)
    requires
        m.len() <= u64::MAX,
        forall|i: int| 0 <= i < m.len() ==> (#[trigger] m[i]).3.len() <= u64::MAX,
    ensures
        spec_decode_tile(spec_encode_tile(m)) == Some(m),
{
    lemma_auto_spec_u64_to_from_le_bytes();
    let cb = spec_u64_to_le_bytes(m.len() as u64);
    let bytes = spec_encode_tile(m);
    assert(bytes =~= Seq::<u8>::empty() + cb + spec_encode_edges(m));
    lemma_read_of_encode(Seq::<u8>::empty(), m.len() as u64, spec_encode_edges(m));
    assert(spec_read_u64(bytes, 0) == m.len() as u64);
    lemma_decode_edges_of_encode(cb, m, Seq::<u8>::empty());
    assert(cb + spec_encode_edges(m) + Seq::<u8>::empty() =~= bytes);
}

proof fn lemma_encode_nodes_snoc(nodes: Seq<i64>, v: i64)
    ensures
        spec_encode_nodes(nodes.push(v)) == spec_encode_nodes(nodes) + spec_u64_to_le_bytes(
            v as u64,
        ),
    decreases nodes.len(),
{
    let p = nodes.push(v);
    let vb = spec_u64_to_le_bytes(v as u64);
    if nodes.len() == 0 {
        assert(p[0] == v);
        assert(p.drop_first() =~= Seq::<i64>::empty());
        assert(spec_encode_nodes(p.drop_first()) == Seq::<u8>::empty());
        assert(spec_encode_nodes(p) == vb + Seq::<u8>::empty());
        assert(spec_encode_nodes(nodes) == Seq::<u8>::empty());
        assert(vb + Seq::<u8>::empty() =~= Seq::<u8>::empty() + vb);
    } else {
        let hb = spec_u64_to_le_bytes(nodes[0] as u64);
        assert(p[0] == nodes[0]);
        assert(p.drop_first() =~= nodes.drop_first().push(v));
        lemma_encode_nodes_snoc(nodes.drop_first(), v);
        assert(spec_encode_nodes(p) == hb + (spec_encode_nodes(nodes.drop_first()) + vb));
        assert(hb + (spec_encode_nodes(nodes.drop_first()) + vb) =~= (hb + spec_encode_nodes(
            nodes.drop_first(),
        )) + vb);
    }
}

proof fn lemma_encode_edges_snoc(
    edges: Seq<(i64, i64, bool, Seq<i64>)>,
    e: (i64, i64, bool, Seq<i64>),
)
    ensures
        spec_encode_edges(edges.push(e)) == spec_encode_edges(edges) + spec_encode_edge(e),
    decreases edges.len(),
{
    let p = edges.push(e);
    let eb = spec_encode_edge(e);
    if edges.len() == 0 {
        assert(p[0] == e);
        assert(p.drop_first() =~= Seq::<(i64, i64, bool, Seq<i64>)>::empty());
        assert(spec_encode_edges(p.drop_first()) == Seq::<u8>::empty());
        assert(spec_encode_edges(p) == eb + Seq::<u8>::empty());
        assert(spec_encode_edges(edges) == Seq::<u8>::empty());
        assert(eb + Seq::<u8>::empty() =~= Seq::<u8>::empty() + eb);
    } else {
        let hb = spec_encode_edge(edges[0]);
        assert(p[0] == edges[0]);
        assert(p.drop_first() =~= edges.drop_first().push(e));
        lemma_encode_edges_snoc(edges.drop_first(), e);
        assert(spec_encode_edges(p) == hb + (spec_encode_edges(edges.drop_first()) + eb));
        assert(hb + (spec_encode_edges(edges.drop_first()) + eb) =~= (hb + spec_encode_edges(
            edges.drop_first(),
        )) + eb);
    }
}

/// Serializes a tile into the binary tile format.
pub fn encode_tile(tile: &Tile) -> (out: Vec<u8>)
    ensures
        out@ == spec_encode_tile(tile_model(*tile)),
{
    let ghost m = tile_model(*tile);
    let mut out: Vec<u8> = Vec::new();
    let n = tile.edges.len();
    let mut cb = u64_to_le_bytes(n as u64);
    out.append(&mut cb);
    proof {
        assert(m.len() == n);
        assert(m.take(0) =~= Seq::<(i64, i64, bool, Seq<i64>)>::empty());
        assert(out@ =~= spec_u64_to_le_bytes(n as u64) + spec_encode_edges(m.take(0)));
    }
    for i in 0..n
        invariant
            n == tile.edges@.len(),
            m == tile_model(*tile),
            m.len() == n,
            out@ == spec_u64_to_le_bytes(n as u64) + spec_encode_edges(m.take(i as int)),
    {
        let e = &tile.edges[i];
        let ghost em = edge_model(*e);
        let ghost out_at_edge_start = out@;
        let mut fb = u64_to_le_bytes(e.from.0 as u64);
        out.append(&mut fb);
        let mut tb = u64_to_le_bytes(e.to.0 as u64);
        out.append(&mut tb);
        if e.is_oneway {
            out.push(1u8);
        } else {
            out.push(0u8);
        }
        let k = e.nodes.len();
        let mut nb = u64_to_le_bytes(k as u64);
        out.append(&mut nb);
        let ghost out_at_nodes_start = out@;
        proof {
            assert(em.3 == ids_of(e.nodes@));
            assert(em.3.len() == k);
            assert(em.3.take(0) =~= Seq::<i64>::empty());
            assert(out@ =~= out_at_nodes_start + spec_encode_nodes(em.3.take(0)));
        }
        for j in 0..k
            invariant
                k == e.nodes@.len(),
                em == edge_model(*e),
                em.3 == ids_of(e.nodes@),
                out@ == out_at_nodes_start + spec_encode_nodes(em.3.take(j as int)),
        {
            let mut vb = u64_to_le_bytes(e.nodes[j].0 as u64);
            out.append(&mut vb);
            proof {
                lemma_encode_nodes_snoc(em.3.take(j as int), em.3[j as int]);
                assert(em.3.take(j as int).push(em.3[j as int]) =~= em.3.take(j as int + 1));
                assert(em.3[j as int] == e.nodes@[j as int].0);
            }
        }
        proof {
            assert(em.3.take(k as int) =~= em.3);
            assert(out@ =~= out_at_edge_start + spec_encode_edge(em));
            lemma_encode_edges_snoc(m.take(i as int), em);
            assert(m.take(i as int).push(em) =~= m.take(i as int + 1));
            assert(em == m[i as int]);
        }
    }
    proof {
        assert(m.take(n as int) =~= m);
    }
    out
}

/// The bytes `n` node ids need.
proof fn lemma_decode_nodes_feasible(bytes: Seq<u8>, off: int, n: nat)
    requires
        0 <= off <= bytes.len(),
    ensures
        off + 8 * n <= bytes.len() ==> (spec_decode_nodes(bytes, off, n) matches Some((nodes, end))
            && nodes.len() == n && end == off + 8 * n),
        off + 8 * n > bytes.len() ==> spec_decode_nodes(bytes, off, n) is None,
    decreases n,
{
    if n > 0 {
        if off + 8 <= bytes.len() {
            lemma_decode_nodes_feasible(bytes, off + 8, (n - 1) as nat);
        }
    }
}

/// Reads the integer stored at `off`.
fn read_u64_at(bytes: &Vec<u8>, off: usize) -> (x: u64)
    requires
        off + 8 <= bytes@.len(),
    ensures
        x == spec_read_u64(bytes@, off as int),
{
    let len = bytes.len();
    proof {
        assert(off + 8 <= len);
    }
    let s = slice_subrange(bytes.as_slice(), off, off + 8);
    u64_from_le_bytes(s)
}

/// Decodes one edge at `off`, returning it with the offset past it.
fn decode_edge(bytes: &Vec<u8>, off: usize) -> (r: Option<(Edge, usize)>)
    requires
        off <= bytes@.len(),
    ensures
        match (r, spec_decode_edge(bytes@, off as int)) {
            (Some((e, end)), Some(d)) => edge_model(e) == d.0 && end as int == d.1 && end
                <= bytes@.len(),
            (None, None) => true,
            _ => false,
        },
{
    let len = bytes.len();
    if len < 25 || off > len - 25 {
        return None;
    }
    let from = read_u64_at(bytes, off) as i64;
    let to = read_u64_at(bytes, off + 8) as i64;
    let owb = bytes[off + 16];
    let cnt = read_u64_at(bytes, off + 17);
    if owb != 0 && owb != 1 {
        return None;
    }
    let base = off + 25;
    let remaining = len - base;
    proof {
        lemma_decode_nodes_feasible(bytes@, base as int, cnt as nat);
    }
    if (cnt as u128) * 8 > remaining as u128 {
        return None;
    }
    let cnt_us = cnt as usize;
    let mut nodes: Vec<NodeId> = Vec::new();
    let mut j: usize = 0;
    let ghost dn = spec_decode_nodes(bytes@, base as int, cnt as nat);
    while j < cnt_us
        invariant
            cnt_us == cnt,
            base + 8 * cnt <= bytes@.len(),
            bytes@.len() <= usize::MAX,
            j <= cnt_us,
            nodes@.len() == j,
            dn == spec_decode_nodes(bytes@, base as int, cnt as nat),
            (dn matches Some(p) && ids_of(nodes@) == p.0.take(j as int)),
        decreases cnt_us - j,
    {
        let v = read_u64_at(bytes, base + 8 * j) as i64;
        nodes.push(NodeId(v));
        proof {
            lemma_decode_nodes_index(bytes@, base as int, cnt as nat, j as int);
            let p = dn.unwrap();
            assert(p.0.take(j as int).push(p.0[j as int]) =~= p.0.take(j as int + 1));
            assert(ids_of(nodes@) =~= ids_of(nodes@.drop_last()).push(v));
        }
        j += 1;
    }
    proof {
        let p = dn.unwrap();
        assert(p.0.take(cnt as int) =~= p.0);
    }
    let e = Edge { from: NodeId(from), to: NodeId(to), is_oneway: owb == 1, nodes };
    Some((e, base + 8 * cnt_us))
}

/// Within a successfully decoded run of node ids, the id at position `j` is
/// the integer stored at the matching offset.
proof fn lemma_decode_nodes_index(bytes: Seq<u8>, off: int, n: nat, j: int)
    requires
        0 <= off,
        off + 8 * n <= bytes.len(),
        0 <= j < n,
    ensures
        (spec_decode_nodes(bytes, off, n) matches Some(p) && p.0.len() == n && p.0[j]
            == spec_read_u64(bytes, off + 8 * j) as i64),
    decreases j,
{
    lemma_decode_nodes_feasible(bytes, off, n);
    if j == 0 {
        lemma_decode_nodes_feasible(bytes, off + 8, (n - 1) as nat);
    } else {
        lemma_decode_nodes_index(bytes, off + 8, (n - 1) as nat, j - 1);
        lemma_decode_nodes_feasible(bytes, off + 8, (n - 1) as nat);
    }
}

/// Deserializes a tile from the binary tile format; `None` on any malformed
/// or truncated input.
pub fn decode_tile(bytes: &Vec<u8>) -> (r: Option<Tile>)
    ensures
        match (r, spec_decode_tile(bytes@)) {
            (Some(t), Some(m)) => tile_model(t) == m,
            (None, None) => true,
            _ => false,
        },
{
    let len = bytes.len();
    if len < 8 {
        return None;
    }
    let n = read_u64_at(bytes, 0);
    let mut edges: Vec<Edge> = Vec::new();
    let mut off: usize = 8;
    let mut k: u64 = 0;
    while k < n
        invariant
            k <= n,
            off <= bytes@.len(),
            edges@.len() == k,
            n == spec_read_u64(bytes@, 0),
            bytes@.len() >= 8,
            spec_decode_edges(bytes@, 8, n as nat) == match spec_decode_edges(
                bytes@,
                off as int,
                (n - k) as nat,
            ) {
                None => None,
                Some(p) => Some(
                    (edges@.map_values(|e: Edge| edge_model(e)) + p.0, p.1),
                ),
            },
        decreases n - k,
    {
        let ghost rest_before = spec_decode_edges(bytes@, off as int, (n - k) as nat);
        match decode_edge(bytes, off) {
            None => {
                return None;
            },
            Some((e, end)) => {
                let ghost old_models = edges@.map_values(|em: Edge| edge_model(em));
                edges.push(e);
                off = end;
                proof {
                    assert(edges@.map_values(|em: Edge| edge_model(em)) =~= old_models.push(
                        edge_model(e),
                    ));
                    match spec_decode_edges(bytes@, end as int, (n - k - 1) as nat) {
                        None => {},
                        Some(p) => {
                            assert(old_models.push(edge_model(e)) + p.0 =~= old_models + (seq![
                                edge_model(e),
                            ] + p.0));
                        },
                    }
                }
            },
        }
        k += 1;
    }
    proof {
        assert(spec_decode_edges(bytes@, off as int, 0) == Some(
            (Seq::<(i64, i64, bool, Seq<i64>)>::empty(), off as int),
        ));
        assert(edges@.map_values(|e: Edge| edge_model(e)) + Seq::<(
            i64,
            i64,
            bool,
            Seq<i64>,
        )>::empty() =~= edges@.map_values(|e: Edge| edge_model(e)));
    }
    if off != bytes.len() {
        return None;
    }
    Some(Tile { edges })
}

} // verus!
