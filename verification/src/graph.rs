//! Topology of the road graph: the active-node set referenced by kept ways,
//! the node coordinate table, intersection detection, and the splitting of
//! ways into edges at intersection boundaries.

use vstd::prelude::*;
use std::collections::{HashMap, HashSet};
use crate::NodeId;
use crate::model::{Edge, Loc, Node, Way};

verus! {

broadcast use vstd::std_specs::hash::group_hash_axioms;

/// Some kept way references node `id`.
pub open spec fn way_references(ways: Seq<Way>, id: i64) -> bool {
    exists|i: int, j: int|
        0 <= i < ways.len() && 0 <= j < ways[i].nodes@.len() && (#[trigger] ways[i].nodes@[j]).0
            == id
}

/// The set of node ids that any kept way references — exactly the nodes the
/// second extraction pass is allowed to retain.
pub fn collect_active_nodes(ways: &Vec<Way>) -> (active: HashSet<i64>)
    ensures
        forall|id: i64| #[trigger] active@.contains(id) <==> way_references(ways@, id),
{
    let mut active: HashSet<i64> = HashSet::new();
    let n = ways.len();
    for wi in 0..n
        invariant
            n == ways@.len(),
            forall|id: i64| #[trigger]
                active@.contains(id) <==> way_references(ways@.take(wi as int), id),
    {
        let way = &ways[wi];
        let m = way.nodes.len();
        for ni in 0..m
            invariant
                n == ways@.len(),
                wi < n,
                m == ways@[wi as int].nodes@.len(),
                way.nodes@ == ways@[wi as int].nodes@,
                forall|id: i64| #[trigger]
                    active@.contains(id) <==> way_references(ways@.take(wi as int), id)
                        || (exists|j: int|
                        0 <= j < ni && (#[trigger] ways@[wi as int].nodes@[j]).0 == id),
        {
            let id = way.nodes[ni].0;
            active.insert(id);
            proof {
                assert forall|x: i64| #[trigger] active@.contains(x) implies way_references(
                    ways@.take(wi as int),
                    x,
                ) || (exists|j: int|
                    0 <= j < ni + 1 && (#[trigger] ways@[wi as int].nodes@[j]).0 == x) by {
                    if x == id {
                        assert(ways@[wi as int].nodes@[ni as int].0 == x);
                    }
                }
            }
        }
        proof {
            assert forall|id: i64| #[trigger] active@.contains(id) implies way_references(
                ways@.take(wi as int + 1),
                id,
            ) by {
                if way_references(ways@.take(wi as int), id) {
                    let (i, j) = choose|i: int, j: int|
                        0 <= i < ways@.take(wi as int).len() && 0 <= j
                            < ways@.take(wi as int)[i].nodes@.len() && (#[trigger] ways@.take(
                            wi as int,
                        )[i].nodes@[j]).0 == id;
                    assert(ways@.take(wi as int + 1)[i].nodes@[j].0 == id);
                } else {
                    let j = choose|j: int|
                        0 <= j < m && (#[trigger] ways@[wi as int].nodes@[j]).0 == id;
                    assert(ways@.take(wi as int + 1)[wi as int].nodes@[j].0 == id);
                }
            }
            assert forall|id: i64| way_references(ways@.take(wi as int + 1), id) implies #[trigger]
                active@.contains(id) by {
                let (i, j) = choose|i: int, j: int|
                    0 <= i < ways@.take(wi as int + 1).len() && 0 <= j < ways@.take(
                        wi as int + 1,
                    )[i].nodes@.len() && (#[trigger] ways@.take(wi as int + 1)[i].nodes@[j]).0
                        == id;
                if i < wi as int {
                    assert(ways@.take(wi as int)[i].nodes@[j].0 == id);
                } else {
                    assert(ways@[wi as int].nodes@[j].0 == id);
                }
            }
        }
    }
    proof {
        assert(ways@.take(n as int) =~= ways@);
    }
    active
}

/// The coordinate table built from the pairs the second pass kept; on a
/// duplicate id the later pair wins.
pub open spec fn spec_node_table(pairs: Seq<(NodeId, Node)>) -> Map<i64, Loc>
    decreases pairs.len(),
{
    if pairs.len() == 0 {
        Map::empty()
    } else {
        spec_node_table(pairs.drop_last()).insert(pairs.last().0.0, pairs.last().1.loc)
    }
}

/// Keyed lookup from node id to coordinate, built once after pass 2 and only
/// read afterwards.
pub struct NodeTable {
    table: HashMap<i64, Loc>,
}

impl NodeTable {
    /// The map this table holds.
    pub closed spec fn view(&self) -> Map<i64, Loc> {
        self.table@
    }

    /// Builds the table from the node pairs of the second pass.
    pub fn build(pairs: &Vec<(NodeId, Node)>) -> (t: NodeTable)
        ensures
            t@ == spec_node_table(pairs@),
    {
        let mut table: HashMap<i64, Loc> = HashMap::new();
        let n = pairs.len();
        for i in 0..n
            invariant
                n == pairs@.len(),
                table@ == spec_node_table(pairs@.take(i as int)),
        {
            let (id, node) = pairs[i];
            table.insert(id.0, node.loc);
            proof {
                assert(pairs@.take(i as int + 1).drop_last() =~= pairs@.take(i as int));
                assert(pairs@.take(i as int + 1).last() == pairs@[i as int]);
            }
        }
        proof {
            assert(pairs@.take(n as int) =~= pairs@);
        }
        NodeTable { table }
    }

    /// Looks a node id up; `None` is the data-integrity case of an id no kept
    /// node carried.
    pub fn get(&self, id: NodeId) -> (r: Option<Loc>)
        ensures
            match r {
                Some(loc) => self@.contains_key(id.0) && self@[id.0] == loc,
                None => !self@.contains_key(id.0),
            },
    {
        match self.table.get(&id.0) {
            Some(loc) => Some(*loc),
            None => None,
        }
    }
}

/// How often `id` occurs in one node sequence.
pub open spec fn seq_count(nodes: Seq<NodeId>, id: i64) -> nat
    decreases nodes.len(),
{
    if nodes.len() == 0 {
        0
    } else {
        seq_count(nodes.drop_last(), id) + (if nodes.last().0 == id {
            1nat
        } else {
            0nat
        })
    }
}

/// How often `id` occurs across all ways' node sequences.
pub open spec fn ref_count(ways: Seq<Way>, id: i64) -> nat
    decreases ways.len(),
{
    if ways.len() == 0 {
        0
    } else {
        ref_count(ways.drop_last(), id) + seq_count(ways.last().nodes@, id)
    }
}

proof fn lemma_seq_count_step(nodes: Seq<NodeId>, n: int)
    requires
        0 <= n < nodes.len(),
    ensures
        forall|id: i64|
            seq_count(nodes.take(n + 1), id) == seq_count(nodes.take(n), id) + (if nodes[n].0
                == id {
                1nat
            } else {
                0nat
            }),
{
    assert(nodes.take(n + 1).drop_last() =~= nodes.take(n));
    assert(nodes.take(n + 1).last() == nodes[n]);
}

proof fn lemma_ref_count_step(ways: Seq<Way>, w: int)
    requires
        0 <= w < ways.len(),
    ensures
        forall|id: i64|
            ref_count(ways.take(w + 1), id) == ref_count(ways.take(w), id) + seq_count(
                ways[w].nodes@,
                id,
            ),
{
    assert(ways.take(w + 1).drop_last() =~= ways.take(w));
    assert(ways.take(w + 1).last() == ways[w]);
}

/// A node id is referenced by some way exactly when it is counted at least
/// once: the active-set membership test and the occurrence count that drives
/// intersection detection agree.
pub proof fn lemma_references_iff_counted(ways: Seq<Way>, id: i64)
    ensures
        way_references(ways, id) <==> ref_count(ways, id) >= 1,
    decreases ways.len(),
{
    if ways.len() == 0 {
    } else {
        let prefix = ways.drop_last();
        lemma_references_iff_counted(prefix, id);
        lemma_seq_contains_iff_counted(ways.last().nodes@, id);
        if way_references(ways, id) {
            let (i, j) = choose|i: int, j: int|
                0 <= i < ways.len() && 0 <= j < ways[i].nodes@.len() && (#[trigger] ways[i].nodes@[j]).0 == id;
            if i < ways.len() - 1 {
                assert(prefix[i].nodes@[j].0 == id);
            }
        }
        if ref_count(ways, id) >= 1 {
            if ref_count(prefix, id) >= 1 {
                let (i, j) = choose|i: int, j: int|
                    0 <= i < prefix.len() && 0 <= j < prefix[i].nodes@.len()
                        && (#[trigger] prefix[i].nodes@[j]).0 == id;
                assert(ways[i].nodes@[j].0 == id);
            } else {
                let j = choose|j: int|
                    0 <= j < ways.last().nodes@.len() && ways.last().nodes@[j].0 == id;
                assert(ways[ways.len() - 1].nodes@[j].0 == id);
            }
        }
    }
}

proof fn lemma_seq_contains_iff_counted(nodes: Seq<NodeId>, id: i64)
    ensures
        (exists|j: int| 0 <= j < nodes.len() && nodes[j].0 == id) <==> seq_count(nodes, id) >= 1,
    decreases nodes.len(),
{
    if nodes.len() == 0 {
    } else {
        let prefix = nodes.drop_last();
        lemma_seq_contains_iff_counted(prefix, id);
        if exists|j: int| 0 <= j < nodes.len() && nodes[j].0 == id {
            let j = choose|j: int| 0 <= j < nodes.len() && nodes[j].0 == id;
            if j < nodes.len() - 1 {
                assert(prefix[j].0 == id);
            }
        }
        if seq_count(prefix, id) >= 1 {
            let j = choose|j: int| 0 <= j < prefix.len() && prefix[j].0 == id;
            assert(nodes[j].0 == id);
        }
    }
}

/// Finds every intersection node: an id referenced by two or more ways, or
/// referenced twice by the same way.
pub fn find_intersections(ways: &Vec<Way>) -> (inter: HashSet<i64>)
    ensures
        forall|id: i64| #[trigger] inter@.contains(id) <==> ref_count(ways@, id) >= 2,
{
    let mut seen: HashSet<i64> = HashSet::new();
    let mut inter: HashSet<i64> = HashSet::new();
    let n = ways.len();
    for wi in 0..n
        invariant
            n == ways@.len(),
            forall|id: i64| #[trigger]
                seen@.contains(id) <==> ref_count(ways@.take(wi as int), id) >= 1,
            forall|id: i64| #[trigger]
                inter@.contains(id) <==> ref_count(ways@.take(wi as int), id) >= 2,
    {
        let way = &ways[wi];
        let m = way.nodes.len();
        for ni in 0..m
            invariant
                n == ways@.len(),
                wi < n,
                m == ways@[wi as int].nodes@.len(),
                way.nodes@ == ways@[wi as int].nodes@,
                forall|id: i64| #[trigger]
                    seen@.contains(id) <==> ref_count(ways@.take(wi as int), id) + seq_count(
                        way.nodes@.take(ni as int),
                        id,
                    ) >= 1,
                forall|id: i64| #[trigger]
                    inter@.contains(id) <==> ref_count(ways@.take(wi as int), id) + seq_count(
                        way.nodes@.take(ni as int),
                        id,
                    ) >= 2,
        {
            let id = way.nodes[ni].0;
            proof {
                lemma_seq_count_step(way.nodes@, ni as int);
            }
            if seen.contains(&id) {
                inter.insert(id);
            } else {
                seen.insert(id);
            }
        }
        proof {
            assert(way.nodes@.take(m as int) =~= way.nodes@);
            lemma_ref_count_step(ways@, wi as int);
        }
    }
    proof {
        assert(ways@.take(n as int) =~= ways@);
    }
    inter
}

/// The node ids of a node sequence.
pub open spec fn ids_of(nodes: Seq<NodeId>) -> Seq<i64> {
    nodes.map_values(|n: NodeId| n.0)
}

/// The model of an edge: endpoints, oneway flag, and the node ids it spans.
pub open spec fn edge_model(e: Edge) -> (i64, i64, bool, Seq<i64>) {
    (e.from.0, e.to.0, e.is_oneway, ids_of(e.nodes@))
}

/// The edges a way's node sequence splits into, walking from index `i` with
/// the previous cut at `start`: each index whose node is an intersection ends
/// an edge and starts the next one. The final index emits no trailing edge
/// unless it is itself an intersection node, so a dead end past the last
/// intersection is dropped; this mirrors the observed upstream behaviour and
/// is kept deliberately.
pub open spec fn spec_split(
    nodes: Seq<NodeId>,
    inter: Set<i64>,
    is_oneway: bool,
    start: int,
    i: int,
) -> Seq<(i64, i64, bool, Seq<i64>)>
    recommends
        0 <= start < i,
    decreases nodes.len() - i,
{
    if i < 1 || i >= nodes.len() || start < 0 || start >= i {
        Seq::empty()
    } else if inter.contains(nodes[i].0) {
        seq![(nodes[start].0, nodes[i].0, is_oneway, ids_of(nodes.subrange(start, i + 1)))]
            + spec_split(nodes, inter, is_oneway, i, i + 1)
    } else {
        spec_split(nodes, inter, is_oneway, start, i + 1)
    }
}

/// Cuts one way into edges at the intersection nodes in `inter`.
///
/// Every emitted edge is well-formed: it spans at least two nodes, starts at
/// `from` and ends at `to`, and carries the way's oneway flag.
pub fn split_way_into_edges(way: &Way, inter: &HashSet<i64>) -> (edges: Vec<Edge>)
    ensures
        edges@.map_values(|e: Edge| edge_model(e)) == spec_split(
            way.nodes@,
            inter@,
            way.is_oneway,
            0,
            1,
        ),
        forall|k: int|
            0 <= k < edges@.len() ==> (#[trigger] edges@[k]).wf() && edges@[k].nodes@.len() >= 2
                && edges@[k].is_oneway == way.is_oneway,
{
    let mut edges: Vec<Edge> = Vec::new();
    let n = way.nodes.len();
    if n < 2 {
        proof {
            assert(edges@.map_values(|e: Edge| edge_model(e)) =~= Seq::empty());
        }
        return edges;
    }
    let mut start: usize = 0;
    let mut i: usize = 1;
    while i < n
        invariant
            n == way.nodes@.len(),
            2 <= n,
            0 <= start < i <= n,
            edges@.map_values(|e: Edge| edge_model(e)) + spec_split(
                way.nodes@,
                inter@,
                way.is_oneway,
                start as int,
                i as int,
            ) == spec_split(way.nodes@, inter@, way.is_oneway, 0, 1),
            forall|k: int|
                0 <= k < edges@.len() ==> (#[trigger] edges@[k]).wf() && edges@[k].nodes@.len()
                    >= 2 && edges@[k].is_oneway == way.is_oneway,
        decreases n - i,
    {
        let nid = way.nodes[i];
        if inter.contains(&nid.0) {
            let mut enodes: Vec<NodeId> = Vec::new();
            let mut j: usize = start;
            while j <= i
                invariant
                    n == way.nodes@.len(),
                    start <= j <= i + 1,
                    i < n,
                    enodes@ == way.nodes@.subrange(start as int, j as int),
                decreases i + 1 - j,
            {
                enodes.push(way.nodes[j]);
                proof {
                    assert(way.nodes@.subrange(start as int, j as int + 1) =~= way.nodes@.subrange(
                        start as int,
                        j as int,
                    ).push(way.nodes@[j as int]));
                }
                j += 1;
            }
            let e = Edge {
                from: way.nodes[start],
                to: nid,
                is_oneway: way.is_oneway,
                nodes: enodes,
            };
            let ghost old_edges = edges@;
            edges.push(e);
            proof {
                assert(edges@.map_values(|e: Edge| edge_model(e)) =~= old_edges.map_values(
                    |e: Edge| edge_model(e),
                ).push(edge_model(e)));
                assert(edge_model(e) == (
                    way.nodes@[start as int].0,
                    way.nodes@[i as int].0,
                    way.is_oneway,
                    ids_of(way.nodes@.subrange(start as int, i as int + 1)),
                ));
                assert(e.nodes@.len() == i + 1 - start >= 2);
                assert(e.nodes@[0] == way.nodes@[start as int]);
                assert(e.nodes@[e.nodes@.len() - 1] == way.nodes@[i as int]);
            }
            start = i;
        }
        i += 1;
    }
    proof {
        assert(spec_split(way.nodes@, inter@, way.is_oneway, start as int, i as int)
            =~= Seq::<(i64, i64, bool, Seq<i64>)>::empty());
        assert(edges@.map_values(|e: Edge| edge_model(e)) + Seq::<(
            i64,
            i64,
            bool,
            Seq<i64>,
        )>::empty() =~= edges@.map_values(|e: Edge| edge_model(e)));
    }
    edges
}

} // verus!
