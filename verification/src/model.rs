//! Core data model of the road graph: identifiers, coordinates, ways, edges
//! and tiles, together with the accumulator merged during the parallel
//! traversal of the element source.

use vstd::prelude::*;
use crate::{NodeId, WayId};

verus! {

/// A geodetic coordinate in nano-degrees: one unit is 1e-9 degree.
///
/// The binary OSM source stores coordinates as integer nano-degrees, so this
/// representation is exact; it also keeps the tile math free of rounding
/// concerns.
#[derive(Clone, Copy, Debug, PartialEq, Eq, Structural)]
pub struct Loc {
    pub nano_lat: i64,
    pub nano_lon: i64,
}

/// A node kept by the second extraction pass: only its coordinate matters.
#[derive(Clone, Copy, Debug, PartialEq, Eq, Structural)]
pub struct Node {
    pub loc: Loc,
}

/// A drivable way kept by the first extraction pass.
#[derive(Clone, Debug)]
pub struct Way {
    pub id: WayId,
    pub name: Option<String>,
    pub is_oneway: bool,
    pub nodes: Vec<NodeId>,
}

impl Way {
    /// A way that survives filtering references at least two nodes.
    pub open spec fn wf(&self) -> bool {
        self.nodes@.len() >= 2
    }
}

/// A maximal run of a way's node sequence between two cut points.
#[derive(Clone, Debug)]
pub struct Edge {
    pub from: NodeId,
    pub to: NodeId,
    pub is_oneway: bool,
    pub nodes: Vec<NodeId>,
}

impl Edge {
    /// The node list is non-empty and starts and ends at the endpoints.
    pub open spec fn wf(&self) -> bool {
        &&& self.nodes@.len() >= 1
        &&& self.from == self.nodes@[0]
        &&& self.to == self.nodes@[self.nodes@.len() - 1]
    }
}

/// The unit of spatial partitioning: the edges assigned to one quadkey.
#[derive(Clone, Debug)]
pub struct Tile {
    pub edges: Vec<Edge>,
}

impl Tile {
    /// Every edge held by the tile is well-formed.
    pub open spec fn wf(&self) -> bool {
        forall|i: int| 0 <= i < self.edges@.len() ==> (#[trigger] self.edges@[i]).wf()
    }
}

/// `a + b`, saturating at the largest `u64`.
pub open spec fn spec_sat_add(a: u64, b: u64) -> u64 {
    if a + b > u64::MAX {
        u64::MAX
    } else {
        (a + b) as u64
    }
}

/// Saturating addition for the traversal statistics.
pub fn sat_add(a: u64, b: u64) -> (r: u64)
    ensures
        r == spec_sat_add(a, b),
{
    if a > u64::MAX - b {
        u64::MAX
    } else {
        a + b
    }
}

/// Counters gathered during a traversal of the element source; merging is
/// associative and commutative, so the reduction tree shape does not matter.
#[derive(Clone, Copy, Debug, PartialEq, Eq, Structural)]
pub struct ParseStats {
    pub num_highways: u64,
    pub num_drivable: u64,
    pub num_oneways: u64,
    pub num_nodes: u64,
}

impl ParseStats {
    pub fn new() -> (s: ParseStats)
        ensures
            s == (ParseStats { num_highways: 0, num_drivable: 0, num_oneways: 0, num_nodes: 0 }),
    {
        ParseStats { num_highways: 0, num_drivable: 0, num_oneways: 0, num_nodes: 0 }
    }

    pub fn merge(self, other: Self) -> (r: Self)
        ensures
            r.num_highways == spec_sat_add(self.num_highways, other.num_highways),
            r.num_drivable == spec_sat_add(self.num_drivable, other.num_drivable),
            r.num_oneways == spec_sat_add(self.num_oneways, other.num_oneways),
            r.num_nodes == spec_sat_add(self.num_nodes, other.num_nodes),
    {
        ParseStats {
            num_highways: sat_add(self.num_highways, other.num_highways),
            num_drivable: sat_add(self.num_drivable, other.num_drivable),
            num_oneways: sat_add(self.num_oneways, other.num_oneways),
            num_nodes: sat_add(self.num_nodes, other.num_nodes),
        }
    }
}

/// The ways and node coordinates collected by the two extraction passes.
#[derive(Debug)]
pub struct RoadData {
    pub ways: Vec<Way>,
    pub nodes: Vec<(NodeId, Node)>,
}

impl RoadData {
    pub fn new() -> (d: RoadData)
        ensures
            d.ways@.len() == 0,
            d.nodes@.len() == 0,
    {
        RoadData { ways: Vec::new(), nodes: Vec::new() }
    }

    /// Concatenates two partial results; element order within the vectors is
    /// not part of the contract downstream code may rely on.
    pub fn merge(self, other: Self) -> (r: Self)
        ensures
            r.ways@ == self.ways@ + other.ways@,
            r.nodes@ == self.nodes@ + other.nodes@,
    {
        let mut ways = self.ways;
        let mut other_ways = other.ways;
        ways.append(&mut other_ways);
        let mut nodes = self.nodes;
        let mut other_nodes = other.nodes;
        nodes.append(&mut other_nodes);
        RoadData { ways, nodes }
    }
}

/// One worker's contribution to a traversal: statistics plus kept elements.
#[derive(Debug)]
pub struct PbfReaderResult {
    pub stats: ParseStats,
    pub data: RoadData,
}

impl PbfReaderResult {
    pub fn new() -> (r: PbfReaderResult)
        ensures
            r.stats == (ParseStats { num_highways: 0, num_drivable: 0, num_oneways: 0, num_nodes: 0 }),
            r.data.ways@.len() == 0,
            r.data.nodes@.len() == 0,
    {
        PbfReaderResult { stats: ParseStats::new(), data: RoadData::new() }
    }

    pub fn merge(self, other: Self) -> (r: Self)
        ensures
            r.stats.num_highways == spec_sat_add(self.stats.num_highways, other.stats.num_highways),
            r.stats.num_drivable == spec_sat_add(self.stats.num_drivable, other.stats.num_drivable),
            r.stats.num_oneways == spec_sat_add(self.stats.num_oneways, other.stats.num_oneways),
            r.stats.num_nodes == spec_sat_add(self.stats.num_nodes, other.stats.num_nodes),
            r.data.ways@ == self.data.ways@ + other.data.ways@,
            r.data.nodes@ == self.data.nodes@ + other.data.nodes@,
    {
        PbfReaderResult {
            stats: self.stats.merge(other.stats),
            data: self.data.merge(other.data),
        }
    }
}

} // verus!
