//! Extraction of a routable road graph from OpenStreetMap data, and its
//! partitioning into spatial tiles keyed by quadkeys.
//!
//! The crate holds the verified core of the pipeline: way classification,
//! active-node filtering, intersection detection, way-to-edge splitting,
//! geodetic tile math, the concurrent quadkey map that buckets edges into
//! tiles, and the binary tile encoding. Reading the binary OSM source and
//! writing tile files are left to the surrounding application.

use vstd::prelude::*;

pub mod codec;
pub mod extract;
pub mod graph;
pub mod model;
pub mod tilemap;
pub mod tiling;

verus! {

/// Identifier of an OSM node.
#[derive(Clone, Copy, Debug, PartialEq, Eq, Hash, Structural)]
pub struct NodeId(pub i64);

/// Identifier of an OSM way.
#[derive(Clone, Copy, Debug, PartialEq, Eq, Hash, Structural)]
pub struct WayId(pub i64);

} // verus!
