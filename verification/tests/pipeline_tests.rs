use osm_tiler::codec::{decode_tile, encode_tile};
use osm_tiler::extract::{parse_node, parse_way};
use osm_tiler::graph::{NodeTable, collect_active_nodes, find_intersections, split_way_into_edges};
use osm_tiler::model::PbfReaderResult;
use osm_tiler::tilemap::ParallelQuadkeyMap;
use osm_tiler::tiling::Quadkey;

const ZOOM: u8 = 7;

/// The floored, unclamped Web-Mercator tile row for a latitude in degrees:
/// the one floating-point step of tile resolution, performed outside the
/// library and handed in as a plain integer.
fn mercator_row(lat: f64, zoom: u8) -> u64 {
    let lr = lat.to_radians();
    let n = (1u64 << zoom) as f64;
    let y = (1.0 - (lr.tan() + 1.0 / lr.cos()).ln() / std::f64::consts::PI) / 2.0 * n;
    if y < 0.0 { 0 } else { y.floor() as u64 }
}

fn nano(deg: f64) -> i64 {
    (deg * 1e9).round() as i64
}

#[test]
fn tiny_extract_end_to_end() {
    // Two drivable ways sharing node 3, six nodes in all, clustered so every
    // coordinate falls in the same zoom-7 tile.
    let coords: [(i64, f64, f64); 6] = [
        (1, 59.30, 18.05),
        (2, 59.31, 18.06),
        (3, 59.32, 18.07),
        (4, 59.33, 18.08),
        (5, 59.34, 18.09),
        (6, 59.35, 18.10),
    ];
    let tags = vec![("highway".to_string(), "residential".to_string())];

    // Pass 1: keep the drivable ways.
    let pass1 = [
        parse_way(100, &tags, &vec![1, 2, 3]),
        parse_way(200, &tags, &vec![3, 4, 5, 6]),
    ]
    .into_iter()
    .fold(PbfReaderResult::new(), |a, b| a.merge(b));
    assert_eq!(pass1.data.ways.len(), 2);
    assert_eq!(pass1.stats.num_highways, 2);

    // Pass 2: keep exactly the referenced nodes.
    let active = collect_active_nodes(&pass1.data.ways);
    let pass2 = coords
        .iter()
        .map(|(id, lat, lon)| parse_node(*id, nano(*lat), nano(*lon), &active))
        .fold(PbfReaderResult::new(), |a, b| a.merge(b));
    assert_eq!(pass2.data.nodes.len(), 6);
    assert_eq!(pass2.stats.num_nodes, 6);

    let table = NodeTable::build(&pass2.data.nodes);
    let inter = find_intersections(&pass1.data.ways);
    assert!(inter.contains(&3));

    // Split and bucket the edges by the tile of their first node.
    let map = ParallelQuadkeyMap::new();
    let mut emitted = 0usize;
    for way in &pass1.data.ways {
        for edge in split_way_into_edges(way, &inter) {
            let loc = table.get(*edge.nodes.first().unwrap()).unwrap();
            let lat_deg = loc.nano_lat as f64 * 1e-9;
            let row = mercator_row(lat_deg, ZOOM);
            let tile = osm_tiler::tiling::tile_coord_for_loc(&loc, ZOOM, row).unwrap();
            map.insert(Quadkey::from_tile_coord(&tile), edge);
            emitted += 1;
        }
    }
    // Way 100 contributes its run up to the shared node; way 200 starts at
    // the shared node and ends in a dead end, so it contributes nothing.
    assert_eq!(emitted, 1);

    let tiles = map.collect();
    assert_eq!(tiles.len(), 1);
    let (quadkey, tile) = &tiles[0];
    assert_eq!(quadkey.digits().len(), ZOOM as usize);
    assert_eq!(tile.edges.len(), 1);
    assert_eq!(tile.edges[0].from.0, 1);
    assert_eq!(tile.edges[0].to.0, 3);

    // The serialized tile decodes back to what was written.
    let bytes = encode_tile(tile);
    let back = decode_tile(&bytes).expect("tile file decodes");
    assert_eq!(back.edges.len(), 1);
    assert_eq!(back.edges[0].from, tile.edges[0].from);
    assert_eq!(back.edges[0].to, tile.edges[0].to);
    assert_eq!(back.edges[0].is_oneway, tile.edges[0].is_oneway);
    assert_eq!(back.edges[0].nodes, tile.edges[0].nodes);
}
