use osm_tiler::NodeId;
use osm_tiler::codec::{decode_tile, encode_tile};
use osm_tiler::model::{Edge, Tile};

fn edge(from: i64, to: i64, oneway: bool, nodes: &[i64]) -> Edge {
    Edge {
        from: NodeId(from),
        to: NodeId(to),
        is_oneway: oneway,
        nodes: nodes.iter().map(|n| NodeId(*n)).collect(),
    }
}

fn assert_tiles_equal(a: &Tile, b: &Tile) {
    assert_eq!(a.edges.len(), b.edges.len());
    for (x, y) in a.edges.iter().zip(b.edges.iter()) {
        assert_eq!(x.from, y.from);
        assert_eq!(x.to, y.to);
        assert_eq!(x.is_oneway, y.is_oneway);
        assert_eq!(x.nodes, y.nodes);
    }
}

#[test]
fn tile_round_trips_through_the_codec() {
    let tile = Tile {
        edges: vec![
            edge(1, 3, false, &[1, 2, 3]),
            edge(-7, 9, true, &[-7, 8, 9]),
            edge(5, 5, false, &[5]),
        ],
    };
    let bytes = encode_tile(&tile);
    let back = decode_tile(&bytes).expect("decoding an encoded tile");
    assert_tiles_equal(&tile, &back);
}

#[test]
fn empty_tile_round_trips() {
    let tile = Tile { edges: vec![] };
    let bytes = encode_tile(&tile);
    assert_eq!(bytes.len(), 8);
    let back = decode_tile(&bytes).expect("decoding an empty tile");
    assert_eq!(back.edges.len(), 0);
}

#[test]
fn extreme_ids_round_trip() {
    let tile = Tile { edges: vec![edge(i64::MIN, i64::MAX, true, &[i64::MIN, 0, i64::MAX])] };
    let back = decode_tile(&encode_tile(&tile)).expect("decoding");
    assert_tiles_equal(&tile, &back);
}

#[test]
fn truncated_bytes_are_rejected() {
    let tile = Tile { edges: vec![edge(1, 2, false, &[1, 2])] };
    let mut bytes = encode_tile(&tile);
    bytes.pop();
    assert!(decode_tile(&bytes).is_none());
    assert!(decode_tile(&vec![1, 2, 3]).is_none());
}

#[test]
fn trailing_bytes_are_rejected() {
    let tile = Tile { edges: vec![edge(1, 2, false, &[1, 2])] };
    let mut bytes = encode_tile(&tile);
    bytes.push(0);
    assert!(decode_tile(&bytes).is_none());
}

#[test]
fn bad_oneway_byte_is_rejected() {
    let tile = Tile { edges: vec![edge(1, 2, false, &[1, 2])] };
    let mut bytes = encode_tile(&tile);
    // The oneway byte of the first edge sits after the tile count and the two
    // endpoint ids.
    bytes[8 + 16] = 2;
    assert!(decode_tile(&bytes).is_none());
}
