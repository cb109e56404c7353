use osm_tiler::NodeId;
use osm_tiler::model::Edge;
use osm_tiler::tilemap::ParallelQuadkeyMap;
use osm_tiler::tiling::Quadkey;
use std::collections::HashMap;

fn edge(from: i64, to: i64) -> Edge {
    Edge { from: NodeId(from), to: NodeId(to), is_oneway: false, nodes: vec![NodeId(from), NodeId(to)] }
}

fn qk(x: u32, y: u32) -> Quadkey {
    Quadkey { zoom: 7, x, y }
}

#[test]
fn inserting_into_one_quadkey_grows_one_tile() {
    let map = ParallelQuadkeyMap::new();
    map.insert(qk(1, 2), edge(1, 2));
    map.insert(qk(1, 2), edge(2, 3));
    map.insert(qk(3, 4), edge(4, 5));
    let mut tiles = map.collect();
    tiles.sort_by_key(|(q, _)| (q.x, q.y));
    assert_eq!(tiles.len(), 2);
    assert_eq!(tiles[0].0, qk(1, 2));
    assert_eq!(tiles[0].1.edges.len(), 2);
    assert_eq!(tiles[1].0, qk(3, 4));
    assert_eq!(tiles[1].1.edges.len(), 1);
}

#[test]
fn collect_on_untouched_map_is_empty() {
    let map = ParallelQuadkeyMap::new();
    assert_eq!(map.collect().len(), 0);
}

#[test]
fn quadkeys_in_collect_are_distinct() {
    let map = ParallelQuadkeyMap::new();
    for i in 0..50u32 {
        map.insert(qk(i % 10, i / 10), edge(i as i64, i as i64 + 1));
    }
    let tiles = map.collect();
    assert_eq!(tiles.len(), 50);
    for i in 0..tiles.len() {
        for j in 0..tiles.len() {
            if i != j {
                assert_ne!(tiles[i].0, tiles[j].0);
            }
        }
    }
}

#[test]
fn concurrent_inserts_lose_no_edge() {
    // Many threads hammer the map; afterwards every edge is present exactly
    // once, in the tile its quadkey named.
    let map = ParallelQuadkeyMap::new();
    let threads = 8;
    let per_thread = 500i64;
    rayon::scope(|s| {
        for t in 0..threads {
            let map_ref = &map;
            s.spawn(move |_| {
                for i in 0..per_thread {
                    let id = t as i64 * per_thread + i;
                    // Spread the edges over 16 quadkeys by id.
                    let x = (id % 4) as u32;
                    let y = ((id / 4) % 4) as u32;
                    map_ref.insert(qk(x, y), edge(id, id + 1));
                }
            });
        }
    });
    let tiles = map.collect();
    let total: usize = tiles.iter().map(|(_, tile)| tile.edges.len()).sum();
    assert_eq!(total, (threads as i64 * per_thread) as usize);
    // Every edge sits in the tile its id implies, and each id appears once.
    let by_key: HashMap<(u32, u32), &osm_tiler::model::Tile> =
        tiles.iter().map(|(q, tile)| ((q.x, q.y), tile)).collect();
    let mut seen = vec![false; (threads as i64 * per_thread) as usize];
    for ((x, y), tile) in &by_key {
        for e in &tile.edges {
            let id = e.from.0;
            assert_eq!((id % 4) as u32, *x);
            assert_eq!(((id / 4) % 4) as u32, *y);
            assert!(!seen[id as usize], "edge {} appeared twice", id);
            seen[id as usize] = true;
        }
    }
    assert!(seen.iter().all(|b| *b));
}
