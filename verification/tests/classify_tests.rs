use osm_tiler::extract::{classify_way_tags, parse_node, parse_way};
use osm_tiler::model::{ParseStats, RoadData};
use std::collections::HashSet;

fn tags(pairs: &[(&str, &str)]) -> Vec<(String, String)> {
    pairs.iter().map(|(k, v)| (k.to_string(), v.to_string())).collect()
}

#[test]
fn drivable_highway_values_set_is_drivable() {
    let drivable = [
        "motorway",
        "trunk",
        "primary",
        "secondary",
        "tertiary",
        "unclassified",
        "residential",
        "motorway_link",
        "trunk_link",
        "primary_link",
        "secondary_link",
        "tertiary_link",
    ];
    for v in drivable {
        let a = classify_way_tags(&tags(&[("highway", v)]));
        assert!(a.is_drivable, "{} must be drivable", v);
        assert!(!a.is_oneway);
        assert!(!a.unknown_oneway);
    }
}

#[test]
fn recognized_non_drivable_values_do_not_set_is_drivable() {
    let recognized = [
        "living_street",
        "service",
        "pedestrian",
        "track",
        "bus_guideway",
        "escape",
        "raceway",
        "road",
        "busway",
    ];
    for v in recognized {
        let a = classify_way_tags(&tags(&[("highway", v)]));
        assert!(!a.is_drivable, "{} must not be drivable", v);
    }
}

#[test]
fn unknown_highway_value_is_ignored() {
    let a = classify_way_tags(&tags(&[("highway", "construction")]));
    assert!(!a.is_drivable);
    assert!(!a.unknown_oneway);
}

#[test]
fn oneway_yes_sets_flag() {
    let a = classify_way_tags(&tags(&[("highway", "primary"), ("oneway", "yes")]));
    assert!(a.is_oneway);
    assert!(!a.unknown_oneway);
}

#[test]
fn oneway_no_leaves_flag_clear() {
    let a = classify_way_tags(&tags(&[("highway", "primary"), ("oneway", "no")]));
    assert!(!a.is_oneway);
    assert!(!a.unknown_oneway);
}

#[test]
fn oneway_unexpected_value_is_reported_and_ignored() {
    let a = classify_way_tags(&tags(&[("highway", "primary"), ("oneway", "reversible")]));
    assert!(!a.is_oneway);
    assert!(a.unknown_oneway);
}

#[test]
fn name_tag_is_kept_last_wins() {
    let a = classify_way_tags(&tags(&[("name", "First"), ("name", "Second")]));
    assert_eq!(a.name, Some("Second".to_string()));
    let b = classify_way_tags(&tags(&[("highway", "primary")]));
    assert_eq!(b.name, None);
}

#[test]
fn parse_way_keeps_drivable_way() {
    let r = parse_way(7, &tags(&[("highway", "residential"), ("name", "Elm")]), &vec![1, 2, 3]);
    assert_eq!(r.data.ways.len(), 1);
    let w = &r.data.ways[0];
    assert_eq!(w.id.0, 7);
    assert!(!w.is_oneway);
    assert_eq!(w.name, Some("Elm".to_string()));
    assert_eq!(w.nodes.iter().map(|n| n.0).collect::<Vec<_>>(), vec![1, 2, 3]);
    assert_eq!(r.stats.num_highways, 1);
    assert_eq!(r.stats.num_drivable, 1);
    assert_eq!(r.stats.num_oneways, 0);
}

#[test]
fn parse_way_drops_non_drivable_way() {
    let r = parse_way(8, &tags(&[("highway", "pedestrian")]), &vec![1, 2, 3]);
    assert_eq!(r.data.ways.len(), 0);
    assert_eq!(r.stats.num_highways, 1);
    assert_eq!(r.stats.num_drivable, 0);
}

#[test]
fn parse_way_drops_degenerate_way() {
    let r = parse_way(9, &tags(&[("highway", "primary")]), &vec![1]);
    assert_eq!(r.data.ways.len(), 0);
    assert_eq!(r.stats.num_drivable, 1);
}

#[test]
fn parse_node_keeps_only_active_ids() {
    let mut active: HashSet<i64> = HashSet::new();
    active.insert(5);
    let kept = parse_node(5, 100, 200, &active);
    assert_eq!(kept.data.nodes.len(), 1);
    assert_eq!(kept.data.nodes[0].0.0, 5);
    assert_eq!(kept.data.nodes[0].1.loc.nano_lat, 100);
    assert_eq!(kept.data.nodes[0].1.loc.nano_lon, 200);
    assert_eq!(kept.stats.num_nodes, 1);
    let dropped = parse_node(6, 100, 200, &active);
    assert_eq!(dropped.data.nodes.len(), 0);
    assert_eq!(dropped.stats.num_nodes, 1);
}

#[test]
fn stats_merge_adds_counters() {
    let a = ParseStats { num_highways: 1, num_drivable: 2, num_oneways: 3, num_nodes: 4 };
    let b = ParseStats { num_highways: 10, num_drivable: 20, num_oneways: 30, num_nodes: 40 };
    let m = a.merge(b);
    assert_eq!(m.num_highways, 11);
    assert_eq!(m.num_drivable, 22);
    assert_eq!(m.num_oneways, 33);
    assert_eq!(m.num_nodes, 44);
}

#[test]
fn stats_merge_saturates() {
    let a = ParseStats { num_highways: u64::MAX, num_drivable: 0, num_oneways: 0, num_nodes: 0 };
    let b = ParseStats { num_highways: 1, num_drivable: 0, num_oneways: 0, num_nodes: 0 };
    assert_eq!(a.merge(b).num_highways, u64::MAX);
}

#[test]
fn road_data_merge_concatenates() {
    let a = parse_way(1, &tags(&[("highway", "primary")]), &vec![1, 2]);
    let b = parse_way(2, &tags(&[("highway", "trunk")]), &vec![3, 4]);
    let m = a.merge(b);
    assert_eq!(m.data.ways.len(), 2);
    assert_eq!(m.stats.num_highways, 2);
    let empty = RoadData::new();
    assert_eq!(empty.ways.len(), 0);
}
