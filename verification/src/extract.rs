//! The two extraction passes over the element source: classifying a way's
//! tags and keeping drivable ways, and keeping the nodes the active set
//! references.

use vstd::prelude::*;
use vstd::string::StringExecFns;
use std::collections::HashSet;
use crate::{NodeId, WayId};
use crate::model::{Loc, Node, ParseStats, PbfReaderResult, RoadData, Way};

verus! {

broadcast use vstd::std_specs::hash::group_hash_axioms, vstd::string::group_string_axioms;

/// A `highway` value that marks a way as drivable: the main road classes and
/// their link variants.
pub open spec fn drivable_highway_value(v: Seq<char>) -> bool {
    ||| v == "motorway"@
    ||| v == "trunk"@
    ||| v == "primary"@
    ||| v == "secondary"@
    ||| v == "tertiary"@
    ||| v == "unclassified"@
    ||| v == "residential"@
    ||| v == "motorway_link"@
    ||| v == "trunk_link"@
    ||| v == "primary_link"@
    ||| v == "secondary_link"@
    ||| v == "tertiary_link"@
}

/// Some tag is `highway` with a drivable value.
pub open spec fn tags_drivable(tags: Seq<(String, String)>) -> bool {
    exists|i: int|
        0 <= i < tags.len() && (#[trigger] tags[i]).0@ == "highway"@ && drivable_highway_value(
            tags[i].1@,
        )
}

/// Some tag is `oneway=yes`.
pub open spec fn tags_oneway(tags: Seq<(String, String)>) -> bool {
    exists|i: int| 0 <= i < tags.len() && (#[trigger] tags[i]).0@ == "oneway"@ && tags[i].1@ == "yes"@
}

/// Some tag is `oneway` with a value other than `yes` or `no` — reported to
/// the caller so it can log the unexpected value; otherwise ignored.
pub open spec fn tags_unknown_oneway(tags: Seq<(String, String)>) -> bool {
    exists|i: int|
        0 <= i < tags.len() && (#[trigger] tags[i]).0@ == "oneway"@ && tags[i].1@ != "yes"@
            && tags[i].1@ != "no"@
}

/// The way's name: the value of the last `name` tag, if any.
pub open spec fn tags_name(tags: Seq<(String, String)>) -> Option<Seq<char>>
    decreases tags.len(),
{
    if tags.len() == 0 {
        None
    } else if tags.last().0@ == "name"@ {
        Some(tags.last().1@)
    } else {
        tags_name(tags.drop_last())
    }
}

/// An optional string carries exactly an optional character sequence.
pub open spec fn name_matches(n: Option<String>, m: Option<Seq<char>>) -> bool {
    match (n, m) {
        (Some(s), Some(t)) => s@ == t,
        (None, None) => true,
        _ => false,
    }
}

/// What classifying a way's tags yields.
pub struct WayAttributes {
    pub is_drivable: bool,
    pub is_oneway: bool,
    pub unknown_oneway: bool,
    pub name: Option<String>,
}

/// `s` equals the literal `lit`.
fn string_is(s: &String, lit: &str) -> (r: bool)
    ensures
        r == (s@ == lit@),
{
    let owned: String = lit.to_owned();
    *s == owned
}

/// Classifies a way's tags: drivable highway class, oneway flag, name, and
/// whether an unexpected `oneway` value occurred. Unknown `highway` values
/// are ignored without failing.
pub fn classify_way_tags(tags: &Vec<(String, String)>) -> (a: WayAttributes)
    ensures
        a.is_drivable == tags_drivable(tags@),
        a.is_oneway == tags_oneway(tags@),
        a.unknown_oneway == tags_unknown_oneway(tags@),
        name_matches(a.name, tags_name(tags@)),
{
    let mut is_drivable = false;
    let mut is_oneway = false;
    let mut unknown_oneway = false;
    let mut name: Option<String> = None;
    let n = tags.len();
    for idx in 0..n
        invariant
            n == tags@.len(),
            is_drivable == tags_drivable(tags@.take(idx as int)),
            is_oneway == tags_oneway(tags@.take(idx as int)),
            unknown_oneway == tags_unknown_oneway(tags@.take(idx as int)),
            name_matches(name, tags_name(tags@.take(idx as int))),
    {
        let key = &tags[idx].0;
        let value = &tags[idx].1;
        if string_is(key, "highway") {
            if string_is(value, "motorway") || string_is(value, "trunk") || string_is(
                value,
                "primary",
            ) || string_is(value, "secondary") || string_is(value, "tertiary") || string_is(
                value,
                "unclassified",
            ) || string_is(value, "residential") || string_is(value, "motorway_link")
                || string_is(value, "trunk_link") || string_is(value, "primary_link")
                || string_is(value, "secondary_link") || string_is(value, "tertiary_link") {
                is_drivable = true;
            }
        } else if string_is(key, "name") {
            name = Some(value.clone());
        } else if string_is(key, "oneway") {
            if string_is(value, "yes") {
                is_oneway = true;
            } else if string_is(value, "no") {
            } else {
                unknown_oneway = true;
            }
        }
        proof {
            reveal_strlit("highway");
            reveal_strlit("name");
            reveal_strlit("oneway");
            reveal_strlit("yes");
            reveal_strlit("no");
            let prefix = tags@.take(idx as int);
            let grown = tags@.take(idx as int + 1);
            assert(grown.drop_last() =~= prefix);
            assert(grown.last() == tags@[idx as int]);
            assert(grown[idx as int] == tags@[idx as int]);
            assert forall|i: int| 0 <= i < prefix.len() implies grown[i] == prefix[i] by {}
            if tags_drivable(prefix) {
                let i = choose|i: int|
                    0 <= i < prefix.len() && (#[trigger] prefix[i]).0@ == "highway"@
                        && drivable_highway_value(prefix[i].1@);
                assert((grown[i]).0@ == "highway"@ && drivable_highway_value(grown[i].1@));
            }
            if tags_oneway(prefix) {
                let i = choose|i: int|
                    0 <= i < prefix.len() && (#[trigger] prefix[i]).0@ == "oneway"@
                        && prefix[i].1@ == "yes"@;
                assert((grown[i]).0@ == "oneway"@ && grown[i].1@ == "yes"@);
            }
            if tags_unknown_oneway(prefix) {
                let i = choose|i: int|
                    0 <= i < prefix.len() && (#[trigger] prefix[i]).0@ == "oneway"@
                        && prefix[i].1@ != "yes"@ && prefix[i].1@ != "no"@;
                assert((grown[i]).0@ == "oneway"@ && grown[i].1@ != "yes"@ && grown[i].1@
                    != "no"@);
            }
            if tags_drivable(grown) && !tags_drivable(prefix) {
                let i = choose|i: int|
                    0 <= i < grown.len() && (#[trigger] grown[i]).0@ == "highway"@
                        && drivable_highway_value(grown[i].1@);
                if i < idx as int {
                    assert(prefix[i] == grown[i]);
                }
            }
            if tags_oneway(grown) && !tags_oneway(prefix) {
                let i = choose|i: int|
                    0 <= i < grown.len() && (#[trigger] grown[i]).0@ == "oneway"@ && grown[i].1@
                        == "yes"@;
                if i < idx as int {
                    assert(prefix[i] == grown[i]);
                }
            }
            if tags_unknown_oneway(grown) && !tags_unknown_oneway(prefix) {
                let i = choose|i: int|
                    0 <= i < grown.len() && (#[trigger] grown[i]).0@ == "oneway"@ && grown[i].1@
                        != "yes"@ && grown[i].1@ != "no"@;
                if i < idx as int {
                    assert(prefix[i] == grown[i]);
                }
            }
            assert("oneway"@.len() == 6);
            assert("highway"@.len() == 7);
            assert("yes"@.len() == 3);
            assert("no"@.len() == 2);
            assert("name"@.len() == 4);
            assert("oneway"@ != "highway"@ && "oneway"@ != "name"@ && "yes"@ != "no"@);
        }
    }
    proof {
        assert(tags@.take(n as int) =~= tags@);
    }
    WayAttributes { is_drivable, is_oneway, unknown_oneway, name }
}

/// Classifies one way element and keeps it if it is drivable.
///
/// A drivable way with fewer than two node references is degenerate: it is
/// dropped rather than kept, and it still counts in the statistics so the
/// caller can report it.
pub fn parse_way(way_id: i64, tags: &Vec<(String, String)>, refs: &Vec<i64>) -> (r:
    PbfReaderResult)
    ensures
        r.stats.num_highways == 1,
        r.stats.num_nodes == 0,
        r.stats.num_drivable == if tags_drivable(tags@) { 1u64 } else { 0u64 },
        r.stats.num_oneways == if tags_oneway(tags@) { 1u64 } else { 0u64 },
        r.data.nodes@.len() == 0,
        tags_drivable(tags@) && refs@.len() >= 2 ==> {
            &&& r.data.ways@.len() == 1
            &&& r.data.ways@[0].id.0 == way_id
            &&& r.data.ways@[0].is_oneway == tags_oneway(tags@)
            &&& name_matches(r.data.ways@[0].name, tags_name(tags@))
            &&& crate::graph::ids_of(r.data.ways@[0].nodes@) == refs@
            &&& r.data.ways@[0].wf()
        },
        !(tags_drivable(tags@) && refs@.len() >= 2) ==> r.data.ways@.len() == 0,
{
    let attrs = classify_way_tags(tags);
    let mut ways: Vec<Way> = Vec::new();
    if attrs.is_drivable && refs.len() >= 2 {
        let mut nodes: Vec<NodeId> = Vec::new();
        let m = refs.len();
        for i in 0..m
            invariant
                m == refs@.len(),
                nodes@.len() == i,
                crate::graph::ids_of(nodes@) == refs@.take(i as int),
        {
            nodes.push(NodeId(refs[i]));
            proof {
                assert(crate::graph::ids_of(nodes@) =~= refs@.take(i as int + 1));
            }
        }
        proof {
            assert(refs@.take(m as int) =~= refs@);
        }
        let way = Way { id: WayId(way_id), name: attrs.name, is_oneway: attrs.is_oneway, nodes };
        ways.push(way);
    }
    PbfReaderResult {
        stats: ParseStats {
            num_highways: 1,
            num_drivable: if attrs.is_drivable {
                1
            } else {
                0
            },
            num_oneways: if attrs.is_oneway {
                1
            } else {
                0
            },
            num_nodes: 0,
        },
        data: RoadData { ways, nodes: Vec::new() },
    }
}

/// Keeps one node element exactly when the active set references its id.
pub fn parse_node(node_id: i64, nano_lat: i64, nano_lon: i64, active: &HashSet<i64>) -> (r:
    PbfReaderResult)
    ensures
        r.stats.num_highways == 0,
        r.stats.num_drivable == 0,
        r.stats.num_oneways == 0,
        r.stats.num_nodes == 1,
        r.data.ways@.len() == 0,
        active@.contains(node_id) ==> {
            &&& r.data.nodes@.len() == 1
            &&& r.data.nodes@[0].0.0 == node_id
            &&& r.data.nodes@[0].1.loc == (Loc { nano_lat, nano_lon })
        },
        !active@.contains(node_id) ==> r.data.nodes@.len() == 0,
{
    let mut nodes: Vec<(NodeId, Node)> = Vec::new();
    if active.contains(&node_id) {
        nodes.push((NodeId(node_id), Node { loc: Loc { nano_lat, nano_lon } }));
    }
    PbfReaderResult {
        stats: ParseStats { num_highways: 0, num_drivable: 0, num_oneways: 0, num_nodes: 1 },
        data: RoadData { ways: Vec::new(), nodes },
    }
}

} // verus!
