use robert_graph::model::{default_partition, str_equal, Edge, GraphError, Node, DEFAULT_WEIGHT};
use robert_graph::neighbors::{
    after_listing, after_relations, assemble_neighbors, contains_key, find_node, relation_ids,
    target_ids, NeighborStep,
};
use robert_graph::partition::{neighbors_in_partition, nodes_in_partition};
use robert_graph::records::{
    node_from_record, node_lookup_result, node_record, NodeRecord, RecordId, RelationGroup,
    RelationRecord,
};
use robert_graph::relation::{
    embedding_query, is_valid_relation, is_word_character, outgoing_query, relate_query,
};
use robert_graph::search::{search_hits, ScoredRecord};

fn rid(table: &str, key: &str) -> RecordId {
    RecordId { table: table.to_string(), key: key.to_string() }
}

fn node(id: &str, label: &str, properties: &str, partition: &str) -> Node {
    Node {
        id: id.to_string(),
        label: label.to_string(),
        properties: properties.to_string(),
        partition_id: partition.to_string(),
    }
}

fn stored(n: &Node) -> NodeRecord {
    node_record(n)
}

fn relation(
    table: &str,
    key: &str,
    source: &str,
    target: &str,
    weight: Option<f32>,
    partition: Option<&str>,
) -> RelationRecord {
    RelationRecord {
        id: rid(table, key),
        source: rid("node", source),
        target: rid("node", target),
        weight: weight.map(|w| w.to_bits()),
        partition_id: partition.map(|p| p.to_string()),
    }
}

fn alice() -> Node {
    node("p1", "Person", "{\"name\":\"Alice\"}", "personal")
}

fn bob() -> Node {
    node("p2", "Person", "{\"name\":\"Bob\"}", "work")
}

#[test]
fn relation_names_follow_the_word_alphabet() {
    assert!(is_valid_relation("knows"));
    assert!(is_valid_relation("has_part_2"));
    assert!(is_valid_relation("_"));
    assert!(is_valid_relation("ABC09"));
    assert!(!is_valid_relation(""));
    assert!(!is_valid_relation("knows-about"));
    assert!(!is_valid_relation("knows about"));
    assert!(!is_valid_relation("knows;DELETE node"));
    assert!(!is_valid_relation("kennt\u{e4}"));
    assert!(!is_valid_relation("\u{661}"));
    assert!(is_word_character('z'));
    assert!(!is_word_character(':'));
}

#[test]
fn relate_query_for_a_valid_edge() {
    let edge = Edge {
        source: "p1".to_string(),
        target: "p2".to_string(),
        relation: "knows".to_string(),
        weight: 0.8f32.to_bits(),
        partition_id: "personal".to_string(),
    };
    let q = relate_query(&edge).unwrap();
    assert_eq!(
        q,
        "RELATE node:p1->knows->node:p2 SET weight = $weight, partition_id = $partition"
    );
}

#[test]
fn relate_query_refuses_a_bad_relation_name() {
    let edge = Edge {
        source: "p1".to_string(),
        target: "p2".to_string(),
        relation: "knows->node:p3 ; x".to_string(),
        weight: 1.0f32.to_bits(),
        partition_id: "personal".to_string(),
    };
    assert_eq!(
        relate_query(&edge),
        Err(GraphError::Storage("Invalid relation name: knows->node:p3 ; x".to_string()))
    );
    let empty = Edge { relation: String::new(), ..edge };
    assert_eq!(
        relate_query(&empty),
        Err(GraphError::Storage("Invalid relation name: ".to_string()))
    );
}

#[test]
fn statement_texts() {
    assert_eq!(embedding_query("doc1"), "UPDATE node:doc1 SET embedding = $vector");
    assert_eq!(outgoing_query("p1"), "SELECT ->? AS edges FROM node:p1");
}

#[test]
fn node_round_trip_keeps_every_field() {
    let n = alice();
    let rec = stored(&n);
    assert_eq!(rec.id.table, "node");
    assert_eq!(rec.id.key, "p1");
    assert_eq!(node_from_record(&rec), n);
    let copy = n.duplicate();
    assert_eq!(copy, n);
}

#[test]
fn missing_partition_defaults_to_personal() {
    let rec = NodeRecord {
        id: rid("node", "x"),
        label: "Thing".to_string(),
        properties: "{}".to_string(),
        partition_id: None,
    };
    let n = node_from_record(&rec);
    assert_eq!(n.partition_id, "personal");
    assert_eq!(default_partition(), "personal");
    assert_eq!(DEFAULT_WEIGHT, 1.0f32.to_bits());
}

#[test]
fn node_lookup_result_found_and_not_found() {
    let n = bob();
    assert_eq!(node_lookup_result("p2", Some(stored(&n))), Ok(n));
    assert_eq!(
        node_lookup_result("p9", None),
        Err(GraphError::NotFound("p9".to_string()))
    );
}

#[test]
fn no_outgoing_relations_finishes_after_the_listing() {
    match after_listing(&Vec::new()) {
        NeighborStep::Finished(v) => assert!(v.is_empty()),
        _ => panic!("expected no further request"),
    }
    let groups = vec![
        RelationGroup { relation: "knows".to_string(), ids: Vec::new() },
        RelationGroup { relation: "likes".to_string(), ids: Vec::new() },
    ];
    match after_listing(&groups) {
        NeighborStep::Finished(v) => assert!(v.is_empty()),
        _ => panic!("expected no further request"),
    }
    match after_relations(&Vec::new()) {
        NeighborStep::Finished(v) => assert!(v.is_empty()),
        _ => panic!("expected no further request"),
    }
}

#[test]
fn listing_is_flattened_across_relation_types() {
    let groups = vec![
        RelationGroup {
            relation: "knows".to_string(),
            ids: vec![rid("knows", "a"), rid("knows", "b")],
        },
        RelationGroup { relation: "likes".to_string(), ids: vec![rid("likes", "c")] },
    ];
    let ids = relation_ids(&groups);
    let keys: Vec<(String, String)> = ids.iter().map(|r| (r.table.clone(), r.key.clone())).collect();
    assert_eq!(
        keys,
        vec![
            ("knows".to_string(), "a".to_string()),
            ("knows".to_string(), "b".to_string()),
            ("likes".to_string(), "c".to_string()),
        ]
    );
    match after_listing(&groups) {
        NeighborStep::FetchRelations(v) => assert_eq!(v.len(), 3),
        _ => panic!("expected a batched relation fetch"),
    }
}

#[test]
fn targets_are_fetched_once_each() {
    let rels = vec![
        relation("knows", "a", "p1", "p2", Some(0.5), None),
        relation("likes", "b", "p1", "p3", None, None),
        relation("likes", "c", "p1", "p2", None, None),
    ];
    let targets = target_ids(&rels);
    let keys: Vec<String> = targets.iter().map(|r| r.key.clone()).collect();
    assert_eq!(keys, vec!["p2".to_string(), "p3".to_string()]);
    assert!(contains_key(&targets, &"p3".to_string()));
    assert!(!contains_key(&targets, &"p1".to_string()));
    match after_relations(&rels) {
        NeighborStep::FetchTargets(v) => assert_eq!(v.len(), 2),
        _ => panic!("expected a batched target fetch"),
    }
}

#[test]
fn graph_scenario_two_people_one_edge() {
    let p1 = alice();
    let p2 = bob();
    let groups = vec![RelationGroup {
        relation: "knows".to_string(),
        ids: vec![rid("knows", "r1")],
    }];
    match after_listing(&groups) {
        NeighborStep::FetchRelations(v) => {
            assert_eq!(v.len(), 1);
            assert_eq!(v[0].table, "knows");
        }
        _ => panic!("expected a batched relation fetch"),
    }
    let rels = vec![relation("knows", "r1", "p1", "p2", Some(0.8), Some("personal"))];
    match after_relations(&rels) {
        NeighborStep::FetchTargets(v) => {
            assert_eq!(v.len(), 1);
            assert_eq!(v[0].key, "p2");
        }
        _ => panic!("expected a batched target fetch"),
    }
    let nodes = vec![stored(&p2)];
    let neighbors = assemble_neighbors("p1", &rels, &nodes);
    assert_eq!(neighbors.len(), 1);
    let (edge, target) = &neighbors[0];
    assert_eq!(edge.relation, "knows");
    assert_eq!(f32::from_bits(edge.weight), 0.8);
    assert_eq!(edge.partition_id, "personal");
    assert_eq!(edge.source, "p1");
    assert_eq!(edge.target, "p2");
    assert_eq!(target, &p2);

    let all = vec![stored(&p1), stored(&p2)];
    let personal = nodes_in_partition(&all, "personal");
    assert_eq!(personal, vec![p1.duplicate()]);
    let work = nodes_in_partition(&all, "work");
    assert_eq!(work, vec![p2.duplicate()]);
    assert!(nodes_in_partition(&all, "person").is_empty());
}

#[test]
fn dangling_targets_are_dropped_and_defaults_apply() {
    let rels = vec![
        relation("knows", "a", "node_p1", "p2", None, None),
        relation("likes", "b", "node_p1", "gone", Some(0.3), Some("work")),
    ];
    let nodes = vec![stored(&bob())];
    let neighbors = assemble_neighbors("p1", &rels, &nodes);
    assert_eq!(neighbors.len(), 1);
    let (edge, target) = &neighbors[0];
    assert_eq!(edge.source, "p1");
    assert_eq!(edge.weight, 1.0f32.to_bits());
    assert_eq!(edge.partition_id, "personal");
    assert_eq!(target.id, "p2");
}

#[test]
fn find_node_takes_the_first_match() {
    let first = node("k", "A", "{}", "personal");
    let second = node("k", "B", "{}", "work");
    let nodes = vec![stored(&first), stored(&second)];
    assert_eq!(find_node(&nodes, &"k".to_string()), Some(first));
    assert_eq!(find_node(&nodes, &"z".to_string()), None);
}

#[test]
fn partition_scoped_neighbors_need_both_sides_in_the_partition() {
    let rels = vec![
        relation("knows", "a", "p1", "p2", None, Some("work")),
        relation("knows", "b", "p1", "p3", None, Some("work")),
        relation("knows", "c", "p1", "p2", None, Some("personal")),
    ];
    let nodes = vec![stored(&bob()), stored(&node("p3", "Person", "{}", "personal"))];
    let all = assemble_neighbors("p1", &rels, &nodes);
    assert_eq!(all.len(), 3);
    let work = neighbors_in_partition(&all, "work");
    assert_eq!(work.len(), 1);
    assert_eq!(work[0].0.target, "p2");
    assert_eq!(work[0].0.partition_id, "work");
    let personal = neighbors_in_partition(&all, "personal");
    assert!(personal.is_empty());
}

#[test]
fn vector_scenario_one_document() {
    let rows = vec![ScoredRecord { id: rid("node", "doc1"), score: Some(1.0f32.to_bits()) }];
    let hits = search_hits(&rows, 1);
    assert_eq!(hits.len(), 1);
    assert_eq!(hits[0].0, "doc1");
    assert!((f32::from_bits(hits[0].1) - 1.0).abs() < 0.001);
}

#[test]
fn search_hits_skip_unembedded_and_respect_the_limit() {
    let rows = vec![
        ScoredRecord { id: rid("node", "a"), score: Some(0.9f32.to_bits()) },
        ScoredRecord { id: rid("node", "b"), score: None },
        ScoredRecord { id: rid("node", "c"), score: Some(0.5f32.to_bits()) },
        ScoredRecord { id: rid("node", "d"), score: Some(0.1f32.to_bits()) },
    ];
    let two = search_hits(&rows, 2);
    assert_eq!(
        two,
        vec![("a".to_string(), 0.9f32.to_bits()), ("c".to_string(), 0.5f32.to_bits())]
    );
    assert_eq!(search_hits(&rows, 10).len(), 3);
    assert!(search_hits(&rows, 0).is_empty());
}

#[test]
fn string_equality_by_characters() {
    assert!(str_equal("work", "work"));
    assert!(!str_equal("work", "works"));
    assert!(!str_equal("work", "wore"));
    assert!(str_equal("", ""));
}
