use crate::model::{
    partition_or_default, weight_or_default, Edge, EdgeView, Node, NodeView,
};
use crate::records::{
    holds_node, node_from_record, record_node, NodeRecord, RecordId,
    RelationGroup, RelationRecord,
};
use vstd::prelude::*;

verus! {

/// Abstract value of a list of neighbor pairs.
pub open spec fn pairs_view(s: Seq<(Edge, Node)>) -> Seq<(EdgeView, NodeView)> {
    s.map_values(|p: (Edge, Node)| (p.0@, p.1@))
}

/// Abstract value of a list of record ids.
pub open spec fn ids_view(s: Seq<RecordId>) -> Seq<(Seq<char>, Seq<char>)> {
    s.map_values(|r: RecordId| r@)
}

/// All relation record ids of the listing, group after group, in order.
pub open spec fn flatten_groups(groups: Seq<RelationGroup>) -> Seq<(Seq<char>, Seq<char>)>
    decreases groups.len(),
{
    if groups.len() == 0 {
        Seq::empty()
    } else {
        flatten_groups(groups.drop_last()) + ids_view(groups.last().ids@)
    }
}

/// The first fetched node whose key is `key`, as the node it stands for.
pub open spec fn lookup_node(nodes: Seq<NodeRecord>, key: Seq<char>) -> Option<NodeView>
    decreases nodes.len(),
{
    if nodes.len() == 0 {
        None
    } else if nodes[0].id.key@ == key {
        Some(record_node(nodes[0]))
    } else {
        lookup_node(nodes.drop_first(), key)
    }
}

/// The edge that relation record `r` stands for, seen from the queried node
/// `source`: its type is the table of the record's own id, and absent weight
/// and partition take their defaults.
pub open spec fn relation_edge(source: Seq<char>, r: RelationRecord) -> EdgeView {
    EdgeView {
        source,
        target: r.target.key@,
        relation: r.id.table@,
        weight: weight_or_default(r.weight),
        partition_id: partition_or_default(r.partition_id),
    }
}

/// The neighbor pairs of `source`: one per fetched relation, in order, each
/// with its target node; relations whose target was not fetched are dropped.
pub open spec fn resolve(
    source: Seq<char>,
    rels: Seq<RelationRecord>,
    nodes: Seq<NodeRecord>,
) -> Seq<(EdgeView, NodeView)>
    decreases rels.len(),
{
    if rels.len() == 0 {
        Seq::empty()
    } else {
        let prev = resolve(source, rels.drop_last(), nodes);
        match lookup_node(nodes, rels.last().target.key@) {
            Some(n) => prev.push((relation_edge(source, rels.last()), n)),
            None => prev,
        }
    }
}

/// No two ids of `ids` share a key.
pub open spec fn keys_distinct(ids: Seq<RecordId>) -> bool {
    forall|i: int, j: int| 0 <= i < j < ids.len() ==> (#[trigger] ids[i]).key@ != (#[trigger] ids[j]).key@
}

/// Some id of `ids` has key `key`.
pub open spec fn has_key(ids: Seq<RecordId>, key: Seq<char>) -> bool {
    exists|i: int| 0 <= i < ids.len() && (#[trigger] ids[i]).key@ == key
}

/// Some relation of `rels` points at `id`.
pub open spec fn has_target(rels: Seq<RelationRecord>, id: (Seq<char>, Seq<char>)) -> bool {
    exists|j: int| 0 <= j < rels.len() && (#[trigger] rels[j]).target@ == id
}

/// Every id of `ids` is the target of some relation.
pub open spec fn all_from_targets(ids: Seq<RecordId>, rels: Seq<RelationRecord>) -> bool {
    forall|i: int| 0 <= i < ids.len() ==> has_target(rels, #[trigger] ids[i]@)
}

/// The key of every relation's target is among `ids`.
pub open spec fn targets_covered(ids: Seq<RecordId>, rels: Seq<RelationRecord>) -> bool {
    forall|j: int| 0 <= j < rels.len() ==> has_key(ids, (#[trigger] rels[j]).target.key@)
}

/// `ids` is the batch of targets to fetch for `rels`: each target once.
pub open spec fn target_batch(ids: Seq<RecordId>, rels: Seq<RelationRecord>) -> bool {
    &&& keys_distinct(ids)
    &&& all_from_targets(ids, rels)
    &&& targets_covered(ids, rels)
}

/// What the caller does next while resolving the neighbors of a node.
pub enum NeighborStep {
    /// Fetch these relation records in one batched request.
    FetchRelations(Vec<RecordId>),
    /// Fetch these target nodes in one batched request.
    FetchTargets(Vec<RecordId>),
    /// Resolution is over, with these pairs.
    Finished(Vec<(Edge, Node)>),
}

/// Flattens the listing of outgoing relations, grouped by type, into one list.
pub fn relation_ids(groups: &Vec<RelationGroup>) -> (r: Vec<RecordId>)
    ensures
        ids_view(r@) == flatten_groups(groups@),
{
    let mut out: Vec<RecordId> = Vec::new();
    let mut g: usize = 0;
    while g < groups.len()
        invariant
            g <= groups@.len(),
            ids_view(out@) == flatten_groups(groups@.subrange(0, g as int)),
        decreases groups@.len() - g,
    {
        let ids = &groups[g].ids;
        let ghost before = ids_view(out@);
        let mut i: usize = 0;
        while i < ids.len()
            invariant
                i <= ids@.len(),
                ids == groups@[g as int].ids,
                ids_view(out@) == before + ids_view(ids@.subrange(0, i as int)),
            decreases ids@.len() - i,
        {
            let ghost prev = out@;
            out.push(ids[i].duplicate());
            proof {
                assert(ids@.subrange(0, i + 1) =~= ids@.subrange(0, i as int).push(ids@[i as int]));
                assert(ids_view(out@) =~= ids_view(prev).push(ids@[i as int]@));
                assert(ids_view(ids@.subrange(0, i + 1)) =~= ids_view(ids@.subrange(0, i as int)).push(ids@[i as int]@));
                assert(ids_view(out@) =~= before + ids_view(ids@.subrange(0, i + 1)));
            }
            i = i + 1;
        }
        proof {
            assert(ids@.subrange(0, ids@.len() as int) =~= ids@);
            assert(groups@.subrange(0, g + 1).drop_last() =~= groups@.subrange(0, g as int));
        }
        g = g + 1;
    }
    proof {
        assert(groups@.subrange(0, groups@.len() as int) =~= groups@);
    }
    out
}

/// Whether some id of `ids` has key `key`.
pub fn contains_key(ids: &Vec<RecordId>, key: &String) -> (r: bool)
    ensures
        r == has_key(ids@, key@),
{
    let mut i: usize = 0;
    while i < ids.len()
        invariant
            i <= ids@.len(),
            forall|j: int| 0 <= j < i ==> (#[trigger] ids@[j]).key@ != key@,
        decreases ids@.len() - i,
    {
        if ids[i].key == *key {
            return true;
        }
        i = i + 1;
    }
    false
}

/// The distinct targets of the relations, each once, in order of first use.
pub fn target_ids(rels: &Vec<RelationRecord>) -> (r: Vec<RecordId>)
    ensures
        target_batch(r@, rels@),
{
    let mut out: Vec<RecordId> = Vec::new();
    let mut k: usize = 0;
    while k < rels.len()
        invariant
            k <= rels@.len(),
            keys_distinct(out@),
            all_from_targets(out@, rels@),
            targets_covered(out@, rels@.subrange(0, k as int)),
        decreases rels@.len() - k,
    {
        let t = &rels[k].target;
        let ghost sub = rels@.subrange(0, k as int);
        let ghost sub1 = rels@.subrange(0, k + 1);
        proof {
            assert(sub1 =~= sub.push(rels@[k as int]));
        }
        if !contains_key(&out, &t.key) {
            let ghost old_out = out@;
            out.push(t.duplicate());
            proof {
                assert forall|i: int| 0 <= i < out@.len() implies has_target(rels@, #[trigger] out@[i]@) by {
                    if i == out@.len() - 1 {
                        assert(rels@[k as int].target@ == out@[i]@);
                    } else {
                        assert(out@[i] == old_out[i]);
                    }
                }
                assert forall|j: int| 0 <= j < sub1.len() implies has_key(out@, (#[trigger] sub1[j]).target.key@) by {
                    if j == k {
                        assert(out@[out@.len() - 1].key@ == sub1[j].target.key@);
                    } else {
                        assert(sub1[j] == sub[j]);
                        let i0 = choose|i: int| 0 <= i < old_out.len() && (#[trigger] old_out[i]).key@ == sub[j].target.key@;
                        assert(out@[i0] == old_out[i0]);
                    }
                }
            }
        } else {
            proof {
                assert forall|j: int| 0 <= j < sub1.len() implies has_key(out@, (#[trigger] sub1[j]).target.key@) by {
                    if j < k {
                        assert(sub1[j] == sub[j]);
                    }
                }
            }
        }
        k = k + 1;
    }
    proof {
        assert(rels@.subrange(0, rels@.len() as int) =~= rels@);
    }
    out
}

/// The first fetched node keyed `key`, reconstructed.
pub fn find_node(nodes: &Vec<NodeRecord>, key: &String) -> (r: Option<Node>)
    ensures
        match lookup_node(nodes@, key@) {
            Some(v) => r matches Some(n) && n@ == v,
            None => r is None,
        },
{
    let mut i: usize = 0;
    proof {
        assert(nodes@.subrange(0, nodes@.len() as int) =~= nodes@);
    }
    while i < nodes.len()
        invariant
            i <= nodes@.len(),
            lookup_node(nodes@, key@) == lookup_node(nodes@.subrange(i as int, nodes@.len() as int), key@),
        decreases nodes@.len() - i,
    {
        proof {
            let rest = nodes@.subrange(i as int, nodes@.len() as int);
            assert(rest.drop_first() =~= nodes@.subrange(i + 1, nodes@.len() as int));
            assert(rest[0] == nodes@[i as int]);
        }
        if nodes[i].id.key == *key {
            return Some(node_from_record(&nodes[i]));
        }
        i = i + 1;
    }
    None
}

/// Pairs each fetched relation with its fetched target; `source` is the
/// queried node, which every returned edge names as its source.
pub fn assemble_neighbors(source: &str, rels: &Vec<RelationRecord>, nodes: &Vec<NodeRecord>) -> (r:
    Vec<(Edge, Node)>)
    ensures
        pairs_view(r@) == resolve(source@, rels@, nodes@),
{
    let mut out: Vec<(Edge, Node)> = Vec::new();
    let mut k: usize = 0;
    while k < rels.len()
        invariant
            k <= rels@.len(),
            pairs_view(out@) == resolve(source@, rels@.subrange(0, k as int), nodes@),
        decreases rels@.len() - k,
    {
        let rel = &rels[k];
        proof {
            assert(rels@.subrange(0, k + 1).drop_last() =~= rels@.subrange(0, k as int));
            assert(rels@.subrange(0, k + 1).last() == rel);
        }
        match find_node(nodes, &rel.target.key) {
            Some(n) => {
                let weight = match rel.weight {
                    Some(w) => w,
                    None => crate::model::DEFAULT_WEIGHT,
                };
                let partition_id = match &rel.partition_id {
                    Some(p) => p.clone(),
                    None => crate::model::default_partition(),
                };
                let edge = Edge {
                    source: source.to_owned(),
                    target: rel.target.key.clone(),
                    relation: rel.id.table.clone(),
                    weight,
                    partition_id,
                };
                let ghost old_out = out@;
                out.push((edge, n));
                proof {
                    assert(pairs_view(out@) =~= pairs_view(old_out).push(
                        (relation_edge(source@, *rel), record_node_of(nodes@, rel.target.key@)),
                    ));
                }
            },
            None => {},
        }
        k = k + 1;
    }
    proof {
        assert(rels@.subrange(0, rels@.len() as int) =~= rels@);
    }
    out
}

/// The node that the lookup of `key` found.
pub open spec fn record_node_of(nodes: Seq<NodeRecord>, key: Seq<char>) -> NodeView {
    lookup_node(nodes, key)->Some_0
}

/// Decision after the listing: nothing more to ask where the node has no
/// outgoing relation, else one batched fetch of all relation records.
pub fn after_listing(groups: &Vec<RelationGroup>) -> (r: NeighborStep)
    ensures
        flatten_groups(groups@).len() == 0 ==> (r matches NeighborStep::Finished(v) && v@.len()
            == 0),
        flatten_groups(groups@).len() > 0 ==> (r matches NeighborStep::FetchRelations(ids)
            && ids_view(ids@) == flatten_groups(groups@)),
{
    let ids = relation_ids(groups);
    if ids.len() == 0 {
        NeighborStep::Finished(Vec::new())
    } else {
        NeighborStep::FetchRelations(ids)
    }
}

/// Decision after the relation records came back: nothing more to ask where
/// none resolved, else one batched fetch of their distinct targets.
pub fn after_relations(rels: &Vec<RelationRecord>) -> (r: NeighborStep)
    ensures
        rels@.len() == 0 ==> (r matches NeighborStep::Finished(v) && v@.len() == 0),
        rels@.len() > 0 ==> (r matches NeighborStep::FetchTargets(ids) && target_batch(ids@, rels@)),
{
    if rels.len() == 0 {
        NeighborStep::Finished(Vec::new())
    } else {
        NeighborStep::FetchTargets(target_ids(rels))
    }
}

/// `r` is the relation record that storing edge `e` writes: its table is the
/// relation type, it links the two endpoint keys, and it carries the weight
/// and the partition.
pub open spec fn holds_edge(r: RelationRecord, e: EdgeView) -> bool {
    &&& r.id.table@ == e.relation
    &&& r.source.key@ == e.source
    &&& r.target.key@ == e.target
    &&& r.weight == Some(e.weight)
    &&& r.partition_id matches Some(p) && p@ == e.partition_id
}

/// Where exactly one fetched record has key `n.id` and it holds `n`, the
/// lookup of that key gives `n`.
pub proof fn lemma_lookup_unique(nodes: Seq<NodeRecord>, n: NodeView, i: int)
    requires
        0 <= i < nodes.len(),
        holds_node(nodes[i], n),
        forall|j: int| 0 <= j < nodes.len() && (#[trigger] nodes[j]).id.key@ == n.id ==> j == i,
    ensures
        lookup_node(nodes, n.id) == Some(n),
    decreases nodes.len(),
{
    if i > 0 {
        let rest = nodes.drop_first();
        assert forall|j: int| 0 <= j < rest.len() && (#[trigger] rest[j]).id.key@ == n.id implies j
            == i - 1 by {
            assert(rest[j] == nodes[j + 1]);
        }
        assert(nodes[0].id.key@ != n.id);
        lemma_lookup_unique(rest, n, i - 1);
    }
}

/// Every fetched relation whose target was fetched gives its pair.
pub proof fn lemma_resolve_contains(
    source: Seq<char>,
    rels: Seq<RelationRecord>,
    nodes: Seq<NodeRecord>,
    k: int,
    n: NodeView,
)
    requires
        0 <= k < rels.len(),
        lookup_node(nodes, rels[k].target.key@) == Some(n),
    ensures
        resolve(source, rels, nodes).contains((relation_edge(source, rels[k]), n)),
    decreases rels.len(),
{
    let prev = resolve(source, rels.drop_last(), nodes);
    if k == rels.len() - 1 {
        let s = resolve(source, rels, nodes);
        assert(s == prev.push((relation_edge(source, rels.last()), n)));
        assert(s[s.len() - 1] == (relation_edge(source, rels[k]), n));
    } else {
        assert(rels.drop_last()[k] == rels[k]);
        lemma_resolve_contains(source, rels.drop_last(), nodes, k, n);
        let x = (relation_edge(source, rels[k]), n);
        let i = choose|i: int| 0 <= i < prev.len() && prev[i] == x;
        let s = resolve(source, rels, nodes);
        match lookup_node(nodes, rels.last().target.key@) {
            Some(m) => {
                assert(s[i] == x);
            },
            None => {
                assert(s[i] == x);
            },
        }
    }
}

/// After an edge `e` is stored, resolving the neighbors of its source from
/// fetched relations that include its record, and fetched nodes in which its
/// target `t` is stored once, yields the pair of `e` (relation, weight and
/// partition as given) and `t`.
pub proof fn lemma_added_edge_is_neighbor(
    e: EdgeView,
    t: NodeView,
    rels: Seq<RelationRecord>,
    nodes: Seq<NodeRecord>,
    k: int,
    i: int,
)
    requires
        t.id == e.target,
        0 <= k < rels.len(),
        holds_edge(rels[k], e),
        0 <= i < nodes.len(),
        holds_node(nodes[i], t),
        forall|j: int| 0 <= j < nodes.len() && (#[trigger] nodes[j]).id.key@ == t.id ==> j == i,
    ensures
        resolve(e.source, rels, nodes).contains((e, t)),
{
    lemma_lookup_unique(nodes, t, i);
    lemma_resolve_contains(e.source, rels, nodes, k, t);
    assert(relation_edge(e.source, rels[k]) == e);
}

} // verus!
