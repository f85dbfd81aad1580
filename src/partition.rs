use crate::model::{str_equal, EdgeView, Edge, Node, NodeView};
use crate::neighbors::pairs_view;
use crate::records::{node_from_record, record_node, NodeRecord};
use vstd::prelude::*;

verus! {

/// Both the edge and the target node of the pair lie in partition `p`.
pub open spec fn pair_in(p: Seq<char>) -> spec_fn((EdgeView, NodeView)) -> bool {
    |x: (EdgeView, NodeView)| x.0.partition_id == p && x.1.partition_id == p
}

/// The node lies in partition `p`.
pub open spec fn node_in(p: Seq<char>) -> spec_fn(NodeView) -> bool {
    |n: NodeView| n.partition_id == p
}

/// Abstract value of a list of nodes.
pub open spec fn nodes_view(s: Seq<Node>) -> Seq<NodeView> {
    s.map_values(|n: Node| n@)
}

/// The nodes that a list of stored records stands for.
pub open spec fn records_view(s: Seq<NodeRecord>) -> Seq<NodeView> {
    s.map_values(|r: NodeRecord| record_node(r))
}

/// Keeps the neighbor pairs whose edge and target node both lie in
/// `partition_id`, in order.
pub fn neighbors_in_partition(pairs: &Vec<(Edge, Node)>, partition_id: &str) -> (r: Vec<(Edge, Node)>)
    ensures
        pairs_view(r@) == pairs_view(pairs@).filter(pair_in(partition_id@)),
{
    let ghost f = pair_in(partition_id@);
    let mut out: Vec<(Edge, Node)> = Vec::new();
    let mut i: usize = 0;
    while i < pairs.len()
        invariant
            i <= pairs@.len(),
            f == pair_in(partition_id@),
            pairs_view(out@) == pairs_view(pairs@.subrange(0, i as int)).filter(f),
        decreases pairs@.len() - i,
    {
        let ghost before = out@;
        let ghost sub1 = pairs_view(pairs@.subrange(0, i + 1));
        proof {
            assert(sub1.drop_last() =~= pairs_view(pairs@.subrange(0, i as int)));
            assert(sub1.last() == (pairs@[i as int].0@, pairs@[i as int].1@));
            reveal(Seq::filter);
        }
        let (e, n) = &pairs[i];
        if str_equal(e.partition_id.as_str(), partition_id) && str_equal(
            n.partition_id.as_str(),
            partition_id,
        ) {
            out.push((e.duplicate(), n.duplicate()));
            proof {
                assert(pairs_view(out@) =~= pairs_view(before).push(sub1.last()));
            }
        }
        i = i + 1;
    }
    proof {
        assert(pairs@.subrange(0, pairs@.len() as int) =~= pairs@);
    }
    out
}

/// The nodes that the fetched records stand for, keeping those whose
/// partition equals `partition_id`, in order.
pub fn nodes_in_partition(records: &Vec<NodeRecord>, partition_id: &str) -> (r: Vec<Node>)
    ensures
        nodes_view(r@) == records_view(records@).filter(node_in(partition_id@)),
{
    let ghost f = node_in(partition_id@);
    let mut out: Vec<Node> = Vec::new();
    let mut i: usize = 0;
    while i < records.len()
        invariant
            i <= records@.len(),
            f == node_in(partition_id@),
            nodes_view(out@) == records_view(records@.subrange(0, i as int)).filter(f),
        decreases records@.len() - i,
    {
        let ghost before = out@;
        let ghost sub1 = records_view(records@.subrange(0, i + 1));
        proof {
            assert(sub1.drop_last() =~= records_view(records@.subrange(0, i as int)));
            assert(sub1.last() == record_node(records@[i as int]));
            reveal(Seq::filter);
        }
        let n = node_from_record(&records[i]);
        if str_equal(n.partition_id.as_str(), partition_id) {
            out.push(n);
            proof {
                assert(nodes_view(out@) =~= nodes_view(before).push(sub1.last()));
            }
        }
        i = i + 1;
    }
    proof {
        assert(records@.subrange(0, records@.len() as int) =~= records@);
    }
    out
}

/// The partition-scoped neighbors are exactly the neighbor pairs whose edge
/// and target node both lie in the partition: a subset of all neighbors.
pub proof fn lemma_neighbors_in_partition_exact(pairs: Seq<(EdgeView, NodeView)>, p: Seq<char>)
    ensures
        forall|x: (EdgeView, NodeView)| #[trigger]
            pairs.filter(pair_in(p)).contains(x) <==> (pairs.contains(x) && x.0.partition_id == p
                && x.1.partition_id == p),
{
    broadcast use Seq::lemma_filter_contains_rev, Seq::lemma_filter_pred, Seq::lemma_filter_contains;

    assert forall|x: (EdgeView, NodeView)| #[trigger]
        pairs.filter(pair_in(p)).contains(x) implies pairs.contains(x) && x.0.partition_id == p
            && x.1.partition_id == p by {
        let s = pairs.filter(pair_in(p));
        let i = choose|i: int| 0 <= i < s.len() && s[i] == x;
        assert(pair_in(p)(s[i]));
    }
    assert forall|x: (EdgeView, NodeView)|
        pairs.contains(x) && x.0.partition_id == p && x.1.partition_id == p implies #[trigger]
            pairs.filter(pair_in(p)).contains(x) by {
        let i = choose|i: int| 0 <= i < pairs.len() && pairs[i] == x;
        assert(pair_in(p)(pairs[i]));
    }
}

/// A partition query returns exactly the stored nodes whose partition equals
/// the one asked for; a node of another partition is never among them.
pub proof fn lemma_partition_query_exact(records: Seq<NodeRecord>, p: Seq<char>)
    ensures
        forall|n: NodeView| #[trigger]
            records_view(records).filter(node_in(p)).contains(n) <==> (records_view(
                records,
            ).contains(n) && n.partition_id == p),
{
    broadcast use Seq::lemma_filter_contains_rev, Seq::lemma_filter_pred, Seq::lemma_filter_contains;

    let all = records_view(records);
    assert forall|n: NodeView| #[trigger]
        all.filter(node_in(p)).contains(n) implies all.contains(n) && n.partition_id == p by {
        let s = all.filter(node_in(p));
        let i = choose|i: int| 0 <= i < s.len() && s[i] == n;
        assert(node_in(p)(s[i]));
    }
    assert forall|n: NodeView| all.contains(n) && n.partition_id == p implies #[trigger]
        all.filter(node_in(p)).contains(n) by {
        let i = choose|i: int| 0 <= i < all.len() && all[i] == n;
        assert(node_in(p)(all[i]));
    }
}

} // verus!
