use crate::model::{
    default_partition, partition_or_default, GraphError, Node, NodeView,
};
use vstd::prelude::*;
use vstd::string::*;

verus! {

/// The engine's key of a record: the table it lives in, and the key within it.
pub struct RecordId {
    pub table: String,
    pub key: String,
}

impl View for RecordId {
    type V = (Seq<char>, Seq<char>);

    open spec fn view(&self) -> (Seq<char>, Seq<char>) {
        (self.table@, self.key@)
    }
}

impl RecordId {
    /// Field-by-field copy.
    pub fn duplicate(&self) -> (r: RecordId)
        ensures
            r@ == self@,
    {
        RecordId { table: self.table.clone(), key: self.key.clone() }
    }
}

/// Name of the table that holds the nodes.
pub open spec fn node_table() -> Seq<char> {
    seq!['n', 'o', 'd', 'e']
}

/// A node record as the engine returns it; the partition may be absent.
pub struct NodeRecord {
    pub id: RecordId,
    pub label: String,
    pub properties: String,
    pub partition_id: Option<String>,
}

/// A relation record as the engine returns it. The table of its own id is
/// the relation type; weight and partition may be absent.
pub struct RelationRecord {
    pub id: RecordId,
    pub source: RecordId,
    pub target: RecordId,
    pub weight: Option<u32>,
    pub partition_id: Option<String>,
}

/// The outgoing relation records of one relation type.
pub struct RelationGroup {
    pub relation: String,
    pub ids: Vec<RecordId>,
}

/// The node that a stored record stands for: its key with the table
/// qualifier dropped, and the default partition where none is stored.
pub open spec fn record_node(rec: NodeRecord) -> NodeView {
    NodeView {
        id: rec.id.key@,
        label: rec.label@,
        properties: rec.properties@,
        partition_id: partition_or_default(rec.partition_id),
    }
}

/// `rec` is the record that storing node `n` writes.
pub open spec fn holds_node(rec: NodeRecord, n: NodeView) -> bool {
    &&& rec.id@ == (node_table(), n.id)
    &&& rec.label@ == n.label
    &&& rec.properties@ == n.properties
    &&& rec.partition_id matches Some(p) && p@ == n.partition_id
}

/// Reconstructs the node that a stored record stands for.
pub fn node_from_record(rec: &NodeRecord) -> (r: Node)
    ensures
        r@ == record_node(*rec),
{
    let partition_id = match &rec.partition_id {
        Some(p) => p.clone(),
        None => default_partition(),
    };
    Node {
        id: rec.id.key.clone(),
        label: rec.label.clone(),
        properties: rec.properties.clone(),
        partition_id,
    }
}

/// The record that stores `n` in the node table, keyed by its id.
pub fn node_record(n: &Node) -> (r: NodeRecord)
    ensures
        holds_node(r, n@),
{
    let table = String::from_str("node");
    proof {
        reveal_strlit("node");
        assert(table@ =~= node_table());
    }
    NodeRecord {
        id: RecordId { table, key: n.id.clone() },
        label: n.label.clone(),
        properties: n.properties.clone(),
        partition_id: Some(n.partition_id.clone()),
    }
}

/// Storing a node and reading its record back gives the same node: label,
/// properties and partition are kept, and the id comes back without the
/// table qualifier.
pub proof fn lemma_node_round_trip(n: Node, rec: NodeRecord)
    requires
        holds_node(rec, n@),
    ensures
        record_node(rec) == n@,
{
}

/// Result of reading node `id`: the node its record stands for, or
/// `NotFound` naming `id` where the engine had no record.
pub fn node_lookup_result(id: &str, found: Option<NodeRecord>) -> (r: Result<Node, GraphError>)
    ensures
        found matches Some(rec) ==> (r matches Ok(n) && n@ == record_node(rec)),
        found is None ==> (r matches Err(GraphError::NotFound(m)) && m@ == id@),
{
    match found {
        Some(rec) => Ok(node_from_record(&rec)),
        None => Err(GraphError::NotFound(id.to_owned())),
    }
}

} // verus!
