use vstd::prelude::*;
use vstd::string::*;

verus! {

/// Bit pattern of the IEEE-754 single-precision value `1.0`, the weight of a
/// relation whose stored record carries none.
pub const DEFAULT_WEIGHT: u32 = 0x3F80_0000;

/// The partition given to a record whose stored form names none.
pub open spec fn default_partition_chars() -> Seq<char> {
    seq!['p', 'e', 'r', 's', 'o', 'n', 'a', 'l']
}

/// Returns a fresh `"personal"`, the default partition identifier.
pub fn default_partition() -> (r: String)
    ensures
        r@ == default_partition_chars(),
{
    let r = String::from_str("personal");
    proof {
        reveal_strlit("personal");
        assert(r@ =~= default_partition_chars());
    }
    r
}

/// Logical value of an optional stored partition: the stored one, or the default.
pub open spec fn partition_or_default(p: Option<String>) -> Seq<char> {
    match p {
        Some(s) => s@,
        None => default_partition_chars(),
    }
}

/// Logical value of an optional stored weight: the stored one, or `1.0`.
pub open spec fn weight_or_default(w: Option<u32>) -> u32 {
    match w {
        Some(x) => x,
        None => DEFAULT_WEIGHT,
    }
}

/// A vertex of the property graph.
///
/// `properties` holds the node's schemaless property map as JSON text.
#[derive(Debug, PartialEq, Eq)]
pub struct Node {
    pub id: String,
    pub label: String,
    pub properties: String,
    pub partition_id: String,
}

/// A directed, typed relation from `source` to `target`.
///
/// `weight` holds the IEEE-754 bit pattern of a single-precision weight.
#[derive(Debug, PartialEq, Eq)]
pub struct Edge {
    pub source: String,
    pub target: String,
    pub relation: String,
    pub weight: u32,
    pub partition_id: String,
}

/// Failures of the store.
#[derive(Debug, PartialEq, Eq)]
pub enum GraphError {
    /// A failure of the backing engine, or a relation name refused before any
    /// call to it; carries a readable message.
    Storage(String),
    /// No node stored under the requested id; carries that id.
    NotFound(String),
}

/// Abstract value of a node.
pub struct NodeView {
    pub id: Seq<char>,
    pub label: Seq<char>,
    pub properties: Seq<char>,
    pub partition_id: Seq<char>,
}

/// Abstract value of an edge.
pub struct EdgeView {
    pub source: Seq<char>,
    pub target: Seq<char>,
    pub relation: Seq<char>,
    pub weight: u32,
    pub partition_id: Seq<char>,
}

impl View for Node {
    type V = NodeView;

    open spec fn view(&self) -> NodeView {
        NodeView {
            id: self.id@,
            label: self.label@,
            properties: self.properties@,
            partition_id: self.partition_id@,
        }
    }
}

impl View for Edge {
    type V = EdgeView;

    open spec fn view(&self) -> EdgeView {
        EdgeView {
            source: self.source@,
            target: self.target@,
            relation: self.relation@,
            weight: self.weight,
            partition_id: self.partition_id@,
        }
    }
}

impl Node {
    /// Field-by-field copy of the node.
    pub fn duplicate(&self) -> (r: Node)
        ensures
            r@ == self@,
    {
        Node {
            id: self.id.clone(),
            label: self.label.clone(),
            properties: self.properties.clone(),
            partition_id: self.partition_id.clone(),
        }
    }
}

impl Edge {
    /// Field-by-field copy of the edge.
    pub fn duplicate(&self) -> (r: Edge)
        ensures
            r@ == self@,
    {
        Edge {
            source: self.source.clone(),
            target: self.target.clone(),
            relation: self.relation.clone(),
            weight: self.weight,
            partition_id: self.partition_id.clone(),
        }
    }
}

/// Character-wise equality of two strings.
pub fn str_equal(a: &str, b: &str) -> (r: bool)
    ensures
        r == (a@ == b@),
{
    let n = a.unicode_len();
    let m = b.unicode_len();
    if n != m {
        return false;
    }
    let mut i: usize = 0;
    while i < n
        invariant
            n == a@.len(),
            m == b@.len(),
            n == m,
            i <= n,
            forall|j: int| 0 <= j < i ==> a@[j] == b@[j],
        decreases n - i,
    {
        if a.get_char(i) != b.get_char(i) {
            return false;
        }
        i = i + 1;
    }
    proof {
        assert(a@ =~= b@);
    }
    true
}

} // verus!
