use crate::model::{Edge, GraphError};
use vstd::prelude::*;
use vstd::string::*;

verus! {

/// A character of the relation-name alphabet `[A-Za-z0-9_]`.
pub open spec fn is_word_char(c: char) -> bool {
    ('a' <= c && c <= 'z') || ('A' <= c && c <= 'Z') || ('0' <= c && c <= '9') || c == '_'
}

/// A relation name matches `^[A-Za-z0-9_]+$`.
pub open spec fn valid_relation(s: Seq<char>) -> bool {
    s.len() > 0 && forall|i: int| 0 <= i < s.len() ==> is_word_char(#[trigger] s[i])
}

/// Statement that creates the relation record of `e`, with its weight and
/// partition bound as `$weight` and `$partition`.
pub open spec fn relate_statement(e: Edge) -> Seq<char> {
    "RELATE node:"@ + e.source@ + "->"@ + e.relation@ + "->node:"@ + e.target@
        + " SET weight = $weight, partition_id = $partition"@
}

/// Message of the failure for a refused relation name.
pub open spec fn invalid_relation_message(relation: Seq<char>) -> Seq<char> {
    "Invalid relation name: "@ + relation
}

/// Statement that overwrites the `embedding` field of node `id` with `$vector`.
pub open spec fn embedding_statement(id: Seq<char>) -> Seq<char> {
    "UPDATE node:"@ + id + " SET embedding = $vector"@
}

/// Statement that lists the outgoing relation records of node `id`.
pub open spec fn outgoing_statement(id: Seq<char>) -> Seq<char> {
    "SELECT ->? AS edges FROM node:"@ + id
}

pub fn is_word_character(c: char) -> (r: bool)
    ensures
        r == is_word_char(c),
{
    ('a' <= c && c <= 'z') || ('A' <= c && c <= 'Z') || ('0' <= c && c <= '9') || c == '_'
}

/// Whether `s` is an acceptable relation name.
pub fn is_valid_relation(s: &str) -> (r: bool)
    ensures
        r == valid_relation(s@),
{
    let n = s.unicode_len();
    if n == 0 {
        return false;
    }
    let mut i: usize = 0;
    while i < n
        invariant
            n == s@.len(),
            i <= n,
            forall|j: int| 0 <= j < i ==> is_word_char(#[trigger] s@[j]),
        decreases n - i,
    {
        if !is_word_character(s.get_char(i)) {
            return false;
        }
        i = i + 1;
    }
    true
}

/// Builds the statement that stores `edge`, after checking its relation name.
/// A refused name gives a storage failure that names it, and no statement.
pub fn relate_query(edge: &Edge) -> (r: Result<String, GraphError>)
    ensures
        valid_relation(edge.relation@) ==> (r matches Ok(q) && q@ == relate_statement(*edge)),
        !valid_relation(edge.relation@) ==> (r matches Err(GraphError::Storage(m))
            && m@ == invalid_relation_message(edge.relation@)),
{
    if !is_valid_relation(edge.relation.as_str()) {
        let mut m = String::from_str("Invalid relation name: ");
        m.append(edge.relation.as_str());
        return Err(GraphError::Storage(m));
    }
    let mut q = String::from_str("RELATE node:");
    q.append(edge.source.as_str());
    q.append("->");
    q.append(edge.relation.as_str());
    q.append("->node:");
    q.append(edge.target.as_str());
    q.append(" SET weight = $weight, partition_id = $partition");
    Ok(q)
}

/// Builds the statement that attaches an embedding to node `id`.
pub fn embedding_query(id: &str) -> (r: String)
    ensures
        r@ == embedding_statement(id@),
{
    let mut q = String::from_str("UPDATE node:");
    q.append(id);
    q.append(" SET embedding = $vector");
    q
}

/// Builds the statement that lists the outgoing relation records of node `id`.
pub fn outgoing_query(id: &str) -> (r: String)
    ensures
        r@ == outgoing_statement(id@),
{
    let mut q = String::from_str("SELECT ->? AS edges FROM node:");
    q.append(id);
    q
}

} // verus!
