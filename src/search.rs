use crate::records::RecordId;
use vstd::prelude::*;

verus! {

/// A row of a similarity search as the engine returns it: the node's id and
/// the bit pattern of its single-precision cosine score, absent for a node
/// that has no embedding.
pub struct ScoredRecord {
    pub id: RecordId,
    pub score: Option<u32>,
}

/// Abstract value of a list of search hits: node id and score bits.
pub open spec fn hits_view(s: Seq<(String, u32)>) -> Seq<(Seq<char>, u32)> {
    s.map_values(|h: (String, u32)| (h.0@, h.1))
}

/// The scored rows, in order, as node ids without table qualifier and their
/// scores; rows without a score are left out.
pub open spec fn scored_hits(rows: Seq<ScoredRecord>) -> Seq<(Seq<char>, u32)>
    decreases rows.len(),
{
    if rows.len() == 0 {
        Seq::empty()
    } else {
        let prev = scored_hits(rows.drop_last());
        match rows.last().score {
            Some(x) => prev.push((rows.last().id.key@, x)),
            None => prev,
        }
    }
}

/// The first `n` elements of `s`, or all of them where there are fewer.
pub open spec fn take_at_most<A>(s: Seq<A>, n: nat) -> Seq<A> {
    if n < s.len() {
        s.take(n as int)
    } else {
        s
    }
}

/// Shapes the engine's ranked rows into search hits: candidates without an
/// embedding are dropped, ids lose their table qualifier, the engine's order
/// is kept and at most `limit` hits are returned.
pub fn search_hits(rows: &Vec<ScoredRecord>, limit: usize) -> (r: Vec<(String, u32)>)
    ensures
        hits_view(r@) == take_at_most(scored_hits(rows@), limit as nat),
{
    let mut out: Vec<(String, u32)> = Vec::new();
    let mut i: usize = 0;
    while i < rows.len() && out.len() < limit
        invariant
            i <= rows@.len(),
            out@.len() <= limit,
            hits_view(out@) == scored_hits(rows@.subrange(0, i as int)),
        decreases rows@.len() - i,
    {
        let ghost before = out@;
        proof {
            assert(rows@.subrange(0, i + 1).drop_last() =~= rows@.subrange(0, i as int));
        }
        match rows[i].score {
            Some(x) => {
                out.push((rows[i].id.key.clone(), x));
                proof {
                    assert(hits_view(out@) =~= hits_view(before).push((rows@[i as int].id.key@, x)));
                }
            },
            None => {},
        }
        i = i + 1;
    }
    proof {
        let all = scored_hits(rows@);
        lemma_scored_prefix(rows@, i as int);
        if i == rows@.len() {
            assert(rows@.subrange(0, i as int) =~= rows@);
        } else {
            assert(out@.len() == limit);
            assert(hits_view(out@) =~= all.take(limit as int));
        }
    }
    out
}

/// The hits of a prefix of the rows are a prefix of the hits of all rows.
pub proof fn lemma_scored_prefix(rows: Seq<ScoredRecord>, i: int)
    requires
        0 <= i <= rows.len(),
    ensures
        scored_hits(rows.subrange(0, i)).len() <= scored_hits(rows).len(),
        scored_hits(rows.subrange(0, i)) == scored_hits(rows).take(
            scored_hits(rows.subrange(0, i)).len() as int,
        ),
    decreases rows.len(),
{
    if i == rows.len() {
        assert(rows.subrange(0, i) =~= rows);
        assert(scored_hits(rows).take(scored_hits(rows).len() as int) =~= scored_hits(rows));
    } else {
        let init = rows.drop_last();
        assert(init.subrange(0, i) =~= rows.subrange(0, i));
        lemma_scored_prefix(init, i);
        let a = scored_hits(init);
        let p = scored_hits(rows.subrange(0, i));
        assert(a.take(p.len() as int) =~= scored_hits(rows).take(p.len() as int));
    }
}

} // verus!
