use std::collections::HashMap;
use vstd::prelude::*;

use crate::graph::{Neighbor, SimilarityGraph};
use crate::index::{build_inverted_index, index_of, InvertedIndex};
use crate::minhash::Similarity;
use crate::record::Record;
use crate::text::{is_token_of, strings_view, tokenize};
use crate::SearchError;

verus! {

broadcast use vstd::std_specs::hash::group_hash_axioms;

/// The most neighbors reported with one result.
pub const SIMILARITY_DOC_LIMIT: usize = 5;

/// Reads a corpus into the record map and its inverted index.
pub fn build_db(records: HashMap<u32, Record>) -> (r: (HashMap<u32, Record>, InvertedIndex))
    ensures
        r.0@ == records@,
        r.1.wf(),
        r.1@ == index_of(records@),
{
    let index = build_inverted_index(&records);
    (records, index)
}

/// Some token of `query` has no entry in `index`.
pub open spec fn missing_token(index: Map<Seq<char>, Set<u32>>, query: Seq<char>) -> bool {
    exists|t: Seq<char>| is_token_of(query, t) && !index.contains_key(t)
}

/// `id` is filed under every token of `query`, and `query` has at least one token.
pub open spec fn matches_query(index: Map<Seq<char>, Set<u32>>, query: Seq<char>, id: u32) -> bool {
    &&& exists|t: Seq<char>| is_token_of(query, t)
    &&& forall|t: Seq<char>| is_token_of(query, t) ==> index.contains_key(t) && index[t].contains(id)
}

/// Whether `v` holds `x`.
fn holds(v: &Vec<u32>, x: u32) -> (r: bool)
    ensures
        r == v@.contains(x),
{
    for i in 0..v.len()
        invariant
            forall|j: int| 0 <= j < i ==> v@[j] != x,
    {
        if v[i] == x {
            return true;
        }
    }
    false
}

/// The ids of `a` that `b` holds too, in the order of `a`.
fn intersect(a: &Vec<u32>, b: &Vec<u32>) -> (r: Vec<u32>)
    requires
        a@.no_duplicates(),
    ensures
        r@.no_duplicates(),
        forall|x: u32| r@.contains(x) <==> (a@.contains(x) && b@.contains(x)),
{
    let mut out: Vec<u32> = Vec::new();
    for i in 0..a.len()
        invariant
            a@.no_duplicates(),
            out@.no_duplicates(),
            forall|x: u32| out@.contains(x) <==> (exists|j: int| 0 <= j < i && a@[j] == x) && b@.contains(x),
    {
        let x = a[i];
        if holds(b, x) {
            proof {
                assert forall|y: u32| out@.contains(y) implies y != x by {
                    let k = choose|k: int| 0 <= k < out.len() && out@[k] == y;
                    let j = choose|j: int| 0 <= j < i && a@[j] == y;
                    assert(a@[j] != a@[i as int]);
                }
            }
            let ghost before = out@;
            out.push(x);
            proof {
                assert forall|y: u32| out@.contains(y) <==> (exists|j: int| 0 <= j < i + 1 && a@[j] == y) && b@.contains(y) by {
                    if out@.contains(y) && y != x {
                        let k = choose|k: int| 0 <= k < out.len() && out@[k] == y;
                        assert(before[k] == y);
                    }
                    if y == x {
                        assert(out@[before.len() as int] == y);
                    } else if (exists|j: int| 0 <= j < i + 1 && a@[j] == y) && b@.contains(y) {
                        let k = choose|k: int| 0 <= k < before.len() && before[k] == y;
                        assert(out@[k] == y);
                    }
                }
            }
        }
    }
    proof {
        assert forall|x: u32| a@.contains(x) implies exists|j: int| 0 <= j < a.len() && a@[j] == x by {}
    }
    out
}

/// The records under every token of `query` (intersection mode), each once.
///
/// `NotFound` when a token of the query has no entry in the index. Ids whose record is
/// missing from `records` are skipped.
pub fn search_db<'a>(query: &String, inverted_index: &InvertedIndex, records: &'a HashMap<u32, Record>) -> (r: Result<Vec<&'a Record>, SearchError>)
    requires
        inverted_index.wf(),
    ensures
        r is Err <==> missing_token(inverted_index@, query@),
        r is Err ==> r == Err::<Vec<&'a Record>, SearchError>(SearchError::NotFound),
        r matches Ok(v) ==> exists|ids: Seq<u32>|
            {
                &&& ids.no_duplicates()
                &&& forall|x: u32|
                    #[trigger] ids.contains(x) <==> (matches_query(inverted_index@, query@, x) && records@.contains_key(x))
                &&& v.len() == ids.len()
                &&& forall|i: int| 0 <= i < ids.len() ==> *v@[i] == records@[#[trigger] ids[i]]
            },
{
    let ghost q = query@;
    let ghost m = inverted_index@;
    let tokens = tokenize(query);
    let mut last_set: Vec<u32> = Vec::new();
    for ti in 0..tokens.len()
        invariant
            inverted_index.wf(),
            m == inverted_index@,
            q == query@,
            strings_view(tokens@).no_duplicates(),
            forall|t: Seq<char>| strings_view(tokens@).contains(t) <==> is_token_of(q, t),
            last_set@.no_duplicates(),
            ti == 0 ==> last_set@.len() == 0,
            forall|j: int| 0 <= j < ti ==> m.contains_key(#[trigger] tokens@[j]@),
            ti > 0 ==> forall|x: u32| last_set@.contains(x) <==> forall|j: int| 0 <= j < ti ==> m[#[trigger] tokens@[j]@].contains(x),
    {
        match inverted_index.get(&tokens[ti]) {
            None => {
                proof {
                    assert(strings_view(tokens@)[ti as int] == tokens@[ti as int]@);
                    assert(strings_view(tokens@).contains(tokens@[ti as int]@));
                    assert(is_token_of(q, tokens@[ti as int]@) && !m.contains_key(tokens@[ti as int]@));
                }
                return Err(SearchError::NotFound);
            },
            Some(ids) => {
                if ti == 0 {
                    let mut copy: Vec<u32> = Vec::new();
                    for k in 0..ids.len()
                        invariant
                            copy@ == ids@.take(k as int),
                    {
                        copy.push(ids[k]);
                    }
                    assert(copy@ =~= ids@);
                    last_set = copy;
                    proof {
                        assert forall|x: u32| last_set@.contains(x) <==> forall|j: int| 0 <= j < ti + 1 ==> m[#[trigger] tokens@[j]@].contains(x) by {
                            assert(ids@.to_set().contains(x) == ids@.contains(x));
                        }
                    }
                } else {
                    let next = intersect(&last_set, ids);
                    proof {
                        assert forall|x: u32| next@.contains(x) <==> forall|j: int| 0 <= j < ti + 1 ==> m[#[trigger] tokens@[j]@].contains(x) by {
                            assert(ids@.to_set().contains(x) == ids@.contains(x));
                            if forall|j: int| 0 <= j < ti + 1 ==> m[#[trigger] tokens@[j]@].contains(x) {
                                assert(m[tokens@[ti as int]@].contains(x));
                            }
                        }
                    }
                    last_set = next;
                }
            },
        }
    }
    proof {
        assert forall|t: Seq<char>| is_token_of(q, t) implies m.contains_key(t) by {
            let j = choose|j: int| 0 <= j < tokens.len() && strings_view(tokens@)[j] == t;
            assert(tokens@[j]@ == t);
        }
        assert forall|x: u32| last_set@.contains(x) <==> matches_query(m, q, x) by {
            if tokens.len() > 0 {
                assert(strings_view(tokens@)[0] == tokens@[0]@);
                assert(is_token_of(q, tokens@[0]@));
                if last_set@.contains(x) {
                    assert forall|t: Seq<char>| is_token_of(q, t) implies m.contains_key(t) && m[t].contains(x) by {
                        let j = choose|j: int| 0 <= j < tokens.len() && strings_view(tokens@)[j] == t;
                        assert(tokens@[j]@ == t);
                        assert(m[tokens@[j]@].contains(x));
                    }
                }
                if matches_query(m, q, x) {
                    assert forall|j: int| 0 <= j < tokens.len() implies m[#[trigger] tokens@[j]@].contains(x) by {
                        assert(strings_view(tokens@)[j] == tokens@[j]@);
                        assert(strings_view(tokens@).contains(tokens@[j]@));
                        assert(is_token_of(q, tokens@[j]@));
                    }
                }
            } else {
                if exists|t: Seq<char>| is_token_of(q, t) {
                    let t = choose|t: Seq<char>| is_token_of(q, t);
                    assert(strings_view(tokens@).contains(t));
                }
                assert(!last_set@.contains(x));
            }
        }
    }
    let mut results: Vec<&'a Record> = Vec::new();
    let ghost mut ids: Seq<u32> = Seq::empty();
    for i in 0..last_set.len()
        invariant
            last_set@.no_duplicates(),
            ids.no_duplicates(),
            results.len() == ids.len(),
            forall|k: int| 0 <= k < ids.len() ==> records@.contains_key(#[trigger] ids[k]) && *results@[k] == records@[ids[k]],
            forall|x: u32| #[trigger] ids.contains(x) <==> (exists|j: int| 0 <= j < i && last_set@[j] == x) && records@.contains_key(x),
    {
        let id = last_set[i];
        match records.get(&id) {
            Some(rec) => {
                proof {
                    assert forall|y: u32| ids.contains(y) implies y != id by {
                        let j = choose|j: int| 0 <= j < i && last_set@[j] == y;
                        assert(last_set@[j] != last_set@[i as int]);
                    }
                }
                let ghost before = ids;
                results.push(rec);
                proof {
                    ids = ids.push(id);
                    assert forall|a: int, b: int| 0 <= a < b < ids.len() implies ids[a] != ids[b] by {
                        if b == before.len() {
                            assert(before.contains(ids[a]));
                        } else {
                            assert(before[a] != before[b]);
                        }
                    }
                    assert forall|y: u32| #[trigger] ids.contains(y) <==> (exists|j: int| 0 <= j < i + 1 && last_set@[j] == y) && records@.contains_key(y) by {
                        if ids.contains(y) && y != id {
                            let k = choose|k: int| 0 <= k < ids.len() && ids[k] == y;
                            assert(before[k] == y);
                            assert(before.contains(y));
                        }
                        if y == id {
                            assert(ids[before.len() as int] == y);
                            assert(last_set@[i as int] == y);
                        } else if (exists|j: int| 0 <= j < i + 1 && last_set@[j] == y) && records@.contains_key(y) {
                            let j = choose|j: int| 0 <= j < i + 1 && last_set@[j] == y;
                            assert(j < i);
                            assert(before.contains(y));
                            let k = choose|k: int| 0 <= k < before.len() && before[k] == y;
                            assert(ids[k] == y);
                        }
                    }
                    assert forall|k: int| 0 <= k < ids.len() implies records@.contains_key(#[trigger] ids[k]) && *results@[k] == records@[ids[k]] by {
                        if k < before.len() {
                            assert(ids[k] == before[k]);
                        }
                    }
                }
            },
            None => {
                proof {
                    assert forall|y: u32| #[trigger] ids.contains(y) <==> (exists|j: int| 0 <= j < i + 1 && last_set@[j] == y) && records@.contains_key(y) by {
                        if (exists|j: int| 0 <= j < i + 1 && last_set@[j] == y) && records@.contains_key(y) {
                            let j = choose|j: int| 0 <= j < i + 1 && last_set@[j] == y;
                            assert(j != i);
                        }
                    }
                }
            },
        }
    }
    proof {
        assert forall|x: u32| #[trigger] ids.contains(x) <==> (matches_query(m, q, x) && records@.contains_key(x)) by {
            if last_set@.contains(x) {
                let j = choose|j: int| 0 <= j < last_set.len() && last_set@[j] == x;
            }
        }
    }
    Ok(results)
}


/// A neighbor of a result, with its record and estimated similarity.
#[derive(Clone, Debug)]
pub struct SimilarityInfoFull {
    pub doc: Record,
    pub similarity: Similarity,
}

impl SimilarityInfoFull {
    /// A copy of the neighbor.
    pub fn duplicate(&self) -> (r: SimilarityInfoFull)
        ensures
            r == *self,
    {
        SimilarityInfoFull { doc: self.doc.duplicate(), similarity: self.similarity }
    }
}

/// One search result: a record and its first resolved neighbors.
#[derive(Clone, Debug)]
pub struct RecordResponse {
    pub data: Record,
    pub similar_docs: Vec<SimilarityInfoFull>,
}

impl View for RecordResponse {
    type V = (Record, Seq<SimilarityInfoFull>);

    open spec fn view(&self) -> (Record, Seq<SimilarityInfoFull>) {
        (self.data, self.similar_docs@)
    }
}

impl RecordResponse {
    /// A copy of the result.
    pub fn duplicate(&self) -> (r: RecordResponse)
        ensures
            r@ == self@,
    {
        let mut docs: Vec<SimilarityInfoFull> = Vec::new();
        for i in 0..self.similar_docs.len()
            invariant
                docs@ == self.similar_docs@.take(i as int),
        {
            docs.push(self.similar_docs[i].duplicate());
            assert(docs@ =~= self.similar_docs@.take(i + 1));
        }
        assert(docs@ =~= self.similar_docs@);
        RecordResponse { data: self.data.duplicate(), similar_docs: docs }
    }
}

/// The neighbors whose record exists, in order, each with its record and similarity.
pub open spec fn resolved(ns: Seq<Neighbor>, records: Map<u32, Record>, total: usize) -> Seq<SimilarityInfoFull>
    decreases ns.len(),
{
    if ns.len() == 0 {
        Seq::empty()
    } else {
        let prev = resolved(ns.drop_last(), records, total);
        let n = ns.last();
        if records.contains_key(n.doc_id) {
            prev.push(
                SimilarityInfoFull {
                    doc: records[n.doc_id],
                    similarity: Similarity { matches: n.matches, total },
                },
            )
        } else {
            prev
        }
    }
}

/// The first `SIMILARITY_DOC_LIMIT` items of `s`.
pub open spec fn limited<T>(s: Seq<T>) -> Seq<T> {
    if s.len() <= SIMILARITY_DOC_LIMIT {
        s
    } else {
        s.take(SIMILARITY_DOC_LIMIT as int)
    }
}

/// What the result for `rec` holds: the record, and the first resolved neighbors that the
/// graph lists for it.
pub open spec fn response_spec(rec: Record, graph: SimilarityGraph, records: Map<u32, Record>) -> (Record, Seq<SimilarityInfoFull>) {
    (rec, limited(resolved(graph.neighbors_of(rec.id), records, graph.signature_len)))
}

/// Builds the result for `record`: neighbors in the graph's order, those without a record
/// skipped, at most `SIMILARITY_DOC_LIMIT`.
pub fn build_response(record: &Record, graph: &SimilarityGraph, records: &HashMap<u32, Record>) -> (r: RecordResponse)
    requires
        graph.wf(),
    ensures
        r@ == response_spec(*record, *graph, records@),
{
    let ns = graph.neighbors(record.id);
    let total = graph.signature_len;
    let mut docs: Vec<SimilarityInfoFull> = Vec::new();
    for i in 0..ns.len()
        invariant
            total == graph.signature_len,
            docs@ == limited(resolved(ns@.take(i as int), records@, total)),
    {
        let n = ns[i];
        let ghost prev = resolved(ns@.take(i as int), records@, total);
        assert(ns@.take(i + 1).drop_last() =~= ns@.take(i as int));
        match records.get(&n.doc_id) {
            Some(rec) => {
                let ghost item = SimilarityInfoFull {
                    doc: records@[n.doc_id],
                    similarity: Similarity { matches: n.matches, total },
                };
                assert(resolved(ns@.take(i + 1), records@, total) == prev.push(item));
                if docs.len() < SIMILARITY_DOC_LIMIT {
                    docs.push(SimilarityInfoFull { doc: rec.duplicate(), similarity: Similarity { matches: n.matches, total } });
                    assert(docs@ =~= limited(prev.push(item)));
                } else {
                    assert(limited(prev.push(item)) =~= limited(prev));
                }
            },
            None => {
                assert(resolved(ns@.take(i + 1), records@, total) == prev);
            },
        }
    }
    assert(ns@.take(ns@.len() as int) =~= ns@);
    RecordResponse { data: record.duplicate(), similar_docs: docs }
}

/// `v` is the result list of a search for `query`: one result per matching record that
/// exists, each once, and at least one.
pub open spec fn is_search_result(v: Seq<RecordResponse>, index: InvertedIndex, graph: SimilarityGraph, records: Map<u32, Record>, query: Seq<char>) -> bool {
    exists|ids: Seq<u32>|
        {
            &&& ids.no_duplicates()
            &&& ids.len() > 0
            &&& forall|x: u32|
                #[trigger] ids.contains(x) <==> (matches_query(index@, query, x) && records.contains_key(x))
            &&& v.len() == ids.len()
            &&& forall|i: int| 0 <= i < ids.len() ==> (#[trigger] v[i])@ == response_spec(records[ids[i]], graph, records)
        }
}

/// Searches in intersection mode and builds a result for each matching record.
///
/// `NotFound` when a query token has no entry, or when no record matches.
pub fn search(query: &String, inverted_index: &InvertedIndex, graph: &SimilarityGraph, records: &HashMap<u32, Record>) -> (r: Result<Vec<RecordResponse>, SearchError>)
    requires
        inverted_index.wf(),
        graph.wf(),
    ensures
        r is Err ==> r == Err::<Vec<RecordResponse>, SearchError>(SearchError::NotFound),
        r is Err <==> (missing_token(inverted_index@, query@) || !exists|x: u32|
            matches_query(inverted_index@, query@, x) && records@.contains_key(x)),
        r is Err <==> !exists|v: Seq<RecordResponse>| is_search_result(v, *inverted_index, *graph, records@, query@),
        r matches Ok(v) ==> is_search_result(v@, *inverted_index, *graph, records@, query@),
{
    let found = search_db(query, inverted_index, records);
    match found {
        Err(e) => {
            proof {
                assert forall|v: Seq<RecordResponse>| !is_search_result(v, *inverted_index, *graph, records@, query@) by {
                    if is_search_result(v, *inverted_index, *graph, records@, query@) {
                        let ids2 = choose|ids2: Seq<u32>|
                            {
                                &&& ids2.no_duplicates()
                                &&& ids2.len() > 0
                                &&& forall|x: u32|
                                    #[trigger] ids2.contains(x) <==> (matches_query(inverted_index@, query@, x) && records@.contains_key(x))
                                &&& v.len() == ids2.len()
                                &&& forall|i: int| 0 <= i < ids2.len() ==> (#[trigger] v[i])@ == response_spec(records@[ids2[i]], *graph, records@)
                            };
                        assert(ids2.contains(ids2[0]));
                        let t = choose|t: Seq<char>| is_token_of(query@, t) && !inverted_index@.contains_key(t);
                    }
                }
            }
            Err(e)
        },
        Ok(recs) => {
            let ghost ids = choose|ids: Seq<u32>|
                {
                    &&& ids.no_duplicates()
                    &&& forall|x: u32|
                        #[trigger] ids.contains(x) <==> (matches_query(inverted_index@, query@, x) && records@.contains_key(x))
                    &&& recs.len() == ids.len()
                    &&& forall|i: int| 0 <= i < ids.len() ==> *recs@[i] == records@[#[trigger] ids[i]]
                };
            if recs.len() == 0 {
                proof {
                    if exists|x: u32| matches_query(inverted_index@, query@, x) && records@.contains_key(x) {
                        let x = choose|x: u32| matches_query(inverted_index@, query@, x) && records@.contains_key(x);
                        assert(ids.contains(x));
                    }
                }
                proof {
                    assert forall|v: Seq<RecordResponse>| !is_search_result(v, *inverted_index, *graph, records@, query@) by {
                        if is_search_result(v, *inverted_index, *graph, records@, query@) {
                            let ids2 = choose|ids2: Seq<u32>|
                                {
                                    &&& ids2.no_duplicates()
                                    &&& ids2.len() > 0
                                    &&& forall|x: u32|
                                        #[trigger] ids2.contains(x) <==> (matches_query(inverted_index@, query@, x) && records@.contains_key(x))
                                    &&& v.len() == ids2.len()
                                    &&& forall|i: int| 0 <= i < ids2.len() ==> (#[trigger] v[i])@ == response_spec(records@[ids2[i]], *graph, records@)
                                };
                            assert(ids2.contains(ids2[0]));
                            assert(ids.contains(ids2[0]));
                        }
                    }
                }
                return Err(SearchError::NotFound);
            }
            proof {
                assert(ids.contains(ids[0]));
            }
            let mut out: Vec<RecordResponse> = Vec::new();
            for i in 0..recs.len()
                invariant
                    graph.wf(),
                    recs.len() == ids.len(),
                    forall|k: int| 0 <= k < ids.len() ==> *recs@[k] == records@[#[trigger] ids[k]],
                    out.len() == i,
                    forall|k: int| 0 <= k < i ==> (#[trigger] out@[k])@ == response_spec(records@[ids[k]], *graph, records@),
            {
                let resp = build_response(recs[i], graph, records);
                out.push(resp);
            }
            proof {
                assert(ids.len() > 0);
                assert(is_search_result(out@, *inverted_index, *graph, records@, query@));
                assert(!missing_token(inverted_index@, query@));
            }
            Ok(out)
        },
    }
}

} // verus!
