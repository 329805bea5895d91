use std::collections::HashMap;
use vstd::prelude::*;

use crate::graph::{build_similarity_graph, neighbors_spec, sigs_view, uniform_len, SimilarityGraph, Threshold};
use crate::minhash::{family_wf, generate_minhash_signature, is_signature, HashFunction};
use crate::record::{db_string, Record};
use crate::text::{is_shingle_of, shingle, strings_view};

verus! {

broadcast use vstd::std_specs::hash::group_hash_axioms;

/// The set of windows of `k` characters of `s`.
pub open spec fn shingle_set(s: Seq<char>, k: nat) -> Set<Seq<char>> {
    Set::new(|t: Seq<char>| is_shingle_of(s, k, t))
}

/// The documents of a graph, in the order of its entries.
pub open spec fn graph_ids(g: SimilarityGraph) -> Seq<u32> {
    g.entries@.map_values(|e: crate::graph::GraphEntry| e.doc_id)
}

/// Builds the similarity graph of a corpus: each record's SQL value text is cut into
/// shingles of `shingle_size` characters, signed once under `hash_funcs`, and compared with
/// every record, itself included.
pub fn compute_similarities(
    records: &HashMap<u32, Record>,
    shingle_size: usize,
    hash_funcs: &Vec<HashFunction>,
    threshold: Threshold,
) -> (r: SimilarityGraph)
    requires
        family_wf(hash_funcs@),
    ensures
        r.wf(),
        r.entries.len() == records@.len(),
        r.signature_len == if records@.len() > 0 { hash_funcs.len() } else { 0 },
        forall|k: u32| records@.contains_key(k) <==> graph_ids(r).contains(k),
        exists|sigs: Seq<Seq<u64>>|
            {
                &&& sigs.len() == r.entries.len()
                &&& forall|i: int|
                    0 <= i < sigs.len() ==> is_signature(
                        #[trigger] sigs[i],
                        shingle_set(db_string(records@[graph_ids(r)[i]]), shingle_size as nat),
                        hash_funcs@,
                    )
                &&& forall|i: int|
                    0 <= i < sigs.len() ==> (#[trigger] r.entries@[i]).neighbors@ == neighbors_spec(
                        graph_ids(r),
                        sigs,
                        threshold,
                        i,
                        sigs.len() as int,
                    )
            },
{
    let ghost m = records@;
    let mut ids: Vec<u32> = Vec::new();
    let mut sigs: Vec<Vec<u64>> = Vec::new();
    for pair in it: records.iter()
        invariant
            family_wf(hash_funcs@),
            m == records@,
            it.seq().len() == m.dom().len(),
            it.seq().no_duplicates(),
            forall|i: int| 0 <= i < it.seq().len() ==> m.contains_key(*(#[trigger] it.seq()[i]).0)
                && m[*it.seq()[i].0] == *it.seq()[i].1,
            forall|k: u32| #[trigger] m.contains_key(k) ==> it.seq().contains((&k, &m[k])),
            ids.len() == it.index(),
            sigs.len() == it.index(),
            forall|j: int| 0 <= j < ids.len() ==> #[trigger] ids@[j] == *it.seq()[j].0,
            forall|j: int| 0 <= j < ids.len() ==> m.contains_key(#[trigger] ids@[j]),
            ids@.no_duplicates(),
            forall|j: int|
                0 <= j < sigs.len() ==> is_signature(
                    (#[trigger] sigs@[j])@,
                    shingle_set(db_string(m[ids@[j]]), shingle_size as nat),
                    hash_funcs@,
                ),
            it.index() == it.seq().len() ==> forall|k: u32| #[trigger] m.contains_key(k) ==> ids@.contains(k),
    {
        let id = *pair.0;
        let rec = pair.1;
        let ghost n = it.index();
        let text = rec.to_db_string();
        let sh = shingle(&text, shingle_size);
        proof {
            assert(strings_view(sh@).to_set() =~= shingle_set(db_string(m[id]), shingle_size as nat));
            assert forall|j: int| 0 <= j < ids.len() implies ids@[j] != id by {
                if ids@[j] == id {
                    assert(it.seq()[j] == it.seq()[n]);
                }
            }
        }
        let sig = generate_minhash_signature(&sh, hash_funcs);
        let ghost before = ids@;
        ids.push(id);
        sigs.push(sig);
        proof {
            assert forall|a: int, b: int| 0 <= a < b < ids.len() implies ids@[a] != ids@[b] by {
                if b == n {
                    assert(ids@[a] == before[a]);
                } else {
                    assert(before[a] != before[b]);
                }
            }
            assert forall|k: u32| n + 1 == it.seq().len() && #[trigger] m.contains_key(k) implies ids@.contains(k) by {
                assert(it.seq().contains((&k, &m[k])));
                let j = choose|j: int| 0 <= j < it.seq().len() && it.seq()[j] == (&k, &m[k]);
                assert(ids@[j] == k);
            }
        }
    }
    proof {
        if sigs.len() > 0 {
            assert forall|i: int| 0 <= i < sigs.len() implies (#[trigger] sigs_view(sigs@)[i]).len() == sigs@[0]@.len() by {
                assert(is_signature(sigs@[i]@, shingle_set(db_string(m[ids@[i]]), shingle_size as nat), hash_funcs@));
                assert(is_signature(sigs@[0]@, shingle_set(db_string(m[ids@[0]]), shingle_size as nat), hash_funcs@));
            }
            assert(uniform_len(sigs_view(sigs@), sigs@[0]@.len()));
        }
    }
    let g = build_similarity_graph(&ids, &sigs, threshold);
    proof {
        assert(graph_ids(g) =~= ids@);
        assert forall|k: u32| m.contains_key(k) <==> graph_ids(g).contains(k) by {
            if graph_ids(g).contains(k) {
                let j = choose|j: int| 0 <= j < ids.len() && ids@[j] == k;
            }
        }
        assert(ids@.to_set().len() == ids.len()) by {
            ids@.unique_seq_to_set();
        }
        assert(ids@.to_set() =~= m.dom());
        if sigs.len() > 0 {
            assert(is_signature(sigs@[0]@, shingle_set(db_string(m[ids@[0]]), shingle_size as nat), hash_funcs@));
        }
        let sv = sigs_view(sigs@);
        assert forall|i: int| 0 <= i < sv.len() implies is_signature(
            #[trigger] sv[i],
            shingle_set(db_string(m[graph_ids(g)[i]]), shingle_size as nat),
            hash_funcs@,
        ) by {
            assert(sv[i] == sigs@[i]@);
        }
        assert forall|i: int, j: int| 0 <= i < j < g.entries.len() implies (#[trigger] g.entries@[i]).doc_id != (#[trigger] g.entries@[j]).doc_id by {
            assert(ids@[i] != ids@[j]);
        }
    }
    g
}

} // verus!
