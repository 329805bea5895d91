use vstd::prelude::*;

use crate::minhash::{lemma_match_count_bound, match_count, minhash_similarity, similarity_spec, Similarity};

verus! {

/// A document whose estimated similarity reached the threshold: the signatures agree at
/// `matches` of the graph's `signature_len` positions.
#[derive(Clone, Copy, Debug, PartialEq, Eq, Structural)]
pub struct Neighbor {
    pub doc_id: u32,
    pub matches: usize,
}

/// The neighbors of one document, in the order in which they were compared.
#[derive(Clone, Debug)]
pub struct GraphEntry {
    pub doc_id: u32,
    pub neighbors: Vec<Neighbor>,
}

/// For each document, the documents whose estimated similarity reaches a threshold.
#[derive(Clone, Debug)]
pub struct SimilarityGraph {
    pub signature_len: usize,
    pub entries: Vec<GraphEntry>,
}

/// The least similarity `numerator / denominator` at which two documents are neighbors.
#[derive(Clone, Copy, Debug, PartialEq, Eq, Structural)]
pub struct Threshold {
    pub numerator: u64,
    pub denominator: u64,
}

/// `matches / total` is at least the threshold (and `total` is not zero).
pub open spec fn reaches(matches: nat, total: nat, th: Threshold) -> bool {
    total > 0 && matches * th.denominator >= th.numerator * total
}

/// The signatures of a list, as sequences.
pub open spec fn sigs_view(sigs: Seq<Vec<u64>>) -> Seq<Seq<u64>> {
    sigs.map_values(|v: Vec<u64>| v@)
}

/// The neighbors of document `i` among the first `n` documents, in order.
pub open spec fn neighbors_spec(ids: Seq<u32>, sigs: Seq<Seq<u64>>, th: Threshold, i: int, n: int) -> Seq<Neighbor>
    decreases n,
{
    if n <= 0 {
        Seq::empty()
    } else {
        let prev = neighbors_spec(ids, sigs, th, i, n - 1);
        let c = match_count(sigs[i], sigs[n - 1], sigs[i].len() as int);
        if reaches(c, sigs[i].len() as nat, th) {
            prev.push(Neighbor { doc_id: ids[n - 1], matches: c as usize })
        } else {
            prev
        }
    }
}

/// All signatures have length `m`.
pub open spec fn uniform_len(sigs: Seq<Seq<u64>>, m: nat) -> bool {
    forall|i: int| 0 <= i < sigs.len() ==> (#[trigger] sigs[i]).len() == m
}

/// `matches / total` reaches the threshold.
fn reaches_threshold(s: Similarity, th: Threshold) -> (r: bool)
    ensures
        r == reaches(s.matches as nat, s.total as nat, th),
{
    let m = s.matches as u128;
    let t = s.total as u128;
    let d = th.denominator as u128;
    let p = th.numerator as u128;
    assert(m * d <= 0xffff_ffff_ffff_ffff * 0xffff_ffff_ffff_ffffu128) by (nonlinear_arith)
        requires
            m <= 0xffff_ffff_ffff_ffffu128,
            d <= 0xffff_ffff_ffff_ffffu128,
    ;
    assert(p * t <= 0xffff_ffff_ffff_ffff * 0xffff_ffff_ffff_ffffu128) by (nonlinear_arith)
        requires
            t <= 0xffff_ffff_ffff_ffffu128,
            p <= 0xffff_ffff_ffff_ffffu128,
    ;
    s.total > 0 && m * d >= p * t
}

/// Compares every document with every document, itself included, and keeps for each the
/// documents whose estimated similarity reaches `threshold`.
pub fn build_similarity_graph(ids: &Vec<u32>, signatures: &Vec<Vec<u64>>, threshold: Threshold) -> (r: SimilarityGraph)
    requires
        ids.len() == signatures.len(),
        signatures.len() > 0 ==> uniform_len(sigs_view(signatures@), signatures@[0]@.len()),
    ensures
        r.signature_len == if signatures.len() > 0 { signatures@[0]@.len() } else { 0 },
        r.entries.len() == ids.len(),
        forall|i: int|
            0 <= i < ids.len() ==> (#[trigger] r.entries@[i]).doc_id == ids@[i]
                && r.entries@[i].neighbors@ == neighbors_spec(
                ids@,
                sigs_view(signatures@),
                threshold,
                i,
                ids.len() as int,
            ),
{
    let n = ids.len();
    let ghost sv = sigs_view(signatures@);
    let signature_len = if n > 0 { signatures[0].len() } else { 0 };
    let mut entries: Vec<GraphEntry> = Vec::new();
    for i in 0..n
        invariant
            n == ids.len(),
            n == signatures.len(),
            sv == sigs_view(signatures@),
            n > 0 ==> uniform_len(sv, signatures@[0]@.len()),
            entries.len() == i,
            forall|e: int|
                0 <= e < i ==> (#[trigger] entries@[e]).doc_id == ids@[e]
                    && entries@[e].neighbors@ == neighbors_spec(ids@, sv, threshold, e, n as int),
    {
        let mut neighbors: Vec<Neighbor> = Vec::new();
        for j in 0..n
            invariant
                n == ids.len(),
                n == signatures.len(),
                i < n,
                sv == sigs_view(signatures@),
                uniform_len(sv, signatures@[0]@.len()),
                neighbors@ == neighbors_spec(ids@, sv, threshold, i as int, j as int),
        {
            let s = minhash_similarity(&signatures[i], &signatures[j]);
            let li = signatures[i].len();
            let ghost c = match_count(sv[i as int], sv[j as int], sv[i as int].len() as int);
            let ghost prev = neighbors@;
            proof {
                assert(sv[i as int] == signatures@[i as int]@);
                assert(sv[j as int] == signatures@[j as int]@);
                assert(sv[i as int].len() == sv[j as int].len());
                assert(s == similarity_spec(sv[i as int], sv[j as int]));
                lemma_match_count_bound(sv[i as int], sv[j as int], sv[i as int].len() as int);
                assert(c <= li);
            }
            match s {
                Ok(sim) => {
                    if reaches_threshold(sim, threshold) {
                        neighbors.push(Neighbor { doc_id: ids[j], matches: sim.matches });
                    }
                },
                Err(_) => {
                },
            }
            assert(neighbors_spec(ids@, sv, threshold, i as int, j + 1) == if reaches(c, sv[i as int].len() as nat, threshold) {
                prev.push(Neighbor { doc_id: ids@[j as int], matches: c as usize })
            } else {
                prev
            });
        }
        entries.push(GraphEntry { doc_id: ids[i], neighbors });
    }
    SimilarityGraph { signature_len, entries }
}

impl SimilarityGraph {
    /// Each document has at most one entry.
    pub open spec fn wf(&self) -> bool {
        forall|i: int, j: int|
            0 <= i < j < self.entries.len() ==> (#[trigger] self.entries@[i]).doc_id
                != (#[trigger] self.entries@[j]).doc_id
    }

    /// The neighbors recorded for `id`, or none when it has no entry.
    pub open spec fn neighbors_of(&self, id: u32) -> Seq<Neighbor> {
        if exists|i: int| 0 <= i < self.entries.len() && (#[trigger] self.entries@[i]).doc_id == id {
            let i = choose|i: int| 0 <= i < self.entries.len() && (#[trigger] self.entries@[i]).doc_id == id;
            self.entries@[i].neighbors@
        } else {
            Seq::empty()
        }
    }

    /// The neighbors recorded for `id`.
    pub fn neighbors(&self, id: u32) -> (r: &[Neighbor])
        requires
            self.wf(),
        ensures
            r@ == self.neighbors_of(id),
    {
        for i in 0..self.entries.len()
            invariant
                self.wf(),
                forall|j: int| 0 <= j < i ==> (#[trigger] self.entries@[j]).doc_id != id,
        {
            if self.entries[i].doc_id == id {
                proof {
                    let k = choose|k: int| 0 <= k < self.entries.len() && (#[trigger] self.entries@[k]).doc_id == id;
                    if k != i {
                        if k < i {
                            assert(self.entries@[k].doc_id != self.entries@[i as int].doc_id);
                        } else {
                            assert(self.entries@[i as int].doc_id != self.entries@[k].doc_id);
                        }
                    }
                }
                return self.entries[i].neighbors.as_slice();
            }
        }
        let empty: &[Neighbor] = &[];
        assert(empty@ =~= Seq::<Neighbor>::empty());
        empty
    }
}

} // verus!
