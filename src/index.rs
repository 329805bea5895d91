use std::collections::HashMap;
use vstd::prelude::*;

use crate::record::{append_chars, append_escaped, decimal, decimal_string, escape_quotes, Record};
use crate::text::string_from_chars;
use crate::text::{is_token_of, strings_view, tokenize};

verus! {

broadcast use vstd::std_specs::hash::group_hash_axioms;

/// The record ids filed under one token.
#[derive(Clone, Debug)]
pub struct IndexEntry {
    pub token: String,
    pub ids: Vec<u32>,
}

/// A map from token to the ids of the records that contain it.
#[derive(Clone, Debug)]
pub struct InvertedIndex {
    pub entries: Vec<IndexEntry>,
}

impl InvertedIndex {
    /// Each token has one entry, and each entry lists an id once.
    pub open spec fn wf(&self) -> bool {
        &&& forall|i: int, j: int|
            0 <= i < j < self.entries.len() ==> (#[trigger] self.entries@[i]).token@
                != (#[trigger] self.entries@[j]).token@
        &&& forall|i: int| 0 <= i < self.entries.len() ==> (#[trigger] self.entries@[i]).ids@.no_duplicates()
    }

    pub open spec fn has_token(&self, t: Seq<char>) -> bool {
        exists|i: int| 0 <= i < self.entries.len() && (#[trigger] self.entries@[i]).token@ == t
    }

    pub open spec fn files(&self, t: Seq<char>, id: u32) -> bool {
        exists|i: int|
            0 <= i < self.entries.len() && (#[trigger] self.entries@[i]).token@ == t
                && self.entries@[i].ids@.contains(id)
    }

    /// An empty index.
    pub fn new() -> (r: InvertedIndex)
        ensures
            r.wf(),
            r@ == Map::<Seq<char>, Set<u32>>::empty(),
    {
        let r = InvertedIndex { entries: Vec::new() };
        assert(r@ =~= Map::<Seq<char>, Set<u32>>::empty());
        r
    }

    /// The position of the entry for `token`, if there is one.
    pub fn find(&self, token: &String) -> (r: Option<usize>)
        requires
            self.wf(),
        ensures
            match r {
                Some(i) => i < self.entries.len() && self.entries@[i as int].token@ == token@,
                None => !self.has_token(token@),
            },
    {
        for i in 0..self.entries.len()
            invariant
                forall|j: int| 0 <= j < i ==> (#[trigger] self.entries@[j]).token@ != token@,
        {
            if self.entries[i].token == *token {
                return Some(i);
            }
        }
        None
    }

    /// The ids filed under `token`.
    pub fn get(&self, token: &String) -> (r: Option<&Vec<u32>>)
        requires
            self.wf(),
        ensures
            match r {
                Some(ids) => self@.contains_key(token@) && ids@.to_set() == self@[token@]
                    && ids@.no_duplicates(),
                None => !self@.contains_key(token@),
            },
    {
        match self.find(token) {
            Some(i) => {
                proof {
                    let e = self.entries@[i as int];
                    assert forall|id: u32| e.ids@.to_set().contains(id) <==> self.files(token@, id) by {
                        if self.files(token@, id) {
                            let j = choose|j: int|
                                0 <= j < self.entries.len() && (#[trigger] self.entries@[j]).token@
                                    == token@ && self.entries@[j].ids@.contains(id);
                            if j != i {
                                if j < i {
                                    assert(self.entries@[j].token@ != self.entries@[i as int].token@);
                                } else {
                                    assert(self.entries@[i as int].token@ != self.entries@[j].token@);
                                }
                            }
                        }
                    }
                    assert(e.ids@.to_set() =~= self@[token@]);
                }
                Some(&self.entries[i].ids)
            },
            None => None,
        }
    }

    /// Files `id` under `token`.
    pub fn add(&mut self, token: String, id: u32)
        requires
            old(self).wf(),
        ensures
            final(self).wf(),
            final(self)@ == old(self)@.insert(
                token@,
                if old(self)@.contains_key(token@) {
                    old(self)@[token@].insert(id)
                } else {
                    set![id]
                },
            ),
    {
        let ghost t = token@;
        match self.find(&token) {
            Some(i) => {
                let ghost before = self.entries@;
                let mut e = self.entries.remove(i);
                let mut present = false;
                assert(e == before[i as int]);
                for j in 0..e.ids.len()
                    invariant
                        i < before.len(),
                        e == before[i as int],
                        present <==> exists|k: int| 0 <= k < j && e.ids@[k] == id,
                {
                    if e.ids[j] == id {
                        present = true;
                    }
                }
                if !present {
                    e.ids.push(id);
                    assert(e.ids@[e.ids.len() - 1] == id);
                } else {
                    assert(before[i as int].ids@.contains(id));
                }
                let ghost new_e = e;
                self.entries.insert(i, e);
                proof {
                    assert(self.entries@ =~= before.update(i as int, new_e));
                    let old_ids = before[i as int].ids@;
                    assert(new_e.ids@.contains(id));
                    assert(new_e.ids@ == old_ids || new_e.ids@ == old_ids.push(id));
                    assert forall|x: u32| #[trigger] new_e.ids@.contains(x) <==> (old_ids.contains(x) || x == id) by {
                        if new_e.ids@.contains(x) && new_e.ids@ != old_ids {
                            let k = choose|k: int| 0 <= k < new_e.ids@.len() && new_e.ids@[k] == x;
                            if k < old_ids.len() {
                                assert(old_ids[k] == x);
                            }
                        }
                        if old_ids.contains(x) {
                            let k = choose|k: int| 0 <= k < old_ids.len() && old_ids[k] == x;
                            assert(new_e.ids@[k] == x);
                        }
                    }
                    assert(new_e.ids@.to_set() =~= old_ids.to_set().insert(id));
                    assert forall|u: Seq<char>| #[trigger] self.has_token(u) <==> old(self).has_token(u) by {
                        if old(self).has_token(u) {
                            let j = choose|j: int|
                                0 <= j < before.len() && (#[trigger] before[j]).token@ == u;
                            assert(self.entries@[j].token@ == u);
                        }
                        if self.has_token(u) {
                            let j = choose|j: int|
                                0 <= j < self.entries.len() && (#[trigger] self.entries@[j]).token@ == u;
                            assert(before[j].token@ == u);
                        }
                    }
                    assert forall|u: Seq<char>, x: u32| #[trigger] self.files(u, x) <==> (old(self).files(u, x) || (u == t && x == id)) by {
                        if old(self).files(u, x) {
                            let j = choose|j: int|
                                0 <= j < before.len() && (#[trigger] before[j]).token@ == u && before[j].ids@.contains(x);
                            if j == i {
                                assert(before[j].ids@.to_set().contains(x));
                                assert(self.entries@[j].ids@.to_set().contains(x));
                            } else {
                                assert(self.entries@[j] == before[j]);
                            }
                        }
                        if u == t && x == id {
                            assert(self.entries@[i as int].ids@.to_set().contains(x));
                        }
                        if self.files(u, x) {
                            let j = choose|j: int|
                                0 <= j < self.entries.len() && (#[trigger] self.entries@[j]).token@ == u && self.entries@[j].ids@.contains(x);
                            if j == i {
                                assert(self.entries@[j].ids@.to_set().contains(x));
                                if x != id {
                                    assert(before[j].ids@.to_set().contains(x));
                                }
                            } else {
                                assert(self.entries@[j] == before[j]);
                            }
                        }
                    }
                    let target = old(self)@.insert(t, old(self)@[t].insert(id));
                    assert(old(self).has_token(t));
                    assert(self@.dom() =~= target.dom());
                    assert forall|u: Seq<char>| #[trigger] self@.contains_key(u) implies self@[u] =~= target[u] by {
                    }
                    assert(self@ =~= target);
                }
            },
            None => {
                let mut ids: Vec<u32> = Vec::new();
                ids.push(id);
                let ghost before = self.entries@;
                self.entries.push(IndexEntry { token, ids });
                proof {
                    let n = before.len() as int;
                    assert(self.entries@[n].ids@ =~= seq![id]);
                    assert forall|u: Seq<char>| #[trigger] self.has_token(u) <==> (old(self).has_token(u) || u == t) by {
                        if old(self).has_token(u) {
                            let j = choose|j: int|
                                0 <= j < before.len() && (#[trigger] before[j]).token@ == u;
                            assert(self.entries@[j].token@ == u);
                        }
                        if u == t {
                            assert(self.entries@[n].token@ == u);
                        }
                        if self.has_token(u) {
                            let j = choose|j: int|
                                0 <= j < self.entries.len() && (#[trigger] self.entries@[j]).token@ == u;
                            if j < n {
                                assert(before[j].token@ == u);
                            }
                        }
                    }
                    assert forall|u: Seq<char>, x: u32| #[trigger] self.files(u, x) <==> (old(self).files(u, x) || (u == t && x == id)) by {
                        if old(self).files(u, x) {
                            let j = choose|j: int|
                                0 <= j < before.len() && (#[trigger] before[j]).token@ == u && before[j].ids@.contains(x);
                            assert(self.entries@[j] == before[j]);
                        }
                        if u == t && x == id {
                            assert(self.entries@[n].ids@[0] == id);
                        }
                        if self.files(u, x) {
                            let j = choose|j: int|
                                0 <= j < self.entries.len() && (#[trigger] self.entries@[j]).token@ == u && self.entries@[j].ids@.contains(x);
                            if j < n {
                                assert(self.entries@[j] == before[j]);
                            } else {
                                assert(x == id);
                            }
                        }
                    }
                    assert forall|u: Seq<char>| old(self).has_token(u) implies u != t by {
                        let j = choose|j: int|
                            0 <= j < before.len() && (#[trigger] before[j]).token@ == u;
                    }
                    let target = old(self)@.insert(t, set![id]);
                    assert(self@.dom() =~= target.dom());
                    assert forall|u: Seq<char>| #[trigger] self@.contains_key(u) implies self@[u] =~= target[u] by {
                        if u == t {
                            assert forall|x: u32| old(self).files(t, x) implies false by {
                                let j = choose|j: int|
                                    0 <= j < before.len() && (#[trigger] before[j]).token@ == t && before[j].ids@.contains(x);
                                assert(old(self).has_token(t));
                            }
                        }
                    }
                    assert(self@ =~= target);
                }
            },
        }
    }
}

impl View for InvertedIndex {
    type V = Map<Seq<char>, Set<u32>>;

    open spec fn view(&self) -> Map<Seq<char>, Set<u32>> {
        Map::new(|t: Seq<char>| self.has_token(t), |t: Seq<char>| Set::new(|id: u32| self.files(t, id)))
    }
}


/// The index of a corpus: each token of a record's combined text maps to the ids of the
/// records whose combined text holds it.
pub open spec fn index_of(records: Map<u32, Record>) -> Map<Seq<char>, Set<u32>> {
    Map::new(
        |t: Seq<char>| exists|k: u32| records.contains_key(k) && is_token_of(#[trigger] records[k].combined(), t),
        |t: Seq<char>|
            Set::new(
                |id: u32|
                    exists|k: u32|
                        records.contains_key(k) && records[k].id == id && is_token_of(
                            #[trigger] records[k].combined(),
                            t,
                        ),
            ),
    )
}

/// `id` is filed under `t` in `m`.
pub open spec fn filed(m: Map<Seq<char>, Set<u32>>, t: Seq<char>, id: u32) -> bool {
    m.contains_key(t) && m[t].contains(id)
}

/// Builds the inverted index of a corpus.
pub fn build_inverted_index(records: &HashMap<u32, Record>) -> (r: InvertedIndex)
    ensures
        r.wf(),
        r@ == index_of(records@),
{
    let mut index = InvertedIndex::new();
    let ghost m = records@;
    let ghost mut seen: Seq<(u32, Record)> = Seq::empty();
    for pair in it: records.iter()
        invariant
            index.wf(),
            m == records@,
            seen.len() == it.index(),
            forall|i: int| 0 <= i < it.seq().len() ==> m.contains_key(*(#[trigger] it.seq()[i]).0)
                && m[*it.seq()[i].0] == *it.seq()[i].1,
            forall|k: u32| #[trigger] m.contains_key(k) ==> it.seq().contains((&k, &m[k])),
            forall|j: int| 0 <= j < seen.len() ==> #[trigger] seen[j] == (*it.seq()[j].0, *it.seq()[j].1),
            forall|j: int| 0 <= j < seen.len() ==> m.contains_key((#[trigger] seen[j]).0) && m[seen[j].0] == seen[j].1,
            it.index() == it.seq().len() ==> forall|k: u32| #[trigger] m.contains_key(k) ==> exists|j: int|
                0 <= j < seen.len() && seen[j].0 == k,
            forall|t: Seq<char>|
                #[trigger] index@.contains_key(t) <==> exists|j: int|
                    0 <= j < seen.len() && is_token_of((#[trigger] seen[j]).1.combined(), t),
            forall|t: Seq<char>, x: u32|
                #[trigger] filed(index@, t, x) <==> exists|j: int|
                    0 <= j < seen.len() && (#[trigger] seen[j]).1.id == x && is_token_of(
                        seen[j].1.combined(),
                        t,
                    ),
    {
        let rec = pair.1;
        let ghost n = it.index();
        let tokens = tokenize(&rec.combined_text());
        let ghost m0 = index@;
        for ti in 0..tokens.len()
            invariant
                index.wf(),
                strings_view(tokens@).no_duplicates(),
                forall|t: Seq<char>|
                    #[trigger] index@.contains_key(t) <==> (m0.contains_key(t) || exists|j: int|
                        0 <= j < ti && tokens@[j]@ == t),
                forall|t: Seq<char>, x: u32|
                    #[trigger] filed(index@, t, x) <==> (filed(m0, t, x) || (x == rec.id && exists|j: int|
                        0 <= j < ti && tokens@[j]@ == t)),
        {
            let ghost before = index@;
            let tok = tokens[ti].clone();
            index.add(tok, rec.id);
            proof {
                assert forall|t: Seq<char>|
                    #[trigger] index@.contains_key(t) <==> (m0.contains_key(t) || exists|j: int|
                        0 <= j < ti + 1 && tokens@[j]@ == t) by {
                    if t == tokens@[ti as int]@ {
                        assert(tokens@[ti as int]@ == t);
                    }
                }
                assert forall|t: Seq<char>, x: u32|
                    #[trigger] filed(index@, t, x) <==> (filed(m0, t, x) || (x == rec.id && exists|j: int|
                        0 <= j < ti + 1 && tokens@[j]@ == t)) by {
                    let u = tokens@[ti as int]@;
                    assert(filed(before, t, x) <==> (filed(m0, t, x) || (x == rec.id && exists|j: int|
                        0 <= j < ti && tokens@[j]@ == t)));
                    if t == u {
                        assert(tokens@[ti as int]@ == t);
                        if before.contains_key(t) {
                            assert(index@[t] == before[t].insert(rec.id));
                        } else {
                            assert(index@[t] == set![rec.id]);
                        }
                    } else {
                        assert(index@.contains_key(t) == before.contains_key(t));
                        if before.contains_key(t) {
                            assert(index@[t] == before[t]);
                        }
                    }
                }
            }
        }
        let ghost old_seen = seen;
        proof {
            seen = seen.push((*pair.0, *rec));
        }
        proof {
            let c = rec.combined();
            assert(seen[n] == (*it.seq()[n].0, *it.seq()[n].1));
            assert forall|j: int| 0 <= j < n implies #[trigger] seen[j] == old_seen[j] by {}
            assert forall|t: Seq<char>| (exists|j: int| 0 <= j < tokens.len() && tokens@[j]@ == t) <==> is_token_of(c, t) by {
                if exists|j: int| 0 <= j < tokens.len() && tokens@[j]@ == t {
                    let j = choose|j: int| 0 <= j < tokens.len() && tokens@[j]@ == t;
                    assert(strings_view(tokens@)[j] == t);
                }
                if is_token_of(c, t) {
                    assert(strings_view(tokens@).contains(t));
                    let j = choose|j: int| 0 <= j < tokens.len() && strings_view(tokens@)[j] == t;
                    assert(tokens@[j]@ == t);
                }
            }
            assert forall|t: Seq<char>|
                #[trigger] index@.contains_key(t) <==> exists|j: int|
                    0 <= j < seen.len() && is_token_of((#[trigger] seen[j]).1.combined(), t) by {
                if index@.contains_key(t) && !m0.contains_key(t) {
                    assert(is_token_of(seen[n].1.combined(), t));
                }
                if m0.contains_key(t) {
                    let j = choose|j: int| 0 <= j < old_seen.len() && is_token_of((#[trigger] old_seen[j]).1.combined(), t);
                    assert(seen[j] == old_seen[j]);
                }
                if exists|j: int| 0 <= j < seen.len() && is_token_of((#[trigger] seen[j]).1.combined(), t) {
                    let j = choose|j: int| 0 <= j < seen.len() && is_token_of((#[trigger] seen[j]).1.combined(), t);
                    if j == n {
                        assert(is_token_of(c, t));
                    } else {
                        assert(old_seen[j] == seen[j]);
                    }
                }
            }
            assert forall|t: Seq<char>, x: u32|
                #[trigger] filed(index@, t, x) <==> exists|j: int|
                    0 <= j < seen.len() && (#[trigger] seen[j]).1.id == x && is_token_of(
                        seen[j].1.combined(),
                        t,
                    ) by {
                if filed(index@, t, x) && !filed(m0, t, x) {
                    assert(is_token_of(seen[n].1.combined(), t));
                    assert(seen[n].1.id == x);
                }
                if filed(m0, t, x) {
                    let j = choose|j: int| 0 <= j < old_seen.len() && (#[trigger] old_seen[j]).1.id == x && is_token_of(old_seen[j].1.combined(), t);
                    assert(seen[j] == old_seen[j]);
                }
                if exists|j: int| 0 <= j < seen.len() && (#[trigger] seen[j]).1.id == x && is_token_of(seen[j].1.combined(), t) {
                    let j = choose|j: int| 0 <= j < seen.len() && (#[trigger] seen[j]).1.id == x && is_token_of(seen[j].1.combined(), t);
                    if j == n {
                        assert(is_token_of(c, t));
                    } else {
                        assert(old_seen[j] == seen[j]);
                    }
                }
            }
            assert forall|k: u32| n + 1 == it.seq().len() && #[trigger] m.contains_key(k) implies exists|j: int|
                0 <= j < seen.len() && seen[j].0 == k by {
                assert(it.seq().contains((&k, &m[k])));
                let j = choose|j: int| 0 <= j < it.seq().len() && it.seq()[j] == (&k, &m[k]);
                assert(seen[j].0 == k);
            }
        }
    }
    proof {
        let target = index_of(m);
        assert forall|t: Seq<char>| #[trigger] index@.contains_key(t) <==> target.contains_key(t) by {
            if index@.contains_key(t) {
                let j = choose|j: int| 0 <= j < seen.len() && is_token_of((#[trigger] seen[j]).1.combined(), t);
                let k = seen[j].0;
                assert(m.contains_key(k) && is_token_of(m[k].combined(), t));
            }
            if target.contains_key(t) {
                let k = choose|k: u32| m.contains_key(k) && is_token_of(#[trigger] m[k].combined(), t);
                let j = choose|j: int| 0 <= j < seen.len() && seen[j].0 == k;
                assert(is_token_of(seen[j].1.combined(), t));
            }
        }
        assert(index@.dom() =~= target.dom());
        assert forall|t: Seq<char>| #[trigger] index@.contains_key(t) implies index@[t] =~= target[t] by {
            assert forall|x: u32| index@[t].contains(x) <==> target[t].contains(x) by {
                if index@[t].contains(x) {
                    assert(filed(index@, t, x));
                    let j = choose|j: int| 0 <= j < seen.len() && (#[trigger] seen[j]).1.id == x && is_token_of(seen[j].1.combined(), t);
                    let k = seen[j].0;
                    assert(m.contains_key(k) && m[k].id == x && is_token_of(m[k].combined(), t));
                }
                if target[t].contains(x) {
                    let k = choose|k: u32| m.contains_key(k) && m[k].id == x && is_token_of(#[trigger] m[k].combined(), t);
                    let j = choose|j: int| 0 <= j < seen.len() && seen[j].0 == k;
                    assert(seen[j].1.id == x && is_token_of(seen[j].1.combined(), t));
                    assert(filed(index@, t, x));
                }
            }
        }
        assert(index@ =~= target);
    }
    index
}


/// The ids of a list, in decimal, separated by `, `.
pub open spec fn id_list(ids: Seq<u32>) -> Seq<char>
    decreases ids.len(),
{
    if ids.len() == 0 {
        Seq::empty()
    } else if ids.len() == 1 {
        decimal(ids[0] as nat)
    } else {
        id_list(ids.drop_last()) + seq![',', ' '] + decimal(ids.last() as nat)
    }
}

/// The SQL value tuple of one index entry: `("token", "[id, id, ...]")`, quotes in the
/// token escaped.
pub open spec fn index_row(e: IndexEntry) -> Seq<char> {
    seq!['(', '"'] + escape_quotes(e.token@) + seq!['"', ',', ' ', '"', '['] + id_list(e.ids@) + seq![']', '"', ')']
}

/// The SQL value tuples of all entries of the index, in entry order.
pub fn inverse_index_rows(index: &InvertedIndex) -> (r: Vec<String>)
    ensures
        r.len() == index.entries.len(),
        forall|i: int| 0 <= i < r.len() ==> (#[trigger] r@[i])@ == index_row(index.entries@[i]),
{
    let mut rows: Vec<String> = Vec::new();
    for i in 0..index.entries.len()
        invariant
            rows.len() == i,
            forall|k: int| 0 <= k < i ==> (#[trigger] rows@[k])@ == index_row(index.entries@[k]),
    {
        let e = &index.entries[i];
        let mut line: Vec<char> = Vec::new();
        line.push('(');
        line.push('"');
        append_escaped(&mut line, e.token.as_str());
        line.push('"');
        line.push(',');
        line.push(' ');
        line.push('"');
        line.push('[');
        let ghost head = line@;
        for j in 0..e.ids.len()
            invariant
                line@ == head + id_list(e.ids@.take(j as int)),
        {
            let ghost before = line@;
            if j > 0 {
                line.push(',');
                line.push(' ');
            }
            append_chars(&mut line, decimal_string(e.ids[j]).as_str());
            proof {
                let t = e.ids@.take(j + 1);
                assert(t.drop_last() =~= e.ids@.take(j as int));
                if j == 0 {
                    assert(id_list(t) == decimal(t[0] as nat));
                }
                assert(line@ =~= head + id_list(t));
            }
        }
        assert(e.ids@.take(e.ids.len() as int) =~= e.ids@);
        line.push(']');
        line.push('"');
        line.push(')');
        assert(line@ =~= index_row(*e));
        rows.push(string_from_chars(line.as_slice()));
    }
    rows
}

} // verus!
