use std::collections::HashMap;

use simsearch::corpus::compute_similarities;
use simsearch::graph::Threshold;
use simsearch::index::{inverse_index_rows, IndexEntry, InvertedIndex};
use simsearch::minhash::{generate_hash_funcs, jaccard, Similarity};
use simsearch::record::Record;
use simsearch::search::build_db;
use simsearch::text::tokenize;

fn record(id: u32, title: &str, text: &str) -> Record {
    Record { id, title: title.to_string(), text: text.to_string(), label: 1 }
}

fn strings(v: &[&str]) -> Vec<String> {
    v.iter().map(|s| s.to_string()).collect()
}

#[test]
fn jaccard_counts_intersection_and_union() {
    let a = strings(&["abc", "bcd", "cde"]);
    let b = strings(&["bcd", "cde", "def", "efg"]);
    assert_eq!(jaccard(&a, &b), Similarity { matches: 2, total: 5 });
    assert_eq!(jaccard(&a, &a), Similarity { matches: 3, total: 3 });
    assert_eq!(jaccard(&Vec::new(), &b), Similarity { matches: 0, total: 4 });
}

#[test]
fn tokenize_splits_on_tabs_and_newlines() {
    let mut t = tokenize(&"One\tTWO\nthree".to_string());
    t.sort();
    assert_eq!(t, strings(&["one", "three", "two"]));
}

#[test]
fn index_rows_text() {
    let index = InvertedIndex {
        entries: vec![
            IndexEntry { token: "say \"x\"".to_string(), ids: vec![3, 12] },
            IndexEntry { token: "one".to_string(), ids: vec![7] },
        ],
    };
    let rows = inverse_index_rows(&index);
    assert_eq!(rows, strings(&["(\"say ”x”\", \"[3, 12]\")", "(\"one\", \"[7]\")"]));
}

#[test]
fn build_db_indexes_every_record() {
    let mut m = HashMap::new();
    m.insert(4, record(4, "Red fox", "quick"));
    m.insert(9, record(9, "Blue", "fox"));
    let (records, index) = build_db(m);
    assert_eq!(records.len(), 2);
    let mut fox = index.get(&"fox".to_string()).unwrap().clone();
    fox.sort();
    assert_eq!(fox, vec![4, 9]);
    assert_eq!(index.get(&"red".to_string()).unwrap(), &vec![4]);
}

#[test]
fn corpus_graph_pairs_duplicates() {
    let mut m = HashMap::new();
    m.insert(1, record(1, "cats are great", "text about cats"));
    m.insert(2, record(2, "completely different words here", "nothing alike at all"));
    m.insert(3, record(3, "cats are great", "text about cats"));
    let funcs = generate_hash_funcs(20);
    let g = compute_similarities(&m, 3, &funcs, Threshold { numerator: 85, denominator: 100 });
    assert_eq!(g.entries.len(), 3);
    assert_eq!(g.signature_len, 20);
    let mut ids: Vec<u32> = g.entries.iter().map(|e| e.doc_id).collect();
    ids.sort();
    assert_eq!(ids, vec![1, 2, 3]);
    for e in &g.entries {
        let own = e.neighbors.iter().find(|n| n.doc_id == e.doc_id).unwrap();
        assert_eq!(own.matches, 20);
    }
    let two = g.entries.iter().find(|e| e.doc_id == 2).unwrap();
    assert_eq!(two.neighbors.len(), 1);
}

#[test]
fn empty_corpus_graph() {
    let m: HashMap<u32, Record> = HashMap::new();
    let funcs = generate_hash_funcs(5);
    let g = compute_similarities(&m, 3, &funcs, Threshold { numerator: 1, denominator: 2 });
    assert!(g.entries.is_empty());
    assert_eq!(g.signature_len, 0);
}
