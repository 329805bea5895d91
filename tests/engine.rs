use std::collections::HashMap;

use simsearch::graph::{build_similarity_graph, Neighbor, Threshold};
use simsearch::index::build_inverted_index;
use simsearch::minhash::{
    create_hash_func, generate_hash_funcs, generate_minhash_signature, minhash_similarity,
    HashFunction, Similarity,
};
use simsearch::record::{build_table_creation_commands, Record};
use simsearch::search::{build_response, search, search_db};
use simsearch::session::{
    page_count, search_handler, search_pagination_handler, QueryState, SearchReq,
    SearchResultsReq, SessionCache,
};
use simsearch::text::{create_shingles, shingle, tokenize};
use simsearch::SearchError;

fn record(id: u32, title: &str, text: &str) -> Record {
    Record { id, title: title.to_string(), text: text.to_string(), label: 0 }
}

fn corpus() -> HashMap<u32, Record> {
    let mut m = HashMap::new();
    m.insert(1, record(1, "cats are great", "text about cats"));
    m.insert(2, record(2, "dogs are great", "text about dogs"));
    m.insert(3, record(3, "cats are great", "text about cats"));
    m
}

fn sorted(mut v: Vec<String>) -> Vec<String> {
    v.sort();
    v
}

#[test]
fn shingle_scenario() {
    let s = sorted(shingle(&"abcde".to_string(), 3));
    assert_eq!(s, vec!["abc".to_string(), "bcd".to_string(), "cde".to_string()]);
}

#[test]
fn shingle_shorter_than_width_is_empty() {
    assert!(shingle(&"ab".to_string(), 3).is_empty());
    assert!(shingle(&"".to_string(), 1).is_empty());
}

#[test]
fn shingle_deduplicates() {
    let s = sorted(shingle(&"aaaa".to_string(), 2));
    assert_eq!(s, vec!["aa".to_string()]);
}

#[test]
fn create_shingles_by_position() {
    let docs = vec!["abcd".to_string(), "x".to_string()];
    let s = create_shingles(&docs, 3);
    assert_eq!(s.len(), 2);
    assert_eq!(sorted(s[0].clone()), vec!["abc".to_string(), "bcd".to_string()]);
    assert!(s[1].is_empty());
}

#[test]
fn tokenize_lowercases_and_splits() {
    let t = sorted(tokenize(&"Hello WORLD.Foo  hello".to_string()));
    assert_eq!(t, vec!["foo".to_string(), "hello".to_string(), "world".to_string()]);
}

#[test]
fn tokenize_keeps_empty_piece_next_to_period() {
    let t = sorted(tokenize(&"end.".to_string()));
    assert_eq!(t, vec!["".to_string(), "end".to_string()]);
    assert!(tokenize(&"   ".to_string()).is_empty());
}

#[test]
fn inverted_index_scenario() {
    let records = corpus();
    let index = build_inverted_index(&records);
    let mut cats = index.get(&"cats".to_string()).unwrap().clone();
    cats.sort();
    assert_eq!(cats, vec![1, 3]);
    let mut great = index.get(&"great".to_string()).unwrap().clone();
    great.sort();
    assert_eq!(great, vec![1, 2, 3]);
    let mut dogs = index.get(&"dogs".to_string()).unwrap().clone();
    dogs.sort();
    assert_eq!(dogs, vec![2]);
    assert!(index.get(&"birds".to_string()).is_none());
}

#[test]
fn search_intersection_scenario() {
    let records = corpus();
    let index = build_inverted_index(&records);
    let found = search_db(&"cats great".to_string(), &index, &records).unwrap();
    let mut ids: Vec<u32> = found.iter().map(|r| r.id).collect();
    ids.sort();
    assert_eq!(ids, vec![1, 3]);
}

#[test]
fn search_unknown_token_is_not_found() {
    let records = corpus();
    let index = build_inverted_index(&records);
    assert_eq!(
        search_db(&"cats birds".to_string(), &index, &records).err(),
        Some(SearchError::NotFound)
    );
}

#[test]
fn search_skips_missing_records() {
    let records = corpus();
    let index = build_inverted_index(&records);
    let mut fewer = records.clone();
    fewer.remove(&3);
    let found = search_db(&"cats".to_string(), &index, &fewer).unwrap();
    let ids: Vec<u32> = found.iter().map(|r| r.id).collect();
    assert_eq!(ids, vec![1]);
}

#[test]
fn hash_value_formula() {
    let h = HashFunction { a: 2, b: 3, modulus: 95633 };
    assert_eq!(h.hash("ab"), (2 * (97 + 98) + 3) % 95633);
    let big = HashFunction { a: 9999, b: 9999, modulus: 95633 };
    assert_eq!(big.hash("zzz"), (9999 * (3 * 122) + 9999) % 95633);
}

#[test]
fn hash_family_coefficients_in_range() {
    let fs = generate_hash_funcs(50);
    assert_eq!(fs.len(), 50);
    for f in &fs {
        assert!(f.a >= 10 && f.a < 10000);
        assert!(f.b >= 10 && f.b < 10000);
        assert_eq!(f.modulus, 95633);
    }
    let one = create_hash_func();
    assert!(one.a >= 10 && one.a < 10000);
}

#[test]
fn signature_takes_minimum() {
    let h = vec![
        HashFunction { a: 1, b: 0, modulus: 95633 },
        HashFunction { a: 2, b: 5, modulus: 100 },
    ];
    let data = vec!["b".to_string(), "a".to_string()];
    let sig = generate_minhash_signature(&data, &h);
    assert_eq!(sig, vec![97, (2 * 98 + 5) % 100]);
    let empty: Vec<String> = Vec::new();
    assert_eq!(generate_minhash_signature(&empty, &h), vec![u64::MAX, u64::MAX]);
}

#[test]
fn self_similarity_is_one() {
    let h = generate_hash_funcs(20);
    let s = shingle(&"the quick brown fox".to_string(), 3);
    let a = generate_minhash_signature(&s, &h);
    let b = generate_minhash_signature(&s, &h);
    assert_eq!(minhash_similarity(&a, &b), Ok(Similarity { matches: 20, total: 20 }));
}

#[test]
fn equal_shingle_sets_have_similarity_one() {
    let h = generate_hash_funcs(16);
    let x = shingle(&"abab".to_string(), 2);
    let y = shingle(&"baba".to_string(), 2);
    let a = generate_minhash_signature(&x, &h);
    let b = generate_minhash_signature(&y, &h);
    assert_eq!(minhash_similarity(&a, &b), Ok(Similarity { matches: 16, total: 16 }));
}

#[test]
fn similarity_counts_matching_positions() {
    let a = vec![1, 2, 3, 4];
    let b = vec![1, 5, 3, 6];
    assert_eq!(minhash_similarity(&a, &b), Ok(Similarity { matches: 2, total: 4 }));
    assert_eq!(minhash_similarity(&b, &a), minhash_similarity(&a, &b));
}

#[test]
fn similarity_of_unequal_lengths_is_invalid() {
    assert_eq!(minhash_similarity(&vec![1, 2], &vec![1]), Err(SearchError::InvalidArgument));
}

#[test]
fn graph_keeps_pairs_at_threshold() {
    let ids = vec![10, 20, 30];
    let sigs = vec![vec![1, 2, 3, 4], vec![1, 2, 3, 9], vec![7, 7, 7, 7]];
    let th = Threshold { numerator: 3, denominator: 4 };
    let g = build_similarity_graph(&ids, &sigs, th);
    assert_eq!(g.signature_len, 4);
    assert_eq!(g.entries.len(), 3);
    assert_eq!(
        g.entries[0].neighbors,
        vec![Neighbor { doc_id: 10, matches: 4 }, Neighbor { doc_id: 20, matches: 3 }]
    );
    assert_eq!(
        g.entries[1].neighbors,
        vec![Neighbor { doc_id: 10, matches: 3 }, Neighbor { doc_id: 20, matches: 4 }]
    );
    assert_eq!(g.entries[2].neighbors, vec![Neighbor { doc_id: 30, matches: 4 }]);
}

#[test]
fn response_limits_and_skips_neighbors() {
    let mut records = HashMap::new();
    for i in 1..=8u32 {
        records.insert(i, record(i, "t", "x"));
    }
    let ids: Vec<u32> = (1..=9u32).collect();
    let sigs: Vec<Vec<u64>> = (1..=9u32).map(|_| vec![1, 1]).collect();
    let g = build_similarity_graph(&ids, &sigs, Threshold { numerator: 1, denominator: 2 });
    let mut g2 = g.clone();
    g2.entries[0].neighbors.insert(0, Neighbor { doc_id: 9, matches: 2 });
    let r = build_response(&records[&1], &g2, &records);
    let got: Vec<u32> = r.similar_docs.iter().map(|s| s.doc.id).collect();
    assert_eq!(got, vec![1, 2, 3, 4, 5]);
    assert_eq!(r.similar_docs[0].similarity, Similarity { matches: 2, total: 2 });
}

#[test]
fn db_string_escapes_quotes() {
    let r = Record { id: 17, title: "say \"hi\"".to_string(), text: "plain".to_string(), label: 1 };
    assert_eq!(r.to_db_string(), "(17, \"say ”hi”\", \"plain\", \"1\")");
}

#[test]
fn table_creation_commands() {
    let headers = vec!["id", "title", "text", "label"];
    let values = vec!["(1, \"a\", \"b\", \"0\")".to_string()];
    let (create, inserts) = build_table_creation_commands("records", &headers, &values);
    assert_eq!(
        create,
        "CREATE TABLE IF NOT EXISTS records (id INTEGER PRIMARY KEY NOT NULL, title TEXT, text TEXT, label TEXT);"
    );
    assert_eq!(inserts, vec!["INSERT INTO records VALUES  (1, \"a\", \"b\", \"0\");".to_string()]);
    let (c2, _) = build_table_creation_commands("t", &vec!["string", "entries"], &Vec::new());
    assert_eq!(c2, "CREATE TABLE IF NOT EXISTS t (string TEXT, entries TEXT);");
}

#[test]
fn page_count_rounds_up() {
    assert_eq!(page_count(0), 0);
    assert_eq!(page_count(20), 1);
    assert_eq!(page_count(21), 2);
    assert_eq!(page_count(45), 3);
}

fn cache_with(n: u32) -> SessionCache {
    let mut records = HashMap::new();
    for i in 0..n {
        records.insert(i, record(i, "t", "x"));
    }
    let g = build_similarity_graph(&Vec::new(), &Vec::new(), Threshold { numerator: 1, denominator: 1 });
    let mut data = Vec::new();
    for i in 0..n {
        data.push(build_response(&records[&i], &g, &records));
    }
    let mut cache = SessionCache::new();
    cache.insert(7, QueryState { text_query: "t".to_string(), data });
    cache
}

#[test]
fn pagination_rejects_out_of_range_pages() {
    let cache = cache_with(45);
    assert_eq!(cache.paginate(7, 0).err(), Some(SearchError::InvalidArgument));
    assert_eq!(cache.paginate(7, 4).err(), Some(SearchError::InvalidArgument));
    assert_eq!(cache.paginate(8, 1).err(), Some(SearchError::NotFound));
    let empty = cache_with(0);
    assert_eq!(empty.paginate(7, 1).err(), Some(SearchError::NotFound));
}

#[test]
fn pagination_covers_all_results_once() {
    let cache = cache_with(45);
    let mut ids = Vec::new();
    for p in 1..=3 {
        let page = cache.paginate(7, p).unwrap();
        assert_eq!(page.total_pages, 3);
        assert_eq!(page.number_of_results, 45);
        ids.extend(page.data.iter().map(|r| r.data.id));
    }
    assert_eq!(ids, (0..45).collect::<Vec<u32>>());
    assert_eq!(cache.paginate(7, 3).unwrap().data.len(), 5);
}

#[test]
fn pagination_is_idempotent() {
    let cache = cache_with(30);
    let req = SearchResultsReq { query_id: 7, page: 2 };
    let a = search_pagination_handler(&cache, &req).unwrap();
    let b = search_pagination_handler(&cache, &req).unwrap();
    let ia: Vec<u32> = a.data.iter().map(|r| r.data.id).collect();
    let ib: Vec<u32> = b.data.iter().map(|r| r.data.id).collect();
    assert_eq!(ia, ib);
    assert_eq!(ia, (20..30).collect::<Vec<u32>>());
}

#[test]
fn search_handler_caches_results() {
    let records = corpus();
    let index = build_inverted_index(&records);
    let g = build_similarity_graph(&vec![1, 3], &vec![vec![5], vec![5]], Threshold { numerator: 1, denominator: 1 });
    let mut cache = SessionCache::new();
    let req = SearchReq { search_text: Some("Cats".to_string()) };
    let first = search_handler(&req, 99, &index, &g, &records, &mut cache).unwrap();
    assert_eq!(first.number_of_results, 2);
    assert_eq!(first.page, 1);
    assert_eq!(first.total_pages, 1);
    assert_eq!(first.data[0].similar_docs.len(), 2);
    let again = cache.paginate(99, 1).unwrap();
    assert_eq!(again.data.len(), 2);
    let missing = SearchReq { search_text: Some("birds".to_string()) };
    assert_eq!(
        search_handler(&missing, 100, &index, &g, &records, &mut cache).err(),
        Some(SearchError::NotFound)
    );
    assert!(cache.paginate(100, 1).is_err());
    let none = SearchReq { search_text: None };
    assert_eq!(search_handler(&none, 101, &index, &g, &records, &mut cache).err(), Some(SearchError::NotFound));
}

#[test]
fn search_builds_responses() {
    let records = corpus();
    let index = build_inverted_index(&records);
    let g = build_similarity_graph(&vec![1, 2, 3], &vec![vec![1, 2], vec![3, 4], vec![1, 2]], Threshold { numerator: 1, denominator: 1 });
    let res = search(&"cats".to_string(), &index, &g, &records).unwrap();
    assert_eq!(res.len(), 2);
    for r in &res {
        let mut n: Vec<u32> = r.similar_docs.iter().map(|s| s.doc.id).collect();
        n.sort();
        assert_eq!(n, vec![1, 3]);
    }
    assert_eq!(search(&"zebra".to_string(), &index, &g, &records).err(), Some(SearchError::NotFound));
}
