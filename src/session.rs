use std::collections::HashMap;
use vstd::prelude::*;

use crate::graph::SimilarityGraph;
use crate::index::InvertedIndex;
use crate::record::Record;
use crate::search::{is_search_result, search, RecordResponse, SimilarityInfoFull};
use crate::SearchError;

verus! {

broadcast use vstd::std_specs::hash::group_hash_axioms;

/// The number of results on one page.
pub const QUERY_LIMIT: usize = 20;

/// A search request: the text to search for, if any.
#[derive(Clone, Debug)]
pub struct SearchReq {
    pub search_text: Option<String>,
}

/// A request for one page of a cached search.
#[derive(Clone, Copy, Debug, PartialEq, Eq, Structural)]
pub struct SearchResultsReq {
    pub query_id: u128,
    pub page: u32,
}

/// A request for one record.
#[derive(Clone, Copy, Debug, PartialEq, Eq, Structural)]
pub struct RecordReq {
    pub id: u32,
}

/// One page of the results of a session.
#[derive(Clone, Debug)]
pub struct SearchResultsRes {
    pub search_id: u128,
    pub data: Vec<RecordResponse>,
    pub number_of_results: usize,
    pub page: u32,
    pub total_pages: usize,
}

/// The cached results of one search.
#[derive(Clone, Debug)]
pub struct QueryState {
    pub text_query: String,
    pub data: Vec<RecordResponse>,
}

/// The results of every search so far, by session id.
#[derive(Debug)]
pub struct SessionCache {
    pub sessions: HashMap<u128, QueryState>,
}

/// The views of a list of results.
pub open spec fn views(s: Seq<RecordResponse>) -> Seq<(Record, Seq<SimilarityInfoFull>)> {
    s.map_values(|r: RecordResponse| r@)
}

/// The number of pages that `n` results fill.
pub open spec fn page_count_spec(n: nat) -> nat {
    ((n + QUERY_LIMIT - 1) / (QUERY_LIMIT as int)) as nat
}

/// Page `p` (counted from 1) of `s`.
pub open spec fn page_of<T>(s: Seq<T>, p: nat) -> Seq<T> {
    let start = (p - 1) * QUERY_LIMIT;
    let end = p * QUERY_LIMIT;
    s.subrange(start, if end < s.len() { end } else { s.len() as int })
}

/// What asking for page `page` of session `id` yields.
pub open spec fn paginate_spec(sessions: Map<u128, QueryState>, id: u128, page: u32) -> Result<Seq<(Record, Seq<SimilarityInfoFull>)>, SearchError> {
    if !sessions.contains_key(id) || sessions[id].data.len() == 0 {
        Err(SearchError::NotFound)
    } else if page == 0 || page > page_count_spec(sessions[id].data.len() as nat) {
        Err(SearchError::InvalidArgument)
    } else {
        Ok(page_of(views(sessions[id].data@), page as nat))
    }
}

/// `r` answers a request for page `page` of session `id`: the page of the cached results
/// with the session id, the page number, the result count and the page count, or the error
/// that `paginate_spec` gives.
pub open spec fn paginate_answer(sessions: Map<u128, QueryState>, id: u128, page: u32, r: Result<SearchResultsRes, SearchError>) -> bool {
    match r {
        Ok(res) => {
            &&& paginate_spec(sessions, id, page) == Ok::<Seq<(Record, Seq<SimilarityInfoFull>)>, SearchError>(views(res.data@))
            &&& res.search_id == id
            &&& res.page == page
            &&& res.number_of_results == sessions[id].data.len()
            &&& res.total_pages == page_count_spec(res.number_of_results as nat)
        },
        Err(e) => paginate_spec(sessions, id, page) == Err::<Seq<(Record, Seq<SimilarityInfoFull>)>, SearchError>(e),
    }
}

/// Two answers to the same page request on the same cache agree: both fail with the same
/// error, or both hold the same results under the same session id, page number, result
/// count and page count.
pub proof fn lemma_paginate_idempotent(
    sessions: Map<u128, QueryState>,
    id: u128,
    page: u32,
    r1: Result<SearchResultsRes, SearchError>,
    r2: Result<SearchResultsRes, SearchError>,
)
    requires
        paginate_answer(sessions, id, page, r1),
        paginate_answer(sessions, id, page, r2),
    ensures
        r1 is Ok <==> r2 is Ok,
        r1 is Err ==> r1 == r2,
        r1 is Ok ==> {
            let (a, b) = (r1->Ok_0, r2->Ok_0);
            &&& views(a.data@) == views(b.data@)
            &&& a.search_id == b.search_id
            &&& a.page == b.page
            &&& a.number_of_results == b.number_of_results
            &&& a.total_pages == b.total_pages
        },
{
}

/// The number of pages that `total` results fill.
pub fn page_count(total: usize) -> (r: usize)
    ensures
        r == page_count_spec(total as nat),
{
    total / QUERY_LIMIT + if total % QUERY_LIMIT == 0 { 0 } else { 1 }
}

/// Copies `v[start..end]`.
fn copy_range(v: &Vec<RecordResponse>, start: usize, end: usize) -> (r: Vec<RecordResponse>)
    requires
        start <= end <= v.len(),
    ensures
        views(r@) == views(v@).subrange(start as int, end as int),
{
    let mut out: Vec<RecordResponse> = Vec::new();
    for i in start..end
        invariant
            start <= end <= v.len(),
            views(out@) == views(v@).subrange(start as int, i as int),
    {
        let ghost before = out@;
        out.push(v[i].duplicate());
        assert(views(out@) =~= views(before).push(v@[i as int]@));
        assert(views(out@) =~= views(v@).subrange(start as int, i + 1));
    }
    out
}

/// The first page of `data`, as the answer for a new session.
fn first_page(session_id: u128, data: &Vec<RecordResponse>) -> (r: SearchResultsRes)
    ensures
        r.search_id == session_id,
        views(r.data@) == page_of(views(data@), 1),
        r.number_of_results == data.len(),
        r.page == 1,
        r.total_pages == page_count_spec(data.len() as nat),
{
    let end = if data.len() < QUERY_LIMIT { data.len() } else { QUERY_LIMIT };
    let page = copy_range(data, 0, end);
    SearchResultsRes {
        search_id: session_id,
        data: page,
        number_of_results: data.len(),
        page: 1,
        total_pages: page_count(data.len()),
    }
}

impl SessionCache {
    /// A cache with no session.
    pub fn new() -> (r: SessionCache)
        ensures
            r.sessions@ == Map::<u128, QueryState>::empty(),
    {
        SessionCache { sessions: HashMap::new() }
    }

    /// Stores the results of a search under `session_id`.
    pub fn insert(&mut self, session_id: u128, state: QueryState)
        ensures
            final(self).sessions@ == old(self).sessions@.insert(session_id, state),
    {
        self.sessions.insert(session_id, state);
    }

    /// Page `page` (counted from 1) of the results cached under `session_id`.
    ///
    /// `NotFound` for an unknown session or one without results; `InvalidArgument` for page
    /// 0 or a page past the last.
    pub fn paginate(&self, session_id: u128, page: u32) -> (r: Result<SearchResultsRes, SearchError>)
        ensures
            paginate_answer(self.sessions@, session_id, page, r),
    {
        let state = match self.sessions.get(&session_id) {
            None => return Err(SearchError::NotFound),
            Some(s) => s,
        };
        let n = state.data.len();
        if n == 0 {
            return Err(SearchError::NotFound);
        }
        let total_pages = page_count(n);
        if page == 0 || page as usize > total_pages {
            return Err(SearchError::InvalidArgument);
        }
        let p = page as usize;
        assert((p - 1) * QUERY_LIMIT < n) by (nonlinear_arith)
            requires
                1 <= p <= (n + 19) / 20,
                QUERY_LIMIT == 20,
        ;
        let start = (p - 1) * QUERY_LIMIT;
        let end = if n - start < QUERY_LIMIT { n } else { start + QUERY_LIMIT };
        let data = copy_range(&state.data, start, end);
        Ok(SearchResultsRes { search_id: session_id, data, number_of_results: n, page, total_pages })
    }
}

/// Serves a page request against the cache.
pub fn search_pagination_handler(cache: &SessionCache, query: &SearchResultsReq) -> (r: Result<SearchResultsRes, SearchError>)
    ensures
        paginate_answer(cache.sessions@, query.query_id, query.page, r),
{
    cache.paginate(query.query_id, query.page)
}

/// The text that a search request asks for: its text, or nothing.
pub open spec fn request_text(req: SearchReq) -> Seq<char> {
    match req.search_text {
        Some(t) => t@,
        None => Seq::empty(),
    }
}

/// Serves a search request: searches, caches the results under the fresh `session_id`, and
/// answers with the first page. On `NotFound` the cache is left as it was.
pub fn search_handler(
    req: &SearchReq,
    session_id: u128,
    inverted_index: &InvertedIndex,
    graph: &SimilarityGraph,
    records: &HashMap<u32, Record>,
    cache: &mut SessionCache,
) -> (r: Result<SearchResultsRes, SearchError>)
    requires
        inverted_index.wf(),
        graph.wf(),
    ensures
        r is Err ==> r == Err::<SearchResultsRes, SearchError>(SearchError::NotFound)
            && final(cache).sessions@ == old(cache).sessions@,
        r is Err <==> !exists|v: Seq<RecordResponse>|
            is_search_result(v, *inverted_index, *graph, records@, request_text(*req)),
        r matches Ok(res) ==> {
            let st = final(cache).sessions@[session_id];
            &&& final(cache).sessions@ == old(cache).sessions@.insert(session_id, st)
            &&& st.text_query@ == request_text(*req)
            &&& is_search_result(st.data@, *inverted_index, *graph, records@, request_text(*req))
            &&& res.search_id == session_id
            &&& views(res.data@) == page_of(views(st.data@), 1)
            &&& res.number_of_results == st.data.len()
            &&& res.page == 1
            &&& res.total_pages == page_count_spec(st.data.len() as nat)
        },
{
    let text = match &req.search_text {
        Some(t) => t.clone(),
        None => String::new(),
    };
    assert(text@ == request_text(*req));
    match search(&text, inverted_index, graph, records) {
        Err(e) => Err(e),
        Ok(entries) => {
            assert(is_search_result(entries@, *inverted_index, *graph, records@, request_text(*req)));
            let res = first_page(session_id, &entries);
            cache.insert(session_id, QueryState { text_query: text, data: entries });
            Ok(res)
        },
    }
}

/// All pages of one result list, 1 to `n`, one after another.
pub open spec fn concat_pages<T>(s: Seq<T>, n: nat) -> Seq<T>
    decreases n,
{
    if n == 0 {
        Seq::empty()
    } else {
        concat_pages(s, (n - 1) as nat) + page_of(s, n)
    }
}

proof fn lemma_concat_pages_prefix<T>(s: Seq<T>, n: nat)
    requires
        n <= page_count_spec(s.len()),
    ensures
        concat_pages(s, n) == s.take(if n * QUERY_LIMIT < s.len() { (n * QUERY_LIMIT) as int } else { s.len() as int }),
    decreases n,
{
    if n > 0 {
        lemma_concat_pages_prefix(s, (n - 1) as nat);
        assert((n - 1) * 20 < s.len()) by (nonlinear_arith)
            requires
                1 <= n <= (s.len() + 19) / 20,
        ;
        assert(n * 20 == (n - 1) * 20 + 20) by (nonlinear_arith);
        let end = if n * QUERY_LIMIT < s.len() { (n * QUERY_LIMIT) as int } else { s.len() as int };
        assert(concat_pages(s, n) =~= s.take(end));
    }
}

/// The pages 1 to the page count, put one after another, give back the whole cached list:
/// every result once, none left out.
pub proof fn lemma_pages_cover<T>(s: Seq<T>)
    ensures
        concat_pages(s, page_count_spec(s.len())) == s,
{
    let n = page_count_spec(s.len());
    lemma_concat_pages_prefix(s, n);
    assert(n * 20 >= s.len()) by (nonlinear_arith)
        requires
            n == (s.len() + 19) / 20,
    ;
    assert(s.take(s.len() as int) =~= s);
}

} // verus!
