//! ArXiv: queries `export.arxiv.org/api/query` (the Atom API).
//!
//! Rate limit: at most one request per 3 seconds, per ArXiv's terms of use.

pub mod parser;

use vstd::prelude::*;

use crate::bindings::{pairs_view, xml_document_nodes};
use crate::text::{append_chars, chars_of, decimal, string_of, u64_text};
use crate::{
    advance_index, advanced_index, concat_pages, copy_string, index_before, lemma_pages_contiguous,
    lemma_pages_counted, numbered_from, offset_before, offset_of, pages_counted, param,
    plain_pagination, plain_state, results_view, running_indices, Engine, PaginationState,
    ResultView, SearchOptions, SearchResult,
};

verus! {

/// Where ArXiv answers queries.
pub const ARXIV_API_URL: &'static str = "https://export.arxiv.org/api/query";

/// ArXiv returns up to this many results per request.
pub const RESULTS_PER_PAGE: usize = 10;

/// The query parameters of the page whose first result is at `start`:
/// all fields searched for the keywords, ten results, by relevance.
pub open spec fn query_fields(opts: SearchOptions, start: nat) -> Seq<(Seq<char>, Seq<char>)> {
    seq![
        ("search_query"@, "all:"@ + opts.keywords@),
        ("start"@, decimal(start)),
        ("max_results"@, decimal(RESULTS_PER_PAGE as nat)),
        ("sortBy"@, "relevance"@),
        ("sortOrder"@, "descending"@),
    ]
}

fn query_at(opts: &SearchOptions, start: usize) -> (r: Vec<(String, String)>)
    ensures
        pairs_view(r@) == query_fields(*opts, start as nat),
{
    let mut query = chars_of("all:");
    let kw = chars_of(opts.keywords.as_str());
    append_chars(&mut query, kw.as_slice());
    let mut q: Vec<(String, String)> = Vec::new();
    q.push(param("search_query", string_of(query.as_slice())));
    q.push(param("start", u64_text(start as u64)));
    q.push(param("max_results", u64_text(RESULTS_PER_PAGE as u64)));
    q.push(param("sortBy", "relevance".to_owned()));
    q.push(param("sortOrder", "descending".to_owned()));
    assert(pairs_view(q@) =~= query_fields(*opts, start as nat));
    q
}

/// The query parameters of the first page.
pub fn first_page_query(opts: &SearchOptions) -> (r: Vec<(String, String)>)
    ensures
        pairs_view(r@) == query_fields(*opts, 0),
{
    query_at(opts, 0)
}

/// The query parameters of the page after `pag`.
pub fn next_page_query(opts: &SearchOptions, pag: &PaginationState) -> (r: Vec<(String, String)>)
    requires
        (pag.page + 1) * RESULTS_PER_PAGE <= usize::MAX,
    ensures
        pairs_view(r@) == query_fields(*opts, ((pag.page + 1) * RESULTS_PER_PAGE) as nat),
{
    query_at(opts, (pag.page + 1) * RESULTS_PER_PAGE)
}

/// Reads the first page of ArXiv results from the response `body`.
pub fn search_page(opts: &SearchOptions, body: &str) -> (r: (Vec<SearchResult>, PaginationState))
    ensures
        results_view(r.0@) == parser::feed_from_xml(body@, 0).results,
        plain_state(
            r.1,
            Engine::ArXiv,
            0,
            advanced_index(1, r.0@.len()),
            r.0@.len() as int,
            parser::feed_from_xml(body@, 0).total_results,
            opts.user_agent@,
        ),
{
    let feed = parser::parse(body, 0);
    let n = feed.results.len();
    let pag = plain_pagination(
        Engine::ArXiv,
        0,
        advance_index(1, n),
        n,
        feed.total_results,
        copy_string(&opts.user_agent),
    );
    (feed.results, pag)
}

/// Reads the page after `pag` of ArXiv results from the response `body`.
pub fn search_next_page(_opts: &SearchOptions, pag: &PaginationState, body: &str) -> (r: (
    Vec<SearchResult>,
    PaginationState,
))
    requires
        pag.page < usize::MAX,
    ensures
        results_view(r.0@) == parser::feed_from_xml(body@, offset_before(pag.cur_index) as int).results,
        plain_state(
            r.1,
            Engine::ArXiv,
            pag.page + 1,
            advanced_index(pag.cur_index, r.0@.len()),
            r.0@.len() as int,
            parser::feed_from_xml(body@, offset_before(pag.cur_index) as int).total_results,
            pag.user_agent@,
        ),
{
    let offset = offset_of(pag.cur_index);
    let feed = parser::parse(body, offset);
    let n = feed.results.len();
    let new_pag = plain_pagination(
        Engine::ArXiv,
        pag.page + 1,
        advance_index(pag.cur_index, n),
        n,
        feed.total_results,
        copy_string(&pag.user_agent),
    );
    (feed.results, new_pag)
}

/// Call `j` of an ArXiv search returned the results `pages[j]` and the state
/// `states[j]` after reading the response `bodies[j]`: `search_page` for the
/// first page, `search_next_page` from `states[j - 1]` for each later one,
/// each as its contract states.
pub open spec fn session_step(
    bodies: Seq<Seq<char>>,
    pages: Seq<Seq<ResultView>>,
    states: Seq<PaginationState>,
    j: int,
) -> bool {
    let before = index_before(running_indices(states), j);
    &&& pages[j] == parser::feed_from_xml(bodies[j], offset_before(before) as int).results
    &&& states[j].cur_index == advanced_index(before, pages[j].len())
    &&& states[j].result_count == pages[j].len()
}

/// The calls of one ArXiv search, page after page.
pub open spec fn session(
    bodies: Seq<Seq<char>>,
    pages: Seq<Seq<ResultView>>,
    states: Seq<PaginationState>,
) -> bool {
    &&& bodies.len() == pages.len()
    &&& states.len() == pages.len()
    &&& pages_counted(states)
    &&& forall|j: int| 0 <= j < pages.len() ==> #[trigger] session_step(bodies, pages, states, j)
}

/// Numbering stays contiguous across the pages of an ArXiv search: the
/// results of the first page and of each next page, one after another, are
/// numbered 1, 2, 3, ... with no gap and no repeat; the last state holds
/// the total plus one as its running index, counts the pages from 0 and
/// holds the length of the last page. This holds as long as the total fits
/// the running index (`i64`) and the offsets (`usize`).
pub proof fn lemma_session_contiguous(
    bodies: Seq<Seq<char>>,
    pages: Seq<Seq<ResultView>>,
    states: Seq<PaginationState>,
)
    requires
        session(bodies, pages, states),
        pages.len() > 0,
        concat_pages(pages).len() + 1 <= i64::MAX,
        concat_pages(pages).len() <= usize::MAX,
    ensures
        numbered_from(concat_pages(pages), 0),
        states.last().cur_index == concat_pages(pages).len() + 1,
        states.last().page == pages.len() - 1,
        states.last().result_count == pages.last().len(),
{
    let curs = running_indices(states);
    assert forall|j: int| 0 <= j < pages.len() implies #[trigger] numbered_from(
        pages[j],
        offset_before(index_before(curs, j)) as int,
    ) by {
        assert(session_step(bodies, pages, states, j));
        let offset = offset_before(index_before(curs, j)) as int;
        match xml_document_nodes(bodies[j]) {
            Some(nodes) => {
                parser::lemma_feed_sound(nodes, offset);
            },
            None => {},
        }
    }
    assert forall|j: int| 0 <= j < pages.len() implies #[trigger] curs[j] == advanced_index(
        index_before(curs, j),
        pages[j].len(),
    ) by {
        assert(session_step(bodies, pages, states, j));
    }
    lemma_pages_contiguous(pages, curs);
    assert(session_step(bodies, pages, states, pages.len() - 1));
    lemma_pages_counted(states, pages.len() - 1);
}

} // verus!
