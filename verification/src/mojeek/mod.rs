//! Mojeek: queries `www.mojeek.com/search` (GET, HTML).

pub mod parser;

use vstd::prelude::*;

use crate::bindings::pairs_view;
use crate::text::{decimal, u64_text};
use crate::{
    advance_index, advanced_index, concat_pages, copy_string, index_before, lemma_pages_contiguous,
    lemma_pages_counted, numbered_from, offset_before, offset_of, pages_counted, param,
    plain_pagination, plain_state, results_view, running_indices, Engine, PaginationState,
    ResultView, SearchOptions, SearchResult,
};

verus! {

/// Where Mojeek answers searches.
pub const MOJEEK_URL: &'static str = "https://www.mojeek.com/search";

/// Mojeek returns about this many results per page.
pub const RESULTS_PER_PAGE: usize = 10;

/// The `safe` parameter: `1` for strict safe search, else `0`.
pub open spec fn safe_flag(safe: i8) -> Seq<char> {
    if safe >= 1 {
        "1"@
    } else {
        "0"@
    }
}

fn safe_text(safe: i8) -> (r: String)
    ensures
        r@ == safe_flag(safe),
{
    if safe >= 1 {
        "1".to_owned()
    } else {
        "0".to_owned()
    }
}

/// The query parameters of the first page.
pub fn first_page_query(opts: &SearchOptions) -> (r: Vec<(String, String)>)
    ensures
        pairs_view(r@) == seq![("q"@, opts.keywords@), ("safe"@, safe_flag(opts.safe))],
{
    let mut q: Vec<(String, String)> = Vec::new();
    q.push(param("q", copy_string(&opts.keywords)));
    q.push(param("safe", safe_text(opts.safe)));
    assert(pairs_view(q@) =~= seq![("q"@, opts.keywords@), ("safe"@, safe_flag(opts.safe))]);
    q
}

/// The position of the first result of the page after `pag`.
pub open spec fn next_page_start(pag: PaginationState) -> nat {
    ((pag.page + 1) * RESULTS_PER_PAGE) as nat
}

/// The query parameters of the page after `pag`.
pub fn next_page_query(opts: &SearchOptions, pag: &PaginationState) -> (r: Vec<(String, String)>)
    requires
        (pag.page + 1) * RESULTS_PER_PAGE <= usize::MAX,
    ensures
        pairs_view(r@) == seq![
            ("q"@, opts.keywords@),
            ("s"@, decimal(next_page_start(*pag))),
            ("safe"@, safe_flag(opts.safe)),
        ],
{
    let start = (pag.page + 1) * RESULTS_PER_PAGE;
    let mut q: Vec<(String, String)> = Vec::new();
    q.push(param("q", copy_string(&opts.keywords)));
    q.push(param("s", u64_text(start as u64)));
    q.push(param("safe", safe_text(opts.safe)));
    assert(pairs_view(q@) =~= seq![
        ("q"@, opts.keywords@),
        ("s"@, decimal(next_page_start(*pag))),
        ("safe"@, safe_flag(opts.safe)),
    ]);
    q
}

/// Reads the first page of Mojeek results from the response `body`.
pub fn search_page(opts: &SearchOptions, body: &str) -> (r: (Vec<SearchResult>, PaginationState))
    ensures
        parser::numbering_fits(parser::page_blocks(body@), 0) ==> results_view(r.0@)
            == parser::block_results(parser::page_blocks(body@), 0),
        !parser::numbering_fits(parser::page_blocks(body@), 0) ==> r.0@.len() == 0,
        plain_state(
            r.1,
            Engine::Mojeek,
            0,
            advanced_index(1, r.0@.len()),
            r.0@.len() as int,
            0,
            opts.user_agent@,
        ),
{
    let results = parser::parse(body, 0);
    let n = results.len();
    let pag = plain_pagination(
        Engine::Mojeek,
        0,
        advance_index(1, n),
        n,
        0,
        copy_string(&opts.user_agent),
    );
    (results, pag)
}

/// Reads the page after `pag` of Mojeek results from the response `body`.
pub fn search_next_page(_opts: &SearchOptions, pag: &PaginationState, body: &str) -> (r: (
    Vec<SearchResult>,
    PaginationState,
))
    requires
        pag.page < usize::MAX,
    ensures
        parser::numbering_fits(parser::page_blocks(body@), offset_before(pag.cur_index) as int)
            ==> results_view(r.0@) == parser::block_results(
            parser::page_blocks(body@),
            offset_before(pag.cur_index) as int,
        ),
        !parser::numbering_fits(parser::page_blocks(body@), offset_before(pag.cur_index) as int)
            ==> r.0@.len() == 0,
        plain_state(
            r.1,
            Engine::Mojeek,
            pag.page + 1,
            advanced_index(pag.cur_index, r.0@.len()),
            r.0@.len() as int,
            0,
            pag.user_agent@,
        ),
{
    let offset = offset_of(pag.cur_index);
    let results = parser::parse(body, offset);
    let n = results.len();
    let new_pag = plain_pagination(
        Engine::Mojeek,
        pag.page + 1,
        advance_index(pag.cur_index, n),
        n,
        0,
        copy_string(&pag.user_agent),
    );
    (results, new_pag)
}

/// The results of a Mojeek page read from `body`, numbered after `offset`
/// results: none when their numbers would pass `usize::MAX`.
pub open spec fn page_results(body: Seq<char>, offset: int) -> Seq<ResultView> {
    if parser::numbering_fits(parser::page_blocks(body), offset) {
        parser::block_results(parser::page_blocks(body), offset)
    } else {
        Seq::empty()
    }
}

/// Call `j` of a Mojeek search returned the results `pages[j]` and the state
/// `states[j]` after reading the response `bodies[j]`: `search_page` for
/// the first page, `search_next_page` from `states[j - 1]` for each later
/// one, each as its contract states.
pub open spec fn session_step(
    bodies: Seq<Seq<char>>,
    pages: Seq<Seq<ResultView>>,
    states: Seq<PaginationState>,
    j: int,
) -> bool {
    let before = index_before(running_indices(states), j);
    &&& pages[j] == page_results(bodies[j], offset_before(before) as int)
    &&& states[j].cur_index == advanced_index(before, pages[j].len())
    &&& states[j].result_count == pages[j].len()
}

/// The calls of one Mojeek search, page after page.
pub open spec fn session(
    bodies: Seq<Seq<char>>,
    pages: Seq<Seq<ResultView>>,
    states: Seq<PaginationState>,
) -> bool {
    &&& bodies.len() == pages.len()
    &&& states.len() == pages.len()
    &&& pages_counted(states)
    &&& forall|j: int| 0 <= j < pages.len() ==> #[trigger] session_step(bodies, pages, states, j)
}

/// Numbering stays contiguous across the pages of a Mojeek search: the
/// results of the first page and of each next page, one after another, are
/// numbered 1, 2, 3, ... with no gap and no repeat; the last state holds
/// the total plus one as its running index, counts the pages from 0 and
/// holds the length of the last page. This holds as long as the total fits
/// the running index (`i64`) and the offsets (`usize`).
pub proof fn lemma_session_contiguous(
    bodies: Seq<Seq<char>>,
    pages: Seq<Seq<ResultView>>,
    states: Seq<PaginationState>,
)
    requires
        session(bodies, pages, states),
        pages.len() > 0,
        concat_pages(pages).len() + 1 <= i64::MAX,
        concat_pages(pages).len() <= usize::MAX,
    ensures
        numbered_from(concat_pages(pages), 0),
        states.last().cur_index == concat_pages(pages).len() + 1,
        states.last().page == pages.len() - 1,
        states.last().result_count == pages.last().len(),
{
    let curs = running_indices(states);
    assert forall|j: int| 0 <= j < pages.len() implies #[trigger] numbered_from(
        pages[j],
        offset_before(index_before(curs, j)) as int,
    ) by {
        assert(session_step(bodies, pages, states, j));
        parser::lemma_results_sound(
            parser::page_blocks(bodies[j]),
            offset_before(index_before(curs, j)) as int,
        );
    }
    assert forall|j: int| 0 <= j < pages.len() implies #[trigger] curs[j] == advanced_index(
        index_before(curs, j),
        pages[j].len(),
    ) by {
        assert(session_step(bodies, pages, states, j));
    }
    lemma_pages_contiguous(pages, curs);
    assert(session_step(bodies, pages, states, pages.len() - 1));
    lemma_pages_counted(states, pages.len() - 1);
}

} // verus!
