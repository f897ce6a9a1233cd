//! DuckDuckGo: queries `html.duckduckgo.com/html` (the lite endpoint).

pub mod parser;

use vstd::prelude::*;

use crate::bindings::pairs_view;
use crate::text::{decimal, i64_text, signed_decimal, u64_text};
use crate::{
    advance_index, advanced_index, concat_pages, copy_string, index_before, lemma_pages_contiguous,
    lemma_pages_counted, numbered_from, offset_before, offset_of, pages_counted, param,
    results_view, running_indices, Engine, PaginationState, ResultView, SearchError,
    SearchOptions, SearchResult,
};

verus! {

/// Where DuckDuckGo answers searches.
pub const DDG_URL: &'static str = "https://html.duckduckgo.com/html";

/// The form fields of the first page.
pub open spec fn first_page_fields(opts: SearchOptions) -> Seq<(Seq<char>, Seq<char>)> {
    seq![
        ("q"@, opts.keywords@),
        ("b"@, Seq::empty()),
        ("df"@, opts.duration@),
        ("kf"@, "-1"@),
        ("kh"@, "1"@),
        ("kl"@, opts.region@),
        ("kp"@, signed_decimal(opts.safe as int)),
        ("k1"@, "-1"@),
    ]
}

/// The form fields of the first page.
pub fn first_page_form(opts: &SearchOptions) -> (r: Vec<(String, String)>)
    ensures
        pairs_view(r@) == first_page_fields(*opts),
{
    let mut f: Vec<(String, String)> = Vec::new();
    f.push(param("q", copy_string(&opts.keywords)));
    f.push(param("b", String::new()));
    f.push(param("df", copy_string(&opts.duration)));
    f.push(param("kf", "-1".to_owned()));
    f.push(param("kh", "1".to_owned()));
    f.push(param("kl", copy_string(&opts.region)));
    f.push(param("kp", i64_text(opts.safe as i64)));
    f.push(param("k1", "-1".to_owned()));
    assert(pairs_view(f@) =~= first_page_fields(*opts));
    f
}

/// The form `fields` sends `value` for `name`: some field so named holds it,
/// and every field so named does.
pub open spec fn sends(fields: Seq<(Seq<char>, Seq<char>)>, name: Seq<char>, value: Seq<char>) -> bool {
    &&& exists|i: int| 0 <= i < fields.len() && #[trigger] fields[i] == (name, value)
    &&& forall|i: int| 0 <= i < fields.len() && (#[trigger] fields[i]).0 == name ==> fields[i].1 == value
}

/// The form fields of the page after `pag`: the search, the result offset
/// `50 * page + 30`, the pagination and session tokens, and the filters.
pub open spec fn next_page_fields(opts: SearchOptions, pag: PaginationState) -> Seq<(Seq<char>, Seq<char>)> {
    seq![
        ("q"@, opts.keywords@),
        ("s"@, decimal((50 * pag.page + 30) as nat)),
        ("nextParams"@, pag.next_params@),
        ("v"@, "l"@),
        ("o"@, "json"@),
        ("dc"@, signed_decimal(pag.cur_index as int)),
        ("df"@, opts.duration@),
        ("api"@, "/d.js"@),
        ("kf"@, "-1"@),
        ("kh"@, "1"@),
        ("kl"@, opts.region@),
        ("kp"@, signed_decimal(opts.safe as int)),
        ("k1"@, "-1"@),
        ("vqd"@, pag.vqd@),
    ]
}

/// The form fields of the page after `pag`.
pub fn next_page_form(opts: &SearchOptions, pag: &PaginationState) -> (r: Vec<(String, String)>)
    requires
        pag.page < usize::MAX,
        50 * pag.page + 30 <= usize::MAX,
    ensures
        pairs_view(r@) == next_page_fields(*opts, *pag),
{
    let next_page = pag.page + 1;
    let skip = 50 * next_page.saturating_sub(1) + 30;
    let mut f: Vec<(String, String)> = Vec::new();
    f.push(param("q", copy_string(&opts.keywords)));
    f.push(param("s", u64_text(skip as u64)));
    f.push(param("nextParams", copy_string(&pag.next_params)));
    f.push(param("v", "l".to_owned()));
    f.push(param("o", "json".to_owned()));
    f.push(param("dc", i64_text(pag.cur_index)));
    f.push(param("df", copy_string(&opts.duration)));
    f.push(param("api", "/d.js".to_owned()));
    f.push(param("kf", "-1".to_owned()));
    f.push(param("kh", "1".to_owned()));
    f.push(param("kl", copy_string(&opts.region)));
    f.push(param("kp", i64_text(opts.safe as i64)));
    f.push(param("k1", "-1".to_owned()));
    f.push(param("vqd", copy_string(&pag.vqd)));
    assert(pairs_view(f@) =~= next_page_fields(*opts, *pag));
    f
}

/// The options for the page after `pag`: `opts` with the session's
/// User-Agent, when the session has one. DuckDuckGo ties the `vqd` token to
/// the User-Agent, so the pages of one search must share it.
pub fn session_options(opts: &SearchOptions, pag: &PaginationState) -> (r: SearchOptions)
    ensures
        r.keywords@ == opts.keywords@,
        r.region@ == opts.region@,
        r.safe == opts.safe,
        r.duration@ == opts.duration@,
        r.user_agent@ == (if pag.user_agent@.len() > 0 {
            pag.user_agent@
        } else {
            opts.user_agent@
        }),
        match (opts.proxy, r.proxy) {
            (Some(a), Some(b)) => a@ == b@,
            (None, None) => true,
            _ => false,
        },
        r.toon == opts.toon,
        r.engine == opts.engine,
        r.max_results == opts.max_results,
{
    let mut session = opts.duplicate();
    if !pag.user_agent.as_str().is_empty() {
        session.user_agent = copy_string(&pag.user_agent);
    }
    session
}

/// `p` is the DuckDuckGo state after page `page` with the given tokens.
pub open spec fn ddg_state(
    p: PaginationState,
    page: int,
    cur_index: i64,
    count: int,
    next_params: Seq<char>,
    prev_params: Seq<char>,
    vqd: Seq<char>,
    user_agent: Seq<char>,
) -> bool {
    &&& p.engine == Engine::DuckDuckGo
    &&& p.page == page
    &&& p.cur_index == cur_index
    &&& p.result_count == count
    &&& p.total_results == 0
    &&& p.next_params@ == next_params
    &&& p.prev_params@ == prev_params
    &&& p.vqd@ == vqd
    &&& p.user_agent@ == user_agent
}

/// Reads the first page of DuckDuckGo results from the response `body`:
/// `Blocked` when the page is the bot-detection dialog, else the page's
/// results and the state that the next page starts from.
pub fn search_page(opts: &SearchOptions, body: &str) -> (r: Result<(Vec<SearchResult>, PaginationState), SearchError>)
    ensures
        parser::page_of(body@, 0).is_blocked <==> (r matches Err(SearchError::Blocked)),
        !parser::page_of(body@, 0).is_blocked ==> (r matches Ok((results, pag)) && results_view(
            results@,
        ) == parser::page_of(body@, 0).results && ddg_state(
            pag,
            0,
            advanced_index(1, results@.len()),
            results@.len() as int,
            parser::page_of(body@, 0).np_next,
            parser::page_of(body@, 0).np_prev,
            parser::page_of(body@, 0).vqd,
            opts.user_agent@,
        )),
{
    let page = parser::parse(body, 0);
    if page.is_blocked {
        return Err(SearchError::Blocked);
    }
    let n = page.results.len();
    let pag = PaginationState {
        engine: Engine::DuckDuckGo,
        page: 0,
        cur_index: advance_index(1, n),
        next_params: page.np_next,
        prev_params: page.np_prev,
        vqd: page.vqd,
        user_agent: copy_string(&opts.user_agent),
        result_count: n,
        total_results: 0,
    };
    Ok((page.results, pag))
}

/// Reads the page after `pag` of DuckDuckGo results from the response
/// `body`: `Blocked` when the page is the bot-detection dialog, else the
/// page's results numbered after the earlier ones, and the next state, which
/// keeps the old `vqd` token when the page brought none.
pub fn search_next_page(_opts: &SearchOptions, pag: &PaginationState, body: &str) -> (r: Result<
    (Vec<SearchResult>, PaginationState),
    SearchError,
>)
    requires
        pag.page < usize::MAX,
    ensures
        ({
            let page = parser::page_of(body@, offset_before(pag.cur_index) as int);
            &&& page.is_blocked <==> (r matches Err(SearchError::Blocked))
            &&& !page.is_blocked ==> (r matches Ok((results, new_pag)) && results_view(results@)
                == page.results && ddg_state(
                new_pag,
                pag.page + 1,
                advanced_index(pag.cur_index, results@.len()),
                results@.len() as int,
                page.np_next,
                page.np_prev,
                if page.vqd.len() == 0 {
                    pag.vqd@
                } else {
                    page.vqd
                },
                pag.user_agent@,
            ))
        }),
{
    let offset = offset_of(pag.cur_index);
    let page = parser::parse(body, offset);
    if page.is_blocked {
        return Err(SearchError::Blocked);
    }
    let n = page.results.len();
    let vqd = if page.vqd.as_str().is_empty() {
        copy_string(&pag.vqd)
    } else {
        page.vqd
    };
    let new_pag = PaginationState {
        engine: Engine::DuckDuckGo,
        page: pag.page + 1,
        cur_index: advance_index(pag.cur_index, n),
        next_params: page.np_next,
        prev_params: page.np_prev,
        vqd,
        user_agent: copy_string(&pag.user_agent),
        result_count: n,
        total_results: 0,
    };
    Ok((page.results, new_pag))
}

/// Call `j` of a DuckDuckGo search returned `Ok` with the results `pages[j]`
/// and the state `states[j]` after reading the response `bodies[j]`:
/// `search_page` for the first page, `search_next_page` from `states[j - 1]`
/// for each later one, each as its contract states.
pub open spec fn session_step(
    bodies: Seq<Seq<char>>,
    pages: Seq<Seq<ResultView>>,
    states: Seq<PaginationState>,
    j: int,
) -> bool {
    let before = index_before(running_indices(states), j);
    let page = parser::page_of(bodies[j], offset_before(before) as int);
    &&& !page.is_blocked
    &&& pages[j] == page.results
    &&& states[j].cur_index == advanced_index(before, pages[j].len())
    &&& states[j].result_count == pages[j].len()
}

/// The successful calls of one DuckDuckGo search, page after page.
pub open spec fn session(
    bodies: Seq<Seq<char>>,
    pages: Seq<Seq<ResultView>>,
    states: Seq<PaginationState>,
) -> bool {
    &&& bodies.len() == pages.len()
    &&& states.len() == pages.len()
    &&& pages_counted(states)
    &&& forall|j: int| 0 <= j < pages.len() ==> #[trigger] session_step(bodies, pages, states, j)
}

/// Numbering stays contiguous across the pages of a DuckDuckGo search: the
/// results of the first page and of each next page, one after another, are
/// numbered 1, 2, 3, ... with no gap and no repeat; the last state holds
/// the total plus one as its running index, counts the pages from 0 and
/// holds the length of the last page. This holds as long as the total fits
/// the running index (`i64`) and the offsets (`usize`).
pub proof fn lemma_session_contiguous(
    bodies: Seq<Seq<char>>,
    pages: Seq<Seq<ResultView>>,
    states: Seq<PaginationState>,
)
    requires
        session(bodies, pages, states),
        pages.len() > 0,
        concat_pages(pages).len() + 1 <= i64::MAX,
        concat_pages(pages).len() <= usize::MAX,
    ensures
        numbered_from(concat_pages(pages), 0),
        states.last().cur_index == concat_pages(pages).len() + 1,
        states.last().page == pages.len() - 1,
        states.last().result_count == pages.last().len(),
{
    let curs = running_indices(states);
    assert forall|j: int| 0 <= j < pages.len() implies #[trigger] numbered_from(
        pages[j],
        offset_before(index_before(curs, j)) as int,
    ) by {
        assert(session_step(bodies, pages, states, j));
        parser::lemma_page_sound(bodies[j], offset_before(index_before(curs, j)) as int);
    }
    assert forall|j: int| 0 <= j < pages.len() implies #[trigger] curs[j] == advanced_index(
        index_before(curs, j),
        pages[j].len(),
    ) by {
        assert(session_step(bodies, pages, states, j));
    }
    lemma_pages_contiguous(pages, curs);
    assert(session_step(bodies, pages, states, pages.len() - 1));
    lemma_pages_counted(states, pages.len() - 1);
}

/// The first DuckDuckGo request carries the user's search and filters: the
/// keywords as `q`, the time filter as `df`, the region as `kl` and the
/// safe-search level as `kp`, in its signed decimal text (`1` strict, `-1`
/// moderate, `-2` off), with DuckDuckGo's fixed settings `b`, `kf`, `kh`
/// and `k1`; each field once.
pub proof fn lemma_first_form_fields(opts: SearchOptions)
    ensures
        sends(first_page_fields(opts), "q"@, opts.keywords@),
        sends(first_page_fields(opts), "b"@, Seq::<char>::empty()),
        sends(first_page_fields(opts), "df"@, opts.duration@),
        sends(first_page_fields(opts), "kf"@, "-1"@),
        sends(first_page_fields(opts), "kh"@, "1"@),
        sends(first_page_fields(opts), "kl"@, opts.region@),
        sends(first_page_fields(opts), "kp"@, signed_decimal(opts.safe as int)),
        sends(first_page_fields(opts), "k1"@, "-1"@),
        opts.safe == 1 ==> sends(first_page_fields(opts), "kp"@, "1"@),
        opts.safe == -1 ==> sends(first_page_fields(opts), "kp"@, "-1"@),
        opts.safe == -2 ==> sends(first_page_fields(opts), "kp"@, "-2"@),
{
    reveal_strlit("-1");
    reveal_strlit("-2");
    reveal_strlit("/d.js");
    reveal_strlit("1");
    reveal_strlit("api");
    reveal_strlit("b");
    reveal_strlit("dc");
    reveal_strlit("df");
    reveal_strlit("json");
    reveal_strlit("k1");
    reveal_strlit("kf");
    reveal_strlit("kh");
    reveal_strlit("kl");
    reveal_strlit("kp");
    reveal_strlit("l");
    reveal_strlit("nextParams");
    reveal_strlit("o");
    reveal_strlit("q");
    reveal_strlit("s");
    reveal_strlit("v");
    reveal_strlit("vqd");
    let f = first_page_fields(opts);
    assert(f[0] == ("q"@, opts.keywords@));
    assert forall|i: int| 0 <= i < f.len() && (#[trigger] f[i]).0 == "q"@ implies f[i].1
        == opts.keywords@ by {
        if i == 1 {
            assert("b"@[0] != "q"@[0]);
        } else if i == 2 {
            assert("df"@.len() != "q"@.len());
        } else if i == 3 {
            assert("kf"@.len() != "q"@.len());
        } else if i == 4 {
            assert("kh"@.len() != "q"@.len());
        } else if i == 5 {
            assert("kl"@.len() != "q"@.len());
        } else if i == 6 {
            assert("kp"@.len() != "q"@.len());
        } else if i == 7 {
            assert("k1"@.len() != "q"@.len());
        }
    }
    assert(f[1] == ("b"@, Seq::<char>::empty()));
    assert forall|i: int| 0 <= i < f.len() && (#[trigger] f[i]).0 == "b"@ implies f[i].1
        == Seq::<char>::empty() by {
        if i == 0 {
            assert("q"@[0] != "b"@[0]);
        } else if i == 2 {
            assert("df"@.len() != "b"@.len());
        } else if i == 3 {
            assert("kf"@.len() != "b"@.len());
        } else if i == 4 {
            assert("kh"@.len() != "b"@.len());
        } else if i == 5 {
            assert("kl"@.len() != "b"@.len());
        } else if i == 6 {
            assert("kp"@.len() != "b"@.len());
        } else if i == 7 {
            assert("k1"@.len() != "b"@.len());
        }
    }
    assert(f[2] == ("df"@, opts.duration@));
    assert forall|i: int| 0 <= i < f.len() && (#[trigger] f[i]).0 == "df"@ implies f[i].1
        == opts.duration@ by {
        if i == 0 {
            assert("q"@.len() != "df"@.len());
        } else if i == 1 {
            assert("b"@.len() != "df"@.len());
        } else if i == 3 {
            assert("kf"@[0] != "df"@[0]);
        } else if i == 4 {
            assert("kh"@[0] != "df"@[0]);
        } else if i == 5 {
            assert("kl"@[0] != "df"@[0]);
        } else if i == 6 {
            assert("kp"@[0] != "df"@[0]);
        } else if i == 7 {
            assert("k1"@[0] != "df"@[0]);
        }
    }
    assert(f[3] == ("kf"@, "-1"@));
    assert forall|i: int| 0 <= i < f.len() && (#[trigger] f[i]).0 == "kf"@ implies f[i].1
        == "-1"@ by {
        if i == 0 {
            assert("q"@.len() != "kf"@.len());
        } else if i == 1 {
            assert("b"@.len() != "kf"@.len());
        } else if i == 2 {
            assert("df"@[0] != "kf"@[0]);
        } else if i == 4 {
            assert("kh"@[1] != "kf"@[1]);
        } else if i == 5 {
            assert("kl"@[1] != "kf"@[1]);
        } else if i == 6 {
            assert("kp"@[1] != "kf"@[1]);
        } else if i == 7 {
            assert("k1"@[1] != "kf"@[1]);
        }
    }
    assert(f[4] == ("kh"@, "1"@));
    assert forall|i: int| 0 <= i < f.len() && (#[trigger] f[i]).0 == "kh"@ implies f[i].1
        == "1"@ by {
        if i == 0 {
            assert("q"@.len() != "kh"@.len());
        } else if i == 1 {
            assert("b"@.len() != "kh"@.len());
        } else if i == 2 {
            assert("df"@[0] != "kh"@[0]);
        } else if i == 3 {
            assert("kf"@[1] != "kh"@[1]);
        } else if i == 5 {
            assert("kl"@[1] != "kh"@[1]);
        } else if i == 6 {
            assert("kp"@[1] != "kh"@[1]);
        } else if i == 7 {
            assert("k1"@[1] != "kh"@[1]);
        }
    }
    assert(f[5] == ("kl"@, opts.region@));
    assert forall|i: int| 0 <= i < f.len() && (#[trigger] f[i]).0 == "kl"@ implies f[i].1
        == opts.region@ by {
        if i == 0 {
            assert("q"@.len() != "kl"@.len());
        } else if i == 1 {
            assert("b"@.len() != "kl"@.len());
        } else if i == 2 {
            assert("df"@[0] != "kl"@[0]);
        } else if i == 3 {
            assert("kf"@[1] != "kl"@[1]);
        } else if i == 4 {
            assert("kh"@[1] != "kl"@[1]);
        } else if i == 6 {
            assert("kp"@[1] != "kl"@[1]);
        } else if i == 7 {
            assert("k1"@[1] != "kl"@[1]);
        }
    }
    assert(f[6] == ("kp"@, signed_decimal(opts.safe as int)));
    assert forall|i: int| 0 <= i < f.len() && (#[trigger] f[i]).0 == "kp"@ implies f[i].1
        == signed_decimal(opts.safe as int) by {
        if i == 0 {
            assert("q"@.len() != "kp"@.len());
        } else if i == 1 {
            assert("b"@.len() != "kp"@.len());
        } else if i == 2 {
            assert("df"@[0] != "kp"@[0]);
        } else if i == 3 {
            assert("kf"@[1] != "kp"@[1]);
        } else if i == 4 {
            assert("kh"@[1] != "kp"@[1]);
        } else if i == 5 {
            assert("kl"@[1] != "kp"@[1]);
        } else if i == 7 {
            assert("k1"@[1] != "kp"@[1]);
        }
    }
    assert(f[7] == ("k1"@, "-1"@));
    assert forall|i: int| 0 <= i < f.len() && (#[trigger] f[i]).0 == "k1"@ implies f[i].1
        == "-1"@ by {
        if i == 0 {
            assert("q"@.len() != "k1"@.len());
        } else if i == 1 {
            assert("b"@.len() != "k1"@.len());
        } else if i == 2 {
            assert("df"@[0] != "k1"@[0]);
        } else if i == 3 {
            assert("kf"@[1] != "k1"@[1]);
        } else if i == 4 {
            assert("kh"@[1] != "k1"@[1]);
        } else if i == 5 {
            assert("kl"@[1] != "k1"@[1]);
        } else if i == 6 {
            assert("kp"@[1] != "k1"@[1]);
        }
    }
    assert(signed_decimal(1) == "1"@);
    assert(decimal(2) == seq!['2']);
    assert(signed_decimal(-1) == "-1"@);
    assert(signed_decimal(-2) == "-2"@);
}

/// Every later DuckDuckGo request carries the same search and filters as
/// the first (`q`, `df`, `kl`, `kp`, and the fixed `kf`, `kh`, `k1`), the
/// result offset `50 * page + 30` as `s`, the running index as `dc`, and the
/// session's `nextParams` and `vqd` tokens; each field once.
pub proof fn lemma_next_form_fields(opts: SearchOptions, pag: PaginationState)
    ensures
        sends(next_page_fields(opts, pag), "q"@, opts.keywords@),
        sends(next_page_fields(opts, pag), "s"@, decimal((50 * pag.page + 30) as nat)),
        sends(next_page_fields(opts, pag), "nextParams"@, pag.next_params@),
        sends(next_page_fields(opts, pag), "v"@, "l"@),
        sends(next_page_fields(opts, pag), "o"@, "json"@),
        sends(next_page_fields(opts, pag), "dc"@, signed_decimal(pag.cur_index as int)),
        sends(next_page_fields(opts, pag), "df"@, opts.duration@),
        sends(next_page_fields(opts, pag), "api"@, "/d.js"@),
        sends(next_page_fields(opts, pag), "kf"@, "-1"@),
        sends(next_page_fields(opts, pag), "kh"@, "1"@),
        sends(next_page_fields(opts, pag), "kl"@, opts.region@),
        sends(next_page_fields(opts, pag), "kp"@, signed_decimal(opts.safe as int)),
        sends(next_page_fields(opts, pag), "k1"@, "-1"@),
        sends(next_page_fields(opts, pag), "vqd"@, pag.vqd@),
        forall|name: Seq<char>, value: Seq<char>|
            #![trigger sends(first_page_fields(opts), name, value), sends(next_page_fields(opts, pag), name, value)]
            name != "b"@ && sends(first_page_fields(opts), name, value) ==> sends(
                next_page_fields(opts, pag),
                name,
                value,
            ),
{
    reveal_strlit("-1");
    reveal_strlit("-2");
    reveal_strlit("/d.js");
    reveal_strlit("1");
    reveal_strlit("api");
    reveal_strlit("b");
    reveal_strlit("dc");
    reveal_strlit("df");
    reveal_strlit("json");
    reveal_strlit("k1");
    reveal_strlit("kf");
    reveal_strlit("kh");
    reveal_strlit("kl");
    reveal_strlit("kp");
    reveal_strlit("l");
    reveal_strlit("nextParams");
    reveal_strlit("o");
    reveal_strlit("q");
    reveal_strlit("s");
    reveal_strlit("v");
    reveal_strlit("vqd");
    let n = next_page_fields(opts, pag);
    assert(n[0] == ("q"@, opts.keywords@));
    assert forall|i: int| 0 <= i < n.len() && (#[trigger] n[i]).0 == "q"@ implies n[i].1
        == opts.keywords@ by {
        if i == 1 {
            assert("s"@[0] != "q"@[0]);
        } else if i == 2 {
            assert("nextParams"@.len() != "q"@.len());
        } else if i == 3 {
            assert("v"@[0] != "q"@[0]);
        } else if i == 4 {
            assert("o"@[0] != "q"@[0]);
        } else if i == 5 {
            assert("dc"@.len() != "q"@.len());
        } else if i == 6 {
            assert("df"@.len() != "q"@.len());
        } else if i == 7 {
            assert("api"@.len() != "q"@.len());
        } else if i == 8 {
            assert("kf"@.len() != "q"@.len());
        } else if i == 9 {
            assert("kh"@.len() != "q"@.len());
        } else if i == 10 {
            assert("kl"@.len() != "q"@.len());
        } else if i == 11 {
            assert("kp"@.len() != "q"@.len());
        } else if i == 12 {
            assert("k1"@.len() != "q"@.len());
        } else if i == 13 {
            assert("vqd"@.len() != "q"@.len());
        }
    }
    assert(n[1] == ("s"@, decimal((50 * pag.page + 30) as nat)));
    assert forall|i: int| 0 <= i < n.len() && (#[trigger] n[i]).0 == "s"@ implies n[i].1
        == decimal((50 * pag.page + 30) as nat) by {
        if i == 0 {
            assert("q"@[0] != "s"@[0]);
        } else if i == 2 {
            assert("nextParams"@.len() != "s"@.len());
        } else if i == 3 {
            assert("v"@[0] != "s"@[0]);
        } else if i == 4 {
            assert("o"@[0] != "s"@[0]);
        } else if i == 5 {
            assert("dc"@.len() != "s"@.len());
        } else if i == 6 {
            assert("df"@.len() != "s"@.len());
        } else if i == 7 {
            assert("api"@.len() != "s"@.len());
        } else if i == 8 {
            assert("kf"@.len() != "s"@.len());
        } else if i == 9 {
            assert("kh"@.len() != "s"@.len());
        } else if i == 10 {
            assert("kl"@.len() != "s"@.len());
        } else if i == 11 {
            assert("kp"@.len() != "s"@.len());
        } else if i == 12 {
            assert("k1"@.len() != "s"@.len());
        } else if i == 13 {
            assert("vqd"@.len() != "s"@.len());
        }
    }
    assert(n[2] == ("nextParams"@, pag.next_params@));
    assert forall|i: int| 0 <= i < n.len() && (#[trigger] n[i]).0 == "nextParams"@ implies n[i].1
        == pag.next_params@ by {
        if i == 0 {
            assert("q"@.len() != "nextParams"@.len());
        } else if i == 1 {
            assert("s"@.len() != "nextParams"@.len());
        } else if i == 3 {
            assert("v"@.len() != "nextParams"@.len());
        } else if i == 4 {
            assert("o"@.len() != "nextParams"@.len());
        } else if i == 5 {
            assert("dc"@.len() != "nextParams"@.len());
        } else if i == 6 {
            assert("df"@.len() != "nextParams"@.len());
        } else if i == 7 {
            assert("api"@.len() != "nextParams"@.len());
        } else if i == 8 {
            assert("kf"@.len() != "nextParams"@.len());
        } else if i == 9 {
            assert("kh"@.len() != "nextParams"@.len());
        } else if i == 10 {
            assert("kl"@.len() != "nextParams"@.len());
        } else if i == 11 {
            assert("kp"@.len() != "nextParams"@.len());
        } else if i == 12 {
            assert("k1"@.len() != "nextParams"@.len());
        } else if i == 13 {
            assert("vqd"@.len() != "nextParams"@.len());
        }
    }
    assert(n[3] == ("v"@, "l"@));
    assert forall|i: int| 0 <= i < n.len() && (#[trigger] n[i]).0 == "v"@ implies n[i].1
        == "l"@ by {
        if i == 0 {
            assert("q"@[0] != "v"@[0]);
        } else if i == 1 {
            assert("s"@[0] != "v"@[0]);
        } else if i == 2 {
            assert("nextParams"@.len() != "v"@.len());
        } else if i == 4 {
            assert("o"@[0] != "v"@[0]);
        } else if i == 5 {
            assert("dc"@.len() != "v"@.len());
        } else if i == 6 {
            assert("df"@.len() != "v"@.len());
        } else if i == 7 {
            assert("api"@.len() != "v"@.len());
        } else if i == 8 {
            assert("kf"@.len() != "v"@.len());
        } else if i == 9 {
            assert("kh"@.len() != "v"@.len());
        } else if i == 10 {
            assert("kl"@.len() != "v"@.len());
        } else if i == 11 {
            assert("kp"@.len() != "v"@.len());
        } else if i == 12 {
            assert("k1"@.len() != "v"@.len());
        } else if i == 13 {
            assert("vqd"@.len() != "v"@.len());
        }
    }
    assert(n[4] == ("o"@, "json"@));
    assert forall|i: int| 0 <= i < n.len() && (#[trigger] n[i]).0 == "o"@ implies n[i].1
        == "json"@ by {
        if i == 0 {
            assert("q"@[0] != "o"@[0]);
        } else if i == 1 {
            assert("s"@[0] != "o"@[0]);
        } else if i == 2 {
            assert("nextParams"@.len() != "o"@.len());
        } else if i == 3 {
            assert("v"@[0] != "o"@[0]);
        } else if i == 5 {
            assert("dc"@.len() != "o"@.len());
        } else if i == 6 {
            assert("df"@.len() != "o"@.len());
        } else if i == 7 {
            assert("api"@.len() != "o"@.len());
        } else if i == 8 {
            assert("kf"@.len() != "o"@.len());
        } else if i == 9 {
            assert("kh"@.len() != "o"@.len());
        } else if i == 10 {
            assert("kl"@.len() != "o"@.len());
        } else if i == 11 {
            assert("kp"@.len() != "o"@.len());
        } else if i == 12 {
            assert("k1"@.len() != "o"@.len());
        } else if i == 13 {
            assert("vqd"@.len() != "o"@.len());
        }
    }
    assert(n[5] == ("dc"@, signed_decimal(pag.cur_index as int)));
    assert forall|i: int| 0 <= i < n.len() && (#[trigger] n[i]).0 == "dc"@ implies n[i].1
        == signed_decimal(pag.cur_index as int) by {
        if i == 0 {
            assert("q"@.len() != "dc"@.len());
        } else if i == 1 {
            assert("s"@.len() != "dc"@.len());
        } else if i == 2 {
            assert("nextParams"@.len() != "dc"@.len());
        } else if i == 3 {
            assert("v"@.len() != "dc"@.len());
        } else if i == 4 {
            assert("o"@.len() != "dc"@.len());
        } else if i == 6 {
            assert("df"@[1] != "dc"@[1]);
        } else if i == 7 {
            assert("api"@.len() != "dc"@.len());
        } else if i == 8 {
            assert("kf"@[0] != "dc"@[0]);
        } else if i == 9 {
            assert("kh"@[0] != "dc"@[0]);
        } else if i == 10 {
            assert("kl"@[0] != "dc"@[0]);
        } else if i == 11 {
            assert("kp"@[0] != "dc"@[0]);
        } else if i == 12 {
            assert("k1"@[0] != "dc"@[0]);
        } else if i == 13 {
            assert("vqd"@.len() != "dc"@.len());
        }
    }
    assert(n[6] == ("df"@, opts.duration@));
    assert forall|i: int| 0 <= i < n.len() && (#[trigger] n[i]).0 == "df"@ implies n[i].1
        == opts.duration@ by {
        if i == 0 {
            assert("q"@.len() != "df"@.len());
        } else if i == 1 {
            assert("s"@.len() != "df"@.len());
        } else if i == 2 {
            assert("nextParams"@.len() != "df"@.len());
        } else if i == 3 {
            assert("v"@.len() != "df"@.len());
        } else if i == 4 {
            assert("o"@.len() != "df"@.len());
        } else if i == 5 {
            assert("dc"@[1] != "df"@[1]);
        } else if i == 7 {
            assert("api"@.len() != "df"@.len());
        } else if i == 8 {
            assert("kf"@[0] != "df"@[0]);
        } else if i == 9 {
            assert("kh"@[0] != "df"@[0]);
        } else if i == 10 {
            assert("kl"@[0] != "df"@[0]);
        } else if i == 11 {
            assert("kp"@[0] != "df"@[0]);
        } else if i == 12 {
            assert("k1"@[0] != "df"@[0]);
        } else if i == 13 {
            assert("vqd"@.len() != "df"@.len());
        }
    }
    assert(n[7] == ("api"@, "/d.js"@));
    assert forall|i: int| 0 <= i < n.len() && (#[trigger] n[i]).0 == "api"@ implies n[i].1
        == "/d.js"@ by {
        if i == 0 {
            assert("q"@.len() != "api"@.len());
        } else if i == 1 {
            assert("s"@.len() != "api"@.len());
        } else if i == 2 {
            assert("nextParams"@.len() != "api"@.len());
        } else if i == 3 {
            assert("v"@.len() != "api"@.len());
        } else if i == 4 {
            assert("o"@.len() != "api"@.len());
        } else if i == 5 {
            assert("dc"@.len() != "api"@.len());
        } else if i == 6 {
            assert("df"@.len() != "api"@.len());
        } else if i == 8 {
            assert("kf"@.len() != "api"@.len());
        } else if i == 9 {
            assert("kh"@.len() != "api"@.len());
        } else if i == 10 {
            assert("kl"@.len() != "api"@.len());
        } else if i == 11 {
            assert("kp"@.len() != "api"@.len());
        } else if i == 12 {
            assert("k1"@.len() != "api"@.len());
        } else if i == 13 {
            assert("vqd"@[0] != "api"@[0]);
        }
    }
    assert(n[8] == ("kf"@, "-1"@));
    assert forall|i: int| 0 <= i < n.len() && (#[trigger] n[i]).0 == "kf"@ implies n[i].1
        == "-1"@ by {
        if i == 0 {
            assert("q"@.len() != "kf"@.len());
        } else if i == 1 {
            assert("s"@.len() != "kf"@.len());
        } else if i == 2 {
            assert("nextParams"@.len() != "kf"@.len());
        } else if i == 3 {
            assert("v"@.len() != "kf"@.len());
        } else if i == 4 {
            assert("o"@.len() != "kf"@.len());
        } else if i == 5 {
            assert("dc"@[0] != "kf"@[0]);
        } else if i == 6 {
            assert("df"@[0] != "kf"@[0]);
        } else if i == 7 {
            assert("api"@.len() != "kf"@.len());
        } else if i == 9 {
            assert("kh"@[1] != "kf"@[1]);
        } else if i == 10 {
            assert("kl"@[1] != "kf"@[1]);
        } else if i == 11 {
            assert("kp"@[1] != "kf"@[1]);
        } else if i == 12 {
            assert("k1"@[1] != "kf"@[1]);
        } else if i == 13 {
            assert("vqd"@.len() != "kf"@.len());
        }
    }
    assert(n[9] == ("kh"@, "1"@));
    assert forall|i: int| 0 <= i < n.len() && (#[trigger] n[i]).0 == "kh"@ implies n[i].1
        == "1"@ by {
        if i == 0 {
            assert("q"@.len() != "kh"@.len());
        } else if i == 1 {
            assert("s"@.len() != "kh"@.len());
        } else if i == 2 {
            assert("nextParams"@.len() != "kh"@.len());
        } else if i == 3 {
            assert("v"@.len() != "kh"@.len());
        } else if i == 4 {
            assert("o"@.len() != "kh"@.len());
        } else if i == 5 {
            assert("dc"@[0] != "kh"@[0]);
        } else if i == 6 {
            assert("df"@[0] != "kh"@[0]);
        } else if i == 7 {
            assert("api"@.len() != "kh"@.len());
        } else if i == 8 {
            assert("kf"@[1] != "kh"@[1]);
        } else if i == 10 {
            assert("kl"@[1] != "kh"@[1]);
        } else if i == 11 {
            assert("kp"@[1] != "kh"@[1]);
        } else if i == 12 {
            assert("k1"@[1] != "kh"@[1]);
        } else if i == 13 {
            assert("vqd"@.len() != "kh"@.len());
        }
    }
    assert(n[10] == ("kl"@, opts.region@));
    assert forall|i: int| 0 <= i < n.len() && (#[trigger] n[i]).0 == "kl"@ implies n[i].1
        == opts.region@ by {
        if i == 0 {
            assert("q"@.len() != "kl"@.len());
        } else if i == 1 {
            assert("s"@.len() != "kl"@.len());
        } else if i == 2 {
            assert("nextParams"@.len() != "kl"@.len());
        } else if i == 3 {
            assert("v"@.len() != "kl"@.len());
        } else if i == 4 {
            assert("o"@.len() != "kl"@.len());
        } else if i == 5 {
            assert("dc"@[0] != "kl"@[0]);
        } else if i == 6 {
            assert("df"@[0] != "kl"@[0]);
        } else if i == 7 {
            assert("api"@.len() != "kl"@.len());
        } else if i == 8 {
            assert("kf"@[1] != "kl"@[1]);
        } else if i == 9 {
            assert("kh"@[1] != "kl"@[1]);
        } else if i == 11 {
            assert("kp"@[1] != "kl"@[1]);
        } else if i == 12 {
            assert("k1"@[1] != "kl"@[1]);
        } else if i == 13 {
            assert("vqd"@.len() != "kl"@.len());
        }
    }
    assert(n[11] == ("kp"@, signed_decimal(opts.safe as int)));
    assert forall|i: int| 0 <= i < n.len() && (#[trigger] n[i]).0 == "kp"@ implies n[i].1
        == signed_decimal(opts.safe as int) by {
        if i == 0 {
            assert("q"@.len() != "kp"@.len());
        } else if i == 1 {
            assert("s"@.len() != "kp"@.len());
        } else if i == 2 {
            assert("nextParams"@.len() != "kp"@.len());
        } else if i == 3 {
            assert("v"@.len() != "kp"@.len());
        } else if i == 4 {
            assert("o"@.len() != "kp"@.len());
        } else if i == 5 {
            assert("dc"@[0] != "kp"@[0]);
        } else if i == 6 {
            assert("df"@[0] != "kp"@[0]);
        } else if i == 7 {
            assert("api"@.len() != "kp"@.len());
        } else if i == 8 {
            assert("kf"@[1] != "kp"@[1]);
        } else if i == 9 {
            assert("kh"@[1] != "kp"@[1]);
        } else if i == 10 {
            assert("kl"@[1] != "kp"@[1]);
        } else if i == 12 {
            assert("k1"@[1] != "kp"@[1]);
        } else if i == 13 {
            assert("vqd"@.len() != "kp"@.len());
        }
    }
    assert(n[12] == ("k1"@, "-1"@));
    assert forall|i: int| 0 <= i < n.len() && (#[trigger] n[i]).0 == "k1"@ implies n[i].1
        == "-1"@ by {
        if i == 0 {
            assert("q"@.len() != "k1"@.len());
        } else if i == 1 {
            assert("s"@.len() != "k1"@.len());
        } else if i == 2 {
            assert("nextParams"@.len() != "k1"@.len());
        } else if i == 3 {
            assert("v"@.len() != "k1"@.len());
        } else if i == 4 {
            assert("o"@.len() != "k1"@.len());
        } else if i == 5 {
            assert("dc"@[0] != "k1"@[0]);
        } else if i == 6 {
            assert("df"@[0] != "k1"@[0]);
        } else if i == 7 {
            assert("api"@.len() != "k1"@.len());
        } else if i == 8 {
            assert("kf"@[1] != "k1"@[1]);
        } else if i == 9 {
            assert("kh"@[1] != "k1"@[1]);
        } else if i == 10 {
            assert("kl"@[1] != "k1"@[1]);
        } else if i == 11 {
            assert("kp"@[1] != "k1"@[1]);
        } else if i == 13 {
            assert("vqd"@.len() != "k1"@.len());
        }
    }
    assert(n[13] == ("vqd"@, pag.vqd@));
    assert forall|i: int| 0 <= i < n.len() && (#[trigger] n[i]).0 == "vqd"@ implies n[i].1
        == pag.vqd@ by {
        if i == 0 {
            assert("q"@.len() != "vqd"@.len());
        } else if i == 1 {
            assert("s"@.len() != "vqd"@.len());
        } else if i == 2 {
            assert("nextParams"@.len() != "vqd"@.len());
        } else if i == 3 {
            assert("v"@.len() != "vqd"@.len());
        } else if i == 4 {
            assert("o"@.len() != "vqd"@.len());
        } else if i == 5 {
            assert("dc"@.len() != "vqd"@.len());
        } else if i == 6 {
            assert("df"@.len() != "vqd"@.len());
        } else if i == 7 {
            assert("api"@[0] != "vqd"@[0]);
        } else if i == 8 {
            assert("kf"@.len() != "vqd"@.len());
        } else if i == 9 {
            assert("kh"@.len() != "vqd"@.len());
        } else if i == 10 {
            assert("kl"@.len() != "vqd"@.len());
        } else if i == 11 {
            assert("kp"@.len() != "vqd"@.len());
        } else if i == 12 {
            assert("k1"@.len() != "vqd"@.len());
        }
    }
    lemma_first_form_fields(opts);
    let f = first_page_fields(opts);
    assert forall|name: Seq<char>, value: Seq<char>|
        #![trigger sends(f, name, value), sends(n, name, value)]
        name != "b"@ && sends(f, name, value) implies sends(n, name, value) by {
        let i = choose|i: int| 0 <= i < f.len() && #[trigger] f[i] == (name, value);
        assert(i != 1);
    }
}

} // verus!
