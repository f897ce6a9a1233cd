use ddgr::{arxiv, ddg, mojeek, Engine, PaginationState, SearchError, SearchOptions};

fn forms(v: Vec<(String, String)>) -> Vec<(String, String)> {
    v
}

fn pair(k: &str, v: &str) -> (String, String) {
    (k.to_string(), v.to_string())
}

const DDG_PAGE: &str = r##"
    <div class="links_main">
      <h2 class="result__title"><a href="https://one.example">One</a></h2>
      <a class="result__snippet" href="#">First</a>
    </div>
    <div class="links_main">
      <h2 class="result__title"><a href="https://two.example">Two</a></h2>
    </div>
    <div class="nav-link"><input name="nextParams" value="np1"><input name="vqd" value="token"></div>
"##;

#[test]
fn ddg_first_page_state() {
    let opts = SearchOptions { user_agent: "UA".into(), ..Default::default() };
    let (results, pag) = ddg::search_page(&opts, DDG_PAGE).unwrap();
    assert_eq!(results.len(), 2);
    assert_eq!(pag.engine, Engine::DuckDuckGo);
    assert_eq!(pag.page, 0);
    assert_eq!(pag.cur_index, 3);
    assert_eq!(pag.result_count, 2);
    assert_eq!(pag.next_params, "np1");
    assert_eq!(pag.prev_params, "");
    assert_eq!(pag.vqd, "token");
    assert_eq!(pag.user_agent, "UA");
    assert!(pag.has_next());
}

#[test]
fn ddg_blocked_page_is_an_error() {
    let opts = SearchOptions::default();
    let r = ddg::search_page(&opts, r#"<div class="anomaly-modal__mask"></div>"#);
    assert!(matches!(r, Err(SearchError::Blocked)));
    let pag = PaginationState { page: 1, cur_index: 11, ..Default::default() };
    let r = ddg::search_next_page(&opts, &pag, r#"<div class="anomaly-modal__modal"></div>"#);
    assert!(matches!(r, Err(SearchError::Blocked)));
}

#[test]
fn ddg_next_page_continues_and_keeps_vqd() {
    let opts = SearchOptions::default();
    let pag = PaginationState {
        engine: Engine::DuckDuckGo,
        page: 0,
        cur_index: 3,
        vqd: "old".into(),
        user_agent: "UA".into(),
        ..Default::default()
    };
    let body = r##"<div class="links_main"><h2 class="result__title"><a href="https://three.example">Three</a></h2></div>"##;
    let (results, new_pag) = ddg::search_next_page(&opts, &pag, body).unwrap();
    assert_eq!(results.len(), 1);
    assert_eq!(results[0].index, 3);
    assert_eq!(new_pag.page, 1);
    assert_eq!(new_pag.cur_index, 4);
    assert_eq!(new_pag.vqd, "old");
    assert_eq!(new_pag.next_params, "");
    assert_eq!(new_pag.user_agent, "UA");
    assert!(!new_pag.has_next());
}

#[test]
fn ddg_forms() {
    let opts = SearchOptions {
        keywords: "rust lang".into(),
        duration: "w".into(),
        safe: -2,
        region: "us-en".into(),
        ..Default::default()
    };
    assert_eq!(
        forms(ddg::first_page_form(&opts)),
        vec![
            pair("q", "rust lang"),
            pair("b", ""),
            pair("df", "w"),
            pair("kf", "-1"),
            pair("kh", "1"),
            pair("kl", "us-en"),
            pair("kp", "-2"),
            pair("k1", "-1"),
        ]
    );
    let pag = PaginationState { page: 1, cur_index: -7, next_params: "n".into(), vqd: "v".into(), ..Default::default() };
    let next = ddg::next_page_form(&opts, &pag);
    assert_eq!(next[1], pair("s", "80"));
    assert_eq!(next[2], pair("nextParams", "n"));
    assert_eq!(next[5], pair("dc", "-7"));
    assert_eq!(next[13], pair("vqd", "v"));
    assert_eq!(next.len(), 14);
}

#[test]
fn ddg_session_keeps_the_user_agent() {
    let opts = SearchOptions { user_agent: "mine".into(), ..Default::default() };
    let pag = PaginationState { user_agent: "session".into(), ..Default::default() };
    assert_eq!(ddg::session_options(&opts, &pag).user_agent, "session");
    let fresh = PaginationState::default();
    assert_eq!(ddg::session_options(&opts, &fresh).user_agent, "mine");
}

const MOJEEK_PAGE: &str = r##"
    <ul class="results-standard">
      <li><a class="title" href="https://a.example">A</a><p class="s">  a  </p></li>
      <li><a class="title" href="https://b.example">  </a></li>
      <li><p class="s">no link</p></li>
      <li><a class="title" href="https://c.example">C</a></li>
    </ul>
"##;

#[test]
fn mojeek_pages_continue_numbering() {
    let opts = SearchOptions::default();
    let (first, pag) = mojeek::search_page(&opts, MOJEEK_PAGE);
    assert_eq!(first.len(), 2);
    assert_eq!(first[0].abstract_text, "a");
    assert_eq!(first[1].index, 2);
    assert_eq!(pag.cur_index, 3);
    assert_eq!(pag.result_count, 2);
    assert!(!pag.has_next());
    let (second, pag2) = mojeek::search_next_page(&opts, &pag, MOJEEK_PAGE);
    assert_eq!(second[0].index, 3);
    assert_eq!(second[1].index, 4);
    assert_eq!(pag2.page, 1);
    assert_eq!(pag2.cur_index, 5);
}

#[test]
fn mojeek_queries() {
    let opts = SearchOptions { keywords: "k".into(), safe: -1, ..Default::default() };
    assert_eq!(mojeek::first_page_query(&opts), vec![pair("q", "k"), pair("safe", "0")]);
    let pag = PaginationState { page: 1, ..Default::default() };
    assert_eq!(
        mojeek::next_page_query(&SearchOptions::default(), &pag),
        vec![pair("q", ""), pair("s", "20"), pair("safe", "1")]
    );
}

const ARXIV_FEED: &str = r#"<feed xmlns="http://www.w3.org/2005/Atom" xmlns:opensearch="http://a9.com/-/spec/opensearch/1.1/">
  <opensearch:totalResults>25</opensearch:totalResults>
  <entry><id>http://arxiv.org/abs/1</id><title>T1</title><summary>S <i>one</i></summary></entry>
  <entry><id></id><title>No id</title></entry>
  <entry><id>http://arxiv.org/abs/3</id><title>T3</title></entry>
</feed>"#;

#[test]
fn arxiv_pages() {
    let opts = SearchOptions { keywords: "graph".into(), ..Default::default() };
    let (results, pag) = arxiv::search_page(&opts, ARXIV_FEED);
    assert_eq!(results.len(), 2);
    assert_eq!(results[0].abstract_text, "S one");
    assert_eq!(results[1].title, "T3");
    assert_eq!(results[1].abstract_text, "");
    assert_eq!(pag.engine, Engine::ArXiv);
    assert_eq!(pag.total_results, 25);
    assert!(pag.has_next());
    let (more, pag2) = arxiv::search_next_page(&opts, &pag, ARXIV_FEED);
    assert_eq!(more[0].index, 3);
    assert_eq!(pag2.page, 1);
    assert!(pag2.has_next());
    let pag3 = PaginationState { engine: Engine::ArXiv, page: 2, total_results: 25, ..Default::default() };
    assert!(!pag3.has_next());
}

#[test]
fn arxiv_queries() {
    let opts = SearchOptions { keywords: "graph".into(), ..Default::default() };
    assert_eq!(
        arxiv::first_page_query(&opts),
        vec![
            pair("search_query", "all:graph"),
            pair("start", "0"),
            pair("max_results", "10"),
            pair("sortBy", "relevance"),
            pair("sortOrder", "descending"),
        ]
    );
    let pag = PaginationState { page: 0, ..Default::default() };
    assert_eq!(arxiv::next_page_query(&opts, &pag)[1], pair("start", "10"));
}

#[test]
fn arxiv_total_that_does_not_parse_is_zero() {
    let xml = r#"<feed xmlns="http://www.w3.org/2005/Atom" xmlns:opensearch="http://a9.com/-/spec/opensearch/1.1/"><opensearch:totalResults>many</opensearch:totalResults></feed>"#;
    let feed = arxiv::parser::parse(xml, 0);
    assert_eq!(feed.total_results, 0);
    let xml = r#"<feed xmlns="http://www.w3.org/2005/Atom" xmlns:opensearch="http://a9.com/-/spec/opensearch/1.1/"><opensearch:totalResults>+7</opensearch:totalResults></feed>"#;
    assert_eq!(arxiv::parser::parse(xml, 0).total_results, 7);
}

#[test]
fn ddg_pages_number_contiguously() {
    let opts = SearchOptions { user_agent: "UA".into(), ..Default::default() };
    let (mut all, mut pag) = ddg::search_page(&opts, DDG_PAGE).unwrap();
    let bodies = [
        r##"<div class="links_main"><h2 class="result__title"><a href="https://three.example">Three</a></h2></div>"##,
        DDG_PAGE,
    ];
    for body in bodies {
        let (results, next) = ddg::search_next_page(&opts, &pag, body).unwrap();
        all.extend(results);
        pag = next;
    }
    let indices: Vec<usize> = all.iter().map(|r| r.index).collect();
    assert_eq!(indices, vec![1, 2, 3, 4, 5]);
    assert_eq!(pag.cur_index, 6);
    assert_eq!(pag.page, 2);
    assert_eq!(pag.result_count, 2);
}

#[test]
fn mojeek_pages_number_contiguously() {
    let opts = SearchOptions::default();
    let (mut all, mut pag) = mojeek::search_page(&opts, MOJEEK_PAGE);
    for _ in 0..2 {
        let (results, next) = mojeek::search_next_page(&opts, &pag, MOJEEK_PAGE);
        all.extend(results);
        pag = next;
    }
    let indices: Vec<usize> = all.iter().map(|r| r.index).collect();
    assert_eq!(indices, vec![1, 2, 3, 4, 5, 6]);
    assert_eq!(pag.cur_index, 7);
    assert_eq!(pag.page, 2);
    assert_eq!(pag.result_count, 2);
}
