use ddgr::ddg::parser::{clean_url, parse, url_decode};

#[test]
fn test_parse_minimal_html() {
    let html = r##"
        <div class="links_main">
          <h2 class="result__title">
            <a href="https://example.com">Example Title</a>
          </h2>
          <a class="result__snippet" href="#">This is the abstract text.</a>
        </div>
        "##;
    let page = parse(html, 0);
    assert_eq!(page.results.len(), 1);
    assert_eq!(page.results[0].title, "Example Title");
    assert_eq!(page.results[0].url, "https://example.com");
    assert_eq!(page.results[0].abstract_text, "This is the abstract text.");
}

#[test]
fn test_parse_multiple_results() {
    let html = r##"
        <div class="links_main">
          <h2 class="result__title"><a href="https://one.com">First</a></h2>
          <a class="result__snippet" href="#">Abstract one</a>
        </div>
        <div class="links_main">
          <h2 class="result__title"><a href="https://two.com">Second</a></h2>
          <a class="result__snippet" href="#">Abstract two</a>
        </div>
        "##;
    let page = parse(html, 0);
    assert_eq!(page.results.len(), 2);
    assert_eq!(page.results[0].index, 1);
    assert_eq!(page.results[1].index, 2);
}

#[test]
fn test_parse_pagination_tokens() {
    let html = r##"
        <div class="nav-link">
          <input name="nextParams" value="abc123">
          <input name="vqd" value="vqd_token_42">
        </div>
        "##;
    let page = parse(html, 0);
    assert_eq!(page.np_next, "abc123");
    assert_eq!(page.vqd, "vqd_token_42");
}

#[test]
fn test_parse_blocked_detection() {
    let html = r##"
        <div class="anomaly-modal__mask"><div class="anomaly-modal__modal"></div></div>
        "##;
    let page = parse(html, 0);
    assert!(page.is_blocked);
    assert!(page.results.is_empty());
}

#[test]
fn test_parse_uddg_redirect() {
    let html = r##"
        <div class="links_main">
          <h2 class="result__title">
            <a href="//duckduckgo.com/l/?uddg=https%3A%2F%2Freal-site.com%2Fpage&rut=xyz">Real</a>
          </h2>
          <a class="result__snippet" href="#">Text</a>
        </div>
        "##;
    let page = parse(html, 0);
    assert_eq!(page.results[0].url, "https://real-site.com/page");
}

#[test]
fn parser_test_clean_url_with_uddg() {
    assert_eq!(
        clean_url("//duckduckgo.com/l/?uddg=https%3A%2F%2Fexample.com&rut=abc"),
        "https://example.com"
    );
}

#[test]
fn parser_test_clean_url_plain() {
    assert_eq!(clean_url("https://example.com/page"), "https://example.com/page");
}

#[test]
fn parser_test_url_decode() {
    assert_eq!(
        url_decode("https%3A%2F%2Fexample.com%2Fpath"),
        "https://example.com/path"
    );
}

#[test]
fn parser_test_parse_with_offset() {
    let html = r##"
        <div class="links_main">
          <h2 class="result__title"><a href="https://example.com">Title</a></h2>
          <a class="result__snippet" href="#">Text</a>
        </div>
        "##;
    let page = parse(html, 10);
    assert_eq!(page.results[0].index, 11);
}

#[test]
fn test_parse_two_pagination_buttons() {
    let html = r##"
        <div class="nav-link"><input name="nextParams" value="prev_token"></div>
        <div class="nav-link"><input name="nextParams" value="next_token"></div>
        "##;
    let page = parse(html, 0);
    assert_eq!(page.np_prev, "prev_token");
    assert_eq!(page.np_next, "next_token");
}
