use ddgr::parser::{clean_url, decode_entities, parse_tag, url_decode, DdgParser};

#[test]
fn test_parse_tag_simple() {
    let (name, attrs) = parse_tag("div class=\"foo bar\"");
    assert_eq!(name, "div");
    assert_eq!(attrs.get("class").unwrap(), "foo bar");
}

#[test]
fn test_parse_tag_no_attrs() {
    let (name, attrs) = parse_tag("br");
    assert_eq!(name, "br");
    assert!(attrs.is_empty());
}

#[test]
fn test_decode_entities() {
    assert_eq!(decode_entities("&amp;"), "&");
    assert_eq!(decode_entities("&lt;b&gt;"), "<b>");
    assert_eq!(decode_entities("&#39;"), "'");
    assert_eq!(decode_entities("plain text"), "plain text");
}

#[test]
fn test_clean_url_with_uddg() {
    let href = "//duckduckgo.com/l/?uddg=https%3A%2F%2Fexample.com&rut=abc";
    let cleaned = clean_url(href);
    assert_eq!(cleaned, "https://example.com");
}

#[test]
fn test_clean_url_plain() {
    let href = "https://example.com/page";
    assert_eq!(clean_url(href), href);
}

#[test]
fn test_parser_minimal_html() {
    let html = r##"
        <div class="links_main">
          <h2 class="result__title">
            <a href="https://example.com">Example Title</a>
          </h2>
          <a class="result__snippet" href="#">This is the abstract text.</a>
        </div>
        "##;
    let mut parser = DdgParser::new(0);
    parser.parse(html);
    assert_eq!(parser.results.len(), 1);
    assert_eq!(parser.results[0].title, "Example Title");
    assert_eq!(parser.results[0].url, "https://example.com");
    assert_eq!(parser.results[0].abstract_text, "This is the abstract text.");
}

#[test]
fn test_parser_multiple_results() {
    let html = r##"
        <div class="links_main">
          <h2 class="result__title">
            <a href="https://one.com">First</a>
          </h2>
          <a class="result__snippet" href="#">Abstract one</a>
        </div>
        <div class="links_main">
          <h2 class="result__title">
            <a href="https://two.com">Second</a>
          </h2>
          <a class="result__snippet" href="#">Abstract two</a>
        </div>
        "##;
    let mut parser = DdgParser::new(0);
    parser.parse(html);
    assert_eq!(parser.results.len(), 2);
    assert_eq!(parser.results[0].index, 1);
    assert_eq!(parser.results[1].index, 2);
    assert_eq!(parser.results[0].title, "First");
    assert_eq!(parser.results[1].title, "Second");
}

#[test]
fn test_parser_pagination_tokens() {
    let html = r##"
        <div class="nav-link">
          <input name="nextParams" value="abc123">
          <input name="vqd" value="vqd_token_42">
        </div>
        "##;
    let mut parser = DdgParser::new(0);
    parser.parse(html);
    assert_eq!(parser.np_next, "abc123");
    assert_eq!(parser.vqd, "vqd_token_42");
}

#[test]
fn test_parser_click_result() {
    let html = r##"
        <div class="zci__result">Instant answer text here</div>
        "##;
    let mut parser = DdgParser::new(0);
    parser.parse(html);
    assert_eq!(parser.click_result, "Instant answer text here");
}

#[test]
fn test_url_decode() {
    assert_eq!(
        url_decode("https%3A%2F%2Fexample.com%2Fpath"),
        "https://example.com/path"
    );
}

#[test]
fn test_parser_blocked_detection() {
    let html = r##"
        <html>
        <body>
          <div class="anomaly-modal__mask">
            <div class="anomaly-modal__modal">
              <p>If this error persists, please let us know.</p>
            </div>
          </div>
        </body>
        </html>
        "##;
    let mut parser = DdgParser::new(0);
    parser.parse(html);
    assert!(parser.is_blocked, "parser should detect anomaly-modal as blocked");
    assert!(parser.results.is_empty(), "blocked page should have no results");
}

#[test]
fn test_parser_uddg_redirect_url() {
    let html = r##"
        <div class="links_main">
          <h2 class="result__title">
            <a href="//duckduckgo.com/l/?uddg=https%3A%2F%2Freal-site.com%2Fpage&rut=xyz">Real Site</a>
          </h2>
          <a class="result__snippet" href="#">Some text</a>
        </div>
        "##;
    let mut parser = DdgParser::new(0);
    parser.parse(html);
    assert_eq!(parser.results.len(), 1);
    assert_eq!(parser.results[0].url, "https://real-site.com/page");
}
