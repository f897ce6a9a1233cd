use ddgr::parser::{clean_url, decode_entities, parse_tag, url_decode, DdgParser};

#[test]
fn title_with_file_type_label() {
    let html = r##"
        <div class="links_main">
          <h2 class="result__title">
            <a href="https://example.com/report.pdf"><span>PDF</span> Annual Report</a>
          </h2>
          <a class="result__snippet" href="#">Numbers.</a>
        </div>
        "##;
    let mut parser = DdgParser::new(0);
    parser.parse(html);
    assert_eq!(parser.results.len(), 1);
    assert_eq!(parser.results[0].title, "[PDF] Annual Report");
    assert_eq!(parser.results[0].abstract_text, "Numbers.");
}

#[test]
fn file_type_label_without_more_text_repeats_label() {
    let html = r##"
        <div class="links_main">
          <h2 class="result__title"><a href="https://example.com/x.pdf"><span>PDF</span></a></h2>
        </div>
        "##;
    let mut parser = DdgParser::new(0);
    parser.parse(html);
    assert_eq!(parser.results.len(), 1);
    assert_eq!(parser.results[0].title, "[PDF] [PDF]");
}

#[test]
fn search_links_are_not_results() {
    let html = r##"
        <div class="links_main">
          <h2 class="result__title"><a href="/search?q=more">More</a></h2>
          <a class="result__snippet" href="#">Snippet</a>
        </div>
        "##;
    let mut parser = DdgParser::new(0);
    parser.parse(html);
    assert!(parser.results.is_empty());
}

#[test]
fn nested_tags_inside_a_result() {
    let html = r##"
        <DIV CLASS="links_main">
          <div><p>noise</p></div>
          <h2 class="result__title"><a href="https://nested.example">Nested <b>bold</b> title</a></h2>
          <a class="result__snippet" href="#">Tom &amp; Jerry<br/> cartoon</a>
          <!-- a comment <div> -->
        </DIV>
        <div class="links_main">
          <h2 class="result__title"><a href="https://second.example">Second</a></h2>
        </div>
        "##;
    let mut parser = DdgParser::new(5);
    parser.parse(html);
    assert_eq!(parser.results.len(), 2);
    assert_eq!(parser.results[0].index, 6);
    assert_eq!(parser.results[0].title, "Nested bold title");
    assert_eq!(parser.results[0].url, "https://nested.example");
    assert_eq!(parser.results[0].abstract_text, "Tom & Jerry cartoon");
    assert_eq!(parser.results[1].index, 7);
    assert_eq!(parser.results[1].abstract_text, "");
}

#[test]
fn two_next_params_inputs_give_previous_and_next() {
    let html = r##"
        <div class="nav-link"><input name="nextParams" value="first"><input name="vqd" value=""></div>
        <div class="nav-link"><input name="nextParams" value="second"><input name="vqd" value="v1"></div>
        <div class="nav-link"><input name="nextParams" value="third"><input name="vqd" value=""></div>
        "##;
    let mut parser = DdgParser::new(0);
    parser.parse(html);
    assert_eq!(parser.np_prev, "second");
    assert_eq!(parser.np_next, "third");
    assert_eq!(parser.vqd, "v1");
}

#[test]
fn parsing_twice_continues_numbering() {
    let page = r##"<div class="links_main"><h2 class="result__title"><a href="https://a.example">A</a></h2></div>"##;
    let mut parser = DdgParser::new(0);
    parser.parse(page);
    parser.parse(page);
    assert_eq!(parser.results.len(), 2);
    assert_eq!(parser.results[0].index, 1);
    assert_eq!(parser.results[1].index, 2);
}

#[test]
fn blocked_mark_survives_later_content() {
    let html = r##"
        <div class="anomaly-modal__modal"></div>
        <div class="links_main"><h2 class="result__title"><a href="https://a.example">A</a></h2></div>
        "##;
    let mut parser = DdgParser::new(0);
    parser.parse(html);
    assert!(parser.is_blocked);
    assert_eq!(parser.results.len(), 1);
}

#[test]
fn click_result_decodes_entities() {
    let mut parser = DdgParser::new(0);
    parser.parse(r#"<div class="zci__result">  Tom &amp; Jerry  </div>"#);
    assert_eq!(parser.click_result, "Tom & Jerry");
}

#[test]
fn unterminated_tag_ends_the_page() {
    let mut parser = DdgParser::new(0);
    parser.parse(r#"<div class="zci__result">a < b"#);
    assert_eq!(parser.click_result, "");
    assert!(parser.results.is_empty());
}

#[test]
fn parse_tag_attribute_forms() {
    let (name, attrs) = parse_tag("  INPUT Name=vqd value='x y' disabled data-x = \"1\" ");
    assert_eq!(name, "input");
    assert_eq!(attrs.get("name").unwrap(), "vqd");
    assert_eq!(attrs.get("value").unwrap(), "x y");
    assert_eq!(attrs.get("disabled").unwrap(), "");
    assert_eq!(attrs.get("data-x").unwrap(), "1");
    assert!(attrs.get("missing").is_none());
}

#[test]
fn parse_tag_later_attribute_wins() {
    let (_, attrs) = parse_tag("a href=\"one\" HREF=\"two\"");
    assert_eq!(attrs.get("href").unwrap(), "two");
}

#[test]
fn parse_tag_decodes_attribute_values() {
    let (_, attrs) = parse_tag("a title=\"Q&amp;A\"");
    assert_eq!(attrs.get("title").unwrap(), "Q&A");
}

#[test]
fn decode_leaves_text_without_ampersand() {
    assert_eq!(decode_entities("a < b > c"), "a < b > c");
    assert_eq!(decode_entities("&quot;hi&quot;"), "\"hi\"");
}

#[test]
fn url_decode_joins_pairs() {
    assert_eq!(url_decode("a=1&b"), "a=1&b");
    assert_eq!(url_decode("x+y%21"), "x y!");
}

#[test]
fn clean_url_stops_at_next_ampersand() {
    assert_eq!(clean_url("/l/?kh=1&uddg=https%3A%2F%2Fa.example%2F%3Fq%3D1&rut=z"), "https://a.example/?q=1");
    assert_eq!(clean_url("uddg=plain"), "plain");
}

#[test]
fn try_parse_reads_a_plain_page() {
    let html = r##"<div class="links_main"><h2 class="result__title"><a href="https://a.example">A</a></h2></div>"##;
    let mut parser = DdgParser::new(4);
    assert!(parser.try_parse(html));
    assert_eq!(parser.results.len(), 1);
    assert_eq!(parser.results[0].index, 5);
    assert_eq!(parser.results[0].title, "A");
    assert_eq!(parser.results[0].url, "https://a.example");
}

#[test]
fn try_parse_refuses_a_wide_space_after_a_tag_name() {
    let html = "<div\u{3000}class=\"links_main\"><h2 class=\"result__title\"><a href=\"https://a.example\">A</a></h2></div>";
    let mut parser = DdgParser::new(0);
    assert!(!parser.try_parse(html));
    assert!(parser.results.is_empty());
    assert!(!parser.is_blocked);
    assert_eq!(parser.vqd, "");
}

#[test]
fn try_parse_refuses_numbers_past_usize() {
    let html = r##"<div class="links_main"><h2 class="result__title"><a href="https://a.example">A</a></h2></div>"##;
    let mut parser = DdgParser::new(usize::MAX - 3);
    assert!(!parser.try_parse(html));
    assert!(parser.results.is_empty());
    let mut parser = DdgParser::new(usize::MAX - html.chars().count());
    assert!(parser.try_parse(html));
    assert_eq!(parser.results[0].index, usize::MAX - html.chars().count() + 1);
}

#[test]
fn try_parse_matches_parse_on_ascii_pages() {
    let html = r##"<div class="links_main"><h2 class="result__title"><a href="https://a.example">A</a></h2><a class="result__snippet" href="#">x &amp; y</a></div><input name="vqd" value="v1">"##;
    let mut a = DdgParser::new(0);
    let mut b = DdgParser::new(0);
    a.parse(html);
    assert!(b.try_parse(html));
    assert_eq!(a.results, b.results);
    assert_eq!(a.vqd, b.vqd);
    assert_eq!(a.np_next, b.np_next);
}
