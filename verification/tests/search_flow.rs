use ddgr::text::{i64_text, parse_usize, u64_text};
use ddgr::{
    advance_index, fallback_engine, first_engine, offset_of, result_cap, Engine, PageCollector,
    PaginationState, SearchResult,
};

fn result(i: usize) -> SearchResult {
    SearchResult { index: i, title: format!("t{}", i), url: format!("u{}", i), abstract_text: String::new() }
}

fn page(from: usize, n: usize) -> Vec<SearchResult> {
    (from..from + n).map(result).collect()
}

#[test]
fn cap_limits_to_forty() {
    assert_eq!(result_cap(5), 5);
    assert_eq!(result_cap(40), 40);
    assert_eq!(result_cap(100), 40);
}

#[test]
fn engines_and_fallback() {
    assert_eq!(first_engine(None), Engine::DuckDuckGo);
    assert_eq!(first_engine(Some(Engine::ArXiv)), Engine::ArXiv);
    assert_eq!(fallback_engine(None, Engine::DuckDuckGo), Some(Engine::Mojeek));
    assert_eq!(fallback_engine(None, Engine::Mojeek), None);
    assert_eq!(fallback_engine(Some(Engine::DuckDuckGo), Engine::DuckDuckGo), None);
    assert_eq!(Engine::default(), Engine::DuckDuckGo);
    assert_eq!(Engine::Mojeek.name(), "Mojeek");
}

#[test]
fn collector_gathers_until_the_limit() {
    let full = |page: usize, count: usize| PaginationState { engine: Engine::Mojeek, page, result_count: count, ..Default::default() };
    let mut c = PageCollector::start(page(1, 10), full(0, 10), 25);
    assert!(c.wants_more());
    assert_eq!(c.pagination().page, 0);
    c.add_page(page(11, 10), full(1, 10));
    assert!(c.wants_more());
    c.add_page(page(21, 10), full(2, 10));
    assert!(!c.wants_more());
    let results = c.finish();
    assert_eq!(results.len(), 25);
    assert_eq!(results[24].index, 25);
}

#[test]
fn collector_stops_on_an_empty_page() {
    let full = PaginationState { engine: Engine::Mojeek, result_count: 10, ..Default::default() };
    let mut c = PageCollector::start(page(1, 10), full, 40);
    c.add_page(Vec::new(), PaginationState::default());
    assert!(!c.wants_more());
    assert_eq!(c.pagination().engine, Engine::Mojeek);
    assert_eq!(c.finish().len(), 10);
}

#[test]
fn collector_stops_when_the_engine_has_no_more() {
    let partial = PaginationState { engine: Engine::Mojeek, result_count: 4, ..Default::default() };
    let c = PageCollector::start(page(1, 4), partial, 40);
    assert!(!c.wants_more());
}

#[test]
fn indices_and_offsets() {
    assert_eq!(advance_index(1, 10), 11);
    assert_eq!(advance_index(i64::MAX, 1), i64::MIN);
    assert_eq!(offset_of(11), 10);
    assert_eq!(offset_of(0), 0);
    assert_eq!(offset_of(-5), 0);
}

#[test]
fn decimal_text() {
    assert_eq!(u64_text(0), "0");
    assert_eq!(u64_text(1234567890), "1234567890");
    assert_eq!(i64_text(-42), "-42");
    assert_eq!(i64_text(i64::MIN), "-9223372036854775808");
}

#[test]
fn usize_parsing() {
    let p = |s: &str| parse_usize(&s.chars().collect::<Vec<char>>());
    assert_eq!(p("12345"), Some(12345));
    assert_eq!(p("+7"), Some(7));
    assert_eq!(p("007"), Some(7));
    assert_eq!(p(""), None);
    assert_eq!(p("+"), None);
    assert_eq!(p("-1"), None);
    assert_eq!(p(" 1"), None);
    assert_eq!(p("99999999999999999999999999"), None);
}
