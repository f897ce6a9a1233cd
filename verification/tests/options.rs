use ddgr::{
    result_cap, Engine, PaginationState, SearchOptions, DEFAULT_MAX_RESULTS, DEFAULT_USER_AGENT,
    MAX_RESULTS_CAP,
};

#[test]
fn test_default_options() {
    let opts = SearchOptions::default();
    assert_eq!(opts.region, "wt-wt");
    assert_eq!(opts.safe, 1);
    assert!(opts.duration.is_empty());
    assert_eq!(opts.user_agent, DEFAULT_USER_AGENT);
    assert!(opts.proxy.is_none());
    assert!(!opts.toon);
    assert!(opts.engine.is_none());
    assert_eq!(opts.max_results, DEFAULT_MAX_RESULTS);
}

#[test]
fn test_max_results_capped() {
    let opts = SearchOptions {
        max_results: 100,
        ..Default::default()
    };
    // The cap is enforced when a search starts, not in the struct
    assert_eq!(opts.max_results.min(MAX_RESULTS_CAP), 40);
    assert_eq!(result_cap(opts.max_results), 40);
}

#[test]
fn test_pagination_has_next_ddg() {
    let pag = PaginationState {
        engine: Engine::DuckDuckGo,
        next_params: "abc".into(),
        vqd: "xyz".into(),
        ..Default::default()
    };
    assert!(pag.has_next());

    let pag_empty = PaginationState {
        engine: Engine::DuckDuckGo,
        ..Default::default()
    };
    assert!(!pag_empty.has_next());
}

#[test]
fn test_pagination_has_next_mojeek() {
    let pag = PaginationState {
        engine: Engine::Mojeek,
        result_count: 10,
        ..Default::default()
    };
    assert!(pag.has_next());

    let pag_partial = PaginationState {
        engine: Engine::Mojeek,
        result_count: 5,
        ..Default::default()
    };
    assert!(!pag_partial.has_next());
}
