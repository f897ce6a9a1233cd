//! Web search from the terminal: DuckDuckGo first, Mojeek when DuckDuckGo
//! fails (for instance when it blocks the request), and ArXiv on request. This crate holds the parsing of
//! result pages, the pagination bookkeeping and the search decisions; the
//! network requests and the output encoders live in the program around it.

pub mod text;
pub mod bindings;
pub mod parser;
pub mod ddg;
pub mod mojeek;
pub mod arxiv;

use vstd::prelude::*;

verus! {

/// The User-Agent sent by default.
pub const DEFAULT_USER_AGENT: &'static str = "Mozilla/5.0 (X11; Linux x86_64) AppleWebKit/537.36 (KHTML, like Gecko) Chrome/120.0.0.0 Safari/537.36";

/// At most this many results are collected by one search.
pub const MAX_RESULTS_CAP: usize = 40;

/// How many results a search collects unless told otherwise.
pub const DEFAULT_MAX_RESULTS: usize = 10;

/// Pause between two page requests, in milliseconds.
pub const PAGINATION_DELAY_MS: u64 = 1500;

// ---------------------------------------------------------------------------
// Search results
// ---------------------------------------------------------------------------

/// One search result.
#[derive(Debug, PartialEq)]
pub struct SearchResult {
    pub index: usize,
    pub title: String,
    pub url: String,
    pub abstract_text: String,
}

/// The mathematical value of a [`SearchResult`].
#[verifier::ext_equal]
pub struct ResultView {
    pub index: int,
    pub title: Seq<char>,
    pub url: Seq<char>,
    pub abstract_text: Seq<char>,
}

impl View for SearchResult {
    type V = ResultView;

    open spec fn view(&self) -> ResultView {
        ResultView {
            index: self.index as int,
            title: self.title@,
            url: self.url@,
            abstract_text: self.abstract_text@,
        }
    }
}

/// The values of a sequence of results.
pub open spec fn results_view(rs: Seq<SearchResult>) -> Seq<ResultView> {
    rs.map_values(|r: SearchResult| r@)
}

/// The results `rs` are numbered `offset + 1`, `offset + 2`, ... in order.
pub open spec fn numbered_from(rs: Seq<ResultView>, offset: int) -> bool {
    forall|i: int| 0 <= i < rs.len() ==> #[trigger] rs[i].index == offset + i + 1
}


/// A result before it is numbered: title, URL and abstract.
pub open spec fn entry_result(e: (Seq<char>, Seq<char>, Seq<char>), index: int) -> ResultView {
    ResultView { index, title: e.0, url: e.1, abstract_text: e.2 }
}

/// The results kept from `entries` (those that are `Some`), in order,
/// numbered `offset + 1`, `offset + 2`, ...
pub open spec fn number_entries(entries: Seq<Option<(Seq<char>, Seq<char>, Seq<char>)>>, offset: int) -> Seq<ResultView>
    decreases entries.len(),
{
    if entries.len() == 0 {
        Seq::empty()
    } else {
        let prev = number_entries(entries.drop_last(), offset);
        match entries.last() {
            Some(e) => prev.push(entry_result(e, offset + prev.len() + 1)),
            None => prev,
        }
    }
}

/// Numbering keeps at most one result per entry, numbered from `offset + 1`.
pub proof fn lemma_number_entries(entries: Seq<Option<(Seq<char>, Seq<char>, Seq<char>)>>, offset: int)
    ensures
        number_entries(entries, offset).len() <= entries.len(),
        numbered_from(number_entries(entries, offset), offset),
    decreases entries.len(),
{
    if entries.len() > 0 {
        lemma_number_entries(entries.drop_last(), offset);
    }
}

/// Appends the result `title`, `url`, `abstract_text`, numbered after the
/// results so far.
pub fn push_numbered(
    results: &mut Vec<SearchResult>,
    offset: usize,
    title: &[char],
    url: &[char],
    abstract_text: &[char],
)
    requires
        offset + old(results)@.len() + 1 <= usize::MAX,
    ensures
        results_view(final(results)@) == results_view(old(results)@).push(
            entry_result((title@, url@, abstract_text@), offset + old(results)@.len() + 1),
        ),
{
    let ghost before = results@;
    let idx = offset + results.len() + 1;
    let r = SearchResult {
        index: idx,
        title: text::string_of(title),
        url: text::string_of(url),
        abstract_text: text::string_of(abstract_text),
    };
    results.push(r);
    assert(results_view(results@) =~= results_view(before).push(r@));
}

/// The value of an unnumbered result.
pub open spec fn entry_view(e: Option<(Vec<char>, Vec<char>, Vec<char>)>) -> Option<(Seq<char>, Seq<char>, Seq<char>)> {
    match e {
        Some(t) => Some((t.0@, t.1@, t.2@)),
        None => None,
    }
}

/// The values of a sequence of unnumbered results.
pub open spec fn entries_view(v: Seq<Option<(Vec<char>, Vec<char>, Vec<char>)>>) -> Seq<Option<(Seq<char>, Seq<char>, Seq<char>)>> {
    v.map_values(|e: Option<(Vec<char>, Vec<char>, Vec<char>)>| entry_view(e))
}

/// How many of the entries are present does not depend on the numbering.
pub proof fn lemma_number_entries_len(entries: Seq<Option<(Seq<char>, Seq<char>, Seq<char>)>>, a: int, b: int)
    ensures
        number_entries(entries, a).len() == number_entries(entries, b).len(),
    decreases entries.len(),
{
    if entries.len() > 0 {
        lemma_number_entries_len(entries.drop_last(), a, b);
    }
}

/// A prefix of the entries yields no more results than all of them.
pub proof fn lemma_number_entries_prefix(entries: Seq<Option<(Seq<char>, Seq<char>, Seq<char>)>>, i: int, offset: int)
    requires
        0 <= i <= entries.len(),
    ensures
        number_entries(entries.take(i), offset).len() <= number_entries(entries, offset).len(),
    decreases entries.len() - i,
{
    if i < entries.len() {
        lemma_number_entries_prefix(entries, i + 1, offset);
        assert(entries.take(i + 1).drop_last() =~= entries.take(i));
    } else {
        assert(entries.take(i) =~= entries);
    }
}

/// How many of the entries are present.
pub fn count_present(entries: &Vec<Option<(Vec<char>, Vec<char>, Vec<char>)>>) -> (r: usize)
    ensures
        r == number_entries(entries_view(entries@), 0).len(),
{
    let mut n: usize = 0;
    let mut i: usize = 0;
    while i < entries.len()
        invariant
            i <= entries@.len(),
            n == number_entries(entries_view(entries@).take(i as int), 0).len(),
            n <= i,
        decreases entries@.len() - i,
    {
        let ghost es = entries_view(entries@);
        assert(es.take(i + 1).drop_last() =~= es.take(i as int));
        assert(es.take(i + 1).last() == entry_view(entries@[i as int]));
        if entries[i].is_some() {
            n += 1;
        }
        i += 1;
    }
    assert(entries_view(entries@).take(entries@.len() as int) =~= entries_view(entries@));
    n
}

/// Numbers the entries that are present, from `offset + 1` on.
pub fn number_all(entries: &Vec<Option<(Vec<char>, Vec<char>, Vec<char>)>>, offset: usize) -> (r: Vec<SearchResult>)
    requires
        offset + number_entries(entries_view(entries@), offset as int).len() <= usize::MAX,
    ensures
        results_view(r@) == number_entries(entries_view(entries@), offset as int),
{
    let mut out: Vec<SearchResult> = Vec::new();
    let mut i: usize = 0;
    while i < entries.len()
        invariant
            i <= entries@.len(),
            offset + number_entries(entries_view(entries@), offset as int).len() <= usize::MAX,
            results_view(out@) == number_entries(entries_view(entries@).take(i as int), offset as int),
        decreases entries@.len() - i,
    {
        let ghost es = entries_view(entries@);
        proof {
            lemma_number_entries(es.take(i as int), offset as int);
            lemma_number_entries_prefix(es, i + 1, offset as int);
            assert(es.take(i + 1).drop_last() =~= es.take(i as int));
            assert(es.take(i + 1).last() == entry_view(entries@[i as int]));
        }
        match &entries[i] {
            Some(e) => {
                push_numbered(&mut out, offset, e.0.as_slice(), e.1.as_slice(), e.2.as_slice());
            },
            None => {},
        }
        i += 1;
    }
    assert(entries_view(entries@).take(entries@.len() as int) =~= entries_view(entries@));
    out
}

// ---------------------------------------------------------------------------
// Engine selection
// ---------------------------------------------------------------------------

/// A search engine.
#[derive(Debug, Clone, Copy, PartialEq, Eq, Structural)]
pub enum Engine {
    DuckDuckGo,
    Mojeek,
    ArXiv,
}

impl Default for Engine {
    fn default() -> (r: Engine)
        ensures
            r == Engine::DuckDuckGo,
    {
        Engine::DuckDuckGo
    }
}

impl Engine {
    /// The engine's display name.
    pub open spec fn display_name(self) -> Seq<char> {
        match self {
            Engine::DuckDuckGo => "DuckDuckGo"@,
            Engine::Mojeek => "Mojeek"@,
            Engine::ArXiv => "ArXiv"@,
        }
    }

    /// The engine's display name.
    pub fn name(&self) -> (r: &'static str)
        ensures
            r@ == self.display_name(),
    {
        match self {
            Engine::DuckDuckGo => "DuckDuckGo",
            Engine::Mojeek => "Mojeek",
            Engine::ArXiv => "ArXiv",
        }
    }
}

// ---------------------------------------------------------------------------
// Errors
// ---------------------------------------------------------------------------

/// Why a search failed.
#[derive(Debug)]
pub enum SearchError {
    /// The HTTP request failed.
    Http(reqwest::Error),
    /// The search engine blocked the request (captcha or rate limit).
    Blocked,
    /// No results were found.
    NoResults,
}

// ---------------------------------------------------------------------------
// Search options
// ---------------------------------------------------------------------------

/// What to search for and how.
#[derive(Debug)]
pub struct SearchOptions {
    pub keywords: String,
    pub region: String,
    /// Safe-search level: -2 = off, -1 = moderate, 1 = strict.
    pub safe: i8,
    /// Time filter: "" (any), "d" (day), "w" (week), "m" (month).
    pub duration: String,
    /// Custom User-Agent string; empty string means send no UA header.
    pub user_agent: String,
    /// HTTPS proxy URL (e.g. "https://127.0.0.1:9050").
    pub proxy: Option<String>,
    pub toon: bool,
    /// Force a specific engine. `None` = try DuckDuckGo, fall back to Mojeek.
    pub engine: Option<Engine>,
    /// Maximum results to collect (auto-paginates as needed). Capped at 40.
    pub max_results: usize,
}

impl Default for SearchOptions {
    fn default() -> (r: SearchOptions)
        ensures
            r.keywords@ == Seq::<char>::empty(),
            r.region@ == "wt-wt"@,
            r.safe == 1,
            r.duration@ == Seq::<char>::empty(),
            r.user_agent@ == DEFAULT_USER_AGENT@,
            r.proxy is None,
            !r.toon,
            r.engine is None,
            r.max_results == DEFAULT_MAX_RESULTS,
    {
        SearchOptions {
            keywords: String::new(),
            region: "wt-wt".to_owned(),
            safe: 1,
            duration: String::new(),
            user_agent: DEFAULT_USER_AGENT.to_owned(),
            proxy: None,
            toon: false,
            engine: None,
            max_results: DEFAULT_MAX_RESULTS,
        }
    }
}

/// A copy of `s`.
pub fn copy_string(s: &String) -> (r: String)
    ensures
        r@ == s@,
{
    s.clone()
}

/// A copy of an optional string.
pub fn copy_opt_string(s: &Option<String>) -> (r: Option<String>)
    ensures
        match (s, r) {
            (Some(a), Some(b)) => a@ == b@,
            (None, None) => true,
            _ => false,
        },
{
    match s {
        Some(a) => Some(a.clone()),
        None => None,
    }
}

impl SearchOptions {
    /// A copy of these options.
    pub fn duplicate(&self) -> (r: SearchOptions)
        ensures
            r.keywords@ == self.keywords@,
            r.region@ == self.region@,
            r.safe == self.safe,
            r.duration@ == self.duration@,
            r.user_agent@ == self.user_agent@,
            match (self.proxy, r.proxy) {
                (Some(a), Some(b)) => a@ == b@,
                (None, None) => true,
                _ => false,
            },
            r.toon == self.toon,
            r.engine == self.engine,
            r.max_results == self.max_results,
    {
        SearchOptions {
            keywords: copy_string(&self.keywords),
            region: copy_string(&self.region),
            safe: self.safe,
            duration: copy_string(&self.duration),
            user_agent: copy_string(&self.user_agent),
            proxy: copy_opt_string(&self.proxy),
            toon: self.toon,
            engine: self.engine,
            max_results: self.max_results,
        }
    }
}

// ---------------------------------------------------------------------------
// Pagination state
// ---------------------------------------------------------------------------

/// Where a search stands after a page, and what the next request needs.
#[derive(Debug)]
pub struct PaginationState {
    pub engine: Engine,
    pub page: usize,
    pub cur_index: i64,
    pub result_count: usize,
    /// ArXiv: how many results the query has in all.
    pub total_results: usize,
    // DDG-specific pagination tokens
    pub next_params: String,
    pub prev_params: String,
    pub vqd: String,
    /// The User-Agent used for this search session.
    /// DDG's vqd token is tied to the UA — pagination MUST use the same one.
    pub user_agent: String,
}

impl Default for PaginationState {
    fn default() -> (r: PaginationState)
        ensures
            r.engine == Engine::DuckDuckGo,
            r.page == 0,
            r.cur_index == 0,
            r.result_count == 0,
            r.total_results == 0,
            r.next_params@ == Seq::<char>::empty(),
            r.prev_params@ == Seq::<char>::empty(),
            r.vqd@ == Seq::<char>::empty(),
            r.user_agent@ == Seq::<char>::empty(),
    {
        PaginationState {
            engine: Engine::DuckDuckGo,
            page: 0,
            cur_index: 0,
            result_count: 0,
            total_results: 0,
            next_params: String::new(),
            prev_params: String::new(),
            vqd: String::new(),
            user_agent: String::new(),
        }
    }
}

/// Whether more pages are likely available: DuckDuckGo while it handed out
/// both a `nextParams` token and a `vqd` token; Mojeek while the last page
/// was full; ArXiv while the next page would start before the total.
pub open spec fn pagination_continues(p: PaginationState) -> bool {
    match p.engine {
        Engine::DuckDuckGo => p.next_params@.len() > 0 && p.vqd@.len() > 0,
        Engine::Mojeek => p.result_count >= mojeek::RESULTS_PER_PAGE,
        Engine::ArXiv => (p.page + 1) * arxiv::RESULTS_PER_PAGE < p.total_results,
    }
}

impl PaginationState {
    /// Whether more pages are likely available.
    pub fn has_next(&self) -> (r: bool)
        ensures
            r == pagination_continues(*self),
    {
        match self.engine {
            Engine::DuckDuckGo => !self.next_params.as_str().is_empty() && !self.vqd.as_str().is_empty(),
            Engine::Mojeek => self.result_count >= mojeek::RESULTS_PER_PAGE,
            Engine::ArXiv => match self.page.checked_add(1) {
                Some(n) => match n.checked_mul(arxiv::RESULTS_PER_PAGE) {
                    Some(start) => start < self.total_results,
                    None => false,
                },
                None => false,
            },
        }
    }
}

/// The number of results before the next page: `cur_index - 1`, or 0 when
/// `cur_index` is not positive.
pub open spec fn offset_before(cur_index: i64) -> usize {
    if cur_index > 0 {
        (cur_index - 1) as usize
    } else {
        0
    }
}

/// The number of results before the next page.
pub fn offset_of(cur_index: i64) -> (r: usize)
    ensures
        r == offset_before(cur_index),
{
    if cur_index > 0 {
        (cur_index - 1) as usize
    } else {
        0
    }
}

/// `cur + count`, wrapping around in `i64` as the release build does.
pub open spec fn advanced_index(cur: i64, count: nat) -> i64 {
    if cur + count > i64::MAX {
        (cur + count - 0x1_0000_0000_0000_0000int) as i64
    } else {
        (cur + count) as i64
    }
}

/// The running result index after `count` more results.
pub fn advance_index(cur: i64, count: usize) -> (r: i64)
    ensures
        r == advanced_index(cur, count as nat),
{
    cur.wrapping_add_unsigned(count as u64)
}


/// `p` is the state of `engine` after page `page`, with no DuckDuckGo tokens.
pub open spec fn plain_state(
    p: PaginationState,
    engine: Engine,
    page: int,
    cur_index: i64,
    count: int,
    total: int,
    user_agent: Seq<char>,
) -> bool {
    &&& p.engine == engine
    &&& p.page == page
    &&& p.cur_index == cur_index
    &&& p.result_count == count
    &&& p.total_results == total
    &&& p.next_params@.len() == 0
    &&& p.prev_params@.len() == 0
    &&& p.vqd@.len() == 0
    &&& p.user_agent@ == user_agent
}

/// The state of `engine` after page `page`, with no DuckDuckGo tokens.
pub fn plain_pagination(
    engine: Engine,
    page: usize,
    cur_index: i64,
    count: usize,
    total: usize,
    user_agent: String,
) -> (r: PaginationState)
    ensures
        plain_state(r, engine, page as int, cur_index, count as int, total as int, user_agent@),
{
    PaginationState {
        engine,
        page,
        cur_index,
        result_count: count,
        total_results: total,
        next_params: String::new(),
        prev_params: String::new(),
        vqd: String::new(),
        user_agent,
    }
}

/// A request parameter.
pub fn param(name: &str, value: String) -> (r: (String, String))
    ensures
        r.0@ == name@,
        r.1@ == value@,
{
    (name.to_owned(), value)
}


// ---------------------------------------------------------------------------
// Search decisions
// ---------------------------------------------------------------------------

/// The number of results a search collects: `max_results`, at most 40.
pub open spec fn capped(max_results: usize) -> usize {
    if max_results < MAX_RESULTS_CAP {
        max_results
    } else {
        MAX_RESULTS_CAP
    }
}

/// The number of results a search collects: `max_results`, at most 40.
pub fn result_cap(max_results: usize) -> (r: usize)
    ensures
        r == capped(max_results),
{
    if max_results < MAX_RESULTS_CAP {
        max_results
    } else {
        MAX_RESULTS_CAP
    }
}

/// The engine a search asks first: the forced one, else DuckDuckGo.
pub fn first_engine(forced: Option<Engine>) -> (r: Engine)
    ensures
        r == (match forced {
            Some(e) => e,
            None => Engine::DuckDuckGo,
        }),
{
    match forced {
        Some(e) => e,
        None => Engine::DuckDuckGo,
    }
}

/// The engine to ask after `failed` failed: Mojeek after DuckDuckGo when no
/// engine was forced; nothing otherwise.
pub fn fallback_engine(forced: Option<Engine>, failed: Engine) -> (r: Option<Engine>)
    ensures
        r == (if forced is None && failed == Engine::DuckDuckGo {
            Some(Engine::Mojeek)
        } else {
            None
        }),
{
    match forced {
        Some(_) => None,
        None => match failed {
            Engine::DuckDuckGo => Some(Engine::Mojeek),
            _ => None,
        },
    }
}

/// The results one search gathers from one engine, page by page.
///
/// The caller fetches the first page and starts the collector with it;
/// while [`PageCollector::wants_more`] holds it fetches the page after
/// [`PageCollector::pagination`] and hands it to
/// [`PageCollector::add_page`]; [`PageCollector::finish`] gives the results.
pub struct PageCollector {
    results: Vec<SearchResult>,
    pag: PaginationState,
    max: usize,
    done: bool,
}

impl PageCollector {
    /// The results so far.
    pub closed spec fn collected(&self) -> Seq<ResultView> {
        results_view(self.results@)
    }

    /// How many results the search keeps.
    pub closed spec fn limit(&self) -> int {
        self.max as int
    }

    /// Whether a page came back empty, which ends the search.
    pub closed spec fn stopped(&self) -> bool {
        self.done
    }

    /// The state after the last page.
    pub closed spec fn position(&self) -> PaginationState {
        self.pag
    }

    /// Starts with the first page's results and state, keeping at most
    /// `max` results.
    pub fn start(first: Vec<SearchResult>, pag: PaginationState, max: usize) -> (r: PageCollector)
        ensures
            r.collected() == results_view(first@),
            r.position() == pag,
            r.limit() == max,
            !r.stopped(),
    {
        PageCollector { results: first, pag, max, done: false }
    }

    /// Whether to fetch another page: fewer results than the limit, no empty
    /// page yet, and the engine has more pages.
    pub fn wants_more(&self) -> (r: bool)
        ensures
            r == (!self.stopped() && self.collected().len() < self.limit() && pagination_continues(
                self.position(),
            )),
    {
        !self.done && self.results.len() < self.max && self.pag.has_next()
    }

    /// The state that the next page request starts from.
    pub fn pagination(&self) -> (r: &PaginationState)
        ensures
            *r == self.position(),
    {
        &self.pag
    }

    /// Takes the next page: an empty page ends the search and changes
    /// nothing else; otherwise its results are appended and its state
    /// replaces the old one.
    pub fn add_page(&mut self, more: Vec<SearchResult>, new_pag: PaginationState)
        ensures
            final(self).limit() == old(self).limit(),
            more@.len() == 0 ==> final(self).stopped(),
            more@.len() == 0 ==> final(self).collected() == old(self).collected(),
            more@.len() == 0 ==> final(self).position() == old(self).position(),
            more@.len() > 0 ==> final(self).stopped() == old(self).stopped(),
            more@.len() > 0 ==> final(self).collected() == old(self).collected() + results_view(more@),
            more@.len() > 0 ==> final(self).position() == new_pag,
    {
        if more.len() == 0 {
            self.done = true;
            return ;
        }
        let mut more = more;
        let ghost before = self.results@;
        let ghost added = more@;
        self.results.append(&mut more);
        assert(results_view(self.results@) =~= results_view(before) + results_view(added));
        self.pag = new_pag;
    }

    /// The results that [`PageCollector::finish`] gives: those collected,
    /// cut to the limit.
    pub open spec fn kept(&self) -> Seq<ResultView> {
        if self.collected().len() <= self.limit() {
            self.collected()
        } else {
            self.collected().take(self.limit())
        }
    }

    /// The results, cut to the limit.
    pub fn finish(self) -> (r: Vec<SearchResult>)
        ensures
            results_view(r@) == self.kept(),
    {
        let mut results = self.results;
        let ghost before = results@;
        results.truncate(self.max);
        assert(self.max <= before.len() ==> results_view(results@) =~= results_view(before).take(
            self.max as int,
        ));
        results
    }
}


// ---------------------------------------------------------------------------
// Laws
// ---------------------------------------------------------------------------

/// A search never keeps more than 40 results, nor more than it was asked for.
pub proof fn lemma_cap(max_results: usize)
    ensures
        capped(max_results) <= MAX_RESULTS_CAP,
        capped(max_results) <= max_results,
        max_results <= MAX_RESULTS_CAP ==> capped(max_results) == max_results,
{
}

/// A finished collection holds at most its limit, and it is the start of
/// what was collected, in the order collected.
pub proof fn lemma_kept_within_limit(c: PageCollector)
    requires
        c.limit() >= 0,
    ensures
        c.kept().len() <= c.limit(),
        c.kept().len() <= c.collected().len(),
        c.kept() == c.collected().take(c.kept().len() as int),
{
    assert(c.collected().take(c.collected().len() as int) =~= c.collected());
}

/// A search started with `max_results` ends with at most `max_results`
/// results, and never more than 40.
pub proof fn lemma_search_respects_max(c: PageCollector, max_results: usize)
    requires
        c.limit() == capped(max_results),
    ensures
        c.kept().len() <= max_results,
        c.kept().len() <= MAX_RESULTS_CAP,
{
    lemma_cap(max_results);
    lemma_kept_within_limit(c);
}

/// The pages of one search continue each other's numbering: after a page
/// of `n` results the running index moves on by `n`, and so does the offset
/// that the next page is numbered from.
pub proof fn lemma_pages_continue(cur: i64, n: nat)
    requires
        1 <= cur,
        cur + n <= i64::MAX,
        cur - 1 + n <= usize::MAX,
    ensures
        advanced_index(cur, n) == cur + n,
        offset_before(advanced_index(cur, n)) == offset_before(cur) + n,
{
}

/// The results of successive pages, one page after another.
pub open spec fn concat_pages(pages: Seq<Seq<ResultView>>) -> Seq<ResultView>
    decreases pages.len(),
{
    if pages.len() == 0 {
        Seq::empty()
    } else {
        concat_pages(pages.drop_last()) + pages.last()
    }
}

/// The running index before page `j` of a search: 1 before the first page,
/// then the index that the page before it left.
pub open spec fn index_before(curs: Seq<i64>, j: int) -> i64 {
    if j == 0 {
        1
    } else {
        curs[j - 1]
    }
}

/// Each page `pages[j]` is numbered after the running index before it, and
/// `curs[j]` is that index moved on by the page's length, as each engine's
/// page functions state of one page.
pub open spec fn pages_chained(pages: Seq<Seq<ResultView>>, curs: Seq<i64>) -> bool {
    &&& pages.len() == curs.len()
    &&& forall|j: int|
        0 <= j < pages.len() ==> #[trigger] numbered_from(
            pages[j],
            offset_before(index_before(curs, j)) as int,
        )
    &&& forall|j: int|
        0 <= j < pages.len() ==> #[trigger] curs[j] == advanced_index(
            index_before(curs, j),
            pages[j].len(),
        )
}

/// Numbering stays contiguous across the pages of one search: when every
/// page is numbered after the running index and moves it on by its length,
/// the results of all pages together are numbered 1, 2, 3, ... with no gap
/// and no repeat, and the running index ends one past the last of them.
/// This holds as long as the total fits the running index (`i64`) and the
/// offsets (`usize`).
pub proof fn lemma_pages_contiguous(pages: Seq<Seq<ResultView>>, curs: Seq<i64>)
    requires
        pages_chained(pages, curs),
        concat_pages(pages).len() + 1 <= i64::MAX,
        concat_pages(pages).len() <= usize::MAX,
    ensures
        numbered_from(concat_pages(pages), 0),
        pages.len() > 0 ==> curs.last() == concat_pages(pages).len() + 1,
    decreases pages.len(),
{
    if pages.len() > 0 {
        let k = pages.len() - 1;
        let pre = pages.drop_last();
        let cpre = curs.drop_last();
        assert forall|j: int| 0 <= j < pre.len() implies #[trigger] index_before(cpre, j) == index_before(
            curs,
            j,
        ) by {}
        assert forall|j: int| 0 <= j < pre.len() implies #[trigger] numbered_from(
            pre[j],
            offset_before(index_before(cpre, j)) as int,
        ) by {
            assert(pre[j] == pages[j]);
            assert(numbered_from(pages[j], offset_before(index_before(curs, j)) as int));
        }
        assert forall|j: int| 0 <= j < pre.len() implies #[trigger] cpre[j] == advanced_index(
            index_before(cpre, j),
            pre[j].len(),
        ) by {
            assert(pre[j] == pages[j]);
            assert(curs[j] == advanced_index(index_before(curs, j), pages[j].len()));
        }
        lemma_pages_contiguous(pre, cpre);
        let done = concat_pages(pre);
        let last = pages[k];
        assert(pages.last() == last);
        assert(concat_pages(pages) == done + last);
        let cur = index_before(curs, k);
        assert(cur == done.len() + 1);
        lemma_pages_continue(cur, last.len());
        assert(numbered_from(last, offset_before(cur) as int));
        assert(curs[k] == advanced_index(cur, last.len()));
        assert forall|i: int| 0 <= i < concat_pages(pages).len() implies #[trigger] concat_pages(
            pages,
        )[i].index == 0 + i + 1 by {
            if i < done.len() {
                assert(concat_pages(pages)[i] == done[i]);
            } else {
                assert(concat_pages(pages)[i] == last[i - done.len()]);
            }
        }
    }
}

/// The running index that each state of a search holds.
pub open spec fn running_indices(states: Seq<PaginationState>) -> Seq<i64> {
    states.map_values(|p: PaginationState| p.cur_index)
}

/// Each state counts one page more than the state before it, from page 0.
pub open spec fn pages_counted(states: Seq<PaginationState>) -> bool {
    forall|j: int|
        0 <= j < states.len() ==> #[trigger] states[j].page == (if j == 0 {
            0
        } else {
            states[j - 1].page + 1
        })
}

/// In states that count their pages, state `j` is that of page `j`.
pub proof fn lemma_pages_counted(states: Seq<PaginationState>, j: int)
    requires
        pages_counted(states),
        0 <= j < states.len(),
    ensures
        states[j].page == j,
    decreases j,
{
    if j > 0 {
        lemma_pages_counted(states, j - 1);
    }
}

/// The result `r` has the title, URL and abstract of one of `entries`.
pub open spec fn comes_from(entries: Seq<Option<(Seq<char>, Seq<char>, Seq<char>)>>, r: ResultView) -> bool {
    exists|j: int| 0 <= j < entries.len() && #[trigger] entries[j] == Some((r.title, r.url, r.abstract_text))
}

/// Every numbered result comes from one of the entries.
pub proof fn lemma_number_entries_origin(entries: Seq<Option<(Seq<char>, Seq<char>, Seq<char>)>>, offset: int)
    ensures
        forall|i: int|
            0 <= i < number_entries(entries, offset).len() ==> comes_from(
                entries,
                #[trigger] number_entries(entries, offset)[i],
            ),
    decreases entries.len(),
{
    if entries.len() > 0 {
        let prev = entries.drop_last();
        lemma_number_entries_origin(prev, offset);
        let rs = number_entries(entries, offset);
        let ps = number_entries(prev, offset);
        assert forall|i: int| 0 <= i < rs.len() implies comes_from(entries, #[trigger] rs[i]) by {
            if i < ps.len() {
                assert(rs[i] == ps[i]);
                assert(comes_from(prev, ps[i]));
                let j = choose|j: int|
                    0 <= j < prev.len() && #[trigger] prev[j] == Some(
                        (ps[i].title, ps[i].url, ps[i].abstract_text),
                    );
                assert(entries[j] == prev[j]);
            } else {
                assert(entries[entries.len() - 1] == Some((rs[i].title, rs[i].url, rs[i].abstract_text)));
            }
        }
    }
}

} // verus!
