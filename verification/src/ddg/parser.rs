//! Reading a DuckDuckGo lite results page.

use vstd::prelude::*;

pub use crate::parser::{clean_url, url_decode};

use crate::bindings::{
    html_select, html_select_within, scraped_opt_view, scraped_pairs_view, scraped_seq_view,
    select_in_page, select_in_page_within, Scraped,
};
use crate::parser::cleaned_url;
use crate::text::{chars_of, has_prefix, seqs_of, starts_with, string_of, trim, trim_chars};
use crate::{
    count_present, entries_view, lemma_number_entries, lemma_number_entries_len, number_all,
    number_entries, numbered_from, results_view, ResultView, SearchResult,
};

verus! {

/// The CSS selector of DuckDuckGo's bot-detection dialog.
pub const BLOCKED_SELECTOR: &'static str = ".anomaly-modal__mask, .anomaly-modal__modal";

/// The CSS selector of one result.
pub const RESULT_SELECTOR: &'static str = "div.links_main";

/// The CSS selector of a result's title link.
pub const TITLE_LINK_SELECTOR: &'static str = "h2.result__title a";

/// The CSS selector of a result's snippet.
pub const SNIPPET_SELECTOR: &'static str = "a.result__snippet";

/// The CSS selector of the `nextParams` pagination inputs.
pub const NEXT_PARAMS_SELECTOR: &'static str = "div.nav-link input[name='nextParams']";

/// The CSS selector of the `vqd` session inputs.
pub const VQD_SELECTOR: &'static str = "div.nav-link input[name='vqd']";

/// What a DuckDuckGo page holds.
pub struct ParsedPage {
    pub results: Vec<SearchResult>,
    pub np_prev: String,
    pub np_next: String,
    pub vqd: String,
    pub is_blocked: bool,
}

/// The value of a [`ParsedPage`].
#[verifier::ext_equal]
pub struct PageView {
    pub results: Seq<ResultView>,
    pub np_prev: Seq<char>,
    pub np_next: Seq<char>,
    pub vqd: Seq<char>,
    pub is_blocked: bool,
}

impl View for ParsedPage {
    type V = PageView;

    open spec fn view(&self) -> PageView {
        PageView {
            results: results_view(self.results@),
            np_prev: self.np_prev@,
            np_next: self.np_next@,
            vqd: self.vqd@,
            is_blocked: self.is_blocked,
        }
    }
}

/// The elements of the bot-detection dialog on the page.
pub open spec fn blocked_hits(html: Seq<char>) -> Seq<(Option<Seq<char>>, Seq<char>)> {
    html_select(html, BLOCKED_SELECTOR@, "class"@)
}

/// The result blocks on the page: each result's title link (with its
/// `href`) and snippet.
pub open spec fn page_blocks(html: Seq<char>) -> Seq<
    (Option<(Option<Seq<char>>, Seq<char>)>, Option<(Option<Seq<char>>, Seq<char>)>),
> {
    html_select_within(html, RESULT_SELECTOR@, TITLE_LINK_SELECTOR@, SNIPPET_SELECTOR@, "href"@)
}

/// The `nextParams` inputs on the page, with their `value`.
pub open spec fn next_params_inputs(html: Seq<char>) -> Seq<(Option<Seq<char>>, Seq<char>)> {
    html_select(html, NEXT_PARAMS_SELECTOR@, "value"@)
}

/// The `vqd` inputs on the page, with their `value`.
pub open spec fn vqd_inputs(html: Seq<char>) -> Seq<(Option<Seq<char>>, Seq<char>)> {
    html_select(html, VQD_SELECTOR@, "value"@)
}

/// The result that one block yields: none without a title link or when the
/// link points back into DuckDuckGo's search (`/search...`); else the
/// trimmed link text, the unwrapped URL, and the trimmed snippet (empty
/// without one).
pub open spec fn block_entry(
    b: (Option<(Option<Seq<char>>, Seq<char>)>, Option<(Option<Seq<char>>, Seq<char>)>),
) -> Option<(Seq<char>, Seq<char>, Seq<char>)> {
    match b.0 {
        None => None,
        Some(a) => {
            let href = match a.0 {
                Some(h) => h,
                None => Seq::empty(),
            };
            if has_prefix(href, "/search"@) {
                None
            } else {
                Some(
                    (
                        trim(a.1),
                        cleaned_url(href),
                        match b.1 {
                            Some(p) => trim(p.1),
                            None => Seq::empty(),
                        },
                    ),
                )
            }
        },
    }
}

/// The results that the blocks yield, numbered from `offset + 1`.
pub open spec fn block_results(
    blocks: Seq<(Option<(Option<Seq<char>>, Seq<char>)>, Option<(Option<Seq<char>>, Seq<char>)>)>,
    offset: int,
) -> Seq<ResultView> {
    number_entries(blocks.map_values(|b| block_entry(b)), offset)
}

/// The attribute values that the elements have, in order.
pub open spec fn present_values(elems: Seq<(Option<Seq<char>>, Seq<char>)>) -> Seq<Seq<char>>
    decreases elems.len(),
{
    if elems.len() == 0 {
        Seq::empty()
    } else {
        let prev = present_values(elems.drop_last());
        match elems.last().0 {
            Some(v) => prev.push(v),
            None => prev,
        }
    }
}

/// The last non-empty value, or the empty text.
pub open spec fn last_nonempty(vals: Seq<Seq<char>>) -> Seq<char>
    decreases vals.len(),
{
    if vals.len() == 0 {
        Seq::empty()
    } else if vals.last().len() > 0 {
        vals.last()
    } else {
        last_nonempty(vals.drop_last())
    }
}

/// The second-to-last value, or the empty text.
pub open spec fn second_last(vals: Seq<Seq<char>>) -> Seq<char> {
    if vals.len() >= 2 {
        vals[vals.len() - 2]
    } else {
        Seq::empty()
    }
}

/// The last value, or the empty text.
pub open spec fn last_or_empty(vals: Seq<Seq<char>>) -> Seq<char> {
    if vals.len() >= 1 {
        vals.last()
    } else {
        Seq::empty()
    }
}

/// What `parse(html, offset)` yields: on a page with the bot-detection
/// dialog, a blocked page with nothing else; otherwise the numbered results
/// (none when their numbers would pass `usize::MAX`), the last two
/// `nextParams` values as previous and next token, and the last non-empty
/// `vqd` value.
pub open spec fn page_of(html: Seq<char>, offset: int) -> PageView {
    if blocked_hits(html).len() > 0 {
        PageView {
            results: Seq::empty(),
            np_prev: Seq::empty(),
            np_next: Seq::empty(),
            vqd: Seq::empty(),
            is_blocked: true,
        }
    } else {
        let np = present_values(next_params_inputs(html));
        PageView {
            results: if offset + block_results(page_blocks(html), offset).len() <= usize::MAX {
                block_results(page_blocks(html), offset)
            } else {
                Seq::empty()
            },
            np_prev: second_last(np),
            np_next: last_or_empty(np),
            vqd: last_nonempty(present_values(vqd_inputs(html))),
            is_blocked: false,
        }
    }
}

fn entry_of(b: &(Option<Scraped>, Option<Scraped>)) -> (r: Option<(Vec<char>, Vec<char>, Vec<char>)>)
    ensures
        crate::entry_view(r) == block_entry((scraped_opt_view(b.0), scraped_opt_view(b.1))),
{
    match &b.0 {
        None => None,
        Some(a) => {
            let href = match &a.attr {
                Some(h) => chars_of(h.as_str()),
                None => Vec::new(),
            };
            let prefix = chars_of("/search");
            if starts_with(href.as_slice(), prefix.as_slice()) {
                return None;
            }
            let text = chars_of(a.text.as_str());
            let title = trim_chars(text.as_slice());
            let href_s = string_of(href.as_slice());
            let url_s = clean_url(href_s.as_str());
            let url = chars_of(url_s.as_str());
            let abstract_text = match &b.1 {
                Some(p) => {
                    let t = chars_of(p.text.as_str());
                    trim_chars(t.as_slice())
                },
                None => Vec::new(),
            };
            Some((title, url, abstract_text))
        },
    }
}

/// The result that each block yields, in order.
pub fn entries_from_blocks(blocks: &Vec<(Option<Scraped>, Option<Scraped>)>) -> (r: Vec<Option<(Vec<char>, Vec<char>, Vec<char>)>>)
    ensures
        entries_view(r@) == scraped_pairs_view(blocks@).map_values(|b| block_entry(b)),
{
    let mut entries: Vec<Option<(Vec<char>, Vec<char>, Vec<char>)>> = Vec::new();
    let mut i: usize = 0;
    while i < blocks.len()
        invariant
            i <= blocks@.len(),
            entries_view(entries@) == scraped_pairs_view(blocks@).take(i as int).map_values(
                |b| block_entry(b),
            ),
        decreases blocks@.len() - i,
    {
        let e = entry_of(&blocks[i]);
        let ghost before = entries_view(entries@);
        entries.push(e);
        assert(entries_view(entries@) =~= before.push(crate::entry_view(e)));
        assert(scraped_pairs_view(blocks@).take(i + 1).map_values(|b| block_entry(b))
            =~= scraped_pairs_view(blocks@).take(i as int).map_values(|b| block_entry(b)).push(
            block_entry(scraped_pairs_view(blocks@)[i as int]),
        ));
        i += 1;
    }
    assert(scraped_pairs_view(blocks@).take(blocks@.len() as int) =~= scraped_pairs_view(blocks@));
    entries
}

/// The numbered results of the result blocks of a page.
pub fn results_from_blocks(blocks: &Vec<(Option<Scraped>, Option<Scraped>)>, offset: usize) -> (r: Vec<SearchResult>)
    requires
        offset + block_results(scraped_pairs_view(blocks@), offset as int).len() <= usize::MAX,
    ensures
        results_view(r@) == block_results(scraped_pairs_view(blocks@), offset as int),
{
    let entries = entries_from_blocks(blocks);
    number_all(&entries, offset)
}

/// The attribute values that the found elements have, in order.
pub fn values_of(elems: &Vec<Scraped>) -> (r: Vec<Vec<char>>)
    ensures
        seqs_of(r@) == present_values(scraped_seq_view(elems@)),
{
    let mut out: Vec<Vec<char>> = Vec::new();
    let mut i: usize = 0;
    while i < elems.len()
        invariant
            i <= elems@.len(),
            seqs_of(out@) == present_values(scraped_seq_view(elems@).take(i as int)),
        decreases elems@.len() - i,
    {
        let ghost es = scraped_seq_view(elems@);
        assert(es.take(i + 1).drop_last() =~= es.take(i as int));
        let ghost before = seqs_of(out@);
        match &elems[i].attr {
            Some(v) => {
                let cs = chars_of(v.as_str());
                out.push(cs);
                assert(seqs_of(out@) =~= before.push(cs@));
            },
            None => {},
        }
        i += 1;
    }
    assert(scraped_seq_view(elems@).take(elems@.len() as int) =~= scraped_seq_view(elems@));
    out
}

/// The last non-empty value, or the empty text.
pub fn last_nonempty_of(vals: &Vec<Vec<char>>) -> (r: Vec<char>)
    ensures
        r@ == last_nonempty(seqs_of(vals@)),
{
    let mut i = vals.len();
    assert(seqs_of(vals@).take(i as int) =~= seqs_of(vals@));
    while i > 0
        invariant
            i <= vals@.len(),
            last_nonempty(seqs_of(vals@).take(i as int)) == last_nonempty(seqs_of(vals@)),
        decreases i,
    {
        let ghost vs = seqs_of(vals@).take(i as int);
        assert(vs.drop_last() =~= seqs_of(vals@).take(i - 1));
        if vals[i - 1].len() > 0 {
            return crate::text::slice_chars(vals[i - 1].as_slice(), 0, vals[i - 1].len());
        }
        i -= 1;
    }
    Vec::new()
}

/// Parses a DuckDuckGo results page into results numbered from
/// `offset + 1`, the pagination tokens, and whether the page is DuckDuckGo's
/// bot-detection dialog.
pub fn parse(html: &str, offset: usize) -> (r: ParsedPage)
    ensures
        r@ == page_of(html@, offset as int),
{
    let blocked = select_in_page(html, BLOCKED_SELECTOR, "class");
    if blocked.len() > 0 {
        let page = ParsedPage {
            results: Vec::new(),
            np_prev: String::new(),
            np_next: String::new(),
            vqd: String::new(),
            is_blocked: true,
        };
        assert(page@ =~= page_of(html@, offset as int));
        return page;
    }
    let blocks = select_in_page_within(html, RESULT_SELECTOR, TITLE_LINK_SELECTOR, SNIPPET_SELECTOR, "href");
    let entries = entries_from_blocks(&blocks);
    let count = count_present(&entries);
    proof {
        lemma_number_entries_len(entries_view(entries@), 0, offset as int);
    }
    let results = if count <= usize::MAX - offset {
        number_all(&entries, offset)
    } else {
        Vec::new()
    };
    let np_elems = select_in_page(html, NEXT_PARAMS_SELECTOR, "value");
    let np = values_of(&np_elems);
    let n = np.len();
    let np_prev = if n >= 2 {
        string_of(np[n - 2].as_slice())
    } else {
        String::new()
    };
    let np_next = if n >= 1 {
        string_of(np[n - 1].as_slice())
    } else {
        String::new()
    };
    let vqd_elems = select_in_page(html, VQD_SELECTOR, "value");
    let vqd_vals = values_of(&vqd_elems);
    let vqd = last_nonempty_of(&vqd_vals);
    let page = ParsedPage { results, np_prev, np_next, vqd: string_of(vqd.as_slice()), is_blocked: false };
    assert(page@ =~= page_of(html@, offset as int));
    page
}

/// The results of a page are numbered `offset + 1`, `offset + 2`, ...; a
/// page with the bot-detection dialog yields nothing but the blocked mark.
pub proof fn lemma_page_sound(html: Seq<char>, offset: int)
    ensures
        numbered_from(page_of(html, offset).results, offset),
        page_of(html, offset).is_blocked ==> page_of(html, offset).results.len() == 0
            && page_of(html, offset).np_next.len() == 0 && page_of(html, offset).vqd.len() == 0,
        page_of(html, offset).is_blocked <==> blocked_hits(html).len() > 0,
{
    lemma_number_entries(page_blocks(html).map_values(|b| block_entry(b)), offset);
}

/// A result block yields a result exactly when it has a title link whose
/// `href` (empty when absent) does not start with `/search`, the links back
/// into DuckDuckGo's own search; the result's URL is then the unwrapped
/// `href`, its title the trimmed link text and its abstract the trimmed
/// snippet text (empty without a snippet).
pub proof fn lemma_block_kept_unless_search_link(
    b: (Option<(Option<Seq<char>>, Seq<char>)>, Option<(Option<Seq<char>>, Seq<char>)>),
)
    ensures
        b.0 is None ==> block_entry(b) is None,
        b.0 matches Some(a) ==> ({
            let href = match a.0 {
                Some(h) => h,
                None => Seq::empty(),
            };
            &&& (block_entry(b) is None) <==> (href.len() >= 7 && href.take(7) == "/search"@)
            &&& block_entry(b) matches Some(e) ==> e.0 == trim(a.1) && e.1 == cleaned_url(href)
                && e.2 == (match b.1 {
                Some(p) => trim(p.1),
                None => Seq::empty(),
            })
        }),
{
    reveal_strlit("/search");
}

} // verus!
