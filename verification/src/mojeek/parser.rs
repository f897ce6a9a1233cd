//! Reading a Mojeek results page.

use vstd::prelude::*;

use crate::bindings::{
    html_select_within, scraped_opt_view, scraped_pairs_view, select_in_page_within, Scraped,
};
use crate::text::{chars_of, trim, trim_chars};
use crate::{
    comes_from, count_present, entries_view, lemma_number_entries, lemma_number_entries_len,
    lemma_number_entries_origin, number_all, number_entries, numbered_from, results_view,
    ResultView, SearchResult,
};

verus! {

/// The CSS selector of one result on a Mojeek page.
pub const RESULT_SELECTOR: &'static str = "ul.results-standard li";

/// The CSS selector of a result's title link.
pub const TITLE_SELECTOR: &'static str = "a.title";

/// The CSS selector of a result's snippet.
pub const SNIPPET_SELECTOR: &'static str = "p.s";

/// The result blocks that scraper finds on the page `html`: each result's
/// title link (with its `href`) and snippet.
pub open spec fn page_blocks(html: Seq<char>) -> Seq<
    (Option<(Option<Seq<char>>, Seq<char>)>, Option<(Option<Seq<char>>, Seq<char>)>),
> {
    html_select_within(html, RESULT_SELECTOR@, TITLE_SELECTOR@, SNIPPET_SELECTOR@, "href"@)
}

/// The result that one block yields: none without a title link, or when the
/// link's URL or trimmed text is empty; else the trimmed title, the URL and
/// the trimmed snippet (empty without one).
pub open spec fn block_entry(
    b: (Option<(Option<Seq<char>>, Seq<char>)>, Option<(Option<Seq<char>>, Seq<char>)>),
) -> Option<(Seq<char>, Seq<char>, Seq<char>)> {
    match b.0 {
        None => None,
        Some(a) => {
            let title = trim(a.1);
            let url = match a.0 {
                Some(u) => u,
                None => Seq::empty(),
            };
            if url.len() == 0 || title.len() == 0 {
                None
            } else {
                Some(
                    (
                        title,
                        url,
                        match b.1 {
                            Some(p) => trim(p.1),
                            None => Seq::empty(),
                        },
                    ),
                )
            }
        },
    }
}

/// The results that the blocks yield, numbered from `offset + 1`.
pub open spec fn block_results(
    blocks: Seq<(Option<(Option<Seq<char>>, Seq<char>)>, Option<(Option<Seq<char>>, Seq<char>)>)>,
    offset: int,
) -> Seq<ResultView> {
    number_entries(blocks.map_values(|b| block_entry(b)), offset)
}

fn entry_of(b: &(Option<Scraped>, Option<Scraped>)) -> (r: Option<(Vec<char>, Vec<char>, Vec<char>)>)
    ensures
        crate::entry_view(r) == block_entry((scraped_opt_view(b.0), scraped_opt_view(b.1))),
{
    match &b.0 {
        None => None,
        Some(a) => {
            let text = chars_of(a.text.as_str());
            let title = trim_chars(text.as_slice());
            let url = match &a.attr {
                Some(u) => chars_of(u.as_str()),
                None => Vec::new(),
            };
            if url.len() == 0 || title.len() == 0 {
                return None;
            }
            let abstract_text = match &b.1 {
                Some(p) => {
                    let t = chars_of(p.text.as_str());
                    trim_chars(t.as_slice())
                },
                None => Vec::new(),
            };
            Some((title, url, abstract_text))
        },
    }
}

/// The result that each block yields, in order.
pub fn entries_from_blocks(blocks: &Vec<(Option<Scraped>, Option<Scraped>)>) -> (r: Vec<Option<(Vec<char>, Vec<char>, Vec<char>)>>)
    ensures
        entries_view(r@) == scraped_pairs_view(blocks@).map_values(|b| block_entry(b)),
{
    let mut entries: Vec<Option<(Vec<char>, Vec<char>, Vec<char>)>> = Vec::new();
    let mut i: usize = 0;
    while i < blocks.len()
        invariant
            i <= blocks@.len(),
            entries_view(entries@) == scraped_pairs_view(blocks@).take(i as int).map_values(
                |b| block_entry(b),
            ),
        decreases blocks@.len() - i,
    {
        let e = entry_of(&blocks[i]);
        let ghost before = entries_view(entries@);
        entries.push(e);
        assert(entries_view(entries@) =~= before.push(crate::entry_view(e)));
        assert(scraped_pairs_view(blocks@).take(i + 1).map_values(|b| block_entry(b))
            =~= scraped_pairs_view(blocks@).take(i as int).map_values(|b| block_entry(b)).push(
            block_entry(scraped_pairs_view(blocks@)[i as int]),
        ));
        i += 1;
    }
    assert(scraped_pairs_view(blocks@).take(blocks@.len() as int) =~= scraped_pairs_view(blocks@));
    entries
}

/// The numbered results of the result blocks of a page.
pub fn results_from_blocks(blocks: &Vec<(Option<Scraped>, Option<Scraped>)>, offset: usize) -> (r: Vec<SearchResult>)
    requires
        offset + block_results(scraped_pairs_view(blocks@), offset as int).len() <= usize::MAX,
    ensures
        results_view(r@) == block_results(scraped_pairs_view(blocks@), offset as int),
{
    let entries = entries_from_blocks(blocks);
    number_all(&entries, offset)
}

/// Whether the results of the blocks can be numbered from `offset + 1`
/// without passing `usize::MAX`.
pub open spec fn numbering_fits(
    blocks: Seq<(Option<(Option<Seq<char>>, Seq<char>)>, Option<(Option<Seq<char>>, Seq<char>)>)>,
    offset: int,
) -> bool {
    offset + block_results(blocks, offset).len() <= usize::MAX
}

/// Parses a Mojeek results page into results numbered from `offset + 1`.
/// When the numbers would pass `usize::MAX` the page yields no results.
pub fn parse(html: &str, offset: usize) -> (r: Vec<SearchResult>)
    ensures
        numbering_fits(page_blocks(html@), offset as int) ==> results_view(r@) == block_results(
            page_blocks(html@),
            offset as int,
        ),
        !numbering_fits(page_blocks(html@), offset as int) ==> r@.len() == 0,
{
    let blocks = select_in_page_within(html, RESULT_SELECTOR, TITLE_SELECTOR, SNIPPET_SELECTOR, "href");
    let entries = entries_from_blocks(&blocks);
    let n = count_present(&entries);
    proof {
        lemma_number_entries_len(entries_view(entries@), 0, offset as int);
    }
    if n <= usize::MAX - offset {
        number_all(&entries, offset)
    } else {
        Vec::new()
    }
}

/// Every Mojeek result has a title and a URL, and the results are numbered
/// `offset + 1`, `offset + 2`, ...
pub proof fn lemma_results_sound(
    blocks: Seq<(Option<(Option<Seq<char>>, Seq<char>)>, Option<(Option<Seq<char>>, Seq<char>)>)>,
    offset: int,
)
    ensures
        numbered_from(block_results(blocks, offset), offset),
        block_results(blocks, offset).len() <= blocks.len(),
        forall|i: int|
            0 <= i < block_results(blocks, offset).len() ==> (#[trigger] block_results(blocks, offset)[i]).title.len()
                > 0 && block_results(blocks, offset)[i].url.len() > 0,
{
    let entries = blocks.map_values(|b| block_entry(b));
    lemma_number_entries(entries, offset);
    lemma_number_entries_origin(entries, offset);
    let rs = block_results(blocks, offset);
    assert forall|i: int| 0 <= i < rs.len() implies (#[trigger] rs[i]).title.len() > 0
        && rs[i].url.len() > 0 by {
        assert(comes_from(entries, rs[i]));
        let j = choose|j: int|
            0 <= j < entries.len() && #[trigger] entries[j] == Some(
                (rs[i].title, rs[i].url, rs[i].abstract_text),
            );
        assert(entries[j] == block_entry(blocks[j]));
    }
}

/// A Mojeek result's URL is exactly the `href` of its title link: every
/// result comes from a block with a title link whose `href` is that URL, and
/// every block whose title link has a non-empty `href` and non-empty trimmed
/// text yields a result with that `href` as its URL and that text as its
/// title. The abstract is the trimmed snippet text, empty without one.
pub proof fn lemma_url_is_href(
    b: (Option<(Option<Seq<char>>, Seq<char>)>, Option<(Option<Seq<char>>, Seq<char>)>),
)
    ensures
        block_entry(b) matches Some(e) ==> (b.0 matches Some(a) && a.0 == Some(e.1) && e.1.len() > 0
            && e.0 == trim(a.1) && e.0.len() > 0 && e.2 == (match b.1 {
            Some(p) => trim(p.1),
            None => Seq::empty(),
        })),
        (b.0 matches Some(a) && a.0 matches Some(u) && u.len() > 0 && trim(a.1).len() > 0) ==> (
        block_entry(b) matches Some(e) && Some(e.1) == b.0.unwrap().0 && e.0 == trim(b.0.unwrap().1)),
{
}

} // verus!
