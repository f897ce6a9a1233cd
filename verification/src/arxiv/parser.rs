//! Reading an ArXiv API response (an Atom feed).

use vstd::prelude::*;

use crate::bindings::{xml_document_nodes, xml_nodes, xml_nodes_view, XmlKind, XmlKindView, XmlNode};
use crate::text::{append_chars, chars_eq, chars_of, normalize_space_chars, normalize_spaces, parse_usize, parsed_usize};
use crate::{
    comes_from, count_present, entries_view, lemma_number_entries, lemma_number_entries_len,
    lemma_number_entries_origin, number_all, number_entries, numbered_from, results_view,
    ResultView, SearchResult,
};

verus! {

/// The Atom namespace.
pub const ATOM_NS: &'static str = "http://www.w3.org/2005/Atom";

/// The OpenSearch namespace.
pub const OPENSEARCH_NS: &'static str = "http://a9.com/-/spec/opensearch/1.1/";

/// What an ArXiv feed holds.
pub struct ParsedFeed {
    pub results: Vec<SearchResult>,
    pub total_results: usize,
}

/// The value of a [`ParsedFeed`].
#[verifier::ext_equal]
pub struct FeedView {
    pub results: Seq<ResultView>,
    pub total_results: int,
}

impl View for ParsedFeed {
    type V = FeedView;

    open spec fn view(&self) -> FeedView {
        FeedView { results: results_view(self.results@), total_results: self.total_results as int }
    }
}

/// Whether `n` is the element `name` in the namespace `ns`.
pub open spec fn is_named(n: (XmlKindView, int), ns: Seq<char>, name: Seq<char>) -> bool {
    match n.0 {
        XmlKindView::Element(Some(x), y) => x == ns && y == name,
        _ => false,
    }
}

/// The end of the subtree of node `i`: `i` plus its node count (at least
/// one), at most the number of nodes.
pub open spec fn node_end(nodes: Seq<(XmlKindView, int)>, i: int) -> int {
    let s = if nodes[i].1 < 1 {
        1
    } else {
        nodes[i].1
    };
    if i + s > nodes.len() {
        nodes.len() as int
    } else {
        i + s
    }
}

/// The first node at or after `j` that is the element `name` in `ns`.
pub open spec fn first_named_from(nodes: Seq<(XmlKindView, int)>, ns: Seq<char>, name: Seq<char>, j: int) -> Option<int>
    decreases nodes.len() - j,
{
    if j < 0 || j >= nodes.len() {
        None
    } else if is_named(nodes[j], ns, name) {
        Some(j)
    } else {
        first_named_from(nodes, ns, name, j + 1)
    }
}

/// The first child, among the children from `j` up to `end`, that is the
/// element `name` in `ns`.
pub open spec fn first_child_named(
    nodes: Seq<(XmlKindView, int)>,
    ns: Seq<char>,
    name: Seq<char>,
    j: int,
    end: int,
) -> Option<int>
    decreases nodes.len() - j,
{
    if j < 0 || j >= end || j >= nodes.len() {
        None
    } else if is_named(nodes[j], ns, name) {
        Some(j)
    } else {
        proof {
            assert(j < node_end(nodes, j) <= nodes.len());
        }
        first_child_named(nodes, ns, name, node_end(nodes, j), end)
    }
}

/// The text of a text node, or nothing.
pub open spec fn node_own_text(n: (XmlKindView, int)) -> Seq<char> {
    match n.0 {
        XmlKindView::Text(t) => t,
        _ => Seq::empty(),
    }
}

/// The texts of the text nodes from `j` up to `end`, concatenated.
pub open spec fn texts_between(nodes: Seq<(XmlKindView, int)>, j: int, end: int) -> Seq<char>
    decreases end - j,
{
    if j < 0 || j >= end || j >= nodes.len() {
        Seq::empty()
    } else {
        node_own_text(nodes[j]) + texts_between(nodes, j + 1, end)
    }
}

/// The text of node `i` and its descendants, whitespace-normalized.
pub open spec fn text_content(nodes: Seq<(XmlKindView, int)>, i: int) -> Seq<char> {
    normalize_spaces(texts_between(nodes, i, node_end(nodes, i)))
}

/// The text content of the first Atom child `name` of node `i`, or the
/// empty text.
pub open spec fn child_text(nodes: Seq<(XmlKindView, int)>, i: int, name: Seq<char>) -> Seq<char> {
    match first_child_named(nodes, ATOM_NS@, name, i + 1, node_end(nodes, i)) {
        Some(c) => text_content(nodes, c),
        None => Seq::empty(),
    }
}

/// The text of element `i`: its first child, when that is a text node.
pub open spec fn element_text(nodes: Seq<(XmlKindView, int)>, i: int) -> Option<Seq<char>> {
    if i + 1 < node_end(nodes, i) {
        match nodes[i + 1].0 {
            XmlKindView::Text(t) => Some(t),
            _ => None,
        }
    } else {
        None
    }
}

/// The result count that the feed announces: the number in the first
/// `opensearch:totalResults` element, or 0 when there is none or it does not
/// parse.
pub open spec fn total_of(nodes: Seq<(XmlKindView, int)>) -> usize {
    match first_named_from(nodes, OPENSEARCH_NS@, "totalResults"@, 0) {
        Some(k) => match element_text(nodes, k) {
            Some(t) => match parsed_usize(t) {
                Some(v) => v,
                None => 0,
            },
            None => 0,
        },
        None => 0,
    }
}

/// The result of node `k`: for an Atom `entry` with a non-empty title and
/// id, its title, its id (the paper's URL) and its summary.
pub open spec fn entry_at(nodes: Seq<(XmlKindView, int)>, k: int) -> Option<(Seq<char>, Seq<char>, Seq<char>)> {
    if is_named(nodes[k], ATOM_NS@, "entry"@) {
        let title = child_text(nodes, k, "title"@);
        let url = child_text(nodes, k, "id"@);
        if title.len() == 0 || url.len() == 0 {
            None
        } else {
            Some((title, url, child_text(nodes, k, "summary"@)))
        }
    } else {
        None
    }
}

/// The entries of the feed, one per node.
pub open spec fn feed_entries(nodes: Seq<(XmlKindView, int)>) -> Seq<Option<(Seq<char>, Seq<char>, Seq<char>)>> {
    Seq::new(nodes.len(), |k: int| entry_at(nodes, k))
}

/// The feed that the nodes describe, with results numbered from `offset + 1`.
pub open spec fn feed_of(nodes: Seq<(XmlKindView, int)>, offset: int) -> FeedView {
    FeedView { results: number_entries(feed_entries(nodes), offset), total_results: total_of(nodes) as int }
}

/// What `parse(xml, offset)` yields: nothing for a document that does not
/// parse; else the feed's results and total (no results when their numbers
/// would pass `usize::MAX`).
pub open spec fn feed_from_xml(xml: Seq<char>, offset: int) -> FeedView {
    match xml_document_nodes(xml) {
        None => FeedView { results: Seq::empty(), total_results: 0 },
        Some(nodes) => if offset + number_entries(feed_entries(nodes), offset).len() <= usize::MAX {
            feed_of(nodes, offset)
        } else {
            FeedView { results: Seq::empty(), total_results: total_of(nodes) as int }
        },
    }
}

fn named_at(node: &XmlNode, ns: &[char], name: &[char]) -> (r: bool)
    ensures
        r == is_named((crate::bindings::xml_kind_view(node.kind), node.span as int), ns@, name@),
{
    match &node.kind {
        XmlKind::Element(Some(x), y) => {
            let xc = chars_of(x.as_str());
            let yc = chars_of(y.as_str());
            chars_eq(xc.as_slice(), ns) && chars_eq(yc.as_slice(), name)
        },
        _ => false,
    }
}

fn end_at(nodes: &Vec<XmlNode>, i: usize) -> (r: usize)
    requires
        i < nodes@.len(),
    ensures
        r == node_end(xml_nodes_view(nodes@), i as int),
        i < r <= nodes@.len(),
{
    let n = nodes.len();
    let s = if nodes[i].span < 1 {
        1
    } else {
        nodes[i].span
    };
    if s > n - i {
        n
    } else {
        i + s
    }
}

fn first_named(nodes: &Vec<XmlNode>, ns: &[char], name: &[char]) -> (r: Option<usize>)
    ensures
        r matches Some(k) ==> first_named_from(xml_nodes_view(nodes@), ns@, name@, 0) == Some(
            k as int,
        ) && k < nodes@.len(),
        r is None ==> first_named_from(xml_nodes_view(nodes@), ns@, name@, 0) is None,
{
    let mut j: usize = 0;
    while j < nodes.len()
        invariant
            j <= nodes@.len(),
            first_named_from(xml_nodes_view(nodes@), ns@, name@, j as int) == first_named_from(
                xml_nodes_view(nodes@),
                ns@,
                name@,
                0,
            ),
        decreases nodes@.len() - j,
    {
        if named_at(&nodes[j], ns, name) {
            return Some(j);
        }
        j += 1;
    }
    None
}

fn first_child(nodes: &Vec<XmlNode>, name: &[char], from: usize, end: usize) -> (r: Option<usize>)
    requires
        end <= nodes@.len(),
    ensures
        r matches Some(k) ==> first_child_named(
            xml_nodes_view(nodes@),
            ATOM_NS@,
            name@,
            from as int,
            end as int,
        ) == Some(k as int) && k < nodes@.len(),
        r is None ==> first_child_named(xml_nodes_view(nodes@), ATOM_NS@, name@, from as int, end as int) is None,
{
    let ns = chars_of(ATOM_NS);
    let mut j = from;
    while j < end
        invariant
            end <= nodes@.len(),
            ns@ == ATOM_NS@,
            first_child_named(xml_nodes_view(nodes@), ATOM_NS@, name@, j as int, end as int)
                == first_child_named(xml_nodes_view(nodes@), ATOM_NS@, name@, from as int, end as int),
        decreases nodes@.len() - j,
    {
        if named_at(&nodes[j], ns.as_slice(), name) {
            return Some(j);
        }
        j = end_at(nodes, j);
    }
    None
}

fn text_content_at(nodes: &Vec<XmlNode>, i: usize) -> (r: Vec<char>)
    requires
        i < nodes@.len(),
    ensures
        r@ == text_content(xml_nodes_view(nodes@), i as int),
{
    let end = end_at(nodes, i);
    let ghost nv = xml_nodes_view(nodes@);
    let mut raw: Vec<char> = Vec::new();
    let mut j = i;
    while j < end
        invariant
            i <= j <= end <= nodes@.len(),
            nv == xml_nodes_view(nodes@),
            raw@ + texts_between(nv, j as int, end as int) == texts_between(nv, i as int, end as int),
        decreases end - j,
    {
        let ghost before = raw@;
        match &nodes[j].kind {
            XmlKind::Text(t) => {
                let tc = chars_of(t.as_str());
                append_chars(&mut raw, tc.as_slice());
            },
            _ => {},
        }
        assert(raw@ =~= before + node_own_text(nv[j as int]));
        assert(before + texts_between(nv, j as int, end as int) =~= raw@ + texts_between(
            nv,
            j + 1,
            end as int,
        ));
        j += 1;
    }
    assert(texts_between(nv, end as int, end as int) =~= Seq::<char>::empty());
    assert(raw@ + Seq::<char>::empty() =~= raw@);
    normalize_space_chars(raw.as_slice())
}

fn child_text_at(nodes: &Vec<XmlNode>, i: usize, name: &str) -> (r: Vec<char>)
    requires
        i < nodes@.len(),
    ensures
        r@ == child_text(xml_nodes_view(nodes@), i as int, name@),
{
    let end = end_at(nodes, i);
    let nm = chars_of(name);
    match first_child(nodes, nm.as_slice(), i + 1, end) {
        Some(c) => text_content_at(nodes, c),
        None => Vec::new(),
    }
}

/// The result count that the feed announces.
pub fn total_from_nodes(nodes: &Vec<XmlNode>) -> (r: usize)
    ensures
        r == total_of(xml_nodes_view(nodes@)),
{
    let ns = chars_of(OPENSEARCH_NS);
    let name = chars_of("totalResults");
    match first_named(nodes, ns.as_slice(), name.as_slice()) {
        Some(k) => {
            let end = end_at(nodes, k);
            if k + 1 < end {
                match &nodes[k + 1].kind {
                    XmlKind::Text(t) => {
                        let tc = chars_of(t.as_str());
                        match parse_usize(tc.as_slice()) {
                            Some(v) => v,
                            None => 0,
                        }
                    },
                    _ => 0,
                }
            } else {
                0
            }
        },
        None => 0,
    }
}

fn entry_of(nodes: &Vec<XmlNode>, k: usize) -> (r: Option<(Vec<char>, Vec<char>, Vec<char>)>)
    requires
        k < nodes@.len(),
    ensures
        crate::entry_view(r) == entry_at(xml_nodes_view(nodes@), k as int),
{
    let ns = chars_of(ATOM_NS);
    let name = chars_of("entry");
    if !named_at(&nodes[k], ns.as_slice(), name.as_slice()) {
        return None;
    }
    let title = child_text_at(nodes, k, "title");
    let summary = child_text_at(nodes, k, "summary");
    let url = child_text_at(nodes, k, "id");
    if title.len() == 0 || url.len() == 0 {
        return None;
    }
    Some((title, url, summary))
}

/// The result that each node yields, in order.
fn entries_from_nodes(nodes: &Vec<XmlNode>) -> (r: Vec<Option<(Vec<char>, Vec<char>, Vec<char>)>>)
    ensures
        entries_view(r@) == feed_entries(xml_nodes_view(nodes@)),
{
    let ghost nv = xml_nodes_view(nodes@);
    let mut entries: Vec<Option<(Vec<char>, Vec<char>, Vec<char>)>> = Vec::new();
    let mut k: usize = 0;
    while k < nodes.len()
        invariant
            k <= nodes@.len(),
            nv == xml_nodes_view(nodes@),
            entries_view(entries@) == feed_entries(nv).take(k as int),
        decreases nodes@.len() - k,
    {
        let e = entry_of(nodes, k);
        let ghost before = entries_view(entries@);
        entries.push(e);
        assert(entries_view(entries@) =~= before.push(crate::entry_view(e)));
        assert(feed_entries(nv).take(k + 1) =~= feed_entries(nv).take(k as int).push(
            entry_at(nv, k as int),
        ));
        k += 1;
    }
    assert(feed_entries(nv).take(nodes@.len() as int) =~= feed_entries(nv));
    entries
}

/// The feed that the document's nodes describe, with results numbered from
/// `offset + 1`.
pub fn feed_from_nodes(nodes: &Vec<XmlNode>, offset: usize) -> (r: ParsedFeed)
    requires
        offset + number_entries(feed_entries(xml_nodes_view(nodes@)), offset as int).len()
            <= usize::MAX,
    ensures
        r@ == feed_of(xml_nodes_view(nodes@), offset as int),
{
    let entries = entries_from_nodes(nodes);
    let results = number_all(&entries, offset);
    let total = total_from_nodes(nodes);
    let feed = ParsedFeed { results, total_results: total };
    assert(feed@ =~= feed_of(xml_nodes_view(nodes@), offset as int));
    feed
}

/// Parses an ArXiv Atom feed into results numbered from `offset + 1` and
/// the announced total.
pub fn parse(xml: &str, offset: usize) -> (r: ParsedFeed)
    ensures
        r@ == feed_from_xml(xml@, offset as int),
{
    match xml_nodes(xml) {
        None => {
            let feed = ParsedFeed { results: Vec::new(), total_results: 0 };
            assert(feed@ =~= feed_from_xml(xml@, offset as int));
            feed
        },
        Some(nodes) => {
            let entries = entries_from_nodes(&nodes);
            let count = count_present(&entries);
            proof {
                lemma_number_entries_len(feed_entries(xml_nodes_view(nodes@)), 0, offset as int);
            }
            let results = if count <= usize::MAX - offset {
                number_all(&entries, offset)
            } else {
                Vec::new()
            };
            let feed = ParsedFeed { results, total_results: total_from_nodes(&nodes) };
            assert(feed@ =~= feed_from_xml(xml@, offset as int));
            feed
        },
    }
}

/// Every ArXiv result comes from an Atom `entry` with a title and an id,
/// and the results are numbered `offset + 1`, `offset + 2`, ...
pub proof fn lemma_feed_sound(nodes: Seq<(XmlKindView, int)>, offset: int)
    ensures
        numbered_from(feed_of(nodes, offset).results, offset),
        forall|i: int|
            0 <= i < feed_of(nodes, offset).results.len() ==> (#[trigger] feed_of(nodes, offset).results[i]).title.len()
                > 0 && feed_of(nodes, offset).results[i].url.len() > 0,
{
    let entries = feed_entries(nodes);
    lemma_number_entries(entries, offset);
    lemma_number_entries_origin(entries, offset);
    let rs = feed_of(nodes, offset).results;
    assert forall|i: int| 0 <= i < rs.len() implies (#[trigger] rs[i]).title.len() > 0
        && rs[i].url.len() > 0 by {
        assert(comes_from(entries, rs[i]));
        let j = choose|j: int|
            0 <= j < entries.len() && #[trigger] entries[j] == Some(
                (rs[i].title, rs[i].url, rs[i].abstract_text),
            );
        assert(entries[j] == entry_at(nodes, j));
    }
}

/// A document that does not parse yields no results and a zero total.
pub proof fn lemma_unparsable_feed_empty(xml: Seq<char>)
    requires
        xml_document_nodes(xml) is None,
    ensures
        feed_from_xml(xml, 0).results.len() == 0,
        feed_from_xml(xml, 0).total_results == 0,
{
}

} // verus!
