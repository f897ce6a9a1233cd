//! Calls into the outside crates that compute on plain values, each with
//! the contract that this library relies on.

use vstd::prelude::*;

verus! {

// ---------------------------------------------------------------------------
// html_escape
// ---------------------------------------------------------------------------

/// What `html_escape::decode_html_entities` returns for `text`.
pub uninterp spec fn html_entities_decoded(text: Seq<char>) -> Seq<char>;

/// Decodes the HTML character references in `text` with
/// `html_escape::decode_html_entities`. Claimed: the result is the named
/// value for `text`, and it is `text` itself when `text` holds no `&` (the
/// crate's search for a reference starts at an `&` and returns the input
/// untouched when there is none).
#[verifier::external_body]
pub(crate) fn html_decode(text: &str) -> (r: String)
    ensures
        r@ == html_entities_decoded(text@),
        !text@.contains('&') ==> r@ == text@,
{
    html_escape::decode_html_entities(text).into_owned()
}

// ---------------------------------------------------------------------------
// url::form_urlencoded
// ---------------------------------------------------------------------------

/// The name/value pairs that `url::form_urlencoded::parse` yields for the
/// UTF-8 bytes of `input`.
pub uninterp spec fn form_urlencoded_pairs(input: Seq<char>) -> Seq<(Seq<char>, Seq<char>)>;

/// The views of a vector of string pairs.
pub open spec fn pairs_view(v: Seq<(String, String)>) -> Seq<(Seq<char>, Seq<char>)> {
    v.map_values(|p: (String, String)| (p.0@, p.1@))
}

/// Splits `input` into percent-decoded name/value pairs with
/// `url::form_urlencoded::parse`. Claimed: the pairs are the named value for
/// `input`, in the order the crate yields them.
#[verifier::external_body]
pub(crate) fn form_pairs(input: &str) -> (r: Vec<(String, String)>)
    ensures
        pairs_view(r@) == form_urlencoded_pairs(input@),
{
    url::form_urlencoded::parse(input.as_bytes()).map(|(k, v)| (k.into_owned(), v.into_owned())).collect()
}


// ---------------------------------------------------------------------------
// reqwest
// ---------------------------------------------------------------------------

/// The error of a failed HTTP request; carried through unchanged.
#[verifier::external_type_specification]
#[verifier::external_body]
pub struct ExReqwestError(reqwest::Error);

// ---------------------------------------------------------------------------
// scraper
// ---------------------------------------------------------------------------

/// An element that a CSS selector found: the value of the requested
/// attribute, when the element has it, and the element's text (all its
/// descendant text, concatenated in document order).
#[derive(Debug)]
pub struct Scraped {
    pub attr: Option<String>,
    pub text: String,
}

/// The value of a [`Scraped`] element: attribute value and text.
pub open spec fn scraped_view(e: Scraped) -> (Option<Seq<char>>, Seq<char>) {
    (
        match e.attr {
            Some(a) => Some(a@),
            None => None,
        },
        e.text@,
    )
}

/// The value of an optional [`Scraped`] element.
pub open spec fn scraped_opt_view(e: Option<Scraped>) -> Option<(Option<Seq<char>>, Seq<char>)> {
    match e {
        Some(x) => Some(scraped_view(x)),
        None => None,
    }
}

/// The values of a sequence of found elements.
pub open spec fn scraped_seq_view(v: Seq<Scraped>) -> Seq<(Option<Seq<char>>, Seq<char>)> {
    v.map_values(|e: Scraped| scraped_view(e))
}

/// The values of a sequence of found element pairs.
pub open spec fn scraped_pairs_view(v: Seq<(Option<Scraped>, Option<Scraped>)>) -> Seq<
    (Option<(Option<Seq<char>>, Seq<char>)>, Option<(Option<Seq<char>>, Seq<char>)>),
> {
    v.map_values(
        |p: (Option<Scraped>, Option<Scraped>)| (scraped_opt_view(p.0), scraped_opt_view(p.1)),
    )
}

/// What scraper finds in the document `html` for `selector`: each matching
/// element in document order, as the value of its attribute `attr` and its
/// text.
pub uninterp spec fn html_select(html: Seq<char>, selector: Seq<char>, attr: Seq<char>) -> Seq<
    (Option<Seq<char>>, Seq<char>),
>;

/// What scraper finds in the document `html` for the selector `outer` and,
/// inside each match, the first descendant matching `first` and the first
/// matching `second`, each as the value of its attribute `attr` and its text.
pub uninterp spec fn html_select_within(
    html: Seq<char>,
    outer: Seq<char>,
    first: Seq<char>,
    second: Seq<char>,
    attr: Seq<char>,
) -> Seq<(Option<(Option<Seq<char>>, Seq<char>)>, Option<(Option<Seq<char>>, Seq<char>)>)>;

/// Parses `html` with `scraper::Html::parse_document` and collects the
/// elements that `scraper::Html::select` yields for `selector`, reading each
/// with `scraper::node::Element::attr` and `scraper::ElementRef::text`.
/// Claimed: the result is the named value for the three arguments. A
/// selector that `scraper::Selector::parse` rejects yields no elements.
#[verifier::external_body]
pub(crate) fn select_in_page(html: &str, selector: &str, attr: &str) -> (r: Vec<Scraped>)
    ensures
        scraped_seq_view(r@) == html_select(html@, selector@, attr@),
{
    let doc = scraper::Html::parse_document(html);
    let sel = match scraper::Selector::parse(selector) {
        Ok(s) => s,
        Err(_) => return Vec::new(),
    };
    doc.select(&sel).map(|e| Scraped { attr: e.value().attr(attr).map(String::from), text: e.text().collect() }).collect()
}

/// Parses `html` with `scraper::Html::parse_document`; for each element that
/// `scraper::Html::select` yields for `outer`, takes the first element that
/// `scraper::ElementRef::select` yields inside it for `first` and for
/// `second`, read as in [`select_in_page`]. Claimed: the result is the named
/// value for the five arguments. A selector that `scraper::Selector::parse`
/// rejects yields no elements.
#[verifier::external_body]
pub(crate) fn select_in_page_within(html: &str, outer: &str, first: &str, second: &str, attr: &str) -> (r: Vec<(Option<Scraped>, Option<Scraped>)>)
    ensures
        scraped_pairs_view(r@) == html_select_within(html@, outer@, first@, second@, attr@),
{
    let doc = scraper::Html::parse_document(html);
    let (o, a, b) = match (scraper::Selector::parse(outer), scraper::Selector::parse(first), scraper::Selector::parse(second)) {
        (Ok(o), Ok(a), Ok(b)) => (o, a, b),
        _ => return Vec::new(),
    };
    let read = |e: scraper::ElementRef| Scraped { attr: e.value().attr(attr).map(String::from), text: e.text().collect() };
    doc.select(&o).map(|e| (e.select(&a).next().map(read), e.select(&b).next().map(read))).collect()
}

// ---------------------------------------------------------------------------
// roxmltree
// ---------------------------------------------------------------------------

/// What an XML node is: an element with its namespace and local name, a
/// text node with its text, or anything else (root, comment, processing
/// instruction).
#[derive(Debug)]
pub enum XmlKind {
    Element(Option<String>, String),
    Text(String),
    Other,
}

/// One node of an XML document in document order, with the number of nodes
/// in its subtree (itself included).
#[derive(Debug)]
pub struct XmlNode {
    pub kind: XmlKind,
    pub span: usize,
}

/// The value of an [`XmlKind`].
pub enum XmlKindView {
    Element(Option<Seq<char>>, Seq<char>),
    Text(Seq<char>),
    Other,
}

pub open spec fn xml_kind_view(k: XmlKind) -> XmlKindView {
    match k {
        XmlKind::Element(ns, name) => XmlKindView::Element(
            match ns {
                Some(n) => Some(n@),
                None => None,
            },
            name@,
        ),
        XmlKind::Text(t) => XmlKindView::Text(t@),
        XmlKind::Other => XmlKindView::Other,
    }
}

/// The values of a sequence of XML nodes.
pub open spec fn xml_nodes_view(v: Seq<XmlNode>) -> Seq<(XmlKindView, int)> {
    v.map_values(|n: XmlNode| (xml_kind_view(n.kind), n.span as int))
}

/// The nodes of the document that roxmltree parses from `xml`, in document
/// order, or `None` when it rejects `xml`.
pub uninterp spec fn xml_document_nodes(xml: Seq<char>) -> Option<Seq<(XmlKindView, int)>>;

/// Parses `xml` with `roxmltree::Document::parse` and lists the nodes that
/// `roxmltree::Document::descendants` yields, each with its kind
/// (`roxmltree::Node::node_type`, `tag_name`, `text`) and the count of its own
/// `descendants`. Claimed: the result is the named value for `xml`.
#[verifier::external_body]
pub(crate) fn xml_nodes(xml: &str) -> (r: Option<Vec<XmlNode>>)
    ensures
        match r {
            Some(v) => xml_document_nodes(xml@) == Some(xml_nodes_view(v@)),
            None => xml_document_nodes(xml@) is None,
        },
{
    let doc = match roxmltree::Document::parse(xml) {
        Ok(d) => d,
        Err(_) => return None,
    };
    Some(doc.descendants().map(|n| XmlNode {
        kind: match n.node_type() {
            roxmltree::NodeType::Element => XmlKind::Element(n.tag_name().namespace().map(String::from), n.tag_name().name().to_string()),
            roxmltree::NodeType::Text => XmlKind::Text(n.text().unwrap_or_default().to_string()),
            _ => XmlKind::Other,
        },
        span: n.descendants().count(),
    }).collect())
}

} // verus!
