//! A hand-written parser for DuckDuckGo's lite results page.
//!
//! A small tokenizer splits the page into opening tags, closing tags and
//! text; a state machine follows the page's nesting with a stack of
//! annotations per tag name and moves between scopes (root, result, title,
//! title link, file type, abstract, pagination form) as it enters and leaves
//! the regions of interest.

use vstd::prelude::*;

use crate::bindings::{form_pairs, form_urlencoded_pairs, html_decode, html_entities_decoded};
use crate::text::{
    append_chars, ascii_lower, back_spaces, char_is_space, chars_eq, chars_of, find_chars, find_from, first_word,
    first_word_of, has_prefix, is_space, join, join_chars, lemma_find_from, lemma_skip_spaces,
    lemma_skip_word, seqs_of, skip_spaces, skip_spaces_at, skip_word, skip_word_at, slice_chars,
    split_words, starts_with, string_of, to_ascii_lower, trim, trim_chars, words,
};
use crate::{results_view, ResultView, SearchResult};

verus! {

// ---------------------------------------------------------------------------
// Entity and URL decoding
// ---------------------------------------------------------------------------

/// Decodes HTML character and numeric references. Text without an `&`
/// holds no reference and comes back unchanged.
pub fn decode_entities(text: &str) -> (r: String)
    ensures
        r@ == html_entities_decoded(text@),
        !text@.contains('&') ==> r@ == text@,
{
    html_decode(text)
}

/// `decode_entities` on a character sequence.
fn decode_chars(text: &[char]) -> (r: Vec<char>)
    ensures
        r@ == html_entities_decoded(text@),
{
    let s = string_of(text);
    let d = html_decode(s.as_str());
    chars_of(d.as_str())
}

/// One decoded form pair as text: the name alone when the value is empty,
/// else `name=value`.
pub open spec fn pair_text(p: (Seq<char>, Seq<char>)) -> Seq<char> {
    if p.1.len() == 0 {
        p.0
    } else {
        p.0 + seq!['='] + p.1
    }
}

/// The form-decoded text of `s`: its decoded pairs, joined by `&`.
pub open spec fn url_decoded(s: Seq<char>) -> Seq<char> {
    join(form_urlencoded_pairs(s).map_values(|p: (Seq<char>, Seq<char>)| pair_text(p)), seq!['&'])
}

/// Percent-decodes a form-encoded string.
pub fn url_decode(s: &str) -> (r: String)
    ensures
        r@ == url_decoded(s@),
{
    let pairs = form_pairs(s);
    let mut parts: Vec<Vec<char>> = Vec::new();
    let mut i: usize = 0;
    while i < pairs.len()
        invariant
            i <= pairs@.len(),
            seqs_of(parts@) == form_urlencoded_pairs(s@).map_values(
                |p: (Seq<char>, Seq<char>)| pair_text(p),
            ).take(i as int),
            crate::bindings::pairs_view(pairs@) == form_urlencoded_pairs(s@),
        decreases pairs@.len() - i,
    {
        let k = chars_of(pairs[i].0.as_str());
        let v = chars_of(pairs[i].1.as_str());
        let mut t = k;
        if v.len() > 0 {
            t.push('=');
            append_chars(&mut t, v.as_slice());
        }
        proof {
            let ps = form_urlencoded_pairs(s@);
            assert(ps[i as int] == (pairs@[i as int].0@, pairs@[i as int].1@));
            if v@.len() > 0 {
                assert(t@ =~= ps[i as int].0 + seq!['='] + ps[i as int].1);
            }
        }
        let ghost before = seqs_of(parts@);
        parts.push(t);
        assert(seqs_of(parts@) =~= before.push(t@));
        assert(form_urlencoded_pairs(s@).map_values(|p: (Seq<char>, Seq<char>)| pair_text(p)).take(
            i + 1,
        ) =~= before.push(t@));
        i += 1;
    }
    assert(form_urlencoded_pairs(s@).map_values(|p: (Seq<char>, Seq<char>)| pair_text(p)).take(
        pairs@.len() as int,
    ) =~= form_urlencoded_pairs(s@).map_values(|p: (Seq<char>, Seq<char>)| pair_text(p)));
    let amp = vec!['&'];
    assert(amp@ =~= seq!['&']);
    let joined = join_chars(&parts, amp.as_slice());
    string_of(joined.as_slice())
}

/// The first position at or after `i` holding `c`.
pub open spec fn char_pos_from(s: Seq<char>, c: char, i: int) -> Option<int>
    decreases s.len() - i,
{
    if i < 0 || i >= s.len() {
        None
    } else if s[i] == c {
        Some(i)
    } else {
        char_pos_from(s, c, i + 1)
    }
}

pub proof fn lemma_char_pos_from(s: Seq<char>, c: char, i: int)
    requires
        0 <= i,
    ensures
        char_pos_from(s, c, i) matches Some(k) ==> i <= k < s.len() && s[k] == c && forall|m: int|
            i <= m < k ==> s[m] != c,
        char_pos_from(s, c, i) is None ==> forall|m: int| i <= m < s.len() ==> s[m] != c,
    decreases s.len() - i,
{
    if i < s.len() && s[i] != c {
        lemma_char_pos_from(s, c, i + 1);
    }
}

/// Finds `needle` in `haystack` starting at position `from`.
pub fn memchr_from(needle: char, haystack: &[char], from: usize) -> (r: Option<usize>)
    ensures
        r matches Some(k) ==> char_pos_from(haystack@, needle, from as int) == Some(k as int),
        r is None ==> char_pos_from(haystack@, needle, from as int) is None,
{
    let mut i = from;
    while i < haystack.len()
        invariant
            from <= i,
            char_pos_from(haystack@, needle, i as int) == char_pos_from(
                haystack@,
                needle,
                from as int,
            ),
        decreases haystack@.len() - i,
    {
        if haystack[i] == needle {
            return Some(i);
        }
        i += 1;
    }
    None
}

/// The marker that DuckDuckGo puts before a wrapped destination URL.
pub open spec fn uddg_marker() -> Seq<char> {
    seq!['u', 'd', 'd', 'g', '=']
}

/// `href` with DuckDuckGo's redirect unwrapped: the form-decoded text
/// between the first `uddg=` and the next `&` (or the end), or `href`
/// unchanged when it holds no `uddg=`.
pub open spec fn cleaned_url(href: Seq<char>) -> Seq<char> {
    match find_from(href, uddg_marker(), 0) {
        Some(pos) => {
            let start = pos + 5;
            let end = match char_pos_from(href, '&', start) {
                Some(e) => e,
                None => href.len() as int,
            };
            url_decoded(href.subrange(start, end))
        },
        None => href,
    }
}

/// Unwraps DuckDuckGo's tracking redirect (`//duckduckgo.com/l/?uddg=<url>&rut=...`).
pub fn clean_url(href: &str) -> (r: String)
    ensures
        r@ == cleaned_url(href@),
{
    let h = chars_of(href);
    let marker = vec!['u', 'd', 'd', 'g', '='];
    assert(marker@ =~= uddg_marker());
    match find_chars(h.as_slice(), marker.as_slice(), 0) {
        Some(pos) => {
            proof {
                lemma_find_from(h@, uddg_marker(), 0);
            }
            let n = h.len();
            assert(pos + 5 <= n);
            let start = pos + 5;
            let end = match memchr_from('&', h.as_slice(), start) {
                Some(e) => e,
                None => h.len(),
            };
            proof {
                lemma_char_pos_from(h@, '&', start as int);
            }
            let part = slice_chars(h.as_slice(), start, end);
            let part_s = string_of(part.as_slice());
            url_decode(part_s.as_str())
        },
        None => string_of(h.as_slice()),
    }
}


// ---------------------------------------------------------------------------
// Tag attributes
// ---------------------------------------------------------------------------

/// The attributes of one tag, as the list of name/value pairs in the order
/// they were read. The list may hold a name more than once: every pair is kept,
/// and a lookup sees the value of the last pair with that name, so reading the
/// tag gives what inserting each pair into a map in turn would give.
pub struct Attrs {
    entries: Vec<(Vec<char>, Vec<char>)>,
}

/// The values of a sequence of name/value pairs of characters.
pub open spec fn attr_entries_view(v: Seq<(Vec<char>, Vec<char>)>) -> Seq<(Seq<char>, Seq<char>)> {
    v.map_values(|e: (Vec<char>, Vec<char>)| (e.0@, e.1@))
}

impl View for Attrs {
    type V = Seq<(Seq<char>, Seq<char>)>;

    closed spec fn view(&self) -> Seq<(Seq<char>, Seq<char>)> {
        attr_entries_view(self.entries@)
    }
}

/// The value most recently given to `name` in `entries`.
pub open spec fn attr_lookup(entries: Seq<(Seq<char>, Seq<char>)>, name: Seq<char>) -> Option<Seq<char>>
    decreases entries.len(),
{
    if entries.len() == 0 {
        None
    } else if entries.last().0 == name {
        Some(entries.last().1)
    } else {
        attr_lookup(entries.drop_last(), name)
    }
}

/// The value of `name`, or the empty text when it is absent.
pub open spec fn attr_or_empty(entries: Seq<(Seq<char>, Seq<char>)>, name: Seq<char>) -> Seq<char> {
    match attr_lookup(entries, name) {
        Some(v) => v,
        None => Seq::empty(),
    }
}

/// The whitespace-separated classes of a tag.
pub open spec fn class_list(entries: Seq<(Seq<char>, Seq<char>)>) -> Seq<Seq<char>> {
    words(attr_or_empty(entries, "class"@))
}

impl Attrs {
    /// No attributes.
    pub fn new() -> (r: Attrs)
        ensures
            r@ == Seq::<(Seq<char>, Seq<char>)>::empty(),
    {
        let r = Attrs { entries: Vec::new() };
        assert(r@ =~= Seq::<(Seq<char>, Seq<char>)>::empty());
        r
    }

    /// Sets `name` to `value`.
    pub fn insert(&mut self, name: Vec<char>, value: Vec<char>)
        ensures
            final(self)@ == old(self)@.push((name@, value@)),
    {
        let ghost before = self.entries@;
        self.entries.push((name, value));
        assert(attr_entries_view(self.entries@) =~= attr_entries_view(before).push((name@, value@)));
    }

    /// Whether no attribute was read.
    pub fn is_empty(&self) -> (r: bool)
        ensures
            r == (self@.len() == 0),
    {
        self.entries.len() == 0
    }

    /// The value of the attribute `name`, as characters.
    pub fn lookup(&self, name: &[char]) -> (r: Option<Vec<char>>)
        ensures
            r matches Some(v) ==> attr_lookup(self@, name@) == Some(v@),
            r is None ==> attr_lookup(self@, name@) is None,
    {
        let mut i = self.entries.len();
        assert(self@.take(i as int) =~= self@);
        while i > 0
            invariant
                i <= self.entries@.len(),
                attr_lookup(self@, name@) == attr_lookup(self@.take(i as int), name@),
            decreases i,
        {
            let ghost pre = self@.take(i as int);
            assert(pre.drop_last() =~= self@.take(i - 1));
            assert(pre.last() == (self.entries@[i - 1].0@, self.entries@[i - 1].1@));
            if chars_eq(self.entries[i - 1].0.as_slice(), name) {
                return Some(slice_chars(self.entries[i - 1].1.as_slice(), 0, self.entries[i - 1].1.len()));
            }
            i -= 1;
        }
        None
    }

    /// The value of the attribute `name`.
    pub fn get(&self, name: &str) -> (r: Option<String>)
        ensures
            r matches Some(v) ==> attr_lookup(self@, name@) == Some(v@),
            r is None ==> attr_lookup(self@, name@) is None,
    {
        let n = chars_of(name);
        match self.lookup(n.as_slice()) {
            Some(v) => Some(string_of(v.as_slice())),
            None => None,
        }
    }
}

/// The end of an attribute name that starts at `i`: the first `=`,
/// whitespace, or the end of `s`.
pub open spec fn name_end(s: Seq<char>, i: int) -> int
    decreases s.len() - i,
{
    if 0 <= i < s.len() && s[i] != '=' && !is_space(s[i]) {
        name_end(s, i + 1)
    } else {
        i
    }
}

pub proof fn lemma_name_end(s: Seq<char>, i: int)
    requires
        0 <= i <= s.len(),
    ensures
        i <= name_end(s, i) <= s.len(),
        i < s.len() && s[i] != '=' && !is_space(s[i]) ==> i < name_end(s, i),
    decreases s.len() - i,
{
    if i < s.len() && s[i] != '=' && !is_space(s[i]) {
        lemma_name_end(s, i + 1);
    }
}

/// The end of a quoted attribute value that starts at `i`: the closing
/// quote `q`, or the end of `s`.
pub open spec fn quote_end(s: Seq<char>, q: char, i: int) -> int {
    match char_pos_from(s, q, i) {
        Some(e) => e,
        None => s.len() as int,
    }
}

/// The attributes written in `s` from position `i` on: names are
/// lowercased, values are entity-decoded, a name without `=` gets the empty
/// value, and a value is quoted by `"` or `'` or runs to the next whitespace.
pub open spec fn attrs_from(s: Seq<char>, i: int) -> Seq<(Seq<char>, Seq<char>)>
    decreases s.len() - i,
{
    if i < 0 || i >= s.len() {
        Seq::empty()
    } else {
        let a = skip_spaces(s, i);
        if a >= s.len() {
            Seq::empty()
        } else {
            let b = name_end(s, a);
            let name = ascii_lower(s.subrange(a, b));
            let c = skip_spaces(s, b);
            proof {
                lemma_skip_spaces(s, i);
                lemma_name_end(s, a);
                lemma_skip_spaces(s, b);
            }
            if c < s.len() && s[c] == '=' {
                let d = skip_spaces(s, c + 1);
                proof {
                    lemma_skip_spaces(s, c + 1);
                }
                if d < s.len() && (s[d] == '"' || s[d] == '\'') {
                    let e = quote_end(s, s[d], d + 1);
                    proof {
                        lemma_char_pos_from(s, s[d], d + 1);
                    }
                    let next = if e < s.len() {
                        e + 1
                    } else {
                        e
                    };
                    seq![(name, html_entities_decoded(s.subrange(d + 1, e)))] + attrs_from(s, next)
                } else {
                    let e = skip_word(s, d);
                    proof {
                        lemma_skip_word(s, d);
                    }
                    seq![(name, html_entities_decoded(s.subrange(d, e)))] + attrs_from(s, e)
                }
            } else {
                seq![(name, Seq::empty())] + attrs_from(s, c)
            }
        }
    }
}

/// Reads the attributes written in `input` into `attrs`.
pub fn parse_attrs(input: &[char], attrs: &mut Attrs)
    ensures
        final(attrs)@ == old(attrs)@ + attrs_from(input@, 0),
{
    let s = input;
    let len = s.len();
    let mut i: usize = 0;
    while i < len
        invariant
            len == s@.len(),
            i <= len,
            attrs@ + attrs_from(s@, i as int) == old(attrs)@ + attrs_from(s@, 0),
        decreases len - i,
    {
        let ghost gi = i as int;
        let ghost before = attrs@;
        let a = skip_spaces_at(s, i);
        proof {
            lemma_skip_spaces(s@, gi);
        }
        if a >= len {
            assert(attrs_from(s@, gi) =~= Seq::<(Seq<char>, Seq<char>)>::empty());
            assert(attrs_from(s@, len as int) =~= Seq::<(Seq<char>, Seq<char>)>::empty());
            i = len;
            continue;
        }
        let mut b = a;
        while b < len && s[b] != '=' && !char_is_space(s[b])
            invariant
                len == s@.len(),
                a <= b <= len,
                name_end(s@, b as int) == name_end(s@, a as int),
            decreases len - b,
        {
            b += 1;
        }
        proof {
            lemma_name_end(s@, a as int);
        }
        let raw_name = slice_chars(s, a, b);
        let name = to_ascii_lower(raw_name.as_slice());
        let c = skip_spaces_at(s, b);
        proof {
            lemma_skip_spaces(s@, b as int);
        }
        if c < len && s[c] == '=' {
            let d = skip_spaces_at(s, c + 1);
            proof {
                lemma_skip_spaces(s@, c + 1);
            }
            if d < len && (s[d] == '"' || s[d] == '\'') {
                let q = s[d];
                let e = match memchr_from(q, s, d + 1) {
                    Some(e) => e,
                    None => len,
                };
                proof {
                    lemma_char_pos_from(s@, q, d + 1);
                }
                let raw = slice_chars(s, d + 1, e);
                let value = decode_chars(raw.as_slice());
                let next = if e < len {
                    e + 1
                } else {
                    e
                };
                attrs.insert(name, value);
                assert(attrs_from(s@, gi) =~= seq![(ascii_lower(s@.subrange(a as int, b as int)), html_entities_decoded(s@.subrange(d + 1, e as int)))] + attrs_from(s@, next as int));
                assert(attrs@ + attrs_from(s@, next as int) =~= before + attrs_from(s@, gi));
                i = next;
            } else {
                let e = skip_word_at(s, d);
                proof {
                    lemma_skip_word(s@, d as int);
                }
                let raw = slice_chars(s, d, e);
                let value = decode_chars(raw.as_slice());
                attrs.insert(name, value);
                assert(attrs_from(s@, gi) =~= seq![(ascii_lower(s@.subrange(a as int, b as int)), html_entities_decoded(s@.subrange(d as int, e as int)))] + attrs_from(s@, e as int));
                assert(attrs@ + attrs_from(s@, e as int) =~= before + attrs_from(s@, gi));
                i = e;
            }
        } else {
            attrs.insert(name, Vec::new());
            assert(attrs_from(s@, gi) =~= seq![(ascii_lower(s@.subrange(a as int, b as int)), Seq::<char>::empty())] + attrs_from(s@, c as int));
            assert(attrs@ + attrs_from(s@, c as int) =~= before + attrs_from(s@, gi));
            i = c;
        }
    }
    assert(attrs_from(s@, len as int) =~= Seq::<(Seq<char>, Seq<char>)>::empty());
    assert(attrs@ + Seq::<(Seq<char>, Seq<char>)>::empty() =~= attrs@);
}

/// The tag name (lowercased) and the attributes of a tag body such as
/// `div class="foo" id="bar"`.
pub open spec fn parsed_tag(raw: Seq<char>) -> (Seq<char>, Seq<(Seq<char>, Seq<char>)>) {
    let r = trim(raw);
    let p = skip_word(r, 0);
    let name = if p < r.len() {
        r.take(p)
    } else {
        r
    };
    let rest = if p < r.len() {
        r.skip(p + 1)
    } else {
        Seq::empty()
    };
    let rest = trim(rest);
    (ascii_lower(name), if rest.len() > 0 {
        attrs_from(rest, 0)
    } else {
        Seq::empty()
    })
}

/// Whether a tag body can be split after its name without failing: the
/// whitespace that ends the tag name, if any, is a one-byte character, so the
/// attributes start on a character boundary.
pub open spec fn tag_splits_cleanly(raw: Seq<char>) -> bool {
    let r = trim(raw);
    let p = skip_word(r, 0);
    p < r.len() ==> (r[p] as u32) < 0x80
}

/// Splits a tag body into its lowercased name and its attributes.
pub fn parse_tag_chars(raw: &[char]) -> (r: (Vec<char>, Attrs))
    requires
        tag_splits_cleanly(raw@),
    ensures
        r.0@ == parsed_tag(raw@).0,
        r.1@ == parsed_tag(raw@).1,
{
    let r = trim_chars(raw);
    let p = skip_word_at(r.as_slice(), 0);
    proof {
        lemma_skip_word(r@, 0);
    }
    let (name, rest) = if p < r.len() {
        (slice_chars(r.as_slice(), 0, p), slice_chars(r.as_slice(), p + 1, r.len()))
    } else {
        (slice_chars(r.as_slice(), 0, r.len()), Vec::new())
    };
    assert(p < r@.len() ==> name@ =~= r@.take(p as int) && rest@ =~= r@.skip(p + 1));
    assert(p >= r@.len() ==> name@ =~= r@);
    let name = to_ascii_lower(name.as_slice());
    let rest = trim_chars(rest.as_slice());
    let mut attrs = Attrs::new();
    if rest.len() > 0 {
        parse_attrs(rest.as_slice(), &mut attrs);
        assert(attrs@ =~= attrs_from(rest@, 0));
    }
    (name, attrs)
}

/// Splits a tag body like `div class="foo" id="bar"` into its lowercased
/// name and its attributes.
pub fn parse_tag(raw: &str) -> (r: (String, Attrs))
    requires
        tag_splits_cleanly(raw@),
    ensures
        r.0@ == parsed_tag(raw@).0,
        r.1@ == parsed_tag(raw@).1,
{
    let cs = chars_of(raw);
    let (name, attrs) = parse_tag_chars(cs.as_slice());
    (string_of(name.as_slice()), attrs)
}

/// The classes of a tag: its `class` attribute split at whitespace.
pub fn get_classes(attrs: &Attrs) -> (r: Vec<Vec<char>>)
    ensures
        seqs_of(r@) == class_list(attrs@),
{
    let name = chars_of("class");
    match attrs.lookup(name.as_slice()) {
        Some(v) => split_words(v.as_slice()),
        None => {
            let r: Vec<Vec<char>> = Vec::new();
            assert(words(Seq::<char>::empty()) =~= Seq::<Seq<char>>::empty());
            assert(seqs_of(r@) =~= Seq::<Seq<char>>::empty());
            r
        },
    }
}

/// Whether `w` is one of `words`.
pub fn has_word(ws: &Vec<Vec<char>>, w: &str) -> (r: bool)
    ensures
        r == seqs_of(ws@).contains(w@),
{
    let wc = chars_of(w);
    let mut i: usize = 0;
    while i < ws.len()
        invariant
            i <= ws@.len(),
            wc@ == w@,
            forall|m: int| 0 <= m < i ==> seqs_of(ws@)[m] != w@,
        decreases ws@.len() - i,
    {
        if chars_eq(ws[i].as_slice(), wc.as_slice()) {
            assert(seqs_of(ws@)[i as int] == w@);
            return true;
        }
        i += 1;
    }
    false
}


// ---------------------------------------------------------------------------
// Parser state
// ---------------------------------------------------------------------------

/// The region of the page the parser is in.
#[derive(Debug, Clone, Copy, PartialEq, Eq, Structural)]
pub enum Scope {
    Root,
    Result,
    Title,
    TitleLink,
    TitleFiletype,
    Abstract,
    Input,
}

/// What an opening tag started; popped again by the matching closing tag.
#[derive(Debug, Clone, Copy, PartialEq, Eq, Structural)]
pub enum Annotation {
    Unmarked,
    ClickResult,
    Result,
    Title,
    TitleLink,
    TitleFiletype,
    Abstract,
    Input,
}

/// The mathematical state of a [`DdgParser`].
#[verifier::ext_equal]
///
/// The annotations form one stack per tag name; they are kept as a single
/// sequence of `(tag, annotation)` entries, where the stack of a tag is the
/// subsequence of its entries: a push appends, a pop removes the last entry
/// of that tag.
pub struct ParserModel {
    pub scope: Scope,
    pub annotations: Seq<(Seq<char>, Annotation)>,
    pub textbuf: Seq<char>,
    pub recording: bool,
    pub current_title: Seq<char>,
    pub current_url: Seq<char>,
    pub current_abstract: Seq<char>,
    pub current_filetype: Seq<char>,
    pub np_prev: Seq<char>,
    pub np_next: Seq<char>,
    pub np_found: bool,
    pub vqd: Seq<char>,
    pub click_result: Seq<char>,
    pub results: Seq<ResultView>,
    pub index_offset: int,
    pub is_blocked: bool,
}

/// The position of the last entry for `tag`, or -1 when there is none.
pub open spec fn last_tag_index(entries: Seq<(Seq<char>, Annotation)>, tag: Seq<char>) -> int
    decreases entries.len(),
{
    if entries.len() == 0 {
        -1
    } else if entries.last().0 == tag {
        entries.len() - 1
    } else {
        last_tag_index(entries.drop_last(), tag)
    }
}

pub proof fn lemma_last_tag_index(entries: Seq<(Seq<char>, Annotation)>, tag: Seq<char>)
    ensures
        -1 <= last_tag_index(entries, tag) < entries.len(),
        last_tag_index(entries, tag) >= 0 ==> entries[last_tag_index(entries, tag)].0 == tag,
        forall|m: int|
            last_tag_index(entries, tag) < m < entries.len() ==> #[trigger] entries[m].0 != tag,
    decreases entries.len(),
{
    if entries.len() > 0 && entries.last().0 != tag {
        lemma_last_tag_index(entries.drop_last(), tag);
        assert forall|m: int| last_tag_index(entries, tag) < m < entries.len() implies #[trigger] entries[m].0 != tag by {
            if m < entries.len() - 1 {
                assert(entries.drop_last()[m] == entries[m]);
            }
        }
    }
}

/// The label `[ft]` that marks a title's file type.
pub open spec fn bracketed(ft: Seq<char>) -> Seq<char> {
    seq!['['] + ft + seq![']']
}

/// The title made from the file-type label `ft` and the link text `text`:
/// the text alone without a label, else label, space and text; when the
/// text is empty this gives label, space, and the trimmed `label `.
pub open spec fn titled(ft: Seq<char>, text: Seq<char>) -> Seq<char> {
    if ft.len() == 0 {
        text
    } else {
        let t = ft + seq![' '] + text;
        if t == ft + seq![' '] {
            ft + seq![' '] + trim(t)
        } else {
            t
        }
    }
}

impl ParserModel {
    pub open spec fn push_annotation(self, tag: Seq<char>, ann: Annotation) -> ParserModel {
        ParserModel { annotations: self.annotations.push((tag, ann)), ..self }
    }

    /// Pops the last annotation pushed for `tag`; `Unmarked` when there is none.
    pub open spec fn pop_annotation(self, tag: Seq<char>) -> (ParserModel, Annotation) {
        let k = last_tag_index(self.annotations, tag);
        if k < 0 {
            (self, Annotation::Unmarked)
        } else {
            (ParserModel { annotations: self.annotations.remove(k), ..self }, self.annotations[k].1)
        }
    }

    /// Stops recording and takes the trimmed text buffer, leaving it empty.
    pub open spec fn take_text(self) -> (ParserModel, Seq<char>) {
        (ParserModel { recording: false, textbuf: Seq::empty(), ..self }, trim(self.textbuf))
    }

    pub open spec fn root_start(self, tag: Seq<char>, attrs: Seq<(Seq<char>, Seq<char>)>) -> ParserModel {
        let classes = class_list(attrs);
        if tag == "div"@ && (classes.contains("anomaly-modal__mask"@) || classes.contains(
            "anomaly-modal__modal"@,
        )) {
            ParserModel { is_blocked: true, ..self }.push_annotation(tag, Annotation::Unmarked)
        } else if tag == "div"@ && classes.contains("zci__result"@) {
            ParserModel { recording: true, ..self }.push_annotation(tag, Annotation::ClickResult)
        } else if tag == "div"@ && classes.contains("links_main"@) {
            ParserModel {
                current_title: Seq::empty(),
                current_url: Seq::empty(),
                current_abstract: Seq::empty(),
                current_filetype: Seq::empty(),
                scope: Scope::Result,
                ..self
            }.push_annotation(tag, Annotation::Result)
        } else if tag == "div"@ && classes.contains("nav-link"@) {
            ParserModel { scope: Scope::Input, ..self }.push_annotation(tag, Annotation::Input)
        } else {
            self.push_annotation(tag, Annotation::Unmarked)
        }
    }

    pub open spec fn root_end(self, tag: Seq<char>) -> ParserModel {
        let (s, ann) = self.pop_annotation(tag);
        if ann == Annotation::ClickResult {
            let (s2, t) = s.take_text();
            ParserModel { click_result: t, ..s2 }
        } else {
            s
        }
    }

    pub open spec fn result_start(self, tag: Seq<char>, attrs: Seq<(Seq<char>, Seq<char>)>) -> ParserModel {
        if tag == "h2"@ && class_list(attrs).contains("result__title"@) {
            ParserModel { scope: Scope::Title, ..self }.push_annotation(tag, Annotation::Title)
        } else if tag == "a"@ && class_list(attrs).contains("result__snippet"@) {
            ParserModel { recording: true, ..self }.push_annotation(tag, Annotation::Abstract)
        } else {
            self.push_annotation(tag, Annotation::Unmarked)
        }
    }

    /// The result being assembled, numbered after the results so far.
    pub open spec fn current_result(self) -> ResultView {
        ResultView {
            index: self.index_offset + self.results.len() + 1,
            title: self.current_title,
            url: self.current_url,
            abstract_text: self.current_abstract,
        }
    }

    pub open spec fn result_end(self, tag: Seq<char>) -> ParserModel {
        let (s, ann) = self.pop_annotation(tag);
        if ann == Annotation::Abstract {
            let (s2, t) = s.take_text();
            ParserModel { current_abstract: t, ..s2 }
        } else if ann == Annotation::Result {
            let s2 = if s.current_url.len() > 0 {
                ParserModel { results: s.results.push(s.current_result()), ..s }
            } else {
                s
            };
            ParserModel { scope: Scope::Root, ..s2 }
        } else {
            s
        }
    }

    pub open spec fn title_start(self, tag: Seq<char>, attrs: Seq<(Seq<char>, Seq<char>)>) -> ParserModel {
        if tag == "a"@ && attr_lookup(attrs, "href"@) is Some {
            let href = attr_lookup(attrs, "href"@)->0;
            if has_prefix(href, "/search"@) {
                self.push_annotation(tag, Annotation::Unmarked)
            } else {
                ParserModel {
                    current_url: cleaned_url(href),
                    recording: true,
                    scope: Scope::TitleLink,
                    ..self
                }.push_annotation(tag, Annotation::TitleLink)
            }
        } else {
            self.push_annotation(tag, Annotation::Unmarked)
        }
    }

    pub open spec fn title_end(self, tag: Seq<char>) -> ParserModel {
        let (s, ann) = self.pop_annotation(tag);
        if ann == Annotation::Title {
            ParserModel { scope: Scope::Result, ..s }
        } else {
            s
        }
    }

    pub open spec fn title_link_start(self, tag: Seq<char>) -> ParserModel {
        if tag == "span"@ {
            let (s, partial) = self.take_text();
            ParserModel {
                current_title: partial,
                recording: true,
                scope: Scope::TitleFiletype,
                ..s
            }.push_annotation(tag, Annotation::TitleFiletype)
        } else {
            self.push_annotation(tag, Annotation::Unmarked)
        }
    }

    pub open spec fn title_link_end(self, tag: Seq<char>) -> ParserModel {
        let (s, ann) = self.pop_annotation(tag);
        if ann == Annotation::TitleLink {
            let (s2, text) = s.take_text();
            ParserModel {
                current_title: titled(s2.current_filetype, text),
                scope: Scope::Title,
                ..s2
            }
        } else {
            s
        }
    }

    pub open spec fn title_filetype_end(self, tag: Seq<char>) -> ParserModel {
        let (s, ann) = self.pop_annotation(tag);
        if ann == Annotation::TitleFiletype {
            let (s2, ft) = s.take_text();
            let s3 = if ft.len() > 0 {
                ParserModel { current_filetype: bracketed(ft), ..s2 }
            } else {
                s2
            };
            ParserModel { recording: true, scope: Scope::TitleLink, ..s3 }
        } else {
            s
        }
    }

    pub open spec fn abstract_end(self, tag: Seq<char>) -> ParserModel {
        let (s, ann) = self.pop_annotation(tag);
        if ann == Annotation::Abstract {
            let (s2, t) = s.take_text();
            ParserModel { current_abstract: t, scope: Scope::Result, ..s2 }
        } else {
            s
        }
    }

    /// Records the pagination tokens of an `<input>`: a `nextParams` value
    /// becomes the next token (the previous next token moving to `np_prev`
    /// once one was seen), and a non-empty `vqd` value the session token.
    pub open spec fn input_start(self, tag: Seq<char>, attrs: Seq<(Seq<char>, Seq<char>)>) -> ParserModel {
        let s = if tag == "input"@ && attr_lookup(attrs, "name"@) is Some {
            let name = attr_lookup(attrs, "name"@)->0;
            let value = attr_lookup(attrs, "value"@);
            let s1 = if name == "nextParams"@ && value is Some {
                let s0 = if self.np_found {
                    ParserModel { np_prev: self.np_next, ..self }
                } else {
                    ParserModel { np_found: true, ..self }
                };
                ParserModel { np_next: value->0, ..s0 }
            } else {
                self
            };
            if name == "vqd"@ && value is Some && value->0.len() > 0 {
                ParserModel { vqd: value->0, ..s1 }
            } else {
                s1
            }
        } else {
            self
        };
        s.push_annotation(tag, Annotation::Unmarked)
    }

    pub open spec fn input_end(self, tag: Seq<char>) -> ParserModel {
        let (s, ann) = self.pop_annotation(tag);
        if ann == Annotation::Input {
            ParserModel { scope: Scope::Root, ..s }
        } else {
            s
        }
    }

    /// The state after an opening tag.
    pub open spec fn start_tag(self, tag: Seq<char>, attrs: Seq<(Seq<char>, Seq<char>)>) -> ParserModel {
        match self.scope {
            Scope::Root => self.root_start(tag, attrs),
            Scope::Result => self.result_start(tag, attrs),
            Scope::Title => self.title_start(tag, attrs),
            Scope::TitleLink => self.title_link_start(tag),
            Scope::TitleFiletype => self.push_annotation(tag, Annotation::Unmarked),
            Scope::Abstract => self.push_annotation(tag, Annotation::Unmarked),
            Scope::Input => self.input_start(tag, attrs),
        }
    }

    /// The state after a closing tag.
    pub open spec fn end_tag(self, tag: Seq<char>) -> ParserModel {
        match self.scope {
            Scope::Root => self.root_end(tag),
            Scope::Result => self.result_end(tag),
            Scope::Title => self.title_end(tag),
            Scope::TitleLink => self.title_link_end(tag),
            Scope::TitleFiletype => self.title_filetype_end(tag),
            Scope::Abstract => self.abstract_end(tag),
            Scope::Input => self.input_end(tag),
        }
    }
}


// ---------------------------------------------------------------------------
// The parser
// ---------------------------------------------------------------------------

/// DuckDuckGo HTML parser for `html.duckduckgo.com/html` responses.
///
/// Its view is open: what `new` and `parse` state of the model is, field by
/// field, what the parser holds. The pagination tokens, the click result, the
/// results and the blocked flag are what callers read; the fields before them
/// are the working state of the tag-by-tag reading.
pub struct DdgParser {
    pub scope: Scope,
    pub annotations: Vec<(Vec<char>, Annotation)>,
    pub textbuf: Vec<char>,
    pub recording: bool,
    pub current_title: Vec<char>,
    pub current_url: Vec<char>,
    pub current_abstract: Vec<char>,
    pub current_filetype: Vec<char>,
    pub np_prev: String,
    pub np_next: String,
    pub np_found: bool,
    pub vqd: String,
    pub click_result: String,
    pub results: Vec<SearchResult>,
    pub index_offset: usize,
    pub is_blocked: bool,
}

/// The values of the annotation entries.
pub open spec fn annotations_view(v: Seq<(Vec<char>, Annotation)>) -> Seq<(Seq<char>, Annotation)> {
    v.map_values(|e: (Vec<char>, Annotation)| (e.0@, e.1))
}

impl View for DdgParser {
    type V = ParserModel;

    open spec fn view(&self) -> ParserModel {
        ParserModel {
            scope: self.scope,
            annotations: annotations_view(self.annotations@),
            textbuf: self.textbuf@,
            recording: self.recording,
            current_title: self.current_title@,
            current_url: self.current_url@,
            current_abstract: self.current_abstract@,
            current_filetype: self.current_filetype@,
            np_prev: self.np_prev@,
            np_next: self.np_next@,
            np_found: self.np_found,
            vqd: self.vqd@,
            click_result: self.click_result@,
            results: results_view(self.results@),
            index_offset: self.index_offset as int,
            is_blocked: self.is_blocked,
        }
    }
}

/// Whether `s` spells the literal `lit`.
fn is_lit(s: &[char], lit: &str) -> (r: bool)
    ensures
        r == (s@ == lit@),
{
    let l = chars_of(lit);
    chars_eq(s, l.as_slice())
}

/// A copy of a character sequence.
fn copy_chars(s: &[char]) -> (r: Vec<char>)
    ensures
        r@ == s@,
{
    slice_chars(s, 0, s.len())
}

impl DdgParser {
    /// The state before any input: root scope, nothing recorded, results to
    /// be numbered from `offset + 1`.
    pub open spec fn initial(offset: int) -> ParserModel {
        ParserModel {
            scope: Scope::Root,
            annotations: Seq::empty(),
            textbuf: Seq::empty(),
            recording: false,
            current_title: Seq::empty(),
            current_url: Seq::empty(),
            current_abstract: Seq::empty(),
            current_filetype: Seq::empty(),
            np_prev: Seq::empty(),
            np_next: Seq::empty(),
            np_found: false,
            vqd: Seq::empty(),
            click_result: Seq::empty(),
            results: Seq::empty(),
            index_offset: offset,
            is_blocked: false,
        }
    }

    /// A parser whose results are numbered from `offset + 1`.
    pub fn new(offset: usize) -> (r: DdgParser)
        ensures
            r@ == Self::initial(offset as int),
    {
        let r = DdgParser {
            scope: Scope::Root,
            annotations: Vec::new(),
            textbuf: Vec::new(),
            recording: false,
            current_title: Vec::new(),
            current_url: Vec::new(),
            current_abstract: Vec::new(),
            current_filetype: Vec::new(),
            np_prev: String::new(),
            np_next: String::new(),
            np_found: false,
            vqd: String::new(),
            click_result: String::new(),
            results: Vec::new(),
            index_offset: offset,
            is_blocked: false,
        };
        assert(r@ =~= Self::initial(offset as int));
        r
    }

    // ----- annotation helpers -----

    fn push_annotation(&mut self, tag: &[char], ann: Annotation)
        ensures
            final(self)@ == old(self)@.push_annotation(tag@, ann),
    {
        let ghost before = self.annotations@;
        let t = copy_chars(tag);
        self.annotations.push((t, ann));
        assert(annotations_view(self.annotations@) =~= annotations_view(before).push((tag@, ann)));
    }

    fn pop_annotation(&mut self, tag: &[char]) -> (r: Annotation)
        ensures
            (final(self)@, r) == old(self)@.pop_annotation(tag@),
    {
        let ghost entries = annotations_view(self.annotations@);
        proof {
            lemma_last_tag_index(entries, tag@);
        }
        let mut i = self.annotations.len();
        while i > 0
            invariant
                i <= self.annotations@.len(),
                entries == annotations_view(self.annotations@),
                entries.len() == self.annotations@.len(),
                last_tag_index(entries, tag@) < i,
                -1 <= last_tag_index(entries, tag@),
                last_tag_index(entries, tag@) >= 0 ==> entries[last_tag_index(entries, tag@)].0
                    == tag@,
                forall|m: int|
                    last_tag_index(entries, tag@) < m < entries.len() ==> #[trigger] entries[m].0
                        != tag@,
                forall|m: int| i <= m < entries.len() ==> #[trigger] entries[m].0 != tag@,
                self@ == old(self)@,
            decreases i,
        {
            if chars_eq(self.annotations[i - 1].0.as_slice(), tag) {
                assert(entries[i - 1].0 == tag@);
                assert(last_tag_index(entries, tag@) == i - 1);
                let (_, ann) = self.annotations.remove(i - 1);
                assert(annotations_view(self.annotations@) =~= entries.remove(i - 1));
                return ann;
            }
            i -= 1;
        }
        assert(last_tag_index(entries, tag@) < 0);
        Annotation::Unmarked
    }

    // ----- text buffer helpers -----

    fn start_recording(&mut self)
        ensures
            final(self)@ == (ParserModel { recording: true, ..old(self)@ }),
    {
        self.recording = true;
    }

    fn stop_recording(&mut self)
        ensures
            final(self)@ == (ParserModel { recording: false, ..old(self)@ }),
    {
        self.recording = false;
    }

    fn pop_textbuf(&mut self) -> (r: Vec<char>)
        ensures
            r@ == trim(old(self)@.textbuf),
            final(self)@ == (ParserModel { textbuf: Seq::empty(), ..old(self)@ }),
    {
        let text = trim_chars(self.textbuf.as_slice());
        self.textbuf = Vec::new();
        text
    }

    /// Stops recording and takes the trimmed text buffer.
    fn take_text(&mut self) -> (r: Vec<char>)
        ensures
            (final(self)@, r@) == old(self)@.take_text(),
    {
        self.stop_recording();
        self.pop_textbuf()
    }

    // ----- tag handlers -----

    fn handle_start_tag(&mut self, tag: &[char], attrs: &Attrs)
        ensures
            final(self)@ == old(self)@.start_tag(tag@, attrs@),
    {
        match self.scope {
            Scope::Root => self.root_start(tag, attrs),
            Scope::Result => self.result_start(tag, attrs),
            Scope::Title => self.title_start(tag, attrs),
            Scope::TitleLink => self.title_link_start(tag, attrs),
            Scope::TitleFiletype => {
                self.push_annotation(tag, Annotation::Unmarked);
            },
            Scope::Abstract => self.abstract_start(tag, attrs),
            Scope::Input => self.input_start(tag, attrs),
        }
    }

    fn handle_end_tag(&mut self, tag: &[char])
        requires
            old(self)@.index_offset + old(self)@.end_tag(tag@).results.len() <= usize::MAX,
        ensures
            final(self)@ == old(self)@.end_tag(tag@),
    {
        match self.scope {
            Scope::Root => self.root_end(tag),
            Scope::Result => self.result_end(tag),
            Scope::Title => self.title_end(tag),
            Scope::TitleLink => self.title_link_end(tag),
            Scope::TitleFiletype => self.title_filetype_end(tag),
            Scope::Abstract => self.abstract_end(tag),
            Scope::Input => self.input_end(tag),
        }
    }

    // -- ROOT scope --

    fn root_start(&mut self, tag: &[char], attrs: &Attrs)
        ensures
            final(self)@ == old(self)@.root_start(tag@, attrs@),
    {
        if is_lit(tag, "div") {
            let classes = get_classes(attrs);
            if has_word(&classes, "anomaly-modal__mask") || has_word(&classes, "anomaly-modal__modal") {
                self.is_blocked = true;
                self.push_annotation(tag, Annotation::Unmarked);
                return ;
            }
            if has_word(&classes, "zci__result") {
                self.start_recording();
                self.push_annotation(tag, Annotation::ClickResult);
                return ;
            }
            if has_word(&classes, "links_main") {
                self.current_title = Vec::new();
                self.current_url = Vec::new();
                self.current_abstract = Vec::new();
                self.current_filetype = Vec::new();
                self.scope = Scope::Result;
                self.push_annotation(tag, Annotation::Result);
                return ;
            }
            if has_word(&classes, "nav-link") {
                self.scope = Scope::Input;
                self.push_annotation(tag, Annotation::Input);
                return ;
            }
        }
        self.push_annotation(tag, Annotation::Unmarked);
    }

    fn root_end(&mut self, tag: &[char])
        ensures
            final(self)@ == old(self)@.root_end(tag@),
    {
        let ann = self.pop_annotation(tag);
        if ann == Annotation::ClickResult {
            self.stop_recording();
            let t = self.pop_textbuf();
            self.click_result = string_of(t.as_slice());
        }
    }

    // -- RESULT scope --

    fn result_start(&mut self, tag: &[char], attrs: &Attrs)
        ensures
            final(self)@ == old(self)@.result_start(tag@, attrs@),
    {
        if is_lit(tag, "h2") {
            let classes = get_classes(attrs);
            if has_word(&classes, "result__title") {
                self.scope = Scope::Title;
                self.push_annotation(tag, Annotation::Title);
                return ;
            }
        }
        if is_lit(tag, "a") {
            let classes = get_classes(attrs);
            if has_word(&classes, "result__snippet") {
                self.start_recording();
                self.push_annotation(tag, Annotation::Abstract);
                return ;
            }
        }
        self.push_annotation(tag, Annotation::Unmarked);
    }

    fn result_end(&mut self, tag: &[char])
        requires
            old(self)@.index_offset + old(self)@.result_end(tag@).results.len() <= usize::MAX,
        ensures
            final(self)@ == old(self)@.result_end(tag@),
    {
        let ann = self.pop_annotation(tag);
        match ann {
            Annotation::Abstract => {
                self.stop_recording();
                self.current_abstract = self.pop_textbuf();
            },
            Annotation::Result => {
                if self.current_url.len() > 0 {
                    let idx = self.index_offset + self.results.len() + 1;
                    let ghost before = self.results@;
                    let r = SearchResult {
                        index: idx,
                        title: string_of(self.current_title.as_slice()),
                        url: string_of(self.current_url.as_slice()),
                        abstract_text: string_of(self.current_abstract.as_slice()),
                    };
                    self.results.push(r);
                    assert(results_view(self.results@) =~= results_view(before).push(r@));
                }
                self.scope = Scope::Root;
            },
            _ => {},
        }
    }

    // -- TITLE scope --

    fn title_start(&mut self, tag: &[char], attrs: &Attrs)
        ensures
            final(self)@ == old(self)@.title_start(tag@, attrs@),
    {
        if is_lit(tag, "a") {
            let key = chars_of("href");
            if let Some(href) = attrs.lookup(key.as_slice()) {
                let prefix = chars_of("/search");
                if starts_with(href.as_slice(), prefix.as_slice()) {
                    self.push_annotation(tag, Annotation::Unmarked);
                    return ;
                }
                let href_s = string_of(href.as_slice());
                let cleaned = clean_url(href_s.as_str());
                self.current_url = chars_of(cleaned.as_str());
                self.start_recording();
                self.scope = Scope::TitleLink;
                self.push_annotation(tag, Annotation::TitleLink);
                return ;
            }
        }
        self.push_annotation(tag, Annotation::Unmarked);
    }

    fn title_end(&mut self, tag: &[char])
        ensures
            final(self)@ == old(self)@.title_end(tag@),
    {
        let ann = self.pop_annotation(tag);
        if ann == Annotation::Title {
            self.scope = Scope::Result;
        }
    }

    // -- TITLE LINK scope --

    fn title_link_start(&mut self, tag: &[char], _attrs: &Attrs)
        ensures
            final(self)@ == old(self)@.title_link_start(tag@),
    {
        if is_lit(tag, "span") {
            self.stop_recording();
            let partial = self.pop_textbuf();
            self.current_title = partial;
            self.start_recording();
            self.scope = Scope::TitleFiletype;
            self.push_annotation(tag, Annotation::TitleFiletype);
            return ;
        }
        self.push_annotation(tag, Annotation::Unmarked);
    }

    fn title_link_end(&mut self, tag: &[char])
        ensures
            final(self)@ == old(self)@.title_link_end(tag@),
    {
        let ann = self.pop_annotation(tag);
        if ann == Annotation::TitleLink {
            self.stop_recording();
            let text = self.pop_textbuf();
            if self.current_filetype.len() == 0 {
                self.current_title = text;
            } else {
                let ghost ft = self.current_filetype@;
                let mut t = copy_chars(self.current_filetype.as_slice());
                t.push(' ');
                let mut head = copy_chars(t.as_slice());
                assert(head@ =~= ft + seq![' ']);
                append_chars(&mut t, text.as_slice());
                assert(t@ =~= ft + seq![' '] + text@);
                if chars_eq(t.as_slice(), head.as_slice()) {
                    let tt = trim_chars(t.as_slice());
                    append_chars(&mut head, tt.as_slice());
                    t = head;
                }
                assert(t@ == titled(ft, text@));
                self.current_title = t;
            }
            self.scope = Scope::Title;
        }
    }

    // -- TITLE FILETYPE scope --

    fn title_filetype_end(&mut self, tag: &[char])
        ensures
            final(self)@ == old(self)@.title_filetype_end(tag@),
    {
        let ann = self.pop_annotation(tag);
        if ann == Annotation::TitleFiletype {
            self.stop_recording();
            let ft = self.pop_textbuf();
            if ft.len() > 0 {
                let mut label: Vec<char> = Vec::new();
                label.push('[');
                append_chars(&mut label, ft.as_slice());
                label.push(']');
                assert(label@ =~= bracketed(ft@));
                self.current_filetype = label;
            }
            self.start_recording();
            self.scope = Scope::TitleLink;
        }
    }

    // -- ABSTRACT scope --

    fn abstract_start(&mut self, tag: &[char], _attrs: &Attrs)
        ensures
            final(self)@ == old(self)@.push_annotation(tag@, Annotation::Unmarked),
    {
        self.push_annotation(tag, Annotation::Unmarked);
    }

    fn abstract_end(&mut self, tag: &[char])
        ensures
            final(self)@ == old(self)@.abstract_end(tag@),
    {
        let ann = self.pop_annotation(tag);
        if ann == Annotation::Abstract {
            self.stop_recording();
            self.current_abstract = self.pop_textbuf();
            self.scope = Scope::Result;
        }
    }

    // -- INPUT scope (pagination form) --

    fn input_start(&mut self, tag: &[char], attrs: &Attrs)
        ensures
            final(self)@ == old(self)@.input_start(tag@, attrs@),
    {
        if is_lit(tag, "input") {
            let name_key = chars_of("name");
            if let Some(name) = attrs.lookup(name_key.as_slice()) {
                let value_key = chars_of("value");
                if is_lit(name.as_slice(), "nextParams") {
                    if let Some(value) = attrs.lookup(value_key.as_slice()) {
                        if self.np_found {
                            self.np_prev = self.np_next.clone();
                        } else {
                            self.np_found = true;
                        }
                        self.np_next = string_of(value.as_slice());
                    }
                }
                if is_lit(name.as_slice(), "vqd") {
                    if let Some(value) = attrs.lookup(value_key.as_slice()) {
                        if value.len() > 0 {
                            self.vqd = string_of(value.as_slice());
                        }
                    }
                }
            }
        }
        self.push_annotation(tag, Annotation::Unmarked);
    }

    fn input_end(&mut self, tag: &[char])
        ensures
            final(self)@ == old(self)@.input_end(tag@),
    {
        let ann = self.pop_annotation(tag);
        if ann == Annotation::Input {
            self.scope = Scope::Root;
        }
    }
}


// ---------------------------------------------------------------------------
// Tokenizer
// ---------------------------------------------------------------------------

/// The end of the text that starts at `i`: the next `<`, or the end.
pub open spec fn text_end(html: Seq<char>, i: int) -> int {
    match char_pos_from(html, '<', i) {
        Some(k) => k,
        None => html.len() as int,
    }
}

/// The state after a run of text: recorded, entity-decoded, when recording.
pub open spec fn text_step(st: ParserModel, text: Seq<char>) -> ParserModel {
    if st.recording {
        ParserModel { textbuf: st.textbuf + html_entities_decoded(text), ..st }
    } else {
        st
    }
}

/// The state after the tag whose body (between `<` and `>`) is `content`:
/// a closing tag ends the lowercased first word after `/`; a comment,
/// doctype or processing instruction (`!`, `?`) changes nothing; an opening
/// tag starts its element, and ends it at once when it closes itself (`/>`).
pub open spec fn tag_step(st: ParserModel, content: Seq<char>) -> ParserModel {
    if content.len() > 0 && content[0] == '/' {
        st.end_tag(ascii_lower(first_word(content.drop_first())))
    } else if content.len() > 0 && (content[0] == '!' || content[0] == '?') {
        st
    } else {
        let self_closing = content.len() > 0 && content.last() == '/';
        let raw = if self_closing {
            content.drop_last()
        } else {
            content
        };
        let name = parsed_tag(raw).0;
        let st1 = st.start_tag(name, parsed_tag(raw).1);
        if self_closing {
            st1.end_tag(name)
        } else {
            st1
        }
    }
}

/// Whether the body of a tag can be read without failing: closing tags,
/// comments and declarations always can; any other tag, once a trailing `/` is
/// dropped, must split cleanly after its name.
pub open spec fn tag_ok(content: Seq<char>) -> bool {
    if content.len() > 0 && (content[0] == '/' || content[0] == '!' || content[0] == '?') {
        true
    } else {
        let self_closing = content.len() > 0 && content.last() == '/';
        tag_splits_cleanly(
            if self_closing {
                content.drop_last()
            } else {
                content
            },
        )
    }
}

/// The state after reading `html` from position `i` on, starting in `st`.
/// A `<` without a later `>` ends the page: the rest is recorded as it is,
/// when recording.
pub open spec fn run(st: ParserModel, html: Seq<char>, i: int) -> ParserModel
    decreases html.len() - i,
{
    if i < 0 || i >= html.len() {
        st
    } else if html[i] == '<' {
        match char_pos_from(html, '>', i + 1) {
            Some(close) => {
                proof {
                    lemma_char_pos_from(html, '>', i + 1);
                }
                run(tag_step(st, html.subrange(i + 1, close)), html, close + 1)
            },
            None => if st.recording {
                ParserModel { textbuf: st.textbuf + html.skip(i), ..st }
            } else {
                st
            },
        }
    } else {
        let j = text_end(html, i);
        proof {
            lemma_char_pos_from(html, '<', i);
        }
        run(text_step(st, html.subrange(i, j)), html, j)
    }
}

/// Whether every tag of `html` from position `i` on can be split.
pub open spec fn tags_ok(html: Seq<char>, i: int) -> bool
    decreases html.len() - i,
{
    if i < 0 || i >= html.len() {
        true
    } else if html[i] == '<' {
        match char_pos_from(html, '>', i + 1) {
            Some(close) => {
                proof {
                    lemma_char_pos_from(html, '>', i + 1);
                }
                tag_ok(html.subrange(i + 1, close)) && tags_ok(html, close + 1)
            },
            None => true,
        }
    } else {
        proof {
            lemma_char_pos_from(html, '<', i);
        }
        tags_ok(html, text_end(html, i))
    }
}

/// Whether a tag body can be read without failing (see [`tag_ok`]).
pub fn tag_body_ok(content: &[char]) -> (r: bool)
    ensures
        r == tag_ok(content@),
{
    let n = content.len();
    if n > 0 && (content[0] == '/' || content[0] == '!' || content[0] == '?') {
        return true;
    }
    let raw = if n > 0 && content[n - 1] == '/' {
        let v = slice_chars(content, 0, n - 1);
        assert(v@ =~= content@.drop_last());
        v
    } else {
        let v = slice_chars(content, 0, n);
        assert(v@ =~= content@);
        v
    };
    let r = trim_chars(raw.as_slice());
    let p = skip_word_at(r.as_slice(), 0);
    proof {
        lemma_skip_word(r@, 0);
    }
    if p < r.len() {
        (r[p] as u32) < 0x80
    } else {
        true
    }
}

/// Whether every tag of a page can be read without failing (see
/// [`tags_ok`]).
pub fn page_tags_ok(html: &[char]) -> (r: bool)
    ensures
        r == tags_ok(html@, 0),
{
    let len = html.len();
    let mut i: usize = 0;
    while i < len
        invariant
            len == html@.len(),
            i <= len,
            tags_ok(html@, 0) == tags_ok(html@, i as int),
        decreases len - i,
    {
        if html[i] == '<' {
            match memchr_from('>', html, i + 1) {
                Some(close) => {
                    proof {
                        lemma_char_pos_from(html@, '>', i + 1);
                    }
                    let content = slice_chars(html, i + 1, close);
                    if !tag_body_ok(content.as_slice()) {
                        return false;
                    }
                    i = close + 1;
                },
                None => {
                    return true;
                },
            }
        } else {
            let end = match memchr_from('<', html, i) {
                Some(k) => k,
                None => len,
            };
            proof {
                lemma_char_pos_from(html@, '<', i as int);
            }
            i = end;
        }
    }
    true
}

/// The state after parsing a whole page.
pub open spec fn parsed_page(st: ParserModel, html: Seq<char>) -> ParserModel {
    run(st, html, 0)
}

/// An opening tag leaves the results and their numbering alone.
pub proof fn lemma_start_keeps_results(st: ParserModel, tag: Seq<char>, attrs: Seq<(Seq<char>, Seq<char>)>)
    ensures
        st.start_tag(tag, attrs).results == st.results,
        st.start_tag(tag, attrs).index_offset == st.index_offset,
{
}

/// A closing tag adds at most the current result.
pub proof fn lemma_end_adds_at_most_one(st: ParserModel, tag: Seq<char>)
    ensures
        st.end_tag(tag).index_offset == st.index_offset,
        st.end_tag(tag).results == st.results || st.end_tag(tag).results == st.results.push(
            st.current_result(),
        ),
{
}

/// A tag adds at most one result.
pub proof fn lemma_tag_adds_at_most_one(st: ParserModel, content: Seq<char>)
    ensures
        tag_step(st, content).index_offset == st.index_offset,
        tag_step(st, content).results.len() <= st.results.len() + 1,
{
    if content.len() > 0 && content[0] == '/' {
        lemma_end_adds_at_most_one(st, ascii_lower(first_word(content.drop_first())));
    } else if content.len() > 0 && (content[0] == '!' || content[0] == '?') {
    } else {
        let self_closing = content.len() > 0 && content.last() == '/';
        let raw = if self_closing {
            content.drop_last()
        } else {
            content
        };
        let name = parsed_tag(raw).0;
        lemma_start_keeps_results(st, name, parsed_tag(raw).1);
        lemma_end_adds_at_most_one(st.start_tag(name, parsed_tag(raw).1), name);
    }
}

impl DdgParser {
    /// Handles one tag body.
    fn handle_tag(&mut self, content: &[char])
        requires
            tag_ok(content@),
            old(self)@.index_offset + tag_step(old(self)@, content@).results.len() <= usize::MAX,
        ensures
            final(self)@ == tag_step(old(self)@, content@),
    {
        let n = content.len();
        if n > 0 && content[0] == '/' {
            let rest = slice_chars(content, 1, n);
            assert(rest@ =~= content@.drop_first());
            let word = first_word_of(rest.as_slice());
            let name = to_ascii_lower(word.as_slice());
            self.handle_end_tag(name.as_slice());
        } else if n > 0 && (content[0] == '!' || content[0] == '?') {
        } else {
            let self_closing = n > 0 && content[n - 1] == '/';
            let raw = if self_closing {
                slice_chars(content, 0, n - 1)
            } else {
                copy_chars(content)
            };
            assert(self_closing ==> raw@ =~= content@.drop_last());
            let (name, attrs) = parse_tag_chars(raw.as_slice());
            let ghost st0 = self@;
            self.handle_start_tag(name.as_slice(), &attrs);
            proof {
                lemma_start_keeps_results(st0, name@, attrs@);
                lemma_end_adds_at_most_one(self@, name@);
            }
            if self_closing {
                self.handle_end_tag(name.as_slice());
            }
        }
    }

    /// Parses a full HTML page, continuing from the current state.
    ///
    /// The numbers of the results must fit in `usize`; by
    /// [`lemma_parse_growth`] this holds whenever the offset, the results so
    /// far and the length of the page add up to at most `usize::MAX`.
    pub fn parse(&mut self, html: &str)
        requires
            tags_ok(html@, 0),
            old(self)@.index_offset + parsed_page(old(self)@, html@).results.len() <= usize::MAX,
        ensures
            final(self)@ == parsed_page(old(self)@, html@),
    {
        let chars = chars_of(html);
        let len = chars.len();
        let mut i: usize = 0;
        while i < len
            invariant
                len == chars@.len(),
                chars@ == html@,
                i <= len,
                run(self@, chars@, i as int) == run(old(self)@, chars@, 0),
                tags_ok(chars@, i as int),
                self@.index_offset == old(self)@.index_offset,
                old(self)@.index_offset + run(old(self)@, chars@, 0).results.len() <= usize::MAX,
            decreases len - i,
        {
            if chars[i] == '<' {
                match memchr_from('>', chars.as_slice(), i + 1) {
                    Some(close) => {
                        proof {
                            lemma_char_pos_from(chars@, '>', i + 1);
                            let st1 = tag_step(self@, chars@.subrange(i + 1, close as int));
                            lemma_tag_adds_at_most_one(self@, chars@.subrange(i + 1, close as int));
                            lemma_run_keeps(st1, chars@, close + 1);
                        }
                        let content = slice_chars(chars.as_slice(), i + 1, close);
                        self.handle_tag(content.as_slice());
                        i = close + 1;
                    },
                    None => {
                        if self.recording {
                            let rest = slice_chars(chars.as_slice(), i, len);
                            assert(rest@ =~= chars@.skip(i as int));
                            append_chars(&mut self.textbuf, rest.as_slice());
                        }
                        i = len;
                    },
                }
            } else {
                let start = i;
                let end = match memchr_from('<', chars.as_slice(), i) {
                    Some(k) => k,
                    None => len,
                };
                proof {
                    lemma_char_pos_from(chars@, '<', i as int);
                }
                if self.recording {
                    let text = slice_chars(chars.as_slice(), start, end);
                    let decoded = decode_chars(text.as_slice());
                    append_chars(&mut self.textbuf, decoded.as_slice());
                }
                i = end;
            }
        }
    }

    /// Parses a full page when it can be read, and reports whether it did.
    ///
    /// It parses when every tag of the page splits cleanly and the offset,
    /// the results so far and the length of the page add up to at most
    /// `usize::MAX`, which keeps every result number within `usize`;
    /// otherwise it leaves the parser as it was.
    pub fn try_parse(&mut self, html: &str) -> (r: bool)
        ensures
            r == (tags_ok(html@, 0) && old(self)@.index_offset + old(self)@.results.len()
                + html@.len() <= usize::MAX),
            r ==> final(self)@ == parsed_page(old(self)@, html@),
            !r ==> final(self)@ == old(self)@,
    {
        let chars = chars_of(html);
        if !page_tags_ok(chars.as_slice()) {
            return false;
        }
        let fits = match self.index_offset.checked_add(self.results.len()) {
            Some(k) => k.checked_add(chars.len()).is_some(),
            None => false,
        };
        if !fits {
            return false;
        }
        proof {
            lemma_parse_growth(self@, html@);
        }
        self.parse(html);
        true
    }
}


// ---------------------------------------------------------------------------
// Laws
// ---------------------------------------------------------------------------

/// Each result starts afresh: in root scope, an opening `div` whose classes
/// hold `links_main` (and that is neither the bot-detection dialog nor an
/// instant answer) enters result scope with no title, URL, abstract or
/// file-type label left from the result before, and with the results so far
/// unchanged. So a title carries a file-type label only when its own title
/// link held one.
pub proof fn lemma_result_starts_clean(st: ParserModel, attrs: Seq<(Seq<char>, Seq<char>)>)
    requires
        st.scope == Scope::Root,
        class_list(attrs).contains("links_main"@),
        !class_list(attrs).contains("anomaly-modal__mask"@),
        !class_list(attrs).contains("anomaly-modal__modal"@),
        !class_list(attrs).contains("zci__result"@),
    ensures
        st.start_tag("div"@, attrs).scope == Scope::Result,
        st.start_tag("div"@, attrs).current_title.len() == 0,
        st.start_tag("div"@, attrs).current_url.len() == 0,
        st.start_tag("div"@, attrs).current_abstract.len() == 0,
        st.start_tag("div"@, attrs).current_filetype.len() == 0,
        st.start_tag("div"@, attrs).results == st.results,
        st.start_tag("div"@, attrs).is_blocked == st.is_blocked,
{
}

/// The annotation stacks behave as one stack per tag: popping a tag right
/// after pushing it gives back the pushed annotation and the earlier state.
pub proof fn lemma_pop_after_push(st: ParserModel, tag: Seq<char>, ann: Annotation)
    ensures
        st.push_annotation(tag, ann).pop_annotation(tag) == (st, ann),
{
    let pushed = st.push_annotation(tag, ann);
    assert(pushed.annotations.last().0 == tag);
    assert(last_tag_index(pushed.annotations, tag) == st.annotations.len());
    assert(pushed.annotations.remove(st.annotations.len() as int) =~= st.annotations);
}

/// Pushing onto one tag's stack leaves every other tag's stack alone: a pop
/// of another tag gives what it gave before, and the push survives it.
pub proof fn lemma_pop_other_tag(st: ParserModel, tag: Seq<char>, other: Seq<char>, ann: Annotation)
    requires
        tag != other,
    ensures
        st.push_annotation(other, ann).pop_annotation(tag).1 == st.pop_annotation(tag).1,
        st.push_annotation(other, ann).pop_annotation(tag).0 == st.pop_annotation(tag).0.push_annotation(
            other,
            ann,
        ),
{
    let e = st.annotations;
    let pushed = e.push((other, ann));
    assert(pushed.drop_last() =~= e);
    assert(last_tag_index(pushed, tag) == last_tag_index(e, tag));
    lemma_last_tag_index(e, tag);
    let k = last_tag_index(e, tag);
    if k >= 0 {
        assert(pushed.remove(k) =~= e.remove(k).push((other, ann)));
        assert(pushed[k] == e[k]);
    }
}

/// The results of a state are numbered from its offset and all have a URL.
pub open spec fn results_sound(st: ParserModel) -> bool {
    &&& crate::numbered_from(st.results, st.index_offset)
    &&& forall|i: int| 0 <= i < st.results.len() ==> #[trigger] st.results[i].url.len() > 0
}

/// What every step keeps: sound results, and the blocked flag once set.
pub open spec fn step_keeps(before: ParserModel, after: ParserModel) -> bool {
    &&& after.index_offset == before.index_offset
    &&& results_sound(before) ==> results_sound(after)
    &&& before.is_blocked ==> after.is_blocked
    &&& before.results.len() <= after.results.len()
    &&& after.results.take(before.results.len() as int) == before.results
}

pub proof fn lemma_start_tag_keeps(st: ParserModel, tag: Seq<char>, attrs: Seq<(Seq<char>, Seq<char>)>)
    ensures
        step_keeps(st, st.start_tag(tag, attrs)),
{
    lemma_start_keeps_results(st, tag, attrs);
    assert(st.results.take(st.results.len() as int) =~= st.results);
}

pub proof fn lemma_end_tag_keeps(st: ParserModel, tag: Seq<char>)
    ensures
        step_keeps(st, st.end_tag(tag)),
{
    let after = st.end_tag(tag);
    lemma_end_adds_at_most_one(st, tag);
    assert(st.results.take(st.results.len() as int) =~= st.results);
    if after.results != st.results {
        assert(after.results.take(st.results.len() as int) =~= st.results);
        if st.scope == Scope::Result {
            let (s, ann) = st.pop_annotation(tag);
            assert(s.results == st.results);
            assert(s.current_url == st.current_url);
            assert(ann == Annotation::Result && s.current_url.len() > 0);
        }
    }
}

pub proof fn lemma_tag_step_keeps(st: ParserModel, content: Seq<char>)
    ensures
        step_keeps(st, tag_step(st, content)),
{
    if content.len() > 0 && content[0] == '/' {
        lemma_end_tag_keeps(st, ascii_lower(first_word(content.drop_first())));
    } else if content.len() > 0 && (content[0] == '!' || content[0] == '?') {
        assert(st.results.take(st.results.len() as int) =~= st.results);
    } else {
        let self_closing = content.len() > 0 && content.last() == '/';
        let raw = if self_closing {
            content.drop_last()
        } else {
            content
        };
        let name = parsed_tag(raw).0;
        let st1 = st.start_tag(name, parsed_tag(raw).1);
        lemma_start_tag_keeps(st, name, parsed_tag(raw).1);
        if self_closing {
            lemma_end_tag_keeps(st1, name);
            assert(st1.results == st.results);
        }
    }
}

pub proof fn lemma_run_keeps(st: ParserModel, html: Seq<char>, i: int)
    ensures
        step_keeps(st, run(st, html, i)),
    decreases html.len() - i,
{
    assert(st.results.take(st.results.len() as int) =~= st.results);
    if i < 0 || i >= html.len() {
    } else if html[i] == '<' {
        match char_pos_from(html, '>', i + 1) {
            Some(close) => {
                lemma_char_pos_from(html, '>', i + 1);
                let st1 = tag_step(st, html.subrange(i + 1, close));
                lemma_tag_step_keeps(st, html.subrange(i + 1, close));
                lemma_run_keeps(st1, html, close + 1);
                let fin = run(st1, html, close + 1);
                assert(fin.results.take(st.results.len() as int) =~= fin.results.take(
                    st1.results.len() as int,
                ).take(st.results.len() as int));
            },
            None => {},
        }
    } else {
        lemma_char_pos_from(html, '<', i);
        let st1 = text_step(st, html.subrange(i, text_end(html, i)));
        lemma_run_keeps(st1, html, text_end(html, i));
    }
}

/// Parsing numbers the results it finds `offset + 1`, `offset + 2`, ... and
/// gives every one of them a URL; a page that shows DuckDuckGo's bot
/// dialog leaves the parser marked blocked; results found earlier stay in
/// place, in order.
pub proof fn lemma_parse_sound(st: ParserModel, html: Seq<char>)
    requires
        results_sound(st),
    ensures
        results_sound(parsed_page(st, html)),
        crate::numbered_from(parsed_page(st, html).results, st.index_offset),
        st.is_blocked ==> parsed_page(st, html).is_blocked,
        parsed_page(st, html).results.take(st.results.len() as int) == st.results,
{
    lemma_run_keeps(st, html, 0);
}

/// A fresh parser numbers its results from `offset + 1`.
pub proof fn lemma_fresh_parse_numbered(offset: int, html: Seq<char>)
    ensures
        crate::numbered_from(parsed_page(DdgParser::initial(offset), html).results, offset),
        forall|i: int|
            0 <= i < parsed_page(DdgParser::initial(offset), html).results.len() ==> #[trigger] parsed_page(
                DdgParser::initial(offset),
                html,
            ).results[i].url.len() > 0,
{
    lemma_parse_sound(DdgParser::initial(offset), html);
}

/// A link without DuckDuckGo's `uddg=` redirect marker is kept as it is.
pub proof fn lemma_plain_url_kept(href: Seq<char>)
    requires
        find_from(href, uddg_marker(), 0) is None,
    ensures
        cleaned_url(href) == href,
{
}


/// Every character of `s` is ASCII.
pub open spec fn ascii_only(s: Seq<char>) -> bool {
    forall|i: int| 0 <= i < s.len() ==> (#[trigger] s[i] as u32) < 0x80
}

pub proof fn lemma_ascii_tag_ok(content: Seq<char>)
    requires
        ascii_only(content),
    ensures
        tag_ok(content),
{
    let self_closing = content.len() > 0 && content.last() == '/';
    let raw = if self_closing {
        content.drop_last()
    } else {
        content
    };
    assert(ascii_only(raw)) by {
        assert forall|i: int| 0 <= i < raw.len() implies (#[trigger] raw[i] as u32) < 0x80 by {
            assert(raw[i] == content[i]);
        }
    }
    let a = skip_spaces(raw, 0);
    let b = back_spaces(raw, raw.len() as int);
    crate::text::lemma_skip_spaces(raw, 0);
    crate::text::lemma_back_spaces(raw, raw.len() as int);
    let r = trim(raw);
    let p = skip_word(r, 0);
    crate::text::lemma_skip_word(r, 0);
    if p < r.len() {
        assert(a < b);
        assert(r == raw.subrange(a, b));
        assert(r[p] == raw[a + p]);
        assert((raw[a + p] as u32) < 0x80);
    }
    assert(tag_splits_cleanly(raw));
}

/// Every ASCII page can be parsed: the requirement of [`DdgParser::parse`]
/// only excludes tags whose name is followed by a multi-byte whitespace
/// character.
pub proof fn lemma_ascii_tags_ok(html: Seq<char>, i: int)
    requires
        ascii_only(html),
    ensures
        tags_ok(html, i),
    decreases html.len() - i,
{
    if i < 0 || i >= html.len() {
    } else if html[i] == '<' {
        match char_pos_from(html, '>', i + 1) {
            Some(close) => {
                lemma_char_pos_from(html, '>', i + 1);
                let content = html.subrange(i + 1, close);
                assert(ascii_only(content)) by {
                    assert forall|k: int| 0 <= k < content.len() implies (#[trigger] content[k] as u32) < 0x80 by {
                        assert(content[k] == html[i + 1 + k]);
                    }
                }
                lemma_ascii_tag_ok(content);
                lemma_ascii_tags_ok(html, close + 1);
            },
            None => {},
        }
    } else {
        lemma_char_pos_from(html, '<', i);
        lemma_ascii_tags_ok(html, text_end(html, i));
    }
}


/// Each tag adds at most one result and takes at least two characters, so
/// a page adds at most as many results as it has characters.
pub proof fn lemma_run_growth(st: ParserModel, html: Seq<char>, i: int)
    requires
        0 <= i <= html.len(),
    ensures
        run(st, html, i).results.len() <= st.results.len() + (html.len() - i),
    decreases html.len() - i,
{
    if i >= html.len() {
    } else if html[i] == '<' {
        match char_pos_from(html, '>', i + 1) {
            Some(close) => {
                lemma_char_pos_from(html, '>', i + 1);
                let st1 = tag_step(st, html.subrange(i + 1, close));
                lemma_tag_adds_at_most_one(st, html.subrange(i + 1, close));
                lemma_run_growth(st1, html, close + 1);
            },
            None => {},
        }
    } else {
        lemma_char_pos_from(html, '<', i);
        lemma_run_growth(text_step(st, html.subrange(i, text_end(html, i))), html, text_end(html, i));
    }
}

/// Parsing a page adds at most as many results as the page has characters.
pub proof fn lemma_parse_growth(st: ParserModel, html: Seq<char>)
    ensures
        parsed_page(st, html).results.len() <= st.results.len() + html.len(),
{
    lemma_run_growth(st, html, 0);
}

} // verus!
