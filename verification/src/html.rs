//! What is read from HTML pages: elements picked by CSS selectors.
use crate::address;
use crate::text::{self, CharClass};
use crate::utils;
use scraper::{Html, Selector};
use vstd::prelude::*;

verus! {

/// What is read from one element of a page.
#[derive(Debug)]
pub struct HtmlElement {
    /// The text nodes below the element, in order.
    pub pieces: Vec<String>,
    /// The attribute `href`.
    pub href: Option<String>,
    /// The attribute `src`.
    pub src: Option<String>,
    /// The attribute `data-src`.
    pub data_src: Option<String>,
}

/// The contents of an [`HtmlElement`].
pub struct HtmlElementView {
    pub pieces: Seq<Seq<char>>,
    pub href: Option<Seq<char>>,
    pub src: Option<Seq<char>>,
    pub data_src: Option<Seq<char>>,
}

impl View for HtmlElement {
    type V = HtmlElementView;

    open spec fn view(&self) -> HtmlElementView {
        HtmlElementView {
            pieces: text::texts(self.pieces@),
            href: address::chars_in(self.href),
            src: address::chars_in(self.src),
            data_src: address::chars_in(self.data_src),
        }
    }
}

/// The contents of a list of elements.
pub open spec fn element_views(v: Seq<HtmlElement>) -> Seq<HtmlElementView> {
    Seq::new(v.len(), |i: int| v[i]@)
}

/// The contents of a list of lists of elements.
pub open spec fn group_views(v: Seq<Vec<HtmlElement>>) -> Seq<Seq<HtmlElementView>> {
    Seq::new(v.len(), |i: int| element_views(v[i]@))
}

/// The largest number of bytes that a buffer of the HTML parser can grow to.
pub const MAX_BUFFER_BYTES: u64 = 0x8000_0000;

/// The largest number of bytes that one byte of a document can become in such a buffer.
pub const MAX_GROWTH: u64 = 3;

/// The largest number of characters of a selector. Nested selectors are read recursively.
pub const MAX_SELECTOR_CHARS: usize = 32;

/// Whether the HTML parser has room for a document, whatever it holds.
pub open spec fn fits_parser(html: Seq<char>) -> bool {
    MAX_GROWTH * utils::byte_len(html) <= MAX_BUFFER_BYTES
}

/// Decides whether the HTML parser has room for a document.
pub fn is_short_enough(html: &str) -> (b: bool)
    ensures
        b == fits_parser(html@),
{
    let bytes: usize = html.as_bytes().len();
    bytes as u64 <= MAX_BUFFER_BYTES / MAX_GROWTH
}

/// The elements of a document that a CSS selector picks.
pub uninterp spec fn selected(html: Seq<char>, selector: Seq<char>) -> Seq<HtmlElementView>;

/// `Html::parse_document` and `Html::select` pick the elements of a document that match a CSS
/// selector, in the order in which they are handed out. A selector that `Selector::parse`
/// refuses picks nothing. Text nodes and attributes are what `ElementRef::text` and
/// `Element::attr` return. The parser gives up on a document for which its buffers are too small;
/// a NUL is the byte that takes the most room, three bytes.
#[verifier::external_body]
pub(crate) fn select(html: &str, selector: &str) -> (r: Vec<HtmlElement>)
    requires
        fits_parser(html@),
        selector@.len() <= MAX_SELECTOR_CHARS,
    ensures
        element_views(r@) == selected(html@, selector@),
{
    let doc = Html::parse_document(html);
    let Ok(wanted) = Selector::parse(selector) else { return Vec::new() };
    let all = doc.select(&wanted);
    all.map(|e| HtmlElement {
        pieces: e.text().map(|t| t.to_string()).collect(),
        href: e.value().attr("href").map(|a| a.to_string()),
        src: e.value().attr("src").map(|a| a.to_string()),
        data_src: e.value().attr("data-src").map(|a| a.to_string()),
    }).collect()
}

/// For each element of a document that the outer selector picks, the elements below it that the
/// inner one picks.
pub uninterp spec fn selected_within(
    html: Seq<char>,
    outer: Seq<char>,
    inner: Seq<char>,
) -> Seq<Seq<HtmlElementView>>;

/// `ElementRef::select` picks the elements below a given one that match a CSS selector. It is
/// applied to every element that `Html::select` picks with the outer selector. Selectors that
/// `Selector::parse` refuses pick nothing. The document has to fit the parser, as for a selection
/// from the whole of it.
#[verifier::external_body]
pub(crate) fn select_within(html: &str, outer: &str, inner: &str) -> (r: Vec<Vec<HtmlElement>>)
    requires
        fits_parser(html@),
        outer@.len() <= MAX_SELECTOR_CHARS,
        inner@.len() <= MAX_SELECTOR_CHARS,
    ensures
        group_views(r@) == selected_within(html@, outer@, inner@),
{
    let doc = Html::parse_document(html);
    let Ok(group) = Selector::parse(outer) else { return Vec::new() };
    let Ok(wanted) = Selector::parse(inner) else { return Vec::new() };
    let all = doc.select(&group);
    all.map(|g| g.select(&wanted).map(|e| HtmlElement {
        pieces: e.text().map(|t| t.to_string()).collect(),
        href: e.value().attr("href").map(|a| a.to_string()),
        src: e.value().attr("src").map(|a| a.to_string()),
        data_src: e.value().attr("data-src").map(|a| a.to_string()),
    }).collect()).collect()
}

/// The text of an element: its text nodes with spaces between them, without the white space at
/// either end.
pub open spec fn text_of(e: HtmlElementView) -> Seq<char> {
    text::trimmed(text::joined(e.pieces, " "@))
}

/// The text of an element.
pub fn element_text(e: &HtmlElement) -> (s: String)
    ensures
        s@ == text_of(e@),
{
    let all = text::join(&e.pieces, " ");
    text::trim(all.as_str(), CharClass::WhiteSpace)
}

/// The first of a list of elements.
pub open spec fn first_of(v: Seq<HtmlElementView>) -> Option<HtmlElementView> {
    if v.len() > 0 {
        Some(v[0])
    } else {
        None
    }
}

/// The first element of the group at a position.
pub open spec fn first_in_group(v: Seq<Seq<HtmlElementView>>, i: int) -> Option<HtmlElementView> {
    if 0 <= i < v.len() {
        first_of(v[i])
    } else {
        None
    }
}

/// The contents of an optional element.
pub open spec fn view_in(e: Option<&HtmlElement>) -> Option<HtmlElementView> {
    match e {
        Some(e) => Some(e@),
        None => None,
    }
}

/// The first of a list of elements.
pub fn first(v: &Vec<HtmlElement>) -> (e: Option<&HtmlElement>)
    ensures
        view_in(e) == first_of(element_views(v@)),
{
    if v.len() > 0 {
        assert(element_views(v@)[0] == v@[0]@);
        Some(&v[0])
    } else {
        None
    }
}

/// The first element of the group at a position.
pub fn first_at(v: &Vec<Vec<HtmlElement>>, i: usize) -> (e: Option<&HtmlElement>)
    ensures
        view_in(e) == first_in_group(group_views(v@), i as int),
{
    if i < v.len() {
        assert(group_views(v@)[i as int] == element_views(v@[i as int]@));
        first(&v[i])
    } else {
        None
    }
}

/// The text of an element, or nothing where there is no element.
pub open spec fn text_or_none(e: Option<HtmlElementView>) -> Seq<char> {
    match e {
        Some(e) => text_of(e),
        None => Seq::empty(),
    }
}

/// The text of an element, or nothing where there is no element.
pub fn text_in(e: Option<&HtmlElement>) -> (s: String)
    ensures
        s@ == text_or_none(view_in(e)),
{
    match e {
        Some(e) => element_text(e),
        None => String::new(),
    }
}

/// The address of an image: the first attribute, else the second, else nothing.
pub open spec fn either_or_none(a: Option<Seq<char>>, b: Option<Seq<char>>) -> Seq<char> {
    match (a, b) {
        (Some(s), _) => s,
        (None, Some(s)) => s,
        (None, None) => Seq::empty(),
    }
}

fn either(a: &Option<String>, b: &Option<String>) -> (s: String)
    ensures
        s@ == either_or_none(address::chars_in(*a), address::chars_in(*b)),
{
    match a {
        Some(s) => text::copy_str(s.as_str()),
        None => match b {
            Some(s) => text::copy_str(s.as_str()),
            None => String::new(),
        },
    }
}

/// The address of an image that is loaded with its page.
pub open spec fn source_of(e: Option<HtmlElementView>) -> Seq<char> {
    match e {
        Some(e) => either_or_none(e.src, e.data_src),
        None => Seq::empty(),
    }
}

/// The address of an image that is loaded when it comes into view.
pub open spec fn lazy_source_of(e: Option<HtmlElementView>) -> Seq<char> {
    match e {
        Some(e) => either_or_none(e.data_src, e.src),
        None => Seq::empty(),
    }
}

/// The address of an image that is loaded with its page.
pub fn source(e: Option<&HtmlElement>) -> (s: String)
    ensures
        s@ == source_of(view_in(e)),
{
    match e {
        Some(e) => either(&e.src, &e.data_src),
        None => String::new(),
    }
}

/// The address of an image that is loaded when it comes into view.
pub fn lazy_source(e: Option<&HtmlElement>) -> (s: String)
    ensures
        s@ == lazy_source_of(view_in(e)),
{
    match e {
        Some(e) => either(&e.data_src, &e.src),
        None => String::new(),
    }
}

// ---------------------------------------------------------------------------------------------
// Laws
// ---------------------------------------------------------------------------------------------

/// The text of an element is all of its text nodes, in order, with a space between neighbours and
/// without the white space at the ends; an element that is not there has none.
pub proof fn law_text_of_an_element(e: HtmlElementView)
    ensures
        text_of(e) == text::trim_of(text::joined(e.pieces, seq![' ']), CharClass::WhiteSpace),
        text_or_none(Some(e)) == text_of(e),
        text_or_none(None) == Seq::<char>::empty(),
        e.pieces.len() == 1 ==> text_of(e) == text::trimmed(e.pieces[0]),
{
    reveal_strlit(" ");
    assert(" "@ =~= seq![' ']);
}

/// The first of a list of elements is the one at its front, where there is one.
pub proof fn law_first_element(v: Seq<HtmlElementView>, groups: Seq<Seq<HtmlElementView>>, i: int)
    ensures
        v.len() == 0 ==> first_of(v) is None,
        v.len() > 0 ==> first_of(v) == Some(v[0]),
        0 <= i < groups.len() && groups[i].len() > 0 ==> first_in_group(groups, i) == Some(
            groups[i][0],
        ),
        !(0 <= i < groups.len() && groups[i].len() > 0) ==> first_in_group(groups, i) is None,
{
}

/// An image is found at its attribute `src`, else at `data-src`; where images are loaded when they
/// come into view it is the other way round. Without either there is no address.
pub proof fn law_image_addresses(e: HtmlElementView)
    ensures
        e.src matches Some(s) ==> source_of(Some(e)) == s,
        e.src is None ==> (e.data_src matches Some(s) ==> source_of(Some(e)) == s),
        e.data_src matches Some(s) ==> lazy_source_of(Some(e)) == s,
        e.data_src is None ==> (e.src matches Some(s) ==> lazy_source_of(Some(e)) == s),
        e.src is None && e.data_src is None ==> source_of(Some(e)).len() == 0 && lazy_source_of(
            Some(e),
        ).len() == 0,
        source_of(None).len() == 0 && lazy_source_of(None).len() == 0,
{
}

/// What an element holds is what its parts hold, and a list of elements holds each, in order. The
/// parser has room for documents of up to a third of two gibibytes.
pub proof fn law_contents_of_elements(
    e: HtmlElement,
    v: Seq<HtmlElement>,
    groups: Seq<Vec<HtmlElement>>,
    i: int,
    html: Seq<char>,
)
    ensures
        e@.pieces == text::texts(e.pieces@),
        e@.href == address::chars_in(e.href),
        e@.src == address::chars_in(e.src),
        e@.data_src == address::chars_in(e.data_src),
        view_in(Some(&e)) == Some(e@),
        view_in(None) is None,
        element_views(v).len() == v.len(),
        0 <= i < v.len() ==> element_views(v)[i] == v[i]@,
        group_views(groups).len() == groups.len(),
        0 <= i < groups.len() ==> group_views(groups)[i] == element_views(groups[i]@),
        fits_parser(html) <==> utils::byte_len(html) <= 715_827_882,
{
}

} // verus!
