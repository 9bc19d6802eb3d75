//! HTML documents and what CSS selectors and regular expressions pick
//! out of them. The selection itself is done by the `scraper` crate, the
//! matching by the `regex` crate; what they pick is handed on as plain
//! strings.
use vstd::prelude::*;

use regex::Regex;
use scraper::{Html, Selector};

verus! {

/// An HTML document, held as its source text.
pub struct Document {
    body: String,
}

impl View for Document {
    type V = Seq<char>;

    closed spec fn view(&self) -> Seq<char> {
        self.body@
    }
}

impl Document {
    /// The document whose source text is `document_body`.
    pub fn parse_document(document_body: &str) -> (d: Document)
        ensures
            d@ == document_body@,
    {
        Document { body: document_body.to_owned() }
    }

    /// The source text of the document.
    pub fn body(&self) -> (s: &str)
        ensures
            s@ == self@,
    {
        self.body.as_str()
    }
}

/// For the elements of the parsed `document` that `selector` matches, in
/// the order scraper's walk of the parsed tree yields them, the value of the attribute `attribute` of each; `None`
/// when `selector` is not a valid selector.
pub uninterp spec fn scraper_select_attribute(
    document: Seq<char>,
    selector: Seq<char>,
    attribute: Seq<char>,
) -> Option<Seq<Option<Seq<char>>>>;

/// For the elements of the parsed `document` that `selector` matches, in
/// the order scraper's walk of the parsed tree yields them, the inner HTML of each; `None` when `selector` is not a
/// valid selector.
pub uninterp spec fn scraper_select_inner_html(document: Seq<char>, selector: Seq<char>) -> Option<
    Seq<Seq<char>>,
>;

/// For each element of the parsed `document` that `outer` matches, its
/// attribute `outer_attribute` and, for each of its descendants that
/// `inner` matches, their attribute `inner_attribute`; `None` when either
/// selector is not valid.
pub uninterp spec fn scraper_select_nested_attribute(
    document: Seq<char>,
    outer: Seq<char>,
    inner: Seq<char>,
    outer_attribute: Seq<char>,
    inner_attribute: Seq<char>,
) -> Option<Seq<(Option<Seq<char>>, Seq<Option<Seq<char>>>)>>;

/// For each element of the parsed `document` that `outer` matches, the
/// inner HTML of each of its descendants that `inner` matches; `None`
/// when either selector is not valid.
pub uninterp spec fn scraper_select_nested_inner_html(
    document: Seq<char>,
    outer: Seq<char>,
    inner: Seq<char>,
) -> Option<Seq<Seq<Seq<char>>>>;

/// For each successive non-overlapping match of the regular expression
/// `pattern` in `haystack`, the text of its capture group `group` (if that
/// group took part); `None` when `pattern` is not a valid expression.
pub uninterp spec fn regex_capture_group(pattern: Seq<char>, haystack: Seq<char>, group: usize) -> Option<
    Seq<Option<Seq<char>>>,
>;

/// Parses `document` with scraper's `Html::parse_document`, parses
/// `selector` with `Selector::parse` and walks `Html::select`, reading
/// `Element::attr(attribute)` of each element. Claimed: the result is the
/// named result of these calls on these arguments; nothing about which
/// elements match is stated.
#[verifier::external_body]
pub(crate) fn select_attribute(document: &str, selector: &str, attribute: &str) -> (r: Option<
    Vec<Option<String>>,
>)
    ensures
        r.deep_view() == scraper_select_attribute(document@, selector@, attribute@),
{
    let selector = match Selector::parse(selector) {
        Ok(s) => s,
        Err(_) => return None,
    };
    let html = Html::parse_document(document);
    let mut values = Vec::new();
    for element in html.select(&selector) {
        values.push(element.value().attr(attribute).map(String::from));
    }
    Some(values)
}

/// Parses `document` with scraper's `Html::parse_document`, parses
/// `selector` with `Selector::parse` and walks `Html::select`, taking
/// `ElementRef::inner_html` of each element. Claimed: the result is the
/// named result of these calls on these arguments.
#[verifier::external_body]
pub(crate) fn select_inner_html(document: &str, selector: &str) -> (r: Option<Vec<String>>)
    ensures
        r.deep_view() == scraper_select_inner_html(document@, selector@),
{
    let selector = match Selector::parse(selector) {
        Ok(s) => s,
        Err(_) => return None,
    };
    let html = Html::parse_document(document);
    let mut values = Vec::new();
    for element in html.select(&selector) {
        values.push(element.inner_html());
    }
    Some(values)
}

/// Parses `document` with scraper's `Html::parse_document` and both
/// selectors with `Selector::parse`; walks `Html::select(outer)` and, in
/// each element, `ElementRef::select(inner)`, reading `Element::attr`.
/// Claimed: the result is the named result of these calls on these
/// arguments.
#[verifier::external_body]
pub(crate) fn select_nested_attribute(
    document: &str,
    outer: &str,
    inner: &str,
    outer_attribute: &str,
    inner_attribute: &str,
) -> (r: Option<Vec<(Option<String>, Vec<Option<String>>)>>)
    ensures
        r.deep_view() == scraper_select_nested_attribute(
            document@,
            outer@,
            inner@,
            outer_attribute@,
            inner_attribute@,
        ),
{
    let (outer, inner) = match (Selector::parse(outer), Selector::parse(inner)) {
        (Ok(o), Ok(i)) => (o, i),
        _ => return None,
    };
    let html = Html::parse_document(document);
    let mut groups = Vec::new();
    for element in html.select(&outer) {
        let mut values = Vec::new();
        for inside in element.select(&inner) {
            values.push(inside.value().attr(inner_attribute).map(String::from));
        }
        groups.push((element.value().attr(outer_attribute).map(String::from), values));
    }
    Some(groups)
}

/// Parses `document` with scraper's `Html::parse_document` and both
/// selectors with `Selector::parse`; walks `Html::select(outer)` and, in
/// each element, `ElementRef::select(inner)`, taking
/// `ElementRef::inner_html`. Claimed: the result is the named result of
/// these calls on these arguments.
#[verifier::external_body]
pub(crate) fn select_nested_inner_html(document: &str, outer: &str, inner: &str) -> (r: Option<
    Vec<Vec<String>>,
>)
    ensures
        r.deep_view() == scraper_select_nested_inner_html(document@, outer@, inner@),
{
    let (outer, inner) = match (Selector::parse(outer), Selector::parse(inner)) {
        (Ok(o), Ok(i)) => (o, i),
        _ => return None,
    };
    let html = Html::parse_document(document);
    let mut groups = Vec::new();
    for element in html.select(&outer) {
        let mut values = Vec::new();
        for inside in element.select(&inner) {
            values.push(inside.inner_html());
        }
        groups.push(values);
    }
    Some(groups)
}

/// Compiles `pattern` with regex's `Regex::new` and walks
/// `Regex::captures_iter(haystack)`, taking `Captures::get(group)` of each
/// match. Claimed: the result is the named result of these calls on these
/// arguments; which texts match is not stated.
#[verifier::external_body]
pub(crate) fn capture_group(pattern: &str, haystack: &str, group: usize) -> (r: Option<
    Vec<Option<String>>,
>)
    ensures
        r.deep_view() == regex_capture_group(pattern@, haystack@, group),
{
    let re = match Regex::new(pattern) {
        Ok(re) => re,
        Err(_) => return None,
    };
    let mut found = Vec::new();
    for captures in re.captures_iter(haystack) {
        found.push(
            match captures.get(group) {
                Some(m) => Some(m.as_str().to_string()),
                None => None,
            },
        );
    }
    Some(found)
}

} // verus!
