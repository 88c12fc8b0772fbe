//! What the `scraper` crate finds in an HTML document: the elements that a
//! CSS selector matches, in the order in which `Html::select` yields them.

use vstd::prelude::*;
use crate::allanime::opt_string_view;

verus! {

/// For each element of the HTML document `html` that the CSS selector
/// `selector` matches, in the order in which `Html::select` yields them:
/// the value of its attribute `attr` where it has one, and the text that it
/// holds. Nothing where the selector does not parse.
pub uninterp spec fn selected_elements(html: Seq<char>, selector: Seq<char>, attr: Seq<char>) -> Seq<
    (Option<Seq<char>>, Seq<char>),
>;

pub open spec fn elements_view(v: Seq<(Option<String>, String)>) -> Seq<(Option<Seq<char>>, Seq<char>)> {
    v.map_values(|e: (Option<String>, String)| (opt_string_view(e.0), e.1@))
}

/// Parses `html` with `scraper::Html::parse_document` and `selector` with
/// `scraper::Selector::parse`, and gives for each element that
/// `Html::select` yields the value of its attribute `attr` (`Element::attr`)
/// and its text (`ElementRef::text`, joined), or no element where the
/// selector does not parse. The contract claims only that the result is the
/// named function of the three texts.
#[verifier::external_body]
pub(crate) fn select_elements(html: &str, selector: &str, attr: &str) -> (r: Vec<(Option<String>, String)>)
    ensures
        elements_view(r@) == selected_elements(html@, selector@, attr@),
{
    let document = ::scraper::Html::parse_document(html);
    let selector = match ::scraper::Selector::parse(selector) {
        Ok(selector) => selector,
        Err(_) => return Vec::new(),
    };
    document.select(&selector).map(|e| (e.value().attr(attr).map(str::to_string), e.text().collect::<String>())).collect()
}

} // verus!
