//! Attribute values of the elements of an HTML document.
use vstd::prelude::*;

verus! {

/// For the document `html` and the CSS selector `selector`: `None` where the
/// selector does not parse, else, in document order, one entry per matching
/// element, holding the value of its attribute `attr` where it has one.
pub uninterp spec fn html_attr_values_spec(
    html: Seq<char>,
    selector: Seq<char>,
    attr: Seq<char>,
) -> Option<Seq<Option<Seq<char>>>>;

/// Parses `html` with `scraper::Html::parse_document`, `selector` with
/// `scraper::Selector::parse`, and reads `attr` of each element that
/// `Html::select` yields. The document and the selector are opaque values of
/// the crate, so the three steps stand behind this one item. Claimed: the
/// result is `html_attr_values_spec` of the three texts.
#[verifier::external_body]
pub(crate) fn select_attr_values(html: &str, selector: &str, attr: &str) -> (r: Option<
    Vec<Option<String>>,
>)
    ensures
        r.deep_view() == html_attr_values_spec(html@, selector@, attr@),
{
    let parsed_selector = scraper::Selector::parse(selector).ok()?;
    let document = scraper::Html::parse_document(html);
    Some(document.select(&parsed_selector).map(|e| e.value().attr(attr).map(|v| v.to_string())).collect())
}

} // verus!
