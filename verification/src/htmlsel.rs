//! Thin access to the `scraper` crate: parsing an HTML document, compiling
//! a CSS selector, selecting elements and reading an element's attribute or
//! contents. The values are opaque here; everything built from them is
//! verified in the catalog modules.

use vstd::prelude::*;

verus! {

#[verifier::external_type_specification]
#[verifier::external_body]
pub struct ExHtml(scraper::Html);

#[verifier::external_type_specification]
#[verifier::external_body]
pub struct ExSelector(scraper::Selector);

#[verifier::external_type_specification]
#[verifier::external_body]
pub struct ExElementRef<'a>(scraper::ElementRef<'a>);

/// Relies on scraper::Html::parse_document: parses the page, however
/// malformed, into a document.
#[verifier::external_body]
pub fn parse_document(text: &str) -> scraper::Html {
    scraper::Html::parse_document(text)
}

/// Relies on scraper::Selector::parse: compiles a CSS selector; `None` when
/// the selector text is invalid.
#[verifier::external_body]
pub fn parse_selector(text: &str) -> Option<scraper::Selector> {
    match scraper::Selector::parse(text) {
        Ok(s) => Some(s),
        Err(_) => None,
    }
}

/// Relies on scraper::Html::select: the document's elements matching the
/// selector, in document order.
#[verifier::external_body]
pub fn select_in_document<'a>(doc: &'a scraper::Html, sel: &scraper::Selector) -> Vec<
    scraper::ElementRef<'a>,
> {
    doc.select(sel).collect()
}

/// Relies on scraper::ElementRef::select: the element's descendants
/// matching the selector, in document order.
#[verifier::external_body]
pub fn select_in_element<'a>(el: &scraper::ElementRef<'a>, sel: &scraper::Selector) -> Vec<
    scraper::ElementRef<'a>,
> {
    el.select(sel).collect()
}

/// Relies on scraper::ElementRef::attr: the element's attribute value, when
/// the attribute is present.
#[verifier::external_body]
pub fn element_attr(el: &scraper::ElementRef<'_>, name: &str) -> Option<String> {
    el.attr(name).map(|v| v.to_string())
}

/// Relies on scraper::ElementRef::inner_html: the markup between the
/// element's tags.
#[verifier::external_body]
pub fn element_inner_html(el: &scraper::ElementRef<'_>) -> String {
    el.inner_html()
}

} // verus!
