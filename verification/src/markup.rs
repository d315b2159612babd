//! Trusted boundary to the outside markup library.
//!
//! Everything the library learns about an HTML text it learns through the
//! four query functions of this module, each a thin wrapper around the
//! `scraper` crate.  Each result is a function of the wrapper's text
//! arguments alone, so it is named by an uninterpreted spec function; the
//! verified grouper, extractor and pipeline state their contracts over
//! those names.

use vstd::prelude::*;

verus! {

/// The class attribute and serialized markup of every row (`tr`) of every
/// result table (`table.WRD`) of `page`: tables in document order, each
/// table's rows in document order.
pub uninterp spec fn table_rows_of(page: Seq<char>) -> Seq<Seq<(Option<Seq<char>>, Seq<char>)>>;

/// Whether `page` contains the marker element by which the dictionary
/// reports that the queried word has no entry.
pub uninterp spec fn no_entry_marker(page: Seq<char>) -> bool;

/// The first text node of each element of `fragment` matching `selector`,
/// in document order; `None` stands for an element without a text node.
pub uninterp spec fn first_texts_of(fragment: Seq<char>, selector: Seq<char>) -> Seq<
    Option<Seq<char>>,
>;

/// The first text node of each element matching `inner` inside the first
/// element of `fragment` matching `outer`, in document order; `None` when
/// no element matches `outer`.
pub uninterp spec fn within_first_texts_of(
    fragment: Seq<char>,
    outer: Seq<char>,
    inner: Seq<char>,
) -> Option<Seq<Option<Seq<char>>>>;

/// Relies on scraper's `Html::parse_document`, `Html::select`,
/// `ElementRef::select`, `ElementRef::attr` and `ElementRef::html`: parses
/// the page, selects its result tables, and hands out each table's rows as
/// the row's class attribute and its serialized markup, in document order.
#[verifier::external_body]
pub(crate) fn select_table_rows(page: &str) -> (r: Vec<Vec<(Option<String>, String)>>)
    ensures
        r.deep_view() == table_rows_of(page@),
{
    let doc = scraper::Html::parse_document(page);
    let table_sel = scraper::Selector::parse("table.WRD").unwrap();
    let row_sel = scraper::Selector::parse("tr").unwrap();
    doc.select(&table_sel)
        .map(
            |table|
                table
                    .select(&row_sel)
                    .map(|row| (row.attr("class").map(|c| c.to_string()), row.html()))
                    .collect(),
        )
        .collect()
}

/// Relies on scraper's `Html::parse_document` and `Html::select`: whether
/// the page contains an element matching `p#noEntryFound`.
#[verifier::external_body]
pub(crate) fn page_reports_no_entry(page: &str) -> (r: bool)
    ensures
        r == no_entry_marker(page@),
{
    let doc = scraper::Html::parse_document(page);
    let sel = scraper::Selector::parse("p#noEntryFound").unwrap();
    doc.select(&sel).next().is_some()
}

/// Relies on scraper's `Html::parse_fragment`, `Html::select` and
/// `ElementRef::text`: the first text node of each element matching
/// `selector`, in document order.
#[verifier::external_body]
pub(crate) fn select_first_texts(fragment: &str, selector: &str) -> (r: Vec<Option<String>>)
    ensures
        r.deep_view() == first_texts_of(fragment@, selector@),
{
    let doc = scraper::Html::parse_fragment(fragment);
    match scraper::Selector::parse(selector) {
        Ok(sel) => doc.select(&sel).map(|el| el.text().next().map(|t| t.to_string())).collect(),
        Err(_) => Vec::new(),
    }
}

/// Relies on scraper's `Html::parse_fragment`, `Html::select`,
/// `ElementRef::select` and `ElementRef::text`: the first text node of
/// each element matching `inner` inside the first element matching
/// `outer`, or `None` when nothing matches `outer`.
#[verifier::external_body]
pub(crate) fn select_within_first(fragment: &str, outer: &str, inner: &str) -> (r: Option<
    Vec<Option<String>>,
>)
    ensures
        r.deep_view() == within_first_texts_of(fragment@, outer@, inner@),
{
    let doc = scraper::Html::parse_fragment(fragment);
    match (scraper::Selector::parse(outer), scraper::Selector::parse(inner)) {
        (Ok(osel), Ok(isel)) => doc.select(&osel).next().map(
            |el| el.select(&isel).map(|e| e.text().next().map(|t| t.to_string())).collect(),
        ),
        _ => None,
    }
}

} // verus!
