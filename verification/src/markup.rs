//! The markup access layer: the only part of the library that talks
//! to the HTML parsing engine. One trusted wrapper flattens the
//! document to plain rows of cells; its result is a function of the
//! input text alone and carries the name [`rows_of`], so that every
//! caller's contract can be exact. Everything that decides or
//! computes on the flattened rows is verified code elsewhere.

use vstd::prelude::*;

use crate::catalog::rows_view;
use crate::table::{Anchor, Cell, CellView};

verus! {

/// A name for what flattening an HTML text yields: the rows of the
/// device table, each as its cells in the order the parser's node
/// arena yields them, each cell reduced to its first text and first
/// anchor. Parsing and selector matching are deterministic, so this
/// is a function of the text alone.
pub uninterp spec fn rows_of(html: Seq<char>) -> Seq<Seq<CellView>>;

/// Relies on scraper: Html::parse_document parses the text
/// best-effort and does not fail on malformed input; the three fixed,
/// always-valid selectors pick the device-table rows, their cells and
/// their anchors, in the order the node arena yields them; text walks
/// the descendant text nodes; attr reads the target attribute. The
/// result is a function of the text alone, named [`rows_of`].
#[verifier::external_body]
pub(crate) fn flatten_rows(html: &str) -> (r: Vec<Vec<Cell>>)
    ensures
        rows_view(r@) == rows_of(html@),
{
    let document = scraper::Html::parse_document(html);
    let rows = scraper::Selector::parse(".table.dataaggregation tr").unwrap();
    let cells = scraper::Selector::parse("td").unwrap();
    let anchors = scraper::Selector::parse("a").unwrap();
    document.select(&rows).map(|row| row.select(&cells).map(|cell| Cell {
        text: cell.text().next().map(str::to_owned),
        anchor: cell.select(&anchors).next().map(|a| Anchor {
            text: a.text().next().unwrap_or("").to_owned(),
            href: a.attr("href").map(str::to_owned),
        }),
    }).collect()).collect()
}

} // verus!
