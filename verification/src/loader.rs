//! Turns raw HTML text into the catalog: the markup access layer
//! flattens the document into plain rows of cells, and the verified
//! extraction core does everything else.

use vstd::prelude::*;

use crate::catalog::{
    catalog_links_absolute, extract_catalog, is_extraction_outcome,
    lemma_extraction_links_absolute, rows_view,
};
use crate::manufacturer::Manufacturer;
use crate::markup::{flatten_rows, rows_of};
use crate::table::ExtractError;

verus! {

/// Loads all brand details from `html_content`.
///
/// The result is exactly the extraction of the rows the markup layer
/// finds in the text — [`rows_of`] names them, and
/// [`extract_catalog`] carries the row-by-row contract — so equal
/// texts give equal results, a catalog comes back if and only if the
/// text holds a data row and none breaks the anchor contract, and
/// every link of a returned catalog is empty or begins with the root
/// URL.
pub fn load_manufacturers_from(html_content: &str) -> (r: Result<
    Option<Vec<Manufacturer>>,
    ExtractError,
>)
    ensures
        is_extraction_outcome(rows_of(html_content@), r),
        r matches Ok(Some(brands)) ==> catalog_links_absolute(
            brands@.map_values(|m: Manufacturer| m@),
        ),
{
    let rows = flatten_rows(html_content);
    let result = extract_catalog(&rows);
    proof {
        lemma_extraction_links_absolute(rows_view(rows@), result);
    }
    result
}

} // verus!
