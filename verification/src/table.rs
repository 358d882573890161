use vstd::prelude::*;
use vstd::string::StringExecFns;

use crate::model::{Model, ModelView};
use crate::text::{split_trim_commas, split_trimmed};
use crate::version::{Version, VersionView};

verus! {

/// The mathematical value of an [`Anchor`].
pub ghost struct AnchorView {
    pub text: Seq<char>,
    pub href: Option<Seq<char>>,
}

/// The mathematical value of a [`Cell`].
pub ghost struct CellView {
    pub text: Option<Seq<char>>,
    pub anchor: Option<AnchorView>,
}

/// The first anchor element found inside a table cell: its first text
/// content (empty if it has none) and its target attribute, if any.
pub struct Anchor {
    pub text: String,
    pub href: Option<String>,
}

/// One table cell, flattened to what the extractor reads: its first
/// text content, if any, and its first anchor, if any.
pub struct Cell {
    pub text: Option<String>,
    pub anchor: Option<Anchor>,
}

impl View for Anchor {
    type V = AnchorView;

    open spec fn view(&self) -> AnchorView {
        AnchorView {
            text: self.text@,
            href: match self.href {
                Some(h) => Some(h@),
                None => None,
            },
        }
    }
}

impl View for Cell {
    type V = CellView;

    open spec fn view(&self) -> CellView {
        CellView {
            text: match self.text {
                Some(t) => Some(t@),
                None => None,
            },
            anchor: match self.anchor {
                Some(a) => Some(a@),
                None => None,
            },
        }
    }
}

/// The mathematical value of a row of cells.
pub open spec fn row_view(cells: Seq<Cell>) -> Seq<CellView> {
    cells.map_values(|c: Cell| c@)
}

/// The fixed origin prefixed to every relative link found in the table.
pub open spec fn spec_root_url() -> Seq<char> {
    "https://openwrt.org"@
}

/// A relative link made absolute: the root URL followed by the
/// relative path, as plain text concatenation.
pub open spec fn spec_absolute_url(href: Seq<char>) -> Seq<char> {
    spec_root_url() + href
}

/// Returns the fixed origin of the publishing site.
pub fn openwrt_root_page() -> (r: &'static str)
    ensures
        r@ == spec_root_url(),
{
    "https://openwrt.org"
}

/// Makes a relative link absolute, as [`spec_absolute_url`] describes.
pub fn absolute_url(href: &str) -> (r: String)
    ensures
        r@ == spec_absolute_url(href@),
{
    let mut url = openwrt_root_page().to_owned();
    url.append(href);
    url
}

/// The text content of logical field `i` of a row, counted after the
/// leading row-number cell; `None` when the cell is absent or has no
/// text.
pub open spec fn field_text(row: Seq<CellView>, i: int) -> Option<Seq<char>> {
    if 0 <= i && 1 + i < row.len() {
        row[1 + i].text
    } else {
        None
    }
}

/// The first anchor of logical field `i` of a row, counted after the
/// leading row-number cell; `None` when the cell is absent or has no
/// anchor.
pub open spec fn field_anchor(row: Seq<CellView>, i: int) -> Option<AnchorView> {
    if 0 <= i && 1 + i < row.len() {
        row[1 + i].anchor
    } else {
        None
    }
}

/// The brand name a row defines: the text of its brand cell, or the
/// empty string when that cell is absent or empty. Attributing such a
/// row to the empty-string brand, rather than skipping it or failing,
/// is a deliberate policy choice.
pub open spec fn spec_brand_name(row: Seq<CellView>) -> Seq<char> {
    match field_text(row, 0) {
        Some(t) => t,
        None => Seq::empty(),
    }
}

/// The model name of a row, defaulting to the empty string.
pub open spec fn spec_model_name(row: Seq<CellView>) -> Seq<char> {
    match field_text(row, 1) {
        Some(t) => t,
        None => Seq::empty(),
    }
}

/// The hardware revisions of a row: the comma-separated segments of
/// the hardware-versions cell, each trimmed; empty when the cell is
/// absent or has no text.
pub open spec fn spec_hardware_versions(row: Seq<CellView>) -> Seq<Seq<char>> {
    match field_text(row, 2) {
        Some(t) => split_trimmed(t),
        None => Seq::empty(),
    }
}

/// An anchor that is present but has no target attribute: a markup
/// contract breach that the extractor must not paper over.
pub open spec fn anchor_missing_target(a: Option<AnchorView>) -> bool {
    match a {
        Some(a) => a.href is None,
        None => false,
    }
}

/// Whether extracting this row must fail: one of its two link cells
/// holds an anchor without a target.
pub open spec fn row_fatal(row: Seq<CellView>) -> bool {
    anchor_missing_target(field_anchor(row, 3)) || anchor_missing_target(field_anchor(row, 4))
}

/// The firmware release of a row: the first anchor of the
/// firmware-version cell gives the label and, through the root URL,
/// the absolute link; no anchor means the empty release.
pub open spec fn spec_firmware_version(row: Seq<CellView>) -> VersionView {
    match field_anchor(row, 3) {
        Some(a) => VersionView {
            version: a.text,
            link: match a.href {
                Some(h) => spec_absolute_url(h),
                None => Seq::empty(),
            },
        },
        None => VersionView { version: Seq::empty(), link: Seq::empty() },
    }
}

/// The reference page of a row: the absolute form of the first anchor
/// target of the reference-page cell, or the empty string.
pub open spec fn spec_device_page(row: Seq<CellView>) -> Seq<char> {
    match field_anchor(row, 4) {
        Some(a) => match a.href {
            Some(h) => spec_absolute_url(h),
            None => Seq::empty(),
        },
        None => Seq::empty(),
    }
}

/// The model a row describes, field by field.
pub open spec fn spec_row_model(row: Seq<CellView>) -> ModelView {
    ModelView {
        name: spec_model_name(row),
        versions: spec_hardware_versions(row),
        openwrt_version: spec_firmware_version(row),
        device_page: spec_device_page(row),
    }
}

/// The one fatal condition inside the extraction engine.
#[derive(Clone, Copy, Debug, PartialEq, Eq)]
pub enum ExtractError {
    /// An anchor element was present but had no target attribute.
    MissingAnchorTarget,
}

impl ExtractError {
    /// Returns a short description of the error.
    pub fn describe(&self) -> (r: &'static str)
        ensures
            r@ == "anchor element without a target attribute"@,
    {
        "anchor element without a target attribute"
    }
}

/// Whether a link keeps the invariant of every link in a catalog: it
/// is empty, or it carries the root URL as its exact prefix.
pub open spec fn link_absolute(l: Seq<char>) -> bool {
    l.len() == 0 || (l.len() >= spec_root_url().len() && l.take(spec_root_url().len() as int)
        == spec_root_url())
}

/// Whether both links of a model keep that invariant.
pub open spec fn model_links_absolute(m: ModelView) -> bool {
    link_absolute(m.openwrt_version.link) && link_absolute(m.device_page)
}

/// Every model a row describes keeps the link invariant: its links
/// are empty or begin with the root URL.
pub proof fn lemma_row_model_links_absolute(row: Seq<CellView>)
    ensures
        model_links_absolute(spec_row_model(row)),
{
    match field_anchor(row, 3) {
        Some(a) => match a.href {
            Some(h) => {
                assert((spec_root_url() + h).take(spec_root_url().len() as int)
                    =~= spec_root_url());
            },
            None => {},
        },
        None => {},
    }
    match field_anchor(row, 4) {
        Some(a) => match a.href {
            Some(h) => {
                assert((spec_root_url() + h).take(spec_root_url().len() as int)
                    =~= spec_root_url());
            },
            None => {},
        },
        None => {},
    }
}

/// Law: any anchor target taken from the reference-page cell is made
/// absolute by prefixing the root URL to it textually, nothing more.
pub proof fn lemma_device_page_absolutization(row: Seq<CellView>, h: Seq<char>)
    requires
        field_anchor(row, 4) matches Some(a) && a.href == Some(h),
    ensures
        spec_row_model(row).device_page == spec_root_url() + h,
{
}

/// Law: any anchor target taken from the firmware-version cell is made
/// absolute by prefixing the root URL to it textually, nothing more.
pub proof fn lemma_firmware_link_absolutization(row: Seq<CellView>, h: Seq<char>)
    requires
        field_anchor(row, 3) matches Some(a) && a.href == Some(h),
    ensures
        spec_row_model(row).openwrt_version.link == spec_root_url() + h,
{
}

/// Turns one data row into the brand name it mentions and the model it
/// describes, tolerating absent or empty cells; fails exactly when a
/// link cell holds an anchor without a target.
pub fn extract_row(cells: &Vec<Cell>) -> (r: Result<(String, Model), ExtractError>)
    ensures
        ({
            let rv = row_view(cells@);
            match r {
                Ok(p) => !row_fatal(rv) && p.0@ == spec_brand_name(rv) && p.1@ == spec_row_model(
                    rv,
                ),
                Err(e) => row_fatal(rv) && e == ExtractError::MissingAnchorTarget,
            }
        }),
{
    let ghost rv = row_view(cells@);
    let brand: String = if cells.len() > 1 {
        match &cells[1].text {
            Some(t) => t.clone(),
            None => String::new(),
        }
    } else {
        String::new()
    };
    let name: String = if cells.len() > 2 {
        match &cells[2].text {
            Some(t) => t.clone(),
            None => String::new(),
        }
    } else {
        String::new()
    };
    let versions: Vec<String> = if cells.len() > 3 {
        match &cells[3].text {
            Some(t) => split_trim_commas(t.as_str()),
            None => Vec::new(),
        }
    } else {
        Vec::new()
    };
    let openwrt_version: Version = if cells.len() > 4 {
        match &cells[4].anchor {
            Some(a) => match &a.href {
                Some(h) => Version::new(a.text.clone(), absolute_url(h.as_str())),
                None => {
                    return Err(ExtractError::MissingAnchorTarget);
                },
            },
            None => Version::new(String::new(), String::new()),
        }
    } else {
        Version::new(String::new(), String::new())
    };
    let device_page: String = if cells.len() > 5 {
        match &cells[5].anchor {
            Some(a) => match &a.href {
                Some(h) => absolute_url(h.as_str()),
                None => {
                    return Err(ExtractError::MissingAnchorTarget);
                },
            },
            None => String::new(),
        }
    } else {
        String::new()
    };
    proof {
        assert(forall|k: int| 0 <= k < cells@.len() ==> #[trigger] rv[k] == cells@[k]@);
        assert(brand@ =~= spec_brand_name(rv));
        assert(name@ =~= spec_model_name(rv));
        assert(versions@.map_values(|s: String| s@) =~= spec_hardware_versions(rv));
        assert(openwrt_version@.version =~= spec_firmware_version(rv).version);
        assert(openwrt_version@.link =~= spec_firmware_version(rv).link);
        assert(device_page@ =~= spec_device_page(rv));
    }
    let model = Model::new(name, versions, openwrt_version, device_page);
    Ok((brand, model))
}

} // verus!
