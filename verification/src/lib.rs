//! Catalog of router hardware extracted from the vendor-maintained
//! "supported devices" HTML table: brands, their models, hardware
//! revisions, the supported firmware release and a reference page.
//!
//! The extraction core works on a plain, already-flattened view of the
//! table rows and is verified end to end; the markup access layer that
//! produces that view from raw HTML text is a thin trusted boundary.

pub mod catalog;
pub mod loader;
pub mod manufacturer;
pub mod markup;
pub mod model;
pub mod table;
pub mod text;
pub mod version;

pub use catalog::extract_catalog;
pub use loader::load_manufacturers_from;
pub use manufacturer::{find_brand, Manufacturer};
pub use model::Model;
pub use table::{openwrt_root_page, Anchor, Cell, ExtractError};
pub use version::Version;
