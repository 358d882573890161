use vstd::prelude::*;

use crate::version::{Version, VersionView};

verus! {

/// The mathematical value of a [`Model`].
pub ghost struct ModelView {
    pub name: Seq<char>,
    pub versions: Seq<Seq<char>>,
    pub openwrt_version: VersionView,
    pub device_page: Seq<char>,
}

/// One hardware model under a brand.
///
/// `versions` keeps the left-to-right order and verbatim trimmed text
/// of the comma-separated hardware-revisions cell; it is empty when
/// that cell was empty. `device_page` is an absolute URL or empty.
pub struct Model {
    name: String,
    versions: Vec<String>,
    openwrt_version: Version,
    device_page: String,
}

impl View for Model {
    type V = ModelView;

    closed spec fn view(&self) -> ModelView {
        ModelView {
            name: self.name@,
            versions: self.versions@.map_values(|s: String| s@),
            openwrt_version: self.openwrt_version@,
            device_page: self.device_page@,
        }
    }
}

impl Model {
    /// Creates a new `Model` from its four fields.
    pub fn new(
        name: String,
        versions: Vec<String>,
        openwrt_version: Version,
        device_page: String,
    ) -> (r: Self)
        ensures
            r@ == (ModelView {
                name: name@,
                versions: versions@.map_values(|s: String| s@),
                openwrt_version: openwrt_version@,
                device_page: device_page@,
            }),
    {
        Model { name, versions, openwrt_version, device_page }
    }

    /// Returns the model name.
    pub fn name(&self) -> (r: &String)
        ensures
            r@ == self@.name,
    {
        &self.name
    }

    /// Returns the hardware revisions, in source order.
    pub fn versions(&self) -> (r: &Vec<String>)
        ensures
            r@.map_values(|s: String| s@) == self@.versions,
    {
        &self.versions
    }

    /// Returns the supported firmware release for this model.
    pub fn openwrt_version(&self) -> (r: &Version)
        ensures
            r@ == self@.openwrt_version,
    {
        &self.openwrt_version
    }

    /// Returns the detail page URL, or the empty string if none is known.
    pub fn device_page(&self) -> (r: &String)
        ensures
            r@ == self@.device_page,
    {
        &self.device_page
    }
}

} // verus!
