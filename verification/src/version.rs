use vstd::prelude::*;

verus! {

/// The mathematical value of a [`Version`]: the release label and the
/// link, both as character sequences.
pub ghost struct VersionView {
    pub version: Seq<char>,
    pub link: Seq<char>,
}

/// A firmware release identifier paired with a reference URL.
///
/// Both fields may be empty; a non-empty link is always an absolute
/// URL, never a bare relative path.
pub struct Version {
    version: String,
    link: String,
}

impl View for Version {
    type V = VersionView;

    closed spec fn view(&self) -> VersionView {
        VersionView { version: self.version@, link: self.link@ }
    }
}

impl Version {
    /// Creates a new `Version` from a release label and its link.
    pub fn new(version: String, link: String) -> (r: Self)
        ensures
            r@ == (VersionView { version: version@, link: link@ }),
    {
        Version { version, link }
    }

    /// Returns the release label.
    pub fn version(&self) -> (r: &String)
        ensures
            r@ == self@.version,
    {
        &self.version
    }

    /// Returns the reference URL, or the empty string if none is known.
    pub fn link(&self) -> (r: &String)
        ensures
            r@ == self@.link,
    {
        &self.link
    }
}

} // verus!
