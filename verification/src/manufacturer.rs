use vstd::prelude::*;

use crate::model::{Model, ModelView};

verus! {

/// The mathematical value of a [`Manufacturer`].
pub ghost struct ManufacturerView {
    pub name: Seq<char>,
    pub models: Seq<ModelView>,
}

/// One router brand and all its known models.
///
/// `models` holds the models in the order their rows were first seen
/// in the source table; every model came from a row whose brand cell
/// text equalled `name` exactly, case sensitively.
pub struct Manufacturer {
    name: String,
    models: Vec<Model>,
}

impl View for Manufacturer {
    type V = ManufacturerView;

    closed spec fn view(&self) -> ManufacturerView {
        ManufacturerView {
            name: self.name@,
            models: self.models@.map_values(|m: Model| m@),
        }
    }
}

impl Manufacturer {
    /// Creates a new `Manufacturer` from its name and models.
    pub fn new(name: String, models: Vec<Model>) -> (r: Self)
        ensures
            r@ == (ManufacturerView {
                name: name@,
                models: models@.map_values(|m: Model| m@),
            }),
    {
        Manufacturer { name, models }
    }

    /// Returns the number of models available for this brand.
    pub fn count(&self) -> (r: usize)
        ensures
            r == self@.models.len(),
    {
        self.models.len()
    }

    /// Returns the brand name.
    pub fn name(&self) -> (r: &str)
        ensures
            r@ == self@.name,
    {
        self.name.as_str()
    }

    /// Returns the models of this brand, in first-seen row order.
    pub fn models(&self) -> (r: &Vec<Model>)
        ensures
            r@.map_values(|m: Model| m@) == self@.models,
    {
        &self.models
    }
}

/// A name for what `str::to_lowercase` returns: the lower-case form
/// of a character sequence, a function of the characters alone.
pub uninterp spec fn lower_of(s: Seq<char>) -> Seq<char>;

/// Relies on str::to_lowercase: the result depends on the characters
/// alone, and is named [`lower_of`].
#[verifier::external_body]
fn lowercase(s: &str) -> (r: String)
    ensures
        r@ == lower_of(s@),
{
    s.to_lowercase()
}

/// Finds the first brand whose name equals `query` when both are
/// lowered, and none earlier does; `None` exactly when no brand
/// matches.
pub fn find_brand(manufacturers: &Vec<Manufacturer>, query: &str) -> (r: Option<usize>)
    ensures
        match r {
            Some(k) => k < manufacturers@.len() && lower_of(manufacturers@[k as int]@.name)
                == lower_of(query@) && forall|j: int|
                0 <= j < k ==> #[trigger] lower_of(manufacturers@[j]@.name) != lower_of(query@),
            None => forall|j: int|
                0 <= j < manufacturers@.len() ==> #[trigger] lower_of(manufacturers@[j]@.name)
                    != lower_of(query@),
        },
{
    let lowered_query = lowercase(query);
    let mut k: usize = 0;
    while k < manufacturers.len()
        invariant
            0 <= k <= manufacturers@.len(),
            lowered_query@ == lower_of(query@),
            forall|j: int|
                0 <= j < k ==> #[trigger] lower_of(manufacturers@[j]@.name) != lower_of(query@),
        decreases manufacturers@.len() - k,
    {
        let name = lowercase(manufacturers[k].name());
        if name == lowered_query {
            return Some(k);
        }
        k += 1;
    }
    None
}

} // verus!
