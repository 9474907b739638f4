use vstd::prelude::*;

verus! {

/// The mathematical value of a record: the text of its two fields.
#[verifier::ext_equal]
pub ghost struct BeerView {
    pub brewery: Seq<char>,
    pub name: Seq<char>,
}

/// A record held by the service: a brewery and a beer name.
///
/// Records are immutable values; two records are the same exactly when both
/// fields match, character for character.
#[derive(Debug)]
pub struct Beer {
    pub brewery: String,
    pub name: String,
}

impl View for Beer {
    type V = BeerView;

    open spec fn view(&self) -> BeerView {
        BeerView { brewery: self.brewery@, name: self.name@ }
    }
}

impl Beer {
    pub fn new(brewery: String, name: String) -> (b: Beer)
        ensures
            b@ == (BeerView { brewery: brewery@, name: name@ }),
    {
        Beer { brewery, name }
    }

    /// A fresh record with the same field values.
    pub fn duplicate(&self) -> (b: Beer)
        ensures
            b@ == self@,
    {
        Beer { brewery: self.brewery.clone(), name: self.name.clone() }
    }
}

impl PartialEq for Beer {
    fn eq(&self, other: &Beer) -> (r: bool) {
        self.brewery == other.brewery && self.name == other.name
    }
}

impl vstd::std_specs::cmp::PartialEqSpecImpl for Beer {
    open spec fn obeys_eq_spec() -> bool {
        true
    }

    open spec fn eq_spec(&self, other: &Beer) -> bool {
        self@ == other@
    }
}

} // verus!
