use vstd::prelude::*;

verus! {

/// A sector definition as loaded from a sector file: a name and the hex
/// color code it is painted with.
pub struct Sector {
    pub name: String,
    pub color_code: String,
}

} // verus!
