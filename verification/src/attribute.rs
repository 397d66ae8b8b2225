//! A single scalar component of an entity's state vector.

use vstd::prelude::*;

verus! {

/// One attribute value of an entity.
///
/// The attribute domain of this library is integral: every attribute is a
/// signed machine integer, and every operation of the engine (averaging,
/// influence amplification, plasticity damping, mutation) is defined exactly
/// over these integers.
#[derive(Clone, Copy, Debug, PartialEq, Eq, Structural)]
pub struct Attribute {
    pub value: i64,
}

impl Attribute {
    /// Wraps a raw value as an attribute.
    pub fn new(value: i64) -> (r: Attribute)
        ensures
            r.value == value,
    {
        Attribute { value }
    }
}

/// The mathematical view of an attribute vector: its raw values.
pub open spec fn attrs_view(s: Seq<Attribute>) -> Seq<int> {
    s.map_values(|a: Attribute| a.value as int)
}

} // verus!
