use vstd::prelude::*;

verus! {

/// The intended semantic effect of a mutation round relative to the output
/// predicate: semantics-preserving (`EQU`), contractive (`CON`) or expansive
/// (`EXP`). The classes are partially ordered with `EQU` below the other
/// two, which are mutually incomparable.
#[derive(Clone, Copy, Debug, PartialEq, Eq, Structural)]
pub enum TransformationTypes {
    EQU,
    EXP,
    CON,
}

/// The partial order on transformation classes: every class is at or below
/// itself, and a semantics-preserving round qualifies under any class.
pub open spec fn spec_class_le(a: TransformationTypes, b: TransformationTypes) -> bool {
    a == b || a == TransformationTypes::EQU
}

impl TransformationTypes {
    /// Whether `self` lies at or below `other` in the class order.
    pub fn le(self, other: TransformationTypes) -> (r: bool)
        ensures
            r == spec_class_le(self, other),
    {
        self == other || self == TransformationTypes::EQU
    }
}

} // verus!
