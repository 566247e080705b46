use vstd::prelude::*;

verus! {

/// How a relation can influence the designated output predicate: positively,
/// negatively, both ways (`Unknown`), or not at all (`Neither`). The values
/// form a lattice ordered `Neither < {Positive, Negative} < Unknown`, with
/// `Positive` and `Negative` mutually incomparable; `merge` is its join.
#[derive(Clone, Copy, Debug, PartialEq, Eq, Structural)]
pub enum Ancestry {
    Positive,
    Negative,
    Unknown,
    /// No influence on the output: the lattice bottom. A relational node
    /// whose ancestry was never set is treated as `Neither` as well.
    Neither,
}

/// The lattice join: `Neither` absorbs into any value, `Unknown` absorbs
/// everything, and joining `Positive` with `Negative` gives `Unknown`.
pub open spec fn spec_merge(a: Ancestry, b: Ancestry) -> Ancestry {
    match (a, b) {
        (Ancestry::Neither, _) => b,
        (_, Ancestry::Neither) => a,
        (Ancestry::Unknown, _) => Ancestry::Unknown,
        (_, Ancestry::Unknown) => Ancestry::Unknown,
        (Ancestry::Positive, Ancestry::Positive) => Ancestry::Positive,
        (Ancestry::Negative, Ancestry::Negative) => Ancestry::Negative,
        _ => Ancestry::Unknown,
    }
}

/// The lattice order induced by the join.
pub open spec fn spec_le(a: Ancestry, b: Ancestry) -> bool {
    spec_merge(a, b) == b
}

/// Swapping the sign of an ancestry value: crossing one negative edge turns
/// positive influence into negative influence and vice versa, while `Unknown`
/// and `Neither` are unchanged.
pub open spec fn spec_inverse(a: Ancestry) -> Ancestry {
    match a {
        Ancestry::Positive => Ancestry::Negative,
        Ancestry::Negative => Ancestry::Positive,
        Ancestry::Unknown => Ancestry::Unknown,
        Ancestry::Neither => Ancestry::Neither,
    }
}

impl Ancestry {
    /// The lattice join of two ancestry values.
    pub fn merge(self, other: Ancestry) -> (r: Ancestry)
        ensures
            r == spec_merge(self, other),
    {
        match (self, other) {
            (Ancestry::Neither, _) => other,
            (_, Ancestry::Neither) => self,
            (Ancestry::Unknown, _) => Ancestry::Unknown,
            (_, Ancestry::Unknown) => Ancestry::Unknown,
            (Ancestry::Positive, Ancestry::Positive) => Ancestry::Positive,
            (Ancestry::Negative, Ancestry::Negative) => Ancestry::Negative,
            _ => Ancestry::Unknown,
        }
    }

    /// Swap `Positive` and `Negative`; leave `Unknown` and `Neither` as they
    /// are.
    pub fn inverse(self) -> (r: Ancestry)
        ensures
            r == spec_inverse(self),
    {
        match self {
            Ancestry::Positive => Ancestry::Negative,
            Ancestry::Negative => Ancestry::Positive,
            Ancestry::Unknown => Ancestry::Unknown,
            Ancestry::Neither => Ancestry::Neither,
        }
    }

    /// Whether the value carries any influence at all, that is, whether it is
    /// anything other than `Neither`.
    pub fn is_some(self) -> (r: bool)
        ensures
            r == (self != Ancestry::Neither),
    {
        match self {
            Ancestry::Neither => false,
            _ => true,
        }
    }

    /// Whether `self` lies at or below `other` in the lattice order.
    pub fn le(self, other: Ancestry) -> (r: bool)
        ensures
            r == spec_le(self, other),
    {
        self.merge(other) == other
    }
}

/// The ancestry join is commutative.
pub proof fn lemma_merge_commutative(a: Ancestry, b: Ancestry)
    ensures
        spec_merge(a, b) == spec_merge(b, a),
{
}

/// The ancestry join is associative.
pub proof fn lemma_merge_associative(a: Ancestry, b: Ancestry, c: Ancestry)
    ensures
        spec_merge(spec_merge(a, b), c) == spec_merge(a, spec_merge(b, c)),
{
}

/// The ancestry join is idempotent.
pub proof fn lemma_merge_idempotent(a: Ancestry)
    ensures
        spec_merge(a, a) == a,
{
}

/// The ancestry join is an upper bound of both its operands.
pub proof fn lemma_merge_upper_bound(a: Ancestry, b: Ancestry)
    ensures
        spec_le(a, spec_merge(a, b)),
        spec_le(b, spec_merge(a, b)),
{
}

/// The lattice order is reflexive.
pub proof fn lemma_le_refl(a: Ancestry)
    ensures
        spec_le(a, a),
{
}

/// The lattice order is transitive.
pub proof fn lemma_le_trans(a: Ancestry, b: Ancestry, c: Ancestry)
    requires
        spec_le(a, b),
        spec_le(b, c),
    ensures
        spec_le(a, c),
{
}

} // verus!
