use vstd::prelude::*;

use crate::add_fact_node_and_edge::{
    added_fact_node_and_edge, eligible_target, AddFactNodeAndEdge,
};
use crate::add_relational_node::{added_relational_node, AddRelationalNode};
use crate::adg::AnnotatedDependencyGraph;
use crate::errors::ErrorKind;
use crate::program::{prog_arity_of, prog_view, Program};
use crate::rng::rng_range;
use crate::transformation_types::TransformationTypes;

verus! {

/// One constructed mutation operator, ready to apply.
pub enum SomeMetamorphicTransformation {
    AddRelationalNode(AddRelationalNode),
    AddFactNodeAndEdge(AddFactNodeAndEdge),
}

impl SomeMetamorphicTransformation {
    /// Sample an operator kind uniformly and try to construct it under the
    /// intended class. `None` means the sampled kind has no eligible target
    /// this round; adding an isolated relational node is always possible.
    pub fn new(
        adg: &AnnotatedDependencyGraph,
        rng: &mut rand_chacha::ChaCha8Rng,
        transformation_type: TransformationTypes,
    ) -> (r: Option<SomeMetamorphicTransformation>)
        ensures
            match r {
                Some(op) => match op {
                    SomeMetamorphicTransformation::AddRelationalNode(_) => true,
                    SomeMetamorphicTransformation::AddFactNodeAndEdge(t) => eligible_target(
                        adg.nodes@,
                        t.chosen(),
                        transformation_type,
                    ),
                },
                None => forall|t: Seq<char>| !eligible_target(adg.nodes@, t, transformation_type),
            },
    {
        let kind = rng_range(rng, 0, 2);
        if kind == 0 {
            match AddRelationalNode::new(adg, rng, transformation_type) {
                Some(op) => Some(SomeMetamorphicTransformation::AddRelationalNode(op)),
                None => None,
            }
        } else {
            match AddFactNodeAndEdge::new(adg, rng, transformation_type) {
                Some(op) => Some(SomeMetamorphicTransformation::AddFactNodeAndEdge(op)),
                None => None,
            }
        }
    }

    /// Apply the constructed operator, committing the program edit and its
    /// graph mirror together. A failure leaves program and graph as they
    /// were.
    pub fn apply(
        self,
        program: &mut Program,
        adg: &mut AnnotatedDependencyGraph,
        rng: &mut rand_chacha::ChaCha8Rng,
    ) -> (r: Result<(), ErrorKind>)
        requires
            old(adg).wf(),
            self matches SomeMetamorphicTransformation::AddFactNodeAndEdge(t)
                ==> crate::adg::has_rel_node(old(adg).nodes@, t.chosen()),
        ensures
            match r {
                Ok(()) => final(adg).wf() && match self {
                    SomeMetamorphicTransformation::AddRelationalNode(_) => added_relational_node(
                        *old(program),
                        *final(program),
                        *old(adg),
                        *final(adg),
                    ),
                    SomeMetamorphicTransformation::AddFactNodeAndEdge(t) => {
                        added_fact_node_and_edge(
                            *old(program),
                            *final(program),
                            *old(adg),
                            *final(adg),
                            t.chosen(),
                        )
                    },
                },
                Err(e) => {
                    &&& e == ErrorKind::NameGenerationExhausted
                    &&& *final(program) == *old(program)
                    &&& final(adg).nodes == old(adg).nodes
                    &&& final(adg).edges == old(adg).edges
                    &&& final(adg).output_predicate == old(adg).output_predicate
                    &&& final(adg).ground_terms@ == old(adg).ground_terms@
                },
            },
            (self matches SomeMetamorphicTransformation::AddRelationalNode(_) && old(
                adg,
            ).nodes@.len() == 0) ==> r is Ok,
            (self matches SomeMetamorphicTransformation::AddFactNodeAndEdge(t) && prog_arity_of(
                prog_view(*old(program)),
                t.chosen(),
            ) == Some(0usize)) ==> r is Ok,
    {
        match self {
            SomeMetamorphicTransformation::AddRelationalNode(op) => op.apply(program, adg, rng),
            SomeMetamorphicTransformation::AddFactNodeAndEdge(op) => op.apply(program, adg, rng),
        }
    }
}

/// The orchestrator of mutation rounds: it holds the intended
/// transformation class and drives one operator selection, construction and
/// application per round, keeping program and graph in lockstep.
pub struct TransformationManager {
    pub transformation_types: TransformationTypes,
}

impl TransformationManager {
    /// An orchestrator for the given class.
    pub fn new(transformation_types: TransformationTypes) -> (r: TransformationManager)
        ensures
            r.transformation_types == transformation_types,
    {
        TransformationManager { transformation_types }
    }

    /// Run one mutation round: sample an operator kind, construct it under
    /// the round's class, and on success apply it, committing exactly one
    /// mutation to program and graph together. A round with no eligible
    /// target reports `NoEligibleMutationTarget`; any failure leaves the
    /// prior program and graph untouched.
    pub fn run_round(
        &self,
        program: &mut Program,
        adg: &mut AnnotatedDependencyGraph,
        rng: &mut rand_chacha::ChaCha8Rng,
    ) -> (r: Result<(), ErrorKind>)
        requires
            old(adg).wf(),
        ensures
            match r {
                Ok(()) => final(adg).wf() && (added_relational_node(
                    *old(program),
                    *final(program),
                    *old(adg),
                    *final(adg),
                ) || exists|t: Seq<char>|
                    #[trigger] added_fact_node_and_edge(
                        *old(program),
                        *final(program),
                        *old(adg),
                        *final(adg),
                        t,
                    ) && eligible_target(old(adg).nodes@, t, self.transformation_types)),
                Err(e) => {
                    &&& (e == ErrorKind::NoEligibleMutationTarget || e
                        == ErrorKind::NameGenerationExhausted)
                    &&& (e == ErrorKind::NoEligibleMutationTarget ==> forall|t: Seq<char>|
                        !eligible_target(old(adg).nodes@, t, self.transformation_types))
                    &&& *final(program) == *old(program)
                    &&& final(adg).nodes == old(adg).nodes
                    &&& final(adg).edges == old(adg).edges
                    &&& final(adg).output_predicate == old(adg).output_predicate
                    &&& final(adg).ground_terms@ == old(adg).ground_terms@
                },
            },
    {
        let op = match SomeMetamorphicTransformation::new(adg, rng, self.transformation_types) {
            Some(op) => op,
            None => {
                return Err(ErrorKind::NoEligibleMutationTarget);
            },
        };
        let ghost gop = op;
        let ghost chosen: Seq<char> = match gop {
            SomeMetamorphicTransformation::AddFactNodeAndEdge(t) => t.chosen(),
            _ => Seq::empty(),
        };
        proof {
            match gop {
                SomeMetamorphicTransformation::AddRelationalNode(_) => {},
                SomeMetamorphicTransformation::AddFactNodeAndEdge(t) => {
                    assert(eligible_target(adg.nodes@, t.chosen(), self.transformation_types));
                    let i = choose|i: int|
                        0 <= i < adg.nodes@.len() && crate::adg::is_rel(#[trigger] adg.nodes@[i])
                            && crate::adg::node_tag(adg.nodes@[i]) == t.chosen()
                            && crate::add_fact_node_and_edge::class_eligible(
                            self.transformation_types,
                            crate::adg::eff_anc(adg.nodes@[i]),
                        );
                    assert(crate::adg::has_rel_node(adg.nodes@, t.chosen()));
                },
            }
        }
        let r = op.apply(program, adg, rng);
        proof {
            if r is Ok {
                match gop {
                    SomeMetamorphicTransformation::AddRelationalNode(_) => {},
                    SomeMetamorphicTransformation::AddFactNodeAndEdge(t) => {
                        assert(added_fact_node_and_edge(
                            *old(program),
                            *program,
                            *old(adg),
                            *adg,
                            chosen,
                        ));
                    },
                }
            }
        }
        r
    }
}

} // verus!
