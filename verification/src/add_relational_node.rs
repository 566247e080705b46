use vstd::prelude::*;

use crate::adg::{
    has_rel_node, is_minted_relation_name, is_rel, node_anc, node_strat, node_tag,
    AnnotatedDependencyGraph,
};
use crate::errors::ErrorKind;
use crate::program::Program;
use crate::transformation_types::TransformationTypes;

verus! {

/// What a committed `AddRelationalNode` round changes: one fresh, isolated
/// relational node joins the graph, its tag a minted `R_`-prefixed numeral
/// name; everything else — the program, the edges, the existing nodes with
/// their ancestry, the output predicate and the constant registry — stays as
/// it was.
pub open spec fn added_relational_node(
    po: Program,
    pn: Program,
    go: AnnotatedDependencyGraph,
    gn: AnnotatedDependencyGraph,
) -> bool {
    &&& pn == po
    &&& gn.nodes@.len() == go.nodes@.len() + 1
    &&& gn.nodes@.drop_last() == go.nodes@
    &&& is_rel(gn.nodes@.last())
    &&& node_anc(gn.nodes@.last()) is None
    &&& node_strat(gn.nodes@.last()) is None
    &&& !has_rel_node(go.nodes@, node_tag(gn.nodes@.last()))
    &&& is_minted_relation_name(node_tag(gn.nodes@.last()))
    &&& gn.edges == go.edges
    &&& gn.output_predicate == go.output_predicate
    &&& gn.ground_terms == go.ground_terms
}

/// Add a relational node with a fresh relational name and no edges to
/// existing nodes: the predicate then exists but no rule or fact references
/// it, so the round is semantics-preserving under any requested class.
pub struct AddRelationalNode {}

impl AddRelationalNode {
    /// Construct the operator: it is constructible every round, whatever the
    /// intended transformation class.
    pub fn new(
        _adg: &AnnotatedDependencyGraph,
        _rng: &mut rand_chacha::ChaCha8Rng,
        _transformation_type: TransformationTypes,
    ) -> (r: Option<AddRelationalNode>)
        ensures
            r is Some,
    {
        Some(AddRelationalNode {  })
    }

    /// Apply the operator: register a fresh relation name as an isolated
    /// relational node and leave the logical program untouched. Fails only
    /// when fresh-name generation gives up, and then changes nothing.
    pub fn apply(
        self,
        program: &mut Program,
        adg: &mut AnnotatedDependencyGraph,
        rng: &mut rand_chacha::ChaCha8Rng,
    ) -> (r: Result<(), ErrorKind>)
        requires
            old(adg).wf(),
        ensures
            match r {
                Ok(()) => added_relational_node(
                    *old(program),
                    *final(program),
                    *old(adg),
                    *final(adg),
                ) && final(adg).wf(),
                Err(e) => e == ErrorKind::NameGenerationExhausted && *final(program) == *old(
                    program,
                ) && *final(adg) == *old(adg),
            },
            old(adg).nodes@.len() == 0 ==> r is Ok,
    {
        let name = match adg.get_new_relation_name(rng) {
            Ok(n) => n,
            Err(e) => {
                return Err(e);
            },
        };
        adg.add_rel_node(&name);
        proof {
            assert(adg.nodes@.drop_last() =~= old(adg).nodes@);
        }
        Ok(())
    }
}

} // verus!
