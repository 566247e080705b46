use vstd::prelude::*;

use crate::adg::{
    eff_anc, has_rel_node, is_rel, minted_term_shape, node_tag, nodes_view, tags_with_eff_eq,
    tags_with_eff_le, term_known, ADGEdge, ADGNode, AnnotatedDependencyGraph, EdgeEntry,
};
use crate::ancestry::{spec_le, Ancestry};
use crate::errors::ErrorKind;
use crate::program::{
    prog_arity_of, prog_view, strs_view, term_view, terms_equal, FactData, GroundTerm, Program,
    StmtV, TermV,
};
use crate::render::{paren_label, paren_label_of};
use crate::rng::{choose_ref, rng_coin, rng_range};
use crate::transformation_types::TransformationTypes;

verus! {

/// Whether a relational node of effective ancestry `a` is an eligible target
/// under the intended class: a semantics-preserving fact may only feed a
/// relation unreachable from the output; a contractive one may also feed a
/// negative-ancestry relation; an expansive one a positive-ancestry
/// relation.
pub open spec fn class_eligible(t: TransformationTypes, a: Ancestry) -> bool {
    match t {
        TransformationTypes::EQU => a == Ancestry::Neither,
        TransformationTypes::CON => spec_le(a, Ancestry::Negative),
        TransformationTypes::EXP => spec_le(a, Ancestry::Positive),
    }
}

/// Whether some relational node carries the tag and is eligible under the
/// class.
pub open spec fn eligible_target(
    nodes: Seq<ADGNode>,
    tag: Seq<char>,
    t: TransformationTypes,
) -> bool {
    exists|i: int|
        0 <= i < nodes.len() && is_rel(#[trigger] nodes[i]) && node_tag(nodes[i]) == tag
            && class_eligible(t, eff_anc(nodes[i]))
}

/// A tag stands in the at-or-below ancestry list exactly when some
/// relational node carries it with such an ancestry.
pub proof fn lemma_tags_le_membership(nodes: Seq<ADGNode>, bound: Ancestry, x: Seq<char>)
    ensures
        tags_with_eff_le(nodes, bound).contains(x) <==> exists|i: int|
            0 <= i < nodes.len() && is_rel(#[trigger] nodes[i]) && node_tag(nodes[i]) == x
                && spec_le(eff_anc(nodes[i]), bound),
    decreases nodes.len(),
{
    if nodes.len() == 0 {
    } else {
        let pre = tags_with_eff_le(nodes.drop_last(), bound);
        lemma_tags_le_membership(nodes.drop_last(), bound, x);
        let cur = tags_with_eff_le(nodes, bound);
        if is_rel(nodes.last()) && spec_le(eff_anc(nodes.last()), bound) {
            assert(cur == pre.push(node_tag(nodes.last())));
            assert(cur.contains(x) == (pre.contains(x) || node_tag(nodes.last()) == x)) by {
                if cur.contains(x) {
                    let i = choose|i: int| 0 <= i < cur.len() && cur[i] == x;
                    if i < pre.len() {
                        assert(pre[i] == x);
                    }
                }
                if pre.contains(x) {
                    let i = choose|i: int| 0 <= i < pre.len() && pre[i] == x;
                    assert(cur[i] == x);
                }
                assert(cur[cur.len() - 1] == node_tag(nodes.last()));
            }
        }
        if exists|i: int|
            0 <= i < nodes.len() && is_rel(#[trigger] nodes[i]) && node_tag(nodes[i]) == x
                && spec_le(eff_anc(nodes[i]), bound) {
            let i = choose|i: int|
                0 <= i < nodes.len() && is_rel(#[trigger] nodes[i]) && node_tag(nodes[i]) == x
                    && spec_le(eff_anc(nodes[i]), bound);
            if i < nodes.len() - 1 {
                assert(nodes.drop_last()[i] == nodes[i]);
            }
        }
        if exists|i: int|
            0 <= i < nodes.drop_last().len() && is_rel(#[trigger] nodes.drop_last()[i]) && node_tag(
                nodes.drop_last()[i],
            ) == x && spec_le(eff_anc(nodes.drop_last()[i]), bound) {
            let i = choose|i: int|
                0 <= i < nodes.drop_last().len() && is_rel(#[trigger] nodes.drop_last()[i])
                    && node_tag(nodes.drop_last()[i]) == x && spec_le(
                    eff_anc(nodes.drop_last()[i]),
                    bound,
                );
            assert(nodes[i] == nodes.drop_last()[i]);
        }
    }
}

/// A tag stands in the exact-ancestry list exactly when some relational node
/// carries it with that ancestry.
pub proof fn lemma_tags_eq_membership(nodes: Seq<ADGNode>, bound: Ancestry, x: Seq<char>)
    ensures
        tags_with_eff_eq(nodes, bound).contains(x) <==> exists|i: int|
            0 <= i < nodes.len() && is_rel(#[trigger] nodes[i]) && node_tag(nodes[i]) == x
                && eff_anc(nodes[i]) == bound,
    decreases nodes.len(),
{
    if nodes.len() == 0 {
    } else {
        let pre = tags_with_eff_eq(nodes.drop_last(), bound);
        lemma_tags_eq_membership(nodes.drop_last(), bound, x);
        let cur = tags_with_eff_eq(nodes, bound);
        if is_rel(nodes.last()) && eff_anc(nodes.last()) == bound {
            assert(cur == pre.push(node_tag(nodes.last())));
            assert(cur.contains(x) == (pre.contains(x) || node_tag(nodes.last()) == x)) by {
                if cur.contains(x) {
                    let i = choose|i: int| 0 <= i < cur.len() && cur[i] == x;
                    if i < pre.len() {
                        assert(pre[i] == x);
                    }
                }
                if pre.contains(x) {
                    let i = choose|i: int| 0 <= i < pre.len() && pre[i] == x;
                    assert(cur[i] == x);
                }
                assert(cur[cur.len() - 1] == node_tag(nodes.last()));
            }
        }
        if exists|i: int|
            0 <= i < nodes.len() && is_rel(#[trigger] nodes[i]) && node_tag(nodes[i]) == x
                && eff_anc(nodes[i]) == bound {
            let i = choose|i: int|
                0 <= i < nodes.len() && is_rel(#[trigger] nodes[i]) && node_tag(nodes[i]) == x
                    && eff_anc(nodes[i]) == bound;
            if i < nodes.len() - 1 {
                assert(nodes.drop_last()[i] == nodes[i]);
            }
        }
        if exists|i: int|
            0 <= i < nodes.drop_last().len() && is_rel(#[trigger] nodes.drop_last()[i]) && node_tag(
                nodes.drop_last()[i],
            ) == x && eff_anc(nodes.drop_last()[i]) == bound {
            let i = choose|i: int|
                0 <= i < nodes.drop_last().len() && is_rel(#[trigger] nodes.drop_last()[i])
                    && node_tag(nodes.drop_last()[i]) == x && eff_anc(nodes.drop_last()[i])
                    == bound;
            assert(nodes[i] == nodes.drop_last()[i]);
        }
    }
}

/// What a committed `AddFactNodeAndEdge` round changes: one fact of the
/// right arity joins the program, a fact node labelled with its terms joins
/// the graph with a fact edge to the target relation, and the constant
/// registry only grows. Every argument of the fact is a constant the final
/// registry knows — drawn from the prior registry or freshly minted into it —
/// and every constant the round minted is an integer or a `c_`-prefixed
/// numeral string, distinct in value from everything registered before it.
pub open spec fn added_fact_node_and_edge(
    po: Program,
    pn: Program,
    go: AnnotatedDependencyGraph,
    gn: AnnotatedDependencyGraph,
    chosen: Seq<char>,
) -> bool {
    exists|tv: Seq<TermV>|
        {
            &&& prog_view(pn) == prog_view(po).push(
                (StmtV::Fact { predicate: chosen, terms: tv }),
            )
            &&& (prog_arity_of(prog_view(po), chosen) matches Some(a) ==> tv.len() == a)
            &&& (prog_arity_of(prog_view(po), chosen) is None ==> 1 <= tv.len() < 6)
            &&& gn.nodes@.len() == go.nodes@.len() + 1
            &&& gn.nodes@.drop_last() == go.nodes@
            &&& node_view_is_fact_labelled(gn.nodes@.last(), #[trigger] paren_label_of(tv))
            &&& gn.edges@.len() == go.edges@.len() + 1
            &&& gn.edges@.drop_last() == go.edges@
            &&& fact_edge_to(gn.edges@.last(), go.nodes@.len() as int, go.nodes@, chosen)
            &&& go.ground_terms@.is_prefix_of(gn.ground_terms@)
            &&& (forall|m: int| 0 <= m < tv.len() ==> term_known(gn.ground_terms@, #[trigger] tv[m]))
            &&& (forall|j: int|
                go.ground_terms@.len() <= j < gn.ground_terms@.len() ==> !term_known(
                    gn.ground_terms@.take(j),
                    term_view(#[trigger] gn.ground_terms@[j]),
                ))
            &&& (forall|j: int|
                go.ground_terms@.len() <= j < gn.ground_terms@.len() ==> minted_term_shape(
                    term_view(#[trigger] gn.ground_terms@[j]),
                ))
            &&& gn.output_predicate == go.output_predicate
        }
}

/// Whether a node is a fact node carrying this label.
pub open spec fn node_view_is_fact_labelled(n: ADGNode, label: Seq<char>) -> bool {
    &&& !is_rel(n)
    &&& n matches ADGNode::ADGFactNode(f) && f.name@ == label
}

/// Whether an edge is the fact edge from node `src` to the relational node
/// tagged `chosen`.
pub open spec fn fact_edge_to(
    e: EdgeEntry,
    src: int,
    nodes: Seq<ADGNode>,
    chosen: Seq<char>,
) -> bool {
    &&& e.source as int == src
    &&& e.weight is ADGFactEdge
    &&& (e.target as int) < nodes.len()
    &&& is_rel(nodes[e.target as int])
    &&& node_tag(nodes[e.target as int]) == chosen
}

/// Add a fact node with a fact edge to some randomly chosen eligible
/// relational node. The oracle for eligibility is the ancestry the
/// propagation pass derived for the relation.
pub struct AddFactNodeAndEdge {
    chosen_to_rel_node: String,
}

impl AddFactNodeAndEdge {
    /// The tag of the relation this operator will feed.
    pub closed spec fn chosen(self) -> Seq<char> {
        self.chosen_to_rel_node@
    }

    /// Construct the operator if some relational node satisfies the ancestry
    /// constraint of the intended class, choosing one such target at random;
    /// return nothing when no node qualifies.
    pub fn new(
        adg: &AnnotatedDependencyGraph,
        rng: &mut rand_chacha::ChaCha8Rng,
        transformation_type: TransformationTypes,
    ) -> (r: Option<AddFactNodeAndEdge>)
        ensures
            match r {
                Some(op) => eligible_target(adg.nodes@, op.chosen(), transformation_type),
                None => forall|t: Seq<char>| !eligible_target(adg.nodes@, t, transformation_type),
            },
    {
        let list: Vec<String> = match transformation_type {
            TransformationTypes::EQU => adg.get_none_ancestry_relational_nodes(),
            TransformationTypes::CON => adg.get_leq_negative_ancestry_relational_nodes(),
            TransformationTypes::EXP => adg.get_leq_positive_ancestry_relational_nodes(),
        };
        let picked = choose_ref(list.as_slice(), rng);
        match picked {
            Some(tag) => {
                let op = AddFactNodeAndEdge { chosen_to_rel_node: tag.clone() };
                proof {
                    let i = choose|i: int| 0 <= i < list@.len() && *tag == list@[i];
                    assert(strs_view(list@)[i] == tag@);
                    match transformation_type {
                        TransformationTypes::EQU => {
                            lemma_tags_eq_membership(adg.nodes@, Ancestry::Neither, tag@);
                            assert(tags_with_eff_eq(adg.nodes@, Ancestry::Neither).contains(tag@));
                        },
                        TransformationTypes::CON => {
                            lemma_tags_le_membership(adg.nodes@, Ancestry::Negative, tag@);
                            assert(tags_with_eff_le(adg.nodes@, Ancestry::Negative).contains(
                                tag@,
                            ));
                        },
                        TransformationTypes::EXP => {
                            lemma_tags_le_membership(adg.nodes@, Ancestry::Positive, tag@);
                            assert(tags_with_eff_le(adg.nodes@, Ancestry::Positive).contains(
                                tag@,
                            ));
                        },
                    }
                }
                Some(op)
            },
            None => {
                proof {
                    assert forall|t: Seq<char>| !eligible_target(
                        adg.nodes@,
                        t,
                        transformation_type,
                    ) by {
                        if eligible_target(adg.nodes@, t, transformation_type) {
                            match transformation_type {
                                TransformationTypes::EQU => {
                                    lemma_tags_eq_membership(adg.nodes@, Ancestry::Neither, t);
                                },
                                TransformationTypes::CON => {
                                    lemma_tags_le_membership(adg.nodes@, Ancestry::Negative, t);
                                },
                                TransformationTypes::EXP => {
                                    lemma_tags_le_membership(adg.nodes@, Ancestry::Positive, t);
                                },
                            }
                            let i = choose|i: int|
                                0 <= i < strs_view(list@).len() && strs_view(list@)[i] == t;
                            assert(false);
                        }
                    }
                }
                None
            },
        }
    }

    /// Apply the operator: determine the target relation's arity (or pick a
    /// random one in `[1, 6)` if nothing references it yet), build each
    /// argument by reusing a registered constant with probability one half
    /// and minting a fresh string or integer constant otherwise, stage the
    /// fact, and mirror it into the graph as a labelled fact node with a
    /// fact edge to the target. On a fresh-name failure the program, the
    /// graph and the registry are left as they were.
    pub fn apply(
        self,
        program: &mut Program,
        adg: &mut AnnotatedDependencyGraph,
        rng: &mut rand_chacha::ChaCha8Rng,
    ) -> (r: Result<(), ErrorKind>)
        requires
            old(adg).wf(),
            has_rel_node(old(adg).nodes@, self.chosen()),
        ensures
            match r {
                Ok(()) => added_fact_node_and_edge(
                    *old(program),
                    *final(program),
                    *old(adg),
                    *final(adg),
                    self.chosen(),
                ) && final(adg).wf(),
                Err(e) => {
                    &&& e == ErrorKind::NameGenerationExhausted
                    &&& *final(program) == *old(program)
                    &&& final(adg).nodes == old(adg).nodes
                    &&& final(adg).edges == old(adg).edges
                    &&& final(adg).output_predicate == old(adg).output_predicate
                    &&& final(adg).ground_terms@ == old(adg).ground_terms@
                },
            },
            prog_arity_of(prog_view(*old(program)), self.chosen()) == Some(0usize) ==> r is Ok,
    {
        let arity: usize = match program.arity_of(&self.chosen_to_rel_node) {
            Some(a) => a,
            None => rng_range(rng, 1, 6),
        };
        let gt_len: usize = adg.ground_terms.len();
        let ghost gt_old = adg.ground_terms@;
        let mut terms: Vec<GroundTerm> = Vec::new();
        let mut k: usize = 0;
        while k < arity
            invariant
                prog_arity_of(prog_view(*old(program)), self.chosen()) matches Some(a)
                    ==> arity == a,
                k <= arity,
                terms@.len() == k,
                gt_len == gt_old.len(),
                gt_old.is_prefix_of(adg.ground_terms@),
                forall|m: int|
                    0 <= m < terms@.len() ==> term_known(
                        adg.ground_terms@,
                        term_view(#[trigger] terms@[m]),
                    ),
                forall|j: int|
                    gt_old.len() <= j < adg.ground_terms@.len() ==> !term_known(
                        adg.ground_terms@.take(j),
                        term_view(#[trigger] adg.ground_terms@[j]),
                    ),
                forall|j: int|
                    gt_old.len() <= j < adg.ground_terms@.len() ==> minted_term_shape(
                        term_view(#[trigger] adg.ground_terms@[j]),
                    ),
                adg.nodes == old(adg).nodes,
                adg.edges == old(adg).edges,
                adg.output_predicate == old(adg).output_predicate,
                old(adg).wf(),
                adg.wf(),
                gt_old == old(adg).ground_terms@,
            decreases arity - k,
        {
            let ghost gts_pre = adg.ground_terms@;
            let reuse = rng_coin(rng);
            let picked: Option<GroundTerm> = if reuse {
                match choose_ref(adg.ground_terms.as_slice(), rng) {
                    Some(t) => Some(t.clone()),
                    None => None,
                }
            } else {
                None
            };
            match picked {
                Some(t) => {
                    proof {
                        let i = choose|i: int|
                            0 <= i < adg.ground_terms@.len() && t == #[trigger] adg.ground_terms@[
                                i
                            ];
                        assert(term_known(adg.ground_terms@, term_view(t)));
                    }
                    terms.push(t);
                },
                None => {
                    let minted = if !reuse && rng_coin(rng) {
                        adg.get_and_register_new_string_constant(rng)
                    } else {
                        adg.get_and_register_new_integer_constant(rng)
                    };
                    match minted {
                        Ok(t) => {
                            proof {
                                assert(adg.ground_terms@.take(
                                    adg.ground_terms@.len() - 1,
                                ) =~= gts_pre);
                                assert(adg.ground_terms@.last() == t);
                                assert(term_known(adg.ground_terms@, term_view(t)));
                                assert forall|m: int| 0 <= m < terms@.len() implies term_known(
                                    adg.ground_terms@,
                                    term_view(#[trigger] terms@[m]),
                                ) by {
                                    let i = choose|i: int|
                                        0 <= i < gts_pre.len() && term_view(
                                            #[trigger] gts_pre[i],
                                        ) == term_view(terms@[m]);
                                    assert(adg.ground_terms@[i] == gts_pre[i]);
                                }
                                assert forall|j: int|
                                    gt_old.len() <= j < adg.ground_terms@.len() implies
                                    !term_known(
                                    adg.ground_terms@.take(j),
                                    term_view(#[trigger] adg.ground_terms@[j]),
                                ) by {
                                    if j < gts_pre.len() {
                                        assert(adg.ground_terms@[j] == gts_pre[j]);
                                        assert(adg.ground_terms@.take(j) =~= gts_pre.take(j));
                                    }
                                }
                                assert(minted_term_shape(term_view(t)));
                                assert forall|j: int|
                                    gt_old.len() <= j < adg.ground_terms@.len() implies
                                    minted_term_shape(
                                    term_view(#[trigger] adg.ground_terms@[j]),
                                ) by {
                                    if j < gts_pre.len() {
                                        assert(adg.ground_terms@[j] == gts_pre[j]);
                                    } else {
                                        assert(adg.ground_terms@[j] == t);
                                    }
                                }
                            }
                            terms.push(t);
                        },
                        Err(e) => {
                            adg.ground_terms.truncate(gt_len);
                            proof {
                                assert(adg.ground_terms@ =~= gt_old);
                            }
                            return Err(e);
                        },
                    }
                },
            }
            proof {
                assert(gt_old.is_prefix_of(adg.ground_terms@));
                assert forall|m: int| 0 <= m < terms@.len() implies term_known(
                    adg.ground_terms@,
                    term_view(#[trigger] terms@[m]),
                ) by {}
            }
            k += 1;
        }
        let label = paren_label(&terms);
        let ghost tv = terms@.map_values(|t: GroundTerm| term_view(t));
        proof {
            assert forall|m: int| 0 <= m < tv.len() implies term_known(
                adg.ground_terms@,
                #[trigger] tv[m],
            ) by {
                assert(tv[m] == term_view(terms@[m]));
            }
        }
        let rel = match adg.get_rel_node_tag(&self.chosen_to_rel_node) {
            Ok(i) => i,
            Err(_) => {
                proof {
                    assert(false);
                }
                return Err(ErrorKind::PredicateNotFound);
            },
        };
        let fnode = adg.add_fact_node(label);
        adg.add_fact_edge(fnode, rel);
        program.add_fact(FactData { predicate: self.chosen_to_rel_node, terms });
        proof {
            assert(adg.nodes@.drop_last() =~= old(adg).nodes@);
            assert(adg.edges@.drop_last() =~= old(adg).edges@);
            assert(prog_view(*program) == prog_view(*old(program)).push(
                (StmtV::Fact { predicate: self.chosen(), terms: tv }),
            ));
        }
        Ok(())
    }
}

} // verus!
