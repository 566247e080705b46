use vstd::prelude::*;

use crate::adg::{
    has_rel_node, is_rel, is_rel_edge, node_anc, node_strat, ADGEdge, AnnotatedDependencyGraph,
    EdgeEntry,
};
use crate::errors::ErrorKind;
use crate::program::{
    dedup_first, fetch_rule_by_name, opt_str_view, prog_mentions, prog_view, spec_fetch_rule,
    strs_view, Program, Statement, StmtV,
};
use crate::rng::choose_ref;

verus! {

/// The rule names cited by the relational edges leaving node `i`, in arena
/// order, keeping only names under which the program really holds a rule.
pub open spec fn overview_names(edges: Seq<EdgeEntry>, i: int, stmts: Seq<StmtV>) -> Seq<Seq<char>>
    decreases edges.len(),
{
    if edges.len() == 0 {
        seq![]
    } else {
        let pre = overview_names(edges.drop_last(), i, stmts);
        if edges.last().source as int == i && is_rel_edge(edges.last()) {
            match opt_str_view(edges.last().weight->ADGRelationalEdge_0.rule_name) {
                Some(n) => if spec_fetch_rule(stmts, n) is Some {
                    pre.push(n)
                } else {
                    pre
                },
                None => pre,
            }
        } else {
            pre
        }
    }
}

/// Whether the walking tour cannot fail: the program mentions a predicate,
/// every mentioned predicate has its relational node, every relational node
/// carries propagated ancestry and stratum, and every dependency edge cites
/// its rule.
pub open spec fn overview_ready(program: Program, adg: AnnotatedDependencyGraph) -> bool {
    &&& dedup_first(prog_mentions(prog_view(program))).len() > 0
    &&& forall|t: Seq<char>|
        dedup_first(prog_mentions(prog_view(program))).contains(t) ==> #[trigger] has_rel_node(
            adg.nodes@,
            t,
        )
    &&& forall|i: int|
        0 <= i < adg.nodes@.len() && is_rel(#[trigger] adg.nodes@[i]) ==> node_anc(adg.nodes@[i])
            is Some && node_strat(adg.nodes@[i]) is Some
    &&& forall|k: int|
        0 <= k < adg.edges@.len() && is_rel_edge(#[trigger] adg.edges@[k]) ==> adg.edges@[
            k
        ].weight->ADGRelationalEdge_0.rule_name is Some
}

/// A walking tour of the graph and program queries an operator can use: it
/// picks a random predicate, reads its propagated annotations, and follows
/// its outgoing dependency edges back to the rules they come from.
pub struct OverviewTransformation {}

impl OverviewTransformation {
    /// Construct the transformation.
    pub fn new() -> (r: OverviewTransformation) {
        OverviewTransformation {  }
    }

    /// Apply the transformation: for one randomly chosen predicate whose
    /// node already carries ancestry and stratum, collect the names of the
    /// rules its outgoing dependency edges cite. Fails when the program has
    /// no predicates, when the predicate is unknown to the graph, when the
    /// node is not yet propagated, or when a dependency edge carries no
    /// rule name.
    pub fn apply(
        &self,
        program: &Program,
        adg: &AnnotatedDependencyGraph,
        rng: &mut rand_chacha::ChaCha8Rng,
    ) -> (r: Result<Vec<String>, ErrorKind>)
        ensures
            match r {
                Ok(v) => exists|i: int|
                    0 <= i < adg.nodes@.len() && is_rel(#[trigger] adg.nodes@[i]) && node_anc(
                        adg.nodes@[i],
                    ) is Some && node_strat(adg.nodes@[i]) is Some && strs_view(v@)
                        == overview_names(adg.edges@, i, prog_view(*program)),
                Err(e) => e == ErrorKind::PredicateNotFound || e
                    == ErrorKind::GraphInvariantViolation,
            },
            overview_ready(*program, *adg) ==> r is Ok,
    {
        let ghost stmts = prog_view(*program);
        let preds = program.all_predicates();
        let pred: &String = match choose_ref(preds.as_slice(), rng) {
            Some(p) => p,
            None => {
                return Err(ErrorKind::PredicateNotFound);
            },
        };
        proof {
            let m = choose|m: int| 0 <= m < preds@.len() && *pred == preds@[m];
            assert(strs_view(preds@)[m] == pred@);
            assert(dedup_first(prog_mentions(stmts)).contains(pred@));
        }
        let idx = match adg.get_rel_node_tag(pred) {
            Ok(i) => i,
            Err(e) => {
                return Err(e);
            },
        };
        let ready: bool = match &adg.nodes[idx] {
            crate::adg::ADGNode::ADGRelationalNode(rn) => rn.ancestry.is_some()
                && rn.inverse_stratum.is_some(),
            crate::adg::ADGNode::ADGFactNode(_) => false,
        };
        if !ready {
            return Err(ErrorKind::GraphInvariantViolation);
        }
        let mut out: Vec<String> = Vec::new();
        proof {
            assert(strs_view(out@) =~= overview_names(adg.edges@.take(0), idx as int, stmts));
        }
        let mut k: usize = 0;
        while k < adg.edges.len()
            invariant
                k <= adg.edges.len(),
                stmts == prog_view(*program),
                strs_view(out@) == overview_names(adg.edges@.take(k as int), idx as int, stmts),
            decreases adg.edges.len() - k,
        {
            let ghost pre = strs_view(out@);
            let is_src_rel: bool = adg.edges[k].source == idx && (match &adg.edges[k].weight {
                ADGEdge::ADGRelationalEdge(_) => true,
                ADGEdge::ADGFactEdge(_) => false,
            });
            if is_src_rel {
                match &adg.edges[k].weight {
                    ADGEdge::ADGRelationalEdge(re) => {
                        match &re.rule_name {
                            Some(n) => {
                                match fetch_rule_by_name(n.clone(), program) {
                                    Some(_) => {
                                        out.push(n.clone());
                                        proof {
                                            assert(strs_view(out@) =~= pre.push(n@));
                                        }
                                    },
                                    None => {},
                                }
                            },
                            None => {
                                return Err(ErrorKind::GraphInvariantViolation);
                            },
                        }
                    },
                    ADGEdge::ADGFactEdge(_) => {},
                }
            }
            proof {
                assert(adg.edges@.take(k + 1).drop_last() =~= adg.edges@.take(k as int));
                assert(adg.edges@.take(k + 1).last() == adg.edges@[k as int]);
            }
            k += 1;
        }
        proof {
            assert(adg.edges@.take(adg.edges@.len() as int) =~= adg.edges@);
        }
        Ok(out)
    }
}

} // verus!
