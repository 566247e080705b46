use vstd::prelude::*;

use crate::adg::AnnotatedDependencyGraph;
use crate::errors::ErrorKind;
use crate::program::{
    dedup_first, derived_mentions, prog_view, stmt_view, strs_view, ExportData, OutputData,
    Program, Statement, StmtV,
};
use crate::rng::choose_ref;

verus! {

/// The statements that survive the output selection: everything but the
/// original export and output directives, in order.
pub open spec fn kept_statements(stmts: Seq<StmtV>) -> Seq<StmtV>
    decreases stmts.len(),
{
    if stmts.len() == 0 {
        seq![]
    } else {
        let pre = kept_statements(stmts.drop_last());
        match stmts.last() {
            StmtV::Export { .. } => pre,
            StmtV::Output { .. } => pre,
            _ => pre.push(stmts.last()),
        }
    }
}

/// The predicates of the program's export and output directives, in order.
pub open spec fn export_directive_preds(stmts: Seq<StmtV>) -> Seq<Seq<char>>
    decreases stmts.len(),
{
    if stmts.len() == 0 {
        seq![]
    } else {
        let pre = export_directive_preds(stmts.drop_last());
        match stmts.last() {
            StmtV::Export { predicate } => pre.push(predicate),
            StmtV::Output { predicate } => pre.push(predicate),
            _ => pre,
        }
    }
}

/// Select one relation as the single output of the program: a random one of
/// the existing export or output directives, or, when there are none, a
/// random derived relation, in which case every derived relation also gains
/// an output directive. The chosen relation becomes the graph's designated
/// output predicate.
pub struct TransformationSelectRandomOutputPredicate {}

impl TransformationSelectRandomOutputPredicate {
    /// Construct the transformation.
    pub fn new() -> (r: TransformationSelectRandomOutputPredicate) {
        TransformationSelectRandomOutputPredicate {  }
    }

    /// Apply the transformation to a graph whose output predicate is not yet
    /// designated: it is set exactly once, here. Fails with
    /// `NoEligibleMutationTarget` when the program has neither export or
    /// output directives nor any derived relation, and then leaves the graph
    /// untouched.
    pub fn apply(
        &self,
        program: &Program,
        adg: &mut AnnotatedDependencyGraph,
        rng: &mut rand_chacha::ChaCha8Rng,
    ) -> (r: Result<Program, ErrorKind>)
        requires
            old(adg).output_predicate is None,
        ensures
            final(adg).nodes == old(adg).nodes,
            final(adg).edges == old(adg).edges,
            final(adg).ground_terms == old(adg).ground_terms,
            match r {
                Ok(p2) => {
                    let eds = export_directive_preds(prog_view(*program));
                    let der = dedup_first(derived_mentions(prog_view(*program)));
                    &&& final(adg).output_predicate is Some
                    &&& {
                        let c = final(adg).output_predicate->0@;
                        &&& (eds.len() == 0 ==> der.contains(c) && prog_view(p2)
                            == kept_statements(prog_view(*program)) + der.map_values(
                            |t: Seq<char>| StmtV::Output { predicate: t },
                        ) + seq![(StmtV::Export { predicate: c })])
                        &&& (eds.len() > 0 ==> eds.contains(c) && prog_view(p2)
                            == kept_statements(prog_view(*program)) + seq![
                            (StmtV::Export { predicate: c }),
                        ])
                    }
                },
                Err(e) => {
                    &&& e == ErrorKind::NoEligibleMutationTarget
                    &&& export_directive_preds(prog_view(*program)).len() == 0
                    &&& dedup_first(derived_mentions(prog_view(*program))).len() == 0
                    &&& final(adg).output_predicate == old(adg).output_predicate
                },
            },
    {
        let ghost stmts = prog_view(*program);
        let mut kept: Vec<Statement> = Vec::new();
        let mut exp_preds: Vec<String> = Vec::new();
        proof {
            assert(kept@.map_values(|s: Statement| stmt_view(s)) =~= kept_statements(
                stmts.take(0),
            ));
            assert(strs_view(exp_preds@) =~= export_directive_preds(stmts.take(0)));
        }
        let mut i: usize = 0;
        while i < program.statements.len()
            invariant
                i <= program.statements.len(),
                stmts == prog_view(*program),
                stmts.len() == program.statements.len(),
                kept@.map_values(|s: Statement| stmt_view(s)) == kept_statements(
                    stmts.take(i as int),
                ),
                strs_view(exp_preds@) == export_directive_preds(stmts.take(i as int)),
            decreases program.statements.len() - i,
        {
            let ghost kpre = kept@.map_values(|s: Statement| stmt_view(s));
            let ghost epre = strs_view(exp_preds@);
            match &program.statements[i] {
                Statement::Export(e) => {
                    exp_preds.push(e.predicate.clone());
                    proof {
                        assert(strs_view(exp_preds@) =~= epre.push(e.predicate@));
                    }
                },
                Statement::Output(o) => {
                    exp_preds.push(o.predicate.clone());
                    proof {
                        assert(strs_view(exp_preds@) =~= epre.push(o.predicate@));
                    }
                },
                s => {
                    kept.push(s.clone());
                    proof {
                        assert(kept@.map_values(|st: Statement| stmt_view(st)) =~= kpre.push(
                            stmt_view(program.statements@[i as int]),
                        ));
                    }
                },
            }
            proof {
                assert(stmts.take(i + 1).drop_last() =~= stmts.take(i as int));
                assert(stmts.take(i + 1).last() == stmts[i as int]);
            }
            i += 1;
        }
        proof {
            assert(stmts.take(stmts.len() as int) =~= stmts);
        }
        let ghost kept_v = kept@.map_values(|s: Statement| stmt_view(s));
        if exp_preds.len() == 0 {
            let derived = program.derived_predicates();
            let ghost derv = dedup_first(derived_mentions(stmts));
            let mut k: usize = 0;
            while k < derived.len()
                invariant
                    k <= derived.len(),
                    derv == strs_view(derived@),
                    derv.len() == derived@.len(),
                    kept@.map_values(|s: Statement| stmt_view(s)) == kept_v + derv.take(
                        k as int,
                    ).map_values(|t: Seq<char>| StmtV::Output { predicate: t }),
                decreases derived.len() - k,
            {
                let ghost kpre = kept@.map_values(|s: Statement| stmt_view(s));
                kept.push(Statement::Output(OutputData { predicate: derived[k].clone() }));
                proof {
                    assert(kept@.map_values(|s: Statement| stmt_view(s)) =~= kpre.push(
                        (StmtV::Output { predicate: derv[k as int] }),
                    ));
                    assert(kept@.map_values(|s: Statement| stmt_view(s)) =~= kept_v + derv.take(
                        k + 1,
                    ).map_values(|t: Seq<char>| StmtV::Output { predicate: t }));
                }
                k += 1;
            }
            proof {
                assert(derv.take(derv.len() as int) =~= derv);
            }
            let picked = choose_ref(derived.as_slice(), rng);
            match picked {
                Some(tag) => {
                    proof {
                        let m = choose|m: int| 0 <= m < derived@.len() && *tag == derived@[m];
                        assert(strs_view(derived@)[m] == tag@);
                        assert(derv.contains(tag@));
                    }
                    adg.set_output_rel(tag);
                    let ghost kpre = kept@.map_values(|s: Statement| stmt_view(s));
                    kept.push(Statement::Export(ExportData { predicate: tag.clone() }));
                    proof {
                        assert(kept@.map_values(|s: Statement| stmt_view(s)) =~= kpre + seq![
                            (StmtV::Export { predicate: tag@ }),
                        ]);
                    }
                    Ok(Program { statements: kept })
                },
                None => {
                    Err(ErrorKind::NoEligibleMutationTarget)
                },
            }
        } else {
            let picked = choose_ref(exp_preds.as_slice(), rng);
            match picked {
                Some(tag) => {
                    proof {
                        let m = choose|m: int| 0 <= m < exp_preds@.len() && *tag == exp_preds@[m];
                        assert(strs_view(exp_preds@)[m] == tag@);
                        assert(export_directive_preds(stmts).contains(tag@));
                    }
                    adg.set_output_rel(tag);
                    let ghost kpre = kept@.map_values(|s: Statement| stmt_view(s));
                    kept.push(Statement::Export(ExportData { predicate: tag.clone() }));
                    proof {
                        assert(kept@.map_values(|s: Statement| stmt_view(s)) =~= kpre + seq![
                            (StmtV::Export { predicate: tag@ }),
                        ]);
                    }
                    Ok(Program { statements: kept })
                },
                None => {
                    proof {
                        assert(false);
                    }
                    Err(ErrorKind::NoEligibleMutationTarget)
                },
            }
        }
    }
}

} // verus!
