use vstd::prelude::*;

use crate::numerals::{spec_decimal, u64_to_decimal};
use crate::program::{
    clone_atoms, prog_view, stmt_view, Program, RuleData, Statement, StmtV,
};

verus! {

use vstd::string::StringExecFns;

/// Every statement kept as it is, except that the rule at statement index
/// `i` is named `r_<i>`.
pub open spec fn spec_name_rules(stmts: Seq<StmtV>) -> Seq<StmtV> {
    stmts.map(
        |i: int, s: StmtV|
            match s {
                StmtV::Rule { id, head, body_positive, body_negative, .. } => StmtV::Rule {
                    name: Some(seq!['r', '_'] + spec_decimal(i as nat)),
                    id,
                    head,
                    body_positive,
                    body_negative,
                },
                _ => s,
            },
    )
}

/// Give every rule a name derived from its statement position, so that
/// graph edges can cite the rule they come from.
pub struct TransformationNameRules {}

impl TransformationNameRules {
    /// Construct the transformation.
    pub fn new() -> (r: TransformationNameRules) {
        TransformationNameRules {  }
    }

    /// Apply the transformation: a copy of the program whose rules carry
    /// their positional names, everything else unchanged.
    pub fn apply(&self, program: &Program) -> (r: Program)
        ensures
            prog_view(r) == spec_name_rules(prog_view(*program)),
    {
        let ghost stmts = prog_view(*program);
        let mut out: Vec<Statement> = Vec::new();
        proof {
            reveal_strlit("r_");
            assert("r_"@ =~= seq!['r', '_']);
            assert(out@.map_values(|s: Statement| stmt_view(s)) =~= spec_name_rules(stmts).take(
                0,
            ));
        }
        let mut i: usize = 0;
        while i < program.statements.len()
            invariant
                i <= program.statements.len(),
                stmts == prog_view(*program),
                stmts.len() == program.statements.len(),
                "r_"@ == seq!['r', '_'],
                out@.map_values(|s: Statement| stmt_view(s)) == spec_name_rules(stmts).take(
                    i as int,
                ),
            decreases program.statements.len() - i,
        {
            let ghost pre = out@.map_values(|s: Statement| stmt_view(s));
            match &program.statements[i] {
                Statement::Rule(rd) => {
                    let mut name = String::from_str("r_");
                    name.append(u64_to_decimal(i as u64).as_str());
                    let renamed = RuleData {
                        name: Some(name),
                        id: rd.id,
                        head: clone_atoms(&rd.head),
                        body_positive: clone_atoms(&rd.body_positive),
                        body_negative: clone_atoms(&rd.body_negative),
                    };
                    out.push(Statement::Rule(renamed));
                },
                s => {
                    out.push(s.clone());
                },
            }
            proof {
                assert(out@.map_values(|s: Statement| stmt_view(s)) =~= pre.push(
                    spec_name_rules(stmts)[i as int],
                ));
                assert(out@.map_values(|s: Statement| stmt_view(s)) =~= spec_name_rules(
                    stmts,
                ).take(i + 1));
            }
            i += 1;
        }
        proof {
            assert(spec_name_rules(stmts).take(stmts.len() as int) =~= spec_name_rules(stmts));
        }
        Program { statements: out }
    }
}

} // verus!
