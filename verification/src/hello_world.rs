use vstd::prelude::*;

use crate::program::{prog_view, stmt_view, Program, Statement};

verus! {

/// The smallest possible program transformation: it keeps every statement
/// and changes nothing. It exists as the template a new operator starts
/// from.
pub struct TransformationHelloWorld {}

impl TransformationHelloWorld {
    /// Construct the transformation.
    pub fn new() -> (r: TransformationHelloWorld) {
        TransformationHelloWorld {  }
    }

    /// Apply the transformation: a copy of the program with every statement
    /// kept.
    pub fn apply(&self, program: &Program) -> (r: Program)
        ensures
            prog_view(r) == prog_view(*program),
    {
        let ghost stmts = prog_view(*program);
        let mut out: Vec<Statement> = Vec::new();
        proof {
            assert(out@.map_values(|s: Statement| stmt_view(s)) =~= stmts.take(0));
        }
        let mut i: usize = 0;
        while i < program.statements.len()
            invariant
                i <= program.statements.len(),
                stmts == prog_view(*program),
                stmts.len() == program.statements.len(),
                out@.map_values(|s: Statement| stmt_view(s)) == stmts.take(i as int),
            decreases program.statements.len() - i,
        {
            let ghost pre = out@.map_values(|s: Statement| stmt_view(s));
            out.push(program.statements[i].clone());
            proof {
                assert(out@.map_values(|s: Statement| stmt_view(s)) =~= pre.push(
                    stmts[i as int],
                ));
                assert(out@.map_values(|s: Statement| stmt_view(s)) =~= stmts.take(i + 1));
            }
            i += 1;
        }
        proof {
            assert(stmts.take(stmts.len() as int) =~= stmts);
        }
        Program { statements: out }
    }
}

} // verus!
