use vstd::prelude::*;

verus! {

/// A concrete constant value appearing in facts: a string constant or an
/// integer constant. Values of the two variants are never equal to each
/// other.
#[derive(PartialEq, Eq, Debug)]
pub enum GroundTerm {
    StrVal(String),
    IntVal(u64),
}

/// The mathematical value of a ground term.
pub enum TermV {
    StrV(Seq<char>),
    IntV(u64),
}

/// The value a ground term holds.
pub open spec fn term_view(t: GroundTerm) -> TermV {
    match t {
        GroundTerm::StrVal(s) => TermV::StrV(s@),
        GroundTerm::IntVal(n) => TermV::IntV(n),
    }
}

/// Whether two ground terms hold the same value.
pub open spec fn terms_equal(a: GroundTerm, b: GroundTerm) -> bool {
    term_view(a) == term_view(b)
}

impl GroundTerm {
    /// Whether this term holds the same value as `other`.
    pub fn same_value(&self, other: &GroundTerm) -> (r: bool)
        ensures
            r == terms_equal(*self, *other),
    {
        match (self, other) {
            (GroundTerm::StrVal(x), GroundTerm::StrVal(y)) => *x == *y,
            (GroundTerm::IntVal(x), GroundTerm::IntVal(y)) => *x == *y,
            _ => false,
        }
    }
}

impl Clone for GroundTerm {
    fn clone(&self) -> (r: Self)
        ensures
            r == *self,
    {
        match self {
            GroundTerm::StrVal(s) => GroundTerm::StrVal(s.clone()),
            GroundTerm::IntVal(n) => GroundTerm::IntVal(*n),
        }
    }
}

/// One literal of a rule, reduced to what the dependency analysis reads: the
/// predicate it names and the number of argument positions it has.
#[derive(PartialEq, Eq, Debug)]
pub struct AtomData {
    pub predicate: String,
    pub arity: usize,
}

/// The mathematical value of a rule literal.
pub struct AtomV {
    pub predicate: Seq<char>,
    pub arity: usize,
}

/// The value of a rule literal.
pub open spec fn atom_view(a: AtomData) -> AtomV {
    AtomV { predicate: a.predicate@, arity: a.arity }
}

impl Clone for AtomData {
    fn clone(&self) -> (r: Self)
        ensures
            r == *self,
    {
        AtomData { predicate: self.predicate.clone(), arity: self.arity }
    }
}

/// A ground fact: a predicate applied to constant values.
#[derive(PartialEq, Eq, Debug)]
pub struct FactData {
    pub predicate: String,
    pub terms: Vec<GroundTerm>,
}

/// A rule: head literals derived from positive and negative body literals.
#[derive(PartialEq, Eq, Debug)]
pub struct RuleData {
    pub name: Option<String>,
    pub id: u64,
    pub head: Vec<AtomData>,
    pub body_positive: Vec<AtomData>,
    pub body_negative: Vec<AtomData>,
}

/// An import: an external fact source feeding one relation.
#[derive(PartialEq, Eq, Debug)]
pub struct ImportData {
    pub predicate: String,
    pub source: String,
}

/// An export directive for one relation.
#[derive(PartialEq, Eq, Debug)]
pub struct ExportData {
    pub predicate: String,
}

/// An output directive for one relation.
#[derive(PartialEq, Eq, Debug)]
pub struct OutputData {
    pub predicate: String,
}

/// A named run parameter.
#[derive(PartialEq, Eq, Debug)]
pub struct ParameterData {
    pub name: String,
}

/// One statement of a rule program, as the external program adapter hands it
/// over.
#[derive(PartialEq, Eq, Debug)]
pub enum Statement {
    Fact(FactData),
    Rule(RuleData),
    Import(ImportData),
    Export(ExportData),
    Output(OutputData),
    Parameter(ParameterData),
}

/// The mathematical value of one statement.
pub enum StmtV {
    Fact { predicate: Seq<char>, terms: Seq<TermV> },
    Rule {
        name: Option<Seq<char>>,
        id: u64,
        head: Seq<AtomV>,
        body_positive: Seq<AtomV>,
        body_negative: Seq<AtomV>,
    },
    Import { predicate: Seq<char>, source: Seq<char> },
    Export { predicate: Seq<char> },
    Output { predicate: Seq<char> },
    Parameter { param_name: Seq<char> },
}

/// The value of an optional string.
pub open spec fn opt_str_view(o: Option<String>) -> Option<Seq<char>> {
    match o {
        Some(n) => Some(n@),
        None => None,
    }
}

/// The value of one statement.
pub open spec fn stmt_view(s: Statement) -> StmtV {
    match s {
        Statement::Fact(f) => StmtV::Fact {
            predicate: f.predicate@,
            terms: f.terms@.map_values(|t: GroundTerm| term_view(t)),
        },
        Statement::Rule(r) => StmtV::Rule {
            name: opt_str_view(r.name),
            id: r.id,
            head: r.head@.map_values(|a: AtomData| atom_view(a)),
            body_positive: r.body_positive@.map_values(|a: AtomData| atom_view(a)),
            body_negative: r.body_negative@.map_values(|a: AtomData| atom_view(a)),
        },
        Statement::Import(i) => StmtV::Import { predicate: i.predicate@, source: i.source@ },
        Statement::Export(e) => StmtV::Export { predicate: e.predicate@ },
        Statement::Output(o) => StmtV::Output { predicate: o.predicate@ },
        Statement::Parameter(p) => StmtV::Parameter { param_name: p.name@ },
    }
}

/// The structured in-memory view of a rule program that the core works on.
/// The external adapter fills it from a parsed program and mirrors committed
/// edits back.
pub struct Program {
    pub statements: Vec<Statement>,
}

/// The value of a whole program: its statements' values in order.
pub open spec fn prog_view(p: Program) -> Seq<StmtV> {
    p.statements@.map_values(|s: Statement| stmt_view(s))
}

/// The sequence of string views of a vector of strings.
pub open spec fn strs_view(v: Seq<String>) -> Seq<Seq<char>> {
    v.map_values(|s: String| s@)
}

/// The predicates one statement mentions, in order: a fact, import, export or
/// output names one; a rule names its head, then its positive body, then its
/// negative body literals' predicates; a parameter names none.
pub open spec fn stmt_preds(s: StmtV) -> Seq<Seq<char>> {
    match s {
        StmtV::Fact { predicate, .. } => seq![predicate],
        StmtV::Rule { head, body_positive, body_negative, .. } => (head + body_positive
            + body_negative).map_values(|a: AtomV| a.predicate),
        StmtV::Import { predicate, .. } => seq![predicate],
        StmtV::Export { predicate } => seq![predicate],
        StmtV::Output { predicate } => seq![predicate],
        StmtV::Parameter { .. } => seq![],
    }
}

/// All predicate mentions of a program, concatenated in statement order.
pub open spec fn prog_mentions(stmts: Seq<StmtV>) -> Seq<Seq<char>>
    decreases stmts.len(),
{
    if stmts.len() == 0 {
        seq![]
    } else {
        prog_mentions(stmts.drop_last()) + stmt_preds(stmts.last())
    }
}

/// The head-literal predicate mentions of a program, in order: the relations
/// some rule derives.
pub open spec fn derived_mentions(stmts: Seq<StmtV>) -> Seq<Seq<char>>
    decreases stmts.len(),
{
    if stmts.len() == 0 {
        seq![]
    } else {
        derived_mentions(stmts.drop_last()) + (match stmts.last() {
            StmtV::Rule { head, .. } => head.map_values(|a: AtomV| a.predicate),
            _ => seq![],
        })
    }
}

/// Keep the first occurrence of each element, in order.
pub open spec fn dedup_first(s: Seq<Seq<char>>) -> Seq<Seq<char>>
    decreases s.len(),
{
    if s.len() == 0 {
        seq![]
    } else {
        let pre = dedup_first(s.drop_last());
        if pre.contains(s.last()) {
            pre
        } else {
            pre.push(s.last())
        }
    }
}

/// Fold a block of further mentions into an already deduplicated sequence,
/// keeping each element's first occurrence.
pub open spec fn dedup_extend(acc: Seq<Seq<char>>, more: Seq<Seq<char>>) -> Seq<Seq<char>>
    decreases more.len(),
{
    if more.len() == 0 {
        acc
    } else {
        dedup_extend(
            if acc.contains(more.first()) {
                acc
            } else {
                acc.push(more.first())
            },
            more.drop_first(),
        )
    }
}

/// Folding a single element into a deduplicated sequence appends it exactly
/// when it is new.
pub proof fn lemma_dedup_extend_one(acc: Seq<Seq<char>>, x: Seq<char>)
    ensures
        dedup_extend(acc, seq![x]) == if acc.contains(x) {
            acc
        } else {
            acc.push(x)
        },
{
    let acc2 = if acc.contains(x) {
        acc
    } else {
        acc.push(x)
    };
    assert(seq![x].drop_first() =~= Seq::<Seq<char>>::empty());
    assert(dedup_extend(acc2, Seq::<Seq<char>>::empty()) == acc2);
}

/// Deduplicating one more element appends it exactly when it is new.
pub proof fn lemma_dedup_push(s: Seq<Seq<char>>, x: Seq<char>)
    ensures
        dedup_first(s.push(x)) == if dedup_first(s).contains(x) {
            dedup_first(s)
        } else {
            dedup_first(s).push(x)
        },
{
    assert(s.push(x).drop_last() =~= s);
    assert(s.push(x).last() == x);
}

/// Extending element by element computes the same deduplication as doing it
/// in one piece.
pub proof fn lemma_dedup_extend(m: Seq<Seq<char>>, more: Seq<Seq<char>>)
    ensures
        dedup_first(m + more) == dedup_extend(dedup_first(m), more),
    decreases more.len(),
{
    if more.len() == 0 {
        assert(m + more =~= m);
    } else {
        let f = more.first();
        assert(m + more =~= m.push(f) + more.drop_first());
        lemma_dedup_extend(m.push(f), more.drop_first());
        lemma_dedup_push(m, f);
    }
}

/// A fold over concatenated mention blocks splits into two folds.
pub proof fn lemma_dedup_extend_concat(acc: Seq<Seq<char>>, a: Seq<Seq<char>>, b: Seq<Seq<char>>)
    ensures
        dedup_extend(acc, a + b) == dedup_extend(dedup_extend(acc, a), b),
    decreases a.len(),
{
    if a.len() == 0 {
        assert(a + b =~= b);
    } else {
        let acc2 = if acc.contains(a.first()) {
            acc
        } else {
            acc.push(a.first())
        };
        assert((a + b).first() == a.first());
        assert((a + b).drop_first() =~= a.drop_first() + b);
        lemma_dedup_extend_concat(acc2, a.drop_first(), b);
    }
}

/// The arity a statement establishes for predicate `p`, if it references it:
/// a fact by its term count, a rule by the declared arity of the first of its
/// literals (head, then positive body, then negative body) naming `p`.
pub open spec fn stmt_arity_of(s: StmtV, p: Seq<char>) -> Option<usize> {
    match s {
        StmtV::Fact { predicate, terms } => if predicate == p {
            Some(terms.len() as usize)
        } else {
            None
        },
        StmtV::Rule { head, body_positive, body_negative, .. } => first_atom_arity(
            head + body_positive + body_negative,
            p,
        ),
        _ => None,
    }
}

/// The arity of the first literal in `atoms` whose predicate is `p`.
pub open spec fn first_atom_arity(atoms: Seq<AtomV>, p: Seq<char>) -> Option<usize>
    decreases atoms.len(),
{
    if atoms.len() == 0 {
        None
    } else if atoms.first().predicate == p {
        Some(atoms.first().arity)
    } else {
        first_atom_arity(atoms.drop_first(), p)
    }
}

/// The arity of `p` as the first fact or rule in statement order establishes
/// it; `None` if no fact or rule references `p`.
pub open spec fn prog_arity_of(stmts: Seq<StmtV>, p: Seq<char>) -> Option<usize>
    decreases stmts.len(),
{
    if stmts.len() == 0 {
        None
    } else if stmt_arity_of(stmts.first(), p) is Some {
        stmt_arity_of(stmts.first(), p)
    } else {
        prog_arity_of(stmts.drop_first(), p)
    }
}

/// The ground terms of all facts, concatenated in statement order.
pub open spec fn spec_fact_terms(stmts: Seq<StmtV>) -> Seq<TermV>
    decreases stmts.len(),
{
    if stmts.len() == 0 {
        seq![]
    } else {
        spec_fact_terms(stmts.drop_last()) + (match stmts.last() {
            StmtV::Fact { terms, .. } => terms,
            _ => seq![],
        })
    }
}

/// The first rule named `n`, if any.
pub open spec fn spec_fetch_rule(stmts: Seq<StmtV>, n: Seq<char>) -> Option<StmtV>
    decreases stmts.len(),
{
    if stmts.len() == 0 {
        None
    } else if (stmts.first() matches StmtV::Rule { name: Some(rn), .. } && rn == n) {
        Some(stmts.first())
    } else {
        spec_fetch_rule(stmts.drop_first(), n)
    }
}

} // verus!

verus! {

/// Clone a vector of ground terms, preserving its value sequence.
pub fn clone_terms(v: &Vec<GroundTerm>) -> (r: Vec<GroundTerm>)
    ensures
        r@ == v@,
{
    let r = v.clone();
    proof {
        assert(r@ =~= v@);
    }
    r
}

/// Clone a vector of literals, preserving its value sequence.
pub fn clone_atoms(v: &Vec<AtomData>) -> (r: Vec<AtomData>)
    ensures
        r@ == v@,
{
    let r = v.clone();
    proof {
        assert(r@ =~= v@);
    }
    r
}

/// Clone an optional string, preserving its value.
pub fn clone_opt_string(v: &Option<String>) -> (r: Option<String>)
    ensures
        r == *v,
{
    match v {
        Some(s) => Some(s.clone()),
        None => None,
    }
}

impl Clone for FactData {
    fn clone(&self) -> (r: Self)
        ensures
            r.predicate == self.predicate,
            r.terms@ == self.terms@,
    {
        FactData { predicate: self.predicate.clone(), terms: clone_terms(&self.terms) }
    }
}

impl Clone for RuleData {
    fn clone(&self) -> (r: Self)
        ensures
            r.name == self.name,
            r.id == self.id,
            r.head@ == self.head@,
            r.body_positive@ == self.body_positive@,
            r.body_negative@ == self.body_negative@,
    {
        RuleData {
            name: clone_opt_string(&self.name),
            id: self.id,
            head: clone_atoms(&self.head),
            body_positive: clone_atoms(&self.body_positive),
            body_negative: clone_atoms(&self.body_negative),
        }
    }
}

impl Clone for Statement {
    fn clone(&self) -> (r: Self)
        ensures
            stmt_view(r) == stmt_view(*self),
    {
        match self {
            Statement::Fact(f) => Statement::Fact(f.clone()),
            Statement::Rule(r) => Statement::Rule(r.clone()),
            Statement::Import(i) => Statement::Import(
                ImportData { predicate: i.predicate.clone(), source: i.source.clone() },
            ),
            Statement::Export(e) => Statement::Export(
                ExportData { predicate: e.predicate.clone() },
            ),
            Statement::Output(o) => Statement::Output(
                OutputData { predicate: o.predicate.clone() },
            ),
            Statement::Parameter(p) => Statement::Parameter(
                ParameterData { name: p.name.clone() },
            ),
        }
    }
}

/// Whether `s` occurs in `v`, compared by string value.
pub fn contains_string(v: &Vec<String>, s: &String) -> (r: bool)
    ensures
        r == strs_view(v@).contains(s@),
{
    let mut i: usize = 0;
    while i < v.len()
        invariant
            i <= v.len(),
            forall|k: int| 0 <= k < i ==> v@[k]@ != s@,
        decreases v.len() - i,
    {
        if *vstd::slice::slice_index_get(v.as_slice(), i) == *s {
            proof {
                assert(strs_view(v@)[i as int] == v@[i as int]@);
            }
            return true;
        }
        i += 1;
    }
    proof {
        assert(forall|k: int| 0 <= k < strs_view(v@).len() ==> strs_view(v@)[k] == v@[k]@);
    }
    false
}

/// Append `p` to `acc` unless its value is already present.
fn push_if_missing(acc: &mut Vec<String>, p: &String)
    ensures
        strs_view(final(acc)@) == dedup_extend(strs_view(old(acc)@), seq![p@]),
{
    let ghost pre = strs_view(acc@);
    proof {
        lemma_dedup_extend_one(pre, p@);
    }
    if !contains_string(acc, p) {
        acc.push(p.clone());
        proof {
            assert(strs_view(acc@) =~= pre.push(p@));
        }
    }
}

/// Append the predicates of `atoms` to `acc`, each unless already present.
fn push_atom_preds(acc: &mut Vec<String>, atoms: &Vec<AtomData>)
    ensures
        strs_view(final(acc)@) == dedup_extend(
            strs_view(old(acc)@),
            atoms@.map_values(|a: AtomData| atom_view(a)).map_values(|a: AtomV| a.predicate),
        ),
{
    let ghost views = atoms@.map_values(|a: AtomData| atom_view(a)).map_values(
        |a: AtomV| a.predicate,
    );
    let mut j: usize = 0;
    while j < atoms.len()
        invariant
            j <= atoms.len(),
            views == atoms@.map_values(|a: AtomData| atom_view(a)).map_values(
                |a: AtomV| a.predicate,
            ),
            strs_view(acc@) == dedup_extend(strs_view(old(acc)@), views.take(j as int)),
        decreases atoms.len() - j,
    {
        let ghost before = strs_view(acc@);
        push_if_missing(acc, &atoms[j].predicate);
        proof {
            assert(views.take(j + 1) =~= views.take(j as int) + seq![views[j as int]]);
            lemma_dedup_extend_concat(
                strs_view(old(acc)@),
                views.take(j as int),
                seq![views[j as int]],
            );
            assert(views[j as int] == atoms@[j as int].predicate@);
        }
        j += 1;
    }
    proof {
        assert(views.take(atoms@.len() as int) =~= views);
    }
}

impl Program {
    /// Every predicate the program mentions, each once, in order of first
    /// mention.
    pub fn all_predicates(&self) -> (r: Vec<String>)
        ensures
            strs_view(r@) == dedup_first(prog_mentions(prog_view(*self))),
    {
        let ghost stmts = prog_view(*self);
        let mut acc: Vec<String> = Vec::new();
        proof {
            assert(strs_view(acc@) =~= Seq::<Seq<char>>::empty());
            assert(prog_mentions(stmts.take(0)) =~= Seq::<Seq<char>>::empty());
            assert(dedup_first(Seq::<Seq<char>>::empty()) =~= Seq::<Seq<char>>::empty());
        }
        let mut i: usize = 0;
        while i < self.statements.len()
            invariant
                i <= self.statements.len(),
                stmts == prog_view(*self),
                stmts.len() == self.statements.len(),
                strs_view(acc@) == dedup_first(prog_mentions(stmts.take(i as int))),
            decreases self.statements.len() - i,
        {
            let ghost before = strs_view(acc@);
            let ghost sv = stmts[i as int];
            proof {
                assert(sv == stmt_view(self.statements@[i as int]));
            }
            match &self.statements[i] {
                Statement::Fact(f) => {
                    push_if_missing(&mut acc, &f.predicate);
                    proof {
                        assert(stmt_preds(sv) =~= seq![f.predicate@]);
                    }
                },
                Statement::Rule(r) => {
                    let ghost hv = r.head@.map_values(|a: AtomData| atom_view(a)).map_values(
                        |a: AtomV| a.predicate,
                    );
                    let ghost pv = r.body_positive@.map_values(|a: AtomData| atom_view(a))
                        .map_values(|a: AtomV| a.predicate);
                    let ghost nv = r.body_negative@.map_values(|a: AtomData| atom_view(a))
                        .map_values(|a: AtomV| a.predicate);
                    push_atom_preds(&mut acc, &r.head);
                    push_atom_preds(&mut acc, &r.body_positive);
                    push_atom_preds(&mut acc, &r.body_negative);
                    proof {
                        assert(stmt_preds(sv) =~= hv + pv + nv);
                        lemma_dedup_extend_concat(before, hv, pv);
                        lemma_dedup_extend_concat(before, hv + pv, nv);
                        assert(dedup_extend(before, hv + pv + nv) == dedup_extend(
                            dedup_extend(dedup_extend(before, hv), pv),
                            nv,
                        ));
                    }
                },
                Statement::Import(im) => {
                    push_if_missing(&mut acc, &im.predicate);
                    proof {
                        assert(stmt_preds(sv) =~= seq![im.predicate@]);
                    }
                },
                Statement::Export(e) => {
                    push_if_missing(&mut acc, &e.predicate);
                    proof {
                        assert(stmt_preds(sv) =~= seq![e.predicate@]);
                    }
                },
                Statement::Output(o) => {
                    push_if_missing(&mut acc, &o.predicate);
                    proof {
                        assert(stmt_preds(sv) =~= seq![o.predicate@]);
                    }
                },
                Statement::Parameter(_) => {
                    proof {
                        assert(stmt_preds(sv) =~= Seq::<Seq<char>>::empty());
                        assert(dedup_extend(before, stmt_preds(sv)) == before);
                    }
                },
            }
            proof {
                assert(stmts.take(i + 1).drop_last() =~= stmts.take(i as int));
                assert(stmts.take(i + 1).last() == sv);
                assert(prog_mentions(stmts.take(i + 1)) == prog_mentions(stmts.take(i as int))
                    + stmt_preds(sv));
                lemma_dedup_extend(prog_mentions(stmts.take(i as int)), stmt_preds(sv));
            }
            i += 1;
        }
        proof {
            assert(stmts.take(stmts.len() as int) =~= stmts);
        }
        acc
    }

    /// Every predicate some rule head derives, each once, in order of first
    /// mention.
    pub fn derived_predicates(&self) -> (r: Vec<String>)
        ensures
            strs_view(r@) == dedup_first(derived_mentions(prog_view(*self))),
    {
        let ghost stmts = prog_view(*self);
        let mut acc: Vec<String> = Vec::new();
        proof {
            assert(strs_view(acc@) =~= Seq::<Seq<char>>::empty());
            assert(derived_mentions(stmts.take(0)) =~= Seq::<Seq<char>>::empty());
            assert(dedup_first(Seq::<Seq<char>>::empty()) =~= Seq::<Seq<char>>::empty());
        }
        let mut i: usize = 0;
        while i < self.statements.len()
            invariant
                i <= self.statements.len(),
                stmts == prog_view(*self),
                stmts.len() == self.statements.len(),
                strs_view(acc@) == dedup_first(derived_mentions(stmts.take(i as int))),
            decreases self.statements.len() - i,
        {
            let ghost before = strs_view(acc@);
            let ghost sv = stmts[i as int];
            let ghost block: Seq<Seq<char>> = match sv {
                StmtV::Rule { head, .. } => head.map_values(|a: AtomV| a.predicate),
                _ => seq![],
            };
            proof {
                assert(sv == stmt_view(self.statements@[i as int]));
            }
            match &self.statements[i] {
                Statement::Rule(r) => {
                    push_atom_preds(&mut acc, &r.head);
                },
                _ => {
                    proof {
                        assert(block =~= Seq::<Seq<char>>::empty());
                        assert(dedup_extend(before, block) == before);
                    }
                },
            }
            proof {
                assert(stmts.take(i + 1).drop_last() =~= stmts.take(i as int));
                assert(stmts.take(i + 1).last() == sv);
                assert(derived_mentions(stmts.take(i + 1)) == derived_mentions(
                    stmts.take(i as int),
                ) + block);
                lemma_dedup_extend(derived_mentions(stmts.take(i as int)), block);
            }
            i += 1;
        }
        proof {
            assert(stmts.take(stmts.len() as int) =~= stmts);
        }
        acc
    }

    /// Stage one more fact: append it to the program.
    pub fn add_fact(&mut self, fact: FactData)
        ensures
            prog_view(*final(self)) == prog_view(*old(self)).push(
                stmt_view(Statement::Fact(fact)),
            ),
    {
        let ghost fv = stmt_view(Statement::Fact(fact));
        self.statements.push(Statement::Fact(fact));
        proof {
            assert(prog_view(*self) =~= prog_view(*old(self)).push(fv));
        }
    }
}

} // verus!

verus! {

/// The `Rule` statement value built from rule data.
pub open spec fn rule_view(r: RuleData) -> StmtV {
    StmtV::Rule {
        name: opt_str_view(r.name),
        id: r.id,
        head: r.head@.map_values(|a: AtomData| atom_view(a)),
        body_positive: r.body_positive@.map_values(|a: AtomData| atom_view(a)),
        body_negative: r.body_negative@.map_values(|a: AtomData| atom_view(a)),
    }
}

/// Scanning two concatenated literal blocks finds the first block's match
/// first.
pub proof fn lemma_first_atom_arity_concat(a: Seq<AtomV>, b: Seq<AtomV>, p: Seq<char>)
    ensures
        first_atom_arity(a + b, p) == if first_atom_arity(a, p) is Some {
            first_atom_arity(a, p)
        } else {
            first_atom_arity(b, p)
        },
    decreases a.len(),
{
    if a.len() == 0 {
        assert(a + b =~= b);
    } else {
        assert((a + b).first() == a.first());
        if a.first().predicate == p {
        } else {
            assert((a + b).drop_first() =~= a.drop_first() + b);
            lemma_first_atom_arity_concat(a.drop_first(), b, p);
        }
    }
}

/// The arity of the first literal in `atoms` naming `p`.
fn atom_arity_scan(atoms: &Vec<AtomData>, p: &String) -> (r: Option<usize>)
    ensures
        r == first_atom_arity(atoms@.map_values(|a: AtomData| atom_view(a)), p@),
{
    let ghost views = atoms@.map_values(|a: AtomData| atom_view(a));
    proof {
        assert(views.skip(0) =~= views);
    }
    let mut i: usize = 0;
    while i < atoms.len()
        invariant
            i <= atoms.len(),
            views == atoms@.map_values(|a: AtomData| atom_view(a)),
            first_atom_arity(views, p@) == first_atom_arity(views.skip(i as int), p@),
        decreases atoms.len() - i,
    {
        proof {
            assert(views.skip(i as int).first() == views[i as int]);
        }
        if atoms[i].predicate == *p {
            return Some(atoms[i].arity);
        }
        proof {
            assert(views.skip(i as int).drop_first() =~= views.skip(i + 1));
        }
        i += 1;
    }
    proof {
        assert(views.skip(views.len() as int) =~= Seq::<AtomV>::empty());
    }
    None
}

/// The arity one statement establishes for `p`, if it references it.
fn stmt_arity(s: &Statement, p: &String) -> (r: Option<usize>)
    ensures
        r == stmt_arity_of(stmt_view(*s), p@),
{
    match s {
        Statement::Fact(f) => {
            if f.predicate == *p {
                Some(f.terms.len())
            } else {
                None
            }
        },
        Statement::Rule(r) => {
            let ghost hv = r.head@.map_values(|a: AtomData| atom_view(a));
            let ghost pv = r.body_positive@.map_values(|a: AtomData| atom_view(a));
            let ghost nv = r.body_negative@.map_values(|a: AtomData| atom_view(a));
            proof {
                lemma_first_atom_arity_concat(hv + pv, nv, p@);
                lemma_first_atom_arity_concat(hv, pv, p@);
            }
            let head_hit = atom_arity_scan(&r.head, p);
            match head_hit {
                Some(a) => Some(a),
                None => {
                    let pos_hit = atom_arity_scan(&r.body_positive, p);
                    match pos_hit {
                        Some(a) => Some(a),
                        None => atom_arity_scan(&r.body_negative, p),
                    }
                },
            }
        },
        _ => None,
    }
}

impl Program {
    /// The arity of `p`, as the first fact or rule referencing `p`
    /// establishes it.
    pub fn arity_of(&self, p: &String) -> (r: Option<usize>)
        ensures
            r == prog_arity_of(prog_view(*self), p@),
    {
        let ghost stmts = prog_view(*self);
        proof {
            assert(stmts.skip(0) =~= stmts);
        }
        let mut i: usize = 0;
        while i < self.statements.len()
            invariant
                i <= self.statements.len(),
                stmts == prog_view(*self),
                stmts.len() == self.statements.len(),
                prog_arity_of(stmts, p@) == prog_arity_of(stmts.skip(i as int), p@),
            decreases self.statements.len() - i,
        {
            proof {
                assert(stmts.skip(i as int).first() == stmts[i as int]);
            }
            let hit = stmt_arity(&self.statements[i], p);
            if hit.is_some() {
                return hit;
            }
            proof {
                assert(stmts.skip(i as int).drop_first() =~= stmts.skip(i + 1));
            }
            i += 1;
        }
        proof {
            assert(stmts.skip(stmts.len() as int) =~= Seq::<StmtV>::empty());
        }
        None
    }

    /// All ground terms of the program's facts, in statement order.
    pub fn fact_ground_terms(&self) -> (r: Vec<GroundTerm>)
        ensures
            r@.map_values(|t: GroundTerm| term_view(t)) == spec_fact_terms(prog_view(*self)),
    {
        let ghost stmts = prog_view(*self);
        let mut acc: Vec<GroundTerm> = Vec::new();
        proof {
            assert(acc@.map_values(|t: GroundTerm| term_view(t)) =~= Seq::<TermV>::empty());
            assert(spec_fact_terms(stmts.take(0)) =~= Seq::<TermV>::empty());
        }
        let mut i: usize = 0;
        while i < self.statements.len()
            invariant
                i <= self.statements.len(),
                stmts == prog_view(*self),
                stmts.len() == self.statements.len(),
                acc@.map_values(|t: GroundTerm| term_view(t)) == spec_fact_terms(
                    stmts.take(i as int),
                ),
            decreases self.statements.len() - i,
        {
            let ghost before = acc@.map_values(|t: GroundTerm| term_view(t));
            let ghost sv = stmts[i as int];
            let ghost block: Seq<TermV> = match sv {
                StmtV::Fact { terms, .. } => terms,
                _ => seq![],
            };
            proof {
                assert(sv == stmt_view(self.statements@[i as int]));
            }
            match &self.statements[i] {
                Statement::Fact(f) => {
                    let mut more = clone_terms(&f.terms);
                    let ghost morev = more@;
                    acc.append(&mut more);
                    proof {
                        assert(acc@.map_values(|t: GroundTerm| term_view(t)) =~= before + block);
                    }
                },
                _ => {
                    proof {
                        assert(block =~= Seq::<TermV>::empty());
                        assert(before + block =~= before);
                    }
                },
            }
            proof {
                assert(stmts.take(i + 1).drop_last() =~= stmts.take(i as int));
                assert(stmts.take(i + 1).last() == sv);
            }
            i += 1;
        }
        proof {
            assert(stmts.take(stmts.len() as int) =~= stmts);
        }
        acc
    }
}

/// Find the first rule of the program carrying the given name.
pub fn fetch_rule_by_name(rule_name: String, program: &Program) -> (r: Option<&RuleData>)
    ensures
        match r {
            Some(rd) => spec_fetch_rule(prog_view(*program), rule_name@) == Some(rule_view(*rd)),
            None => spec_fetch_rule(prog_view(*program), rule_name@) is None,
        },
{
    let ghost stmts = prog_view(*program);
    proof {
        assert(stmts.skip(0) =~= stmts);
    }
    let mut i: usize = 0;
    while i < program.statements.len()
        invariant
            i <= program.statements.len(),
            stmts == prog_view(*program),
            stmts.len() == program.statements.len(),
            spec_fetch_rule(stmts, rule_name@) == spec_fetch_rule(stmts.skip(i as int), rule_name@),
        decreases program.statements.len() - i,
    {
        proof {
            assert(stmts.skip(i as int).first() == stmts[i as int]);
            assert(stmts[i as int] == stmt_view(program.statements@[i as int]));
        }
        match &program.statements[i] {
            Statement::Rule(r) => {
                match &r.name {
                    Some(n) => {
                        if *n == rule_name {
                            return Some(r);
                        }
                    },
                    None => {},
                }
            },
            _ => {},
        }
        proof {
            assert(stmts.skip(i as int).drop_first() =~= stmts.skip(i + 1));
        }
        i += 1;
    }
    proof {
        assert(stmts.skip(stmts.len() as int) =~= Seq::<StmtV>::empty());
    }
    None
}

} // verus!
