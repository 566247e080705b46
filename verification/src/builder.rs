use vstd::prelude::*;

use crate::adg::{
    edge_view, edges_view, has_rel_node, is_rel, node_tag, node_view, nodes_view, AnnotatedDependencyGraph,
    EdgeV, EdgeWV, NodeV, Sign,
};
use crate::program::{
    dedup_first, prog_mentions, prog_view, stmt_preds, stmt_view, strs_view, term_view, AtomV,
    GroundTerm, Program, Statement, StmtV,
};
use crate::render::{fact_label, fact_label_of};

verus! {

/// Whether no element of the sequence occurs twice.
pub open spec fn distinct_seqs(s: Seq<Seq<char>>) -> bool {
    forall|i: int, j: int| 0 <= i < j < s.len() ==> s[i] != s[j]
}

/// Keeping first occurrences leaves no duplicates.
pub proof fn lemma_dedup_distinct(s: Seq<Seq<char>>)
    ensures
        distinct_seqs(dedup_first(s)),
    decreases s.len(),
{
    if s.len() == 0 {
    } else {
        let pre = dedup_first(s.drop_last());
        lemma_dedup_distinct(s.drop_last());
        if !pre.contains(s.last()) {
            let r = pre.push(s.last());
            assert forall|i: int, j: int| 0 <= i < j < r.len() implies r[i] != r[j] by {
                if j == r.len() - 1 {
                    assert(r[j] == s.last());
                    assert(pre.contains(s.last()) == false);
                    assert(r[i] == pre[i]);
                }
            }
        }
    }
}

/// Keeping first occurrences keeps exactly the elements that occur.
pub proof fn lemma_dedup_contains(s: Seq<Seq<char>>, x: Seq<char>)
    ensures
        dedup_first(s).contains(x) == s.contains(x),
    decreases s.len(),
{
    if s.len() == 0 {
    } else {
        let pre = dedup_first(s.drop_last());
        lemma_dedup_contains(s.drop_last(), x);
        assert(s.contains(x) == (s.drop_last().contains(x) || s.last() == x)) by {
            if s.contains(x) {
                let i = choose|i: int| 0 <= i < s.len() && s[i] == x;
                if i < s.len() - 1 {
                    assert(s.drop_last()[i] == x);
                }
            }
            if s.drop_last().contains(x) {
                let i = choose|i: int| 0 <= i < s.drop_last().len() && s.drop_last()[i] == x;
                assert(s[i] == x);
            }
            if s.last() == x {
                assert(s[s.len() - 1] == x);
            }
        }
        if !pre.contains(s.last()) {
            let r = pre.push(s.last());
            assert(r.contains(x) == (pre.contains(x) || s.last() == x)) by {
                if r.contains(x) {
                    let i = choose|i: int| 0 <= i < r.len() && r[i] == x;
                    if i < pre.len() {
                        assert(pre[i] == x);
                    }
                }
                if pre.contains(x) {
                    let i = choose|i: int| 0 <= i < pre.len() && pre[i] == x;
                    assert(r[i] == x);
                }
                assert(r[r.len() - 1] == s.last());
            }
        }
    }
}

/// The position of `p` in the predicate list.
pub open spec fn pred_pos(preds: Seq<Seq<char>>, p: Seq<char>) -> int
    decreases preds.len(),
{
    if preds.len() == 0 {
        0
    } else if preds.first() == p {
        0
    } else {
        1 + pred_pos(preds.drop_first(), p)
    }
}

/// In a duplicate-free predicate list, the position of an element is the
/// index where it stands.
pub proof fn lemma_pred_pos(preds: Seq<Seq<char>>, p: Seq<char>, i: int)
    requires
        distinct_seqs(preds),
        0 <= i < preds.len(),
        preds[i] == p,
    ensures
        pred_pos(preds, p) == i,
    decreases preds.len(),
{
    if preds.first() == p {
        if i != 0 {
            assert(preds[0] == preds[i]);
            assert(false);
        }
    } else {
        assert(i > 0);
        let rest = preds.drop_first();
        assert forall|a: int, b: int| 0 <= a < b < rest.len() implies rest[a] != rest[b] by {
            assert(preds[a + 1] != preds[b + 1]);
        }
        assert(rest[i - 1] == preds[i]);
        lemma_pred_pos(rest, p, i - 1);
    }
}

/// A fresh relational node for every predicate, strata and ancestry unset.
pub open spec fn rel_nodes_v(preds: Seq<Seq<char>>) -> Seq<NodeV> {
    preds.map_values(|t: Seq<char>| NodeV::Rel { tag: t, stratum: None, ancestry: None })
}

/// The dependency edges one body literal contributes: one edge to each head
/// literal, in head order.
pub open spec fn head_edges_v(
    b: AtomV,
    head: Seq<AtomV>,
    preds: Seq<Seq<char>>,
    sign: Sign,
    name: Option<Seq<char>>,
    id: u64,
) -> Seq<EdgeV>
    decreases head.len(),
{
    if head.len() == 0 {
        seq![]
    } else {
        head_edges_v(b, head.drop_last(), preds, sign, name, id).push(
            EdgeV {
                source: pred_pos(preds, b.predicate),
                target: pred_pos(preds, head.last().predicate),
                weight: EdgeWV::Rel { rule_name: name, id: id, sign: sign },
            },
        )
    }
}

/// The dependency edges one body side of a rule contributes, body literal by
/// body literal.
pub open spec fn body_edges_v(
    body: Seq<AtomV>,
    head: Seq<AtomV>,
    preds: Seq<Seq<char>>,
    sign: Sign,
    name: Option<Seq<char>>,
    id: u64,
) -> Seq<EdgeV>
    decreases body.len(),
{
    if body.len() == 0 {
        seq![]
    } else {
        body_edges_v(body.drop_last(), head, preds, sign, name, id) + head_edges_v(
            body.last(),
            head,
            preds,
            sign,
            name,
            id,
        )
    }
}

/// What one statement adds to the graph: a fact adds a labelled fact node and
/// its fact edge; an import adds a fact node labelled with its source; a rule
/// adds one dependency edge per (body literal, head literal) pair, positive
/// side first; exports, outputs and parameters add nothing.
pub open spec fn build_step(
    acc: (Seq<NodeV>, Seq<EdgeV>),
    s: StmtV,
    preds: Seq<Seq<char>>,
) -> (Seq<NodeV>, Seq<EdgeV>) {
    match s {
        StmtV::Fact { predicate, terms } => (
            acc.0.push(NodeV::Fact { label: fact_label_of(terms) }),
            acc.1.push(
                EdgeV {
                    source: acc.0.len() as int,
                    target: pred_pos(preds, predicate),
                    weight: EdgeWV::Fact,
                },
            ),
        ),
        StmtV::Rule { name, id, head, body_positive, body_negative } => (
            acc.0,
            acc.1 + body_edges_v(body_positive, head, preds, Sign::Positive, name, id)
                + body_edges_v(body_negative, head, preds, Sign::Negative, name, id),
        ),
        StmtV::Import { predicate, source } => (
            acc.0.push(NodeV::Fact { label: source }),
            acc.1.push(
                EdgeV {
                    source: acc.0.len() as int,
                    target: pred_pos(preds, predicate),
                    weight: EdgeWV::Fact,
                },
            ),
        ),
        _ => acc,
    }
}

/// The graph a program builds: one relational node per predicate, then every
/// statement's contribution in statement order.
pub open spec fn build_fold(stmts: Seq<StmtV>, preds: Seq<Seq<char>>) -> (Seq<NodeV>, Seq<EdgeV>)
    decreases stmts.len(),
{
    if stmts.len() == 0 {
        (rel_nodes_v(preds), seq![])
    } else {
        build_step(build_fold(stmts.drop_last(), preds), stmts.last(), preds)
    }
}

/// The mentions of a statement prefix lead the full mention list.
pub proof fn lemma_mentions_prefix(stmts: Seq<StmtV>, j: int)
    requires
        0 <= j <= stmts.len(),
    ensures
        prog_mentions(stmts.take(j)).is_prefix_of(prog_mentions(stmts)),
    decreases stmts.len() - j,
{
    if j == stmts.len() {
        assert(stmts.take(j) =~= stmts);
        assert(prog_mentions(stmts).is_prefix_of(prog_mentions(stmts)));
    } else {
        assert(stmts.take(j + 1).drop_last() =~= stmts.take(j));
        assert(stmts.take(j + 1).last() == stmts[j]);
        assert(prog_mentions(stmts.take(j + 1)) == prog_mentions(stmts.take(j)) + stmt_preds(
            stmts[j],
        ));
        lemma_mentions_prefix(stmts, j + 1);
        assert(prog_mentions(stmts.take(j)).is_prefix_of(prog_mentions(stmts.take(j + 1))));
    }
}

/// An element of a prefix occurs in the full sequence.
pub proof fn lemma_prefix_contains(a: Seq<Seq<char>>, b: Seq<Seq<char>>, x: Seq<char>)
    requires
        a.is_prefix_of(b),
        a.contains(x),
    ensures
        b.contains(x),
{
    let i = choose|i: int| 0 <= i < a.len() && a[i] == x;
    assert(b[i] == x);
}

} // verus!

verus! {

use crate::errors::ErrorKind;
use crate::program::{clone_opt_string, spec_fact_terms};

/// The arena handle of the relational node for `tag` during graph building:
/// the relational nodes lead the arena in predicate-list order.
fn lookup_pred(
    adg: &AnnotatedDependencyGraph,
    tag: &String,
    Ghost(predsv): Ghost<Seq<Seq<char>>>,
) -> (r: usize)
    requires
        distinct_seqs(predsv),
        predsv.len() <= adg.nodes@.len(),
        nodes_view(adg.nodes@).take(predsv.len() as int) == rel_nodes_v(predsv),
        forall|k: int| predsv.len() <= k < adg.nodes@.len() ==> !is_rel(#[trigger] adg.nodes@[k]),
        predsv.contains(tag@),
    ensures
        r as int == pred_pos(predsv, tag@),
        (r as int) < predsv.len(),
        is_rel(adg.nodes@[r as int]),
        predsv[r as int] == tag@,
{
    proof {
        let k = choose|k: int| 0 <= k < predsv.len() && predsv[k] == tag@;
        assert(nodes_view(adg.nodes@).take(predsv.len() as int)[k] == rel_nodes_v(predsv)[k]);
        assert(node_view(adg.nodes@[k]) == (NodeV::Rel {
            tag: predsv[k],
            stratum: None,
            ancestry: None,
        }));
        assert(is_rel(adg.nodes@[k]) && node_tag(adg.nodes@[k]) == tag@);
        assert(has_rel_node(adg.nodes@, tag@));
    }
    match adg.get_rel_node_tag(tag) {
        Ok(i) => {
            proof {
                assert((i as int) < predsv.len());
                assert(nodes_view(adg.nodes@).take(predsv.len() as int)[i as int] == rel_nodes_v(
                    predsv,
                )[i as int]);
                assert(node_view(adg.nodes@[i as int]) == (NodeV::Rel {
                    tag: predsv[i as int],
                    stratum: None,
                    ancestry: None,
                }));
                assert(predsv[i as int] == tag@);
                lemma_pred_pos(predsv, tag@, i as int);
            }
            i
        },
        Err(_) => {
            proof {
                assert(false);
            }
            0
        },
    }
}

impl AnnotatedDependencyGraph {
    /// Build the annotated dependency graph of a program: one relational node
    /// per predicate the program mentions, a labelled fact node with its fact
    /// edge per fact and per import, and one dependency edge per
    /// (body literal, head literal) pair of every rule, parallel edges kept
    /// apart. The program's ground terms seed the constant registry; no
    /// output predicate is designated yet.
    pub fn from_program(program: &Program) -> (r: Option<AnnotatedDependencyGraph>)
        ensures
            r matches Some(adg) && {
                &&& adg.wf()
                &&& adg.output_predicate is None
                &&& adg.ground_terms@.map_values(|t: GroundTerm| term_view(t)) == spec_fact_terms(
                    prog_view(*program),
                )
                &&& nodes_view(adg.nodes@) == build_fold(
                    prog_view(*program),
                    dedup_first(prog_mentions(prog_view(*program))),
                ).0
                &&& edges_view(adg.edges@) == build_fold(
                    prog_view(*program),
                    dedup_first(prog_mentions(prog_view(*program))),
                ).1
            },
    {
        let ghost stmts = prog_view(*program);
        let preds: Vec<String> = program.all_predicates();
        let ghost predsv = strs_view(preds@);
        proof {
            lemma_dedup_distinct(prog_mentions(stmts));
        }
        let ground_terms = program.fact_ground_terms();
        let mut adg = AnnotatedDependencyGraph {
            nodes: Vec::new(),
            edges: Vec::new(),
            output_predicate: None,
            ground_terms: ground_terms,
        };
        let ghost gt0 = adg.ground_terms@;
        proof {
            assert(nodes_view(adg.nodes@) =~= rel_nodes_v(predsv.take(0)));
            assert(edges_view(adg.edges@) =~= Seq::<EdgeV>::empty());
        }
        let mut i: usize = 0;
        while i < preds.len()
            invariant
                i <= preds.len(),
                predsv == strs_view(preds@),
                distinct_seqs(predsv),
                preds@.len() == predsv.len(),
                adg.wf(),
                adg.output_predicate is None,
                adg.ground_terms@ == gt0,
                adg.edges@.len() == 0,
                adg.nodes@.len() == i,
                nodes_view(adg.nodes@) == rel_nodes_v(predsv.take(i as int)),
            decreases preds.len() - i,
        {
            proof {
                if has_rel_node(adg.nodes@, preds@[i as int]@) {
                    let k = choose|k: int|
                        0 <= k < adg.nodes@.len() && is_rel(#[trigger] adg.nodes@[k]) && node_tag(
                            adg.nodes@[k],
                        ) == preds@[i as int]@;
                    assert(nodes_view(adg.nodes@)[k] == rel_nodes_v(predsv.take(i as int))[k]);
                    assert(node_view(adg.nodes@[k]) == (NodeV::Rel {
                        tag: predsv[k],
                        stratum: None,
                        ancestry: None,
                    }));
                    assert(predsv[k] == predsv[i as int]);
                    assert(false);
                }
            }
            let ghost npre = adg.nodes@;
            adg.add_rel_node(&preds[i]);
            proof {
                assert(predsv[i as int] == preds@[i as int]@);
                assert(nodes_view(adg.nodes@).len() == i + 1);
                assert(node_view(adg.nodes@[i as int]) == (NodeV::Rel {
                    tag: predsv[i as int],
                    stratum: None,
                    ancestry: None,
                }));
                assert forall|k: int| 0 <= k < i implies nodes_view(adg.nodes@)[k] == rel_nodes_v(
                    predsv.take(i + 1),
                )[k] by {
                    assert(adg.nodes@[k] == npre[k]);
                    assert(nodes_view(npre)[k] == rel_nodes_v(predsv.take(i as int))[k]);
                    assert(rel_nodes_v(predsv.take(i as int))[k] == (NodeV::Rel {
                        tag: predsv[k],
                        stratum: None,
                        ancestry: None,
                    }));
                }
                assert(nodes_view(adg.nodes@) =~= rel_nodes_v(predsv.take(i + 1)));
            }
            i += 1;
        }
        proof {
            assert(predsv.take(predsv.len() as int) =~= predsv);
            assert(build_fold(stmts.take(0), predsv) == (rel_nodes_v(predsv), Seq::<
                EdgeV,
            >::empty())) by {
                assert(stmts.take(0) =~= Seq::<StmtV>::empty());
            }
            assert(edges_view(adg.edges@) =~= Seq::<EdgeV>::empty());
        }
        let mut j: usize = 0;
        while j < program.statements.len()
            invariant
                j <= program.statements.len(),
                stmts == prog_view(*program),
                stmts.len() == program.statements.len(),
                predsv == strs_view(preds@),
                predsv == dedup_first(prog_mentions(stmts)),
                distinct_seqs(predsv),
                adg.wf(),
                adg.output_predicate is None,
                adg.ground_terms@ == gt0,
                predsv.len() <= adg.nodes@.len(),
                nodes_view(adg.nodes@).take(predsv.len() as int) == rel_nodes_v(predsv),
                forall|k: int|
                    predsv.len() <= k < adg.nodes@.len() ==> !is_rel(#[trigger] adg.nodes@[k]),
                nodes_view(adg.nodes@) == build_fold(stmts.take(j as int), predsv).0,
                edges_view(adg.edges@) == build_fold(stmts.take(j as int), predsv).1,
            decreases program.statements.len() - j,
        {
            let ghost sv = stmts[j as int];
            let ghost nodes_pre = nodes_view(adg.nodes@);
            let ghost edges_pre = edges_view(adg.edges@);
            proof {
                assert(sv == stmt_view(program.statements@[j as int]));
                assert(stmts.take(j + 1).drop_last() =~= stmts.take(j as int));
                assert(stmts.take(j + 1).last() == sv);
                lemma_mentions_prefix(stmts, j + 1);
                assert(prog_mentions(stmts.take(j + 1)) == prog_mentions(stmts.take(j as int))
                    + stmt_preds(sv));
            }
            match &program.statements[j] {
                Statement::Fact(f) => {
                    proof {
                        assert(stmt_preds(sv)[0] == f.predicate@);
                        assert(prog_mentions(stmts.take(j + 1)).contains(f.predicate@)) by {
                            let m = prog_mentions(stmts.take(j as int));
                            assert(prog_mentions(stmts.take(j + 1))[m.len() as int]
                                == f.predicate@);
                        }
                        lemma_prefix_contains(
                            prog_mentions(stmts.take(j + 1)),
                            prog_mentions(stmts),
                            f.predicate@,
                        );
                        lemma_dedup_contains(prog_mentions(stmts), f.predicate@);
                        assert(predsv.contains(f.predicate@));
                    }
                    let rel = lookup_pred(&adg, &f.predicate, Ghost(predsv));
                    let label = fact_label(&f.terms);
                    let fnode = adg.add_fact_node(label);
                    adg.add_fact_edge(fnode, rel);
                    proof {
                        assert(nodes_view(adg.nodes@) =~= nodes_pre.push(
                            (NodeV::Fact {
                                label: fact_label_of(
                                    f.terms@.map_values(|t: GroundTerm| term_view(t)),
                                ),
                            }),
                        ));
                        assert(edges_view(adg.edges@) =~= edges_pre.push(
                            (EdgeV {
                                source: nodes_pre.len() as int,
                                target: pred_pos(predsv, f.predicate@),
                                weight: EdgeWV::Fact,
                            }),
                        ));
                        assert(nodes_view(adg.nodes@) == build_fold(stmts.take(j + 1), predsv).0);
                        assert(edges_view(adg.edges@) == build_fold(stmts.take(j + 1), predsv).1);
                        assert(nodes_view(adg.nodes@).take(predsv.len() as int) =~= rel_nodes_v(
                            predsv,
                        ));
                    }
                },
                Statement::Import(im) => {
                    proof {
                        assert(stmt_preds(sv)[0] == im.predicate@);
                        assert(prog_mentions(stmts.take(j + 1)).contains(im.predicate@)) by {
                            let m = prog_mentions(stmts.take(j as int));
                            assert(prog_mentions(stmts.take(j + 1))[m.len() as int]
                                == im.predicate@);
                        }
                        lemma_prefix_contains(
                            prog_mentions(stmts.take(j + 1)),
                            prog_mentions(stmts),
                            im.predicate@,
                        );
                        lemma_dedup_contains(prog_mentions(stmts), im.predicate@);
                        assert(predsv.contains(im.predicate@));
                    }
                    let rel = lookup_pred(&adg, &im.predicate, Ghost(predsv));
                    let label = im.source.clone();
                    let fnode = adg.add_fact_node(label);
                    adg.add_fact_edge(fnode, rel);
                    proof {
                        assert(nodes_view(adg.nodes@) =~= nodes_pre.push(
                            (NodeV::Fact { label: im.source@ }),
                        ));
                        assert(edges_view(adg.edges@) =~= edges_pre.push(
                            (EdgeV {
                                source: nodes_pre.len() as int,
                                target: pred_pos(predsv, im.predicate@),
                                weight: EdgeWV::Fact,
                            }),
                        ));
                        assert(nodes_view(adg.nodes@) == build_fold(stmts.take(j + 1), predsv).0);
                        assert(edges_view(adg.edges@) == build_fold(stmts.take(j + 1), predsv).1);
                        assert(nodes_view(adg.nodes@).take(predsv.len() as int) =~= rel_nodes_v(
                            predsv,
                        ));
                    }
                },
                Statement::Rule(r) => {
                    proof {
                        assert(sv == rule_view(*r));
                        assert forall|x: Seq<char>|
                            stmt_preds(rule_view(*r)).contains(x) implies #[trigger] predsv
                            .contains(x) by {
                            let i = choose|i: int|
                                0 <= i < stmt_preds(sv).len() && stmt_preds(sv)[i] == x;
                            let m = prog_mentions(stmts.take(j as int));
                            assert(prog_mentions(stmts.take(j + 1))[m.len() + i] == x);
                            assert(prog_mentions(stmts.take(j + 1)).contains(x));
                            lemma_prefix_contains(
                                prog_mentions(stmts.take(j + 1)),
                                prog_mentions(stmts),
                                x,
                            );
                            lemma_dedup_contains(prog_mentions(stmts), x);
                        }
                    }
                    add_rule_edges(&mut adg, r, Ghost(predsv), Ghost(stmts), Ghost(j as int));
                    proof {
                        assert(nodes_view(adg.nodes@) == build_fold(stmts.take(j + 1), predsv).0);
                        assert(edges_view(adg.edges@) == build_fold(stmts.take(j + 1), predsv).1);
                    }
                },
                Statement::Export(_) => {
                    proof {
                        assert(build_fold(stmts.take(j + 1), predsv) == build_fold(
                            stmts.take(j as int),
                            predsv,
                        ));
                    }
                },
                Statement::Output(_) => {
                    proof {
                        assert(build_fold(stmts.take(j + 1), predsv) == build_fold(
                            stmts.take(j as int),
                            predsv,
                        ));
                    }
                },
                Statement::Parameter(_) => {
                    proof {
                        assert(build_fold(stmts.take(j + 1), predsv) == build_fold(
                            stmts.take(j as int),
                            predsv,
                        ));
                    }
                },
            }
            j += 1;
        }
        proof {
            assert(stmts.take(stmts.len() as int) =~= stmts);
        }
        Some(adg)
    }
}

} // verus!

verus! {

use crate::program::{atom_view, rule_view, AtomData, RuleData};

/// Add the dependency edges of one rule: a positive edge per (positive body
/// literal, head literal) pair, then a negative edge per (negative body
/// literal, head literal) pair, in literal order.
fn add_rule_edges(
    adg: &mut AnnotatedDependencyGraph,
    r: &RuleData,
    Ghost(predsv): Ghost<Seq<Seq<char>>>,
    Ghost(stmts): Ghost<Seq<StmtV>>,
    Ghost(j): Ghost<int>,
)
    requires
        old(adg).wf(),
        distinct_seqs(predsv),
        predsv.len() <= old(adg).nodes@.len(),
        nodes_view(old(adg).nodes@).take(predsv.len() as int) == rel_nodes_v(predsv),
        forall|k: int|
            predsv.len() <= k < old(adg).nodes@.len() ==> !is_rel(#[trigger] old(adg).nodes@[k]),
        forall|x: Seq<char>|
            stmt_preds(rule_view(*r)).contains(x) ==> #[trigger] predsv.contains(x),
    ensures
        final(adg).wf(),
        final(adg).nodes == old(adg).nodes,
        final(adg).output_predicate == old(adg).output_predicate,
        final(adg).ground_terms == old(adg).ground_terms,
        edges_view(final(adg).edges@) == edges_view(old(adg).edges@) + body_edges_v(
            r.body_positive@.map_values(|a: AtomData| atom_view(a)),
            r.head@.map_values(|a: AtomData| atom_view(a)),
            predsv,
            Sign::Positive,
            crate::program::opt_str_view(r.name),
            r.id,
        ) + body_edges_v(
            r.body_negative@.map_values(|a: AtomData| atom_view(a)),
            r.head@.map_values(|a: AtomData| atom_view(a)),
            predsv,
            Sign::Negative,
            crate::program::opt_str_view(r.name),
            r.id,
        ),
{
    let ghost headv = r.head@.map_values(|a: AtomData| atom_view(a));
    let ghost posv = r.body_positive@.map_values(|a: AtomData| atom_view(a));
    let ghost negv = r.body_negative@.map_values(|a: AtomData| atom_view(a));
    let ghost namev: Option<Seq<char>> = crate::program::opt_str_view(r.name);
    let ghost allv = headv + posv + negv;
    proof {
        assert(stmt_preds(rule_view(*r)) == allv.map_values(|a: AtomV| a.predicate));
        assert forall|h: int| 0 <= h < headv.len() implies predsv.contains(
            (#[trigger] headv[h]).predicate,
        ) by {
            assert(allv[h] == headv[h]);
            assert(allv.map_values(|a: AtomV| a.predicate)[h] == headv[h].predicate);
            assert(stmt_preds(rule_view(*r)).contains(headv[h].predicate));
        }
        assert forall|b: int| 0 <= b < posv.len() implies predsv.contains(
            (#[trigger] posv[b]).predicate,
        ) by {
            assert(allv[headv.len() + b] == posv[b]);
            assert(allv.map_values(|a: AtomV| a.predicate)[headv.len() + b] == posv[b].predicate);
            assert(stmt_preds(rule_view(*r)).contains(posv[b].predicate));
        }
        assert forall|b: int| 0 <= b < negv.len() implies predsv.contains(
            (#[trigger] negv[b]).predicate,
        ) by {
            assert(allv[headv.len() + posv.len() + b] == negv[b]);
            assert(allv.map_values(|a: AtomV| a.predicate)[headv.len() + posv.len() + b] == negv[
                b
            ].predicate);
            assert(stmt_preds(rule_view(*r)).contains(negv[b].predicate));
        }
    }
    let ghost e0 = edges_view(adg.edges@);
    let mut bi: usize = 0;
    while bi < r.body_positive.len()
        invariant
            bi <= r.body_positive.len(),
            adg.wf(),
            adg.nodes == old(adg).nodes,
            adg.output_predicate == old(adg).output_predicate,
            adg.ground_terms == old(adg).ground_terms,
            distinct_seqs(predsv),
            predsv.len() <= adg.nodes@.len(),
            nodes_view(adg.nodes@).take(predsv.len() as int) == rel_nodes_v(predsv),
            forall|k: int|
                predsv.len() <= k < adg.nodes@.len() ==> !is_rel(#[trigger] adg.nodes@[k]),
            posv == r.body_positive@.map_values(|a: AtomData| atom_view(a)),
                namev == crate::program::opt_str_view(r.name),
            headv == r.head@.map_values(|a: AtomData| atom_view(a)),
            posv.len() == r.body_positive@.len(),
            headv.len() == r.head@.len(),
            forall|b: int|
                0 <= b < posv.len() ==> predsv.contains((#[trigger] posv[b]).predicate),
            forall|h: int|
                0 <= h < headv.len() ==> predsv.contains((#[trigger] headv[h]).predicate),
            edges_view(adg.edges@) == e0 + body_edges_v(
                posv.take(bi as int),
                headv,
                predsv,
                Sign::Positive,
                namev,
                r.id,
            ),
        decreases r.body_positive@.len() - bi,
    {
        proof {
            assert(posv[bi as int].predicate == r.body_positive@[bi as int].predicate@);
            assert(predsv.contains(posv[bi as int].predicate));
        }
        let start = lookup_pred(adg, &r.body_positive[bi].predicate, Ghost(predsv));
        let ghost e1 = edges_view(adg.edges@);
        let mut hi: usize = 0;
        while hi < r.head.len()
            invariant
                hi <= r.head.len(),
                bi < r.body_positive@.len(),
                adg.wf(),
                adg.nodes == old(adg).nodes,
                adg.output_predicate == old(adg).output_predicate,
                adg.ground_terms == old(adg).ground_terms,
                distinct_seqs(predsv),
                predsv.len() <= adg.nodes@.len(),
                nodes_view(adg.nodes@).take(predsv.len() as int) == rel_nodes_v(predsv),
                forall|k: int|
                    predsv.len() <= k < adg.nodes@.len() ==> !is_rel(#[trigger] adg.nodes@[k]),
                posv == r.body_positive@.map_values(|a: AtomData| atom_view(a)),
                namev == crate::program::opt_str_view(r.name),
                headv == r.head@.map_values(|a: AtomData| atom_view(a)),
                headv.len() == r.head@.len(),
                forall|h: int|
                    0 <= h < headv.len() ==> predsv.contains((#[trigger] headv[h]).predicate),
                start as int == pred_pos(predsv, posv[bi as int].predicate),
                (start as int) < predsv.len(),
                is_rel(adg.nodes@[start as int]),
                edges_view(adg.edges@) == e1 + head_edges_v(
                    posv[bi as int],
                    headv.take(hi as int),
                    predsv,
                    Sign::Positive,
                    namev,
                    r.id,
                ),
            decreases r.head@.len() - hi,
        {
            proof {
                assert(headv[hi as int].predicate == r.head@[hi as int].predicate@);
                assert(predsv.contains(headv[hi as int].predicate));
            }
            let end = lookup_pred(adg, &r.head[hi].predicate, Ghost(predsv));
            let name_clone = clone_opt_string(&r.name);
            proof {
                assert(name_clone == r.name);
            }
            let ghost epre = edges_view(adg.edges@);
            let _ = adg.add_rel_edge(name_clone, Sign::Positive, start, end, r.id);
            proof {
                assert(headv.take(hi + 1).drop_last() =~= headv.take(hi as int));
                assert(headv.take(hi + 1).last() == headv[hi as int]);
                let lastent = adg.edges@.last();
                assert(lastent.source == start && lastent.target == end);
                assert(edge_view(lastent).weight == (EdgeWV::Rel {
                    rule_name: namev,
                    id: r.id,
                    sign: Sign::Positive,
                }));
                assert(edges_view(adg.edges@) =~= epre.push(
                    (EdgeV {
                        source: start as int,
                        target: end as int,
                        weight: EdgeWV::Rel { rule_name: namev, id: r.id, sign: Sign::Positive },
                    }),
                ));
                assert(edges_view(adg.edges@) =~= e1 + head_edges_v(
                    posv[bi as int],
                    headv.take(hi + 1),
                    predsv,
                    Sign::Positive,
                    namev,
                    r.id,
                ));
            }
            hi += 1;
        }
        proof {
            assert(headv.take(headv.len() as int) =~= headv);
            assert(posv.take(bi + 1).drop_last() =~= posv.take(bi as int));
            assert(posv.take(bi + 1).last() == posv[bi as int]);
            assert(edges_view(adg.edges@) =~= e0 + body_edges_v(
                posv.take(bi + 1),
                headv,
                predsv,
                Sign::Positive,
                namev,
                r.id,
            ));
        }
        bi += 1;
    }
    proof {
        assert(posv.take(posv.len() as int) =~= posv);
    }
    let ghost e2 = edges_view(adg.edges@);
    let mut bi2: usize = 0;
    while bi2 < r.body_negative.len()
        invariant
            bi2 <= r.body_negative.len(),
            adg.wf(),
            adg.nodes == old(adg).nodes,
            adg.output_predicate == old(adg).output_predicate,
            adg.ground_terms == old(adg).ground_terms,
            distinct_seqs(predsv),
            predsv.len() <= adg.nodes@.len(),
            nodes_view(adg.nodes@).take(predsv.len() as int) == rel_nodes_v(predsv),
            forall|k: int|
                predsv.len() <= k < adg.nodes@.len() ==> !is_rel(#[trigger] adg.nodes@[k]),
            negv == r.body_negative@.map_values(|a: AtomData| atom_view(a)),
                namev == crate::program::opt_str_view(r.name),
            headv == r.head@.map_values(|a: AtomData| atom_view(a)),
            negv.len() == r.body_negative@.len(),
            headv.len() == r.head@.len(),
            forall|b: int|
                0 <= b < negv.len() ==> predsv.contains((#[trigger] negv[b]).predicate),
            forall|h: int|
                0 <= h < headv.len() ==> predsv.contains((#[trigger] headv[h]).predicate),
            edges_view(adg.edges@) == e2 + body_edges_v(
                negv.take(bi2 as int),
                headv,
                predsv,
                Sign::Negative,
                namev,
                r.id,
            ),
        decreases r.body_negative@.len() - bi2,
    {
        proof {
            assert(negv[bi2 as int].predicate == r.body_negative@[bi2 as int].predicate@);
            assert(predsv.contains(negv[bi2 as int].predicate));
        }
        let start = lookup_pred(adg, &r.body_negative[bi2].predicate, Ghost(predsv));
        let ghost e1 = edges_view(adg.edges@);
        let mut hi: usize = 0;
        while hi < r.head.len()
            invariant
                hi <= r.head.len(),
                bi2 < r.body_negative@.len(),
                adg.wf(),
                adg.nodes == old(adg).nodes,
                adg.output_predicate == old(adg).output_predicate,
                adg.ground_terms == old(adg).ground_terms,
                distinct_seqs(predsv),
                predsv.len() <= adg.nodes@.len(),
                nodes_view(adg.nodes@).take(predsv.len() as int) == rel_nodes_v(predsv),
                forall|k: int|
                    predsv.len() <= k < adg.nodes@.len() ==> !is_rel(#[trigger] adg.nodes@[k]),
                negv == r.body_negative@.map_values(|a: AtomData| atom_view(a)),
                namev == crate::program::opt_str_view(r.name),
                headv == r.head@.map_values(|a: AtomData| atom_view(a)),
                headv.len() == r.head@.len(),
                forall|h: int|
                    0 <= h < headv.len() ==> predsv.contains((#[trigger] headv[h]).predicate),
                start as int == pred_pos(predsv, negv[bi2 as int].predicate),
                (start as int) < predsv.len(),
                is_rel(adg.nodes@[start as int]),
                edges_view(adg.edges@) == e1 + head_edges_v(
                    negv[bi2 as int],
                    headv.take(hi as int),
                    predsv,
                    Sign::Negative,
                    namev,
                    r.id,
                ),
            decreases r.head@.len() - hi,
        {
            proof {
                assert(headv[hi as int].predicate == r.head@[hi as int].predicate@);
                assert(predsv.contains(headv[hi as int].predicate));
            }
            let end = lookup_pred(adg, &r.head[hi].predicate, Ghost(predsv));
            let name_clone = clone_opt_string(&r.name);
            proof {
                assert(name_clone == r.name);
            }
            let ghost epre = edges_view(adg.edges@);
            let _ = adg.add_rel_edge(name_clone, Sign::Negative, start, end, r.id);
            proof {
                assert(headv.take(hi + 1).drop_last() =~= headv.take(hi as int));
                assert(headv.take(hi + 1).last() == headv[hi as int]);
                let lastent = adg.edges@.last();
                assert(lastent.source == start && lastent.target == end);
                assert(edge_view(lastent).weight == (EdgeWV::Rel {
                    rule_name: namev,
                    id: r.id,
                    sign: Sign::Negative,
                }));
                assert(edges_view(adg.edges@) =~= epre.push(
                    (EdgeV {
                        source: start as int,
                        target: end as int,
                        weight: EdgeWV::Rel { rule_name: namev, id: r.id, sign: Sign::Negative },
                    }),
                ));
                assert(edges_view(adg.edges@) =~= e1 + head_edges_v(
                    negv[bi2 as int],
                    headv.take(hi + 1),
                    predsv,
                    Sign::Negative,
                    namev,
                    r.id,
                ));
            }
            hi += 1;
        }
        proof {
            assert(headv.take(headv.len() as int) =~= headv);
            assert(negv.take(bi2 + 1).drop_last() =~= negv.take(bi2 as int));
            assert(negv.take(bi2 + 1).last() == negv[bi2 as int]);
            assert(edges_view(adg.edges@) =~= e2 + body_edges_v(
                negv.take(bi2 + 1),
                headv,
                predsv,
                Sign::Negative,
                namev,
                r.id,
            ));
        }
        bi2 += 1;
    }
    proof {
        assert(negv.take(negv.len() as int) =~= negv);
        assert(edges_view(adg.edges@) =~= edges_view(old(adg).edges@) + body_edges_v(
            posv,
            headv,
            predsv,
            Sign::Positive,
            namev,
            r.id,
        ) + body_edges_v(negv, headv, predsv, Sign::Negative, namev, r.id));
    }
}

} // verus!
