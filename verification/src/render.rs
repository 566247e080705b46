use vstd::prelude::*;

use crate::numerals::{spec_decimal, u64_to_decimal};
use crate::program::{term_view, GroundTerm, TermV};

verus! {

use vstd::string::StringExecFns;

/// How one ground term reads: a string constant as its characters, an
/// integer constant as its decimal numeral.
pub open spec fn spec_render_term(t: TermV) -> Seq<char> {
    match t {
        TermV::StrV(s) => s,
        TermV::IntV(n) => spec_decimal(n as nat),
    }
}

/// The label of a fact node: every term's rendering, each followed by a
/// comma and a line break.
pub open spec fn fact_label_of(terms: Seq<TermV>) -> Seq<char>
    decreases terms.len(),
{
    if terms.len() == 0 {
        seq![]
    } else {
        fact_label_of(terms.drop_last()) + spec_render_term(terms.last()) + seq![',', '\n']
    }
}

/// The label of a staged fact: the terms' renderings between parentheses,
/// separated by comma and space.
pub open spec fn paren_label_of(terms: Seq<TermV>) -> Seq<char>
    decreases terms.len(),
{
    if terms.len() == 0 {
        seq!['(', ')']
    } else {
        paren_label_of(terms.drop_last()).drop_last() + (if terms.len() == 1 {
            seq![]
        } else {
            seq![',', ' ']
        }) + spec_render_term(terms.last()) + seq![')']
    }
}

/// Render one ground term.
pub fn render_term(t: &GroundTerm) -> (r: String)
    ensures
        r@ == spec_render_term(term_view(*t)),
{
    match t {
        GroundTerm::StrVal(s) => s.clone(),
        GroundTerm::IntVal(n) => u64_to_decimal(*n),
    }
}

/// Render the label of a fact node from its terms.
pub fn fact_label(terms: &Vec<GroundTerm>) -> (r: String)
    ensures
        r@ == fact_label_of(terms@.map_values(|t: GroundTerm| term_view(t))),
{
    let ghost views = terms@.map_values(|t: GroundTerm| term_view(t));
    let mut s = String::new();
    proof {
        reveal_strlit(",\n");
        assert(",\n"@ =~= seq![',', '\n']);
        assert(fact_label_of(views.take(0)) =~= Seq::<char>::empty());
    }
    let mut i: usize = 0;
    while i < terms.len()
        invariant
            i <= terms.len(),
            views == terms@.map_values(|t: GroundTerm| term_view(t)),
            views.len() == terms.len(),
            ",\n"@ == seq![',', '\n'],
            s@ == fact_label_of(views.take(i as int)),
        decreases terms.len() - i,
    {
        let piece = render_term(&terms[i]);
        s.append(piece.as_str());
        s.append(",\n");
        proof {
            assert(views.take(i + 1).drop_last() =~= views.take(i as int));
            assert(views.take(i + 1).last() == views[i as int]);
            assert(s@ =~= fact_label_of(views.take(i + 1)));
        }
        i += 1;
    }
    proof {
        assert(views.take(views.len() as int) =~= views);
    }
    s
}

/// Render the label of a staged fact from its terms.
pub fn paren_label(terms: &Vec<GroundTerm>) -> (r: String)
    ensures
        r@ == paren_label_of(terms@.map_values(|t: GroundTerm| term_view(t))),
{
    let ghost views = terms@.map_values(|t: GroundTerm| term_view(t));
    let mut s = String::from_str("(");
    proof {
        reveal_strlit("(");
        reveal_strlit(", ");
        reveal_strlit(")");
        assert("("@ =~= seq!['(']);
        assert(", "@ =~= seq![',', ' ']);
        assert(")"@ =~= seq![')']);
        assert(paren_label_of(views.take(0)) =~= seq!['(', ')']);
        assert(s@ =~= paren_label_of(views.take(0)).drop_last());
    }
    let mut i: usize = 0;
    while i < terms.len()
        invariant
            i <= terms.len(),
            views == terms@.map_values(|t: GroundTerm| term_view(t)),
            views.len() == terms.len(),
            "("@ == seq!['('],
            ", "@ == seq![',', ' '],
            ")"@ == seq![')'],
            s@ == paren_label_of(views.take(i as int)).drop_last(),
            paren_label_of(views.take(i as int)).last() == ')',
            paren_label_of(views.take(i as int)).len() >= 1,
        decreases terms.len() - i,
    {
        if i > 0 {
            s.append(", ");
        }
        let piece = render_term(&terms[i]);
        s.append(piece.as_str());
        proof {
            assert(views.take(i + 1).drop_last() =~= views.take(i as int));
            assert(views.take(i + 1).last() == views[i as int]);
            assert(paren_label_of(views.take(i + 1)) == paren_label_of(
                views.take(i as int),
            ).drop_last() + (if views.take(i + 1).len() == 1 {
                seq![]
            } else {
                seq![',', ' ']
            }) + spec_render_term(views[i as int]) + seq![')']);
            assert(s@ =~= paren_label_of(views.take(i + 1)).drop_last());
            assert(paren_label_of(views.take(i + 1)).last() == ')');
        }
        i += 1;
    }
    s.append(")");
    proof {
        assert(views.take(views.len() as int) =~= views);
        assert(s@ =~= paren_label_of(views));
    }
    s
}

} // verus!

verus! {

use crate::adg::{
    edges_view, nodes_view, AnnotatedDependencyGraph, EdgeV, EdgeWV, NodeV,
};
use crate::ancestry::Ancestry;
use crate::adg::Sign;

/// The one-character mark of an ancestry value.
pub open spec fn anc_mark(a: Ancestry) -> Seq<char> {
    match a {
        Ancestry::Positive => seq!['+'],
        Ancestry::Negative => seq!['-'],
        Ancestry::Unknown => seq!['?'],
        Ancestry::Neither => seq!['n'],
    }
}

/// How an optional ancestry assignment reads.
pub open spec fn opt_anc_text(a: Option<Ancestry>) -> Seq<char> {
    match a {
        None => seq!['N', 'o', 'n', 'e'],
        Some(x) => anc_mark(x),
    }
}

/// How an optional stratum assignment reads.
pub open spec fn opt_strat_text(s: Option<u32>) -> Seq<char> {
    match s {
        None => seq!['N', 'o', 'n', 'e'],
        Some(v) => spec_decimal(v as nat),
    }
}

/// How one node reads: a relational node as its tag, stratum and ancestry,
/// a fact node as its label.
pub open spec fn node_text(n: NodeV) -> Seq<char> {
    match n {
        NodeV::Rel { tag, stratum, ancestry } => seq!['('] + tag + seq![',', ' ']
            + opt_strat_text(stratum) + seq![',', ' '] + opt_anc_text(ancestry) + seq![')'],
        NodeV::Fact { label } => seq!['('] + label + seq![')'],
    }
}

/// How one edge label reads: a dependency edge as its rule name and sign, a
/// fact edge as the words `fact edge`.
pub open spec fn weight_text(w: EdgeWV) -> Seq<char> {
    match w {
        EdgeWV::Rel { rule_name, sign, .. } => seq!['('] + (match rule_name {
            Some(n) => n,
            None => seq!['N', 'o', 'n', 'e'],
        }) + seq![',', ' '] + (match sign {
            Sign::Positive => seq!['+'],
            Sign::Negative => seq!['-'],
        }) + seq![')'],
        EdgeWV::Fact => seq!['f', 'a', 'c', 't', ' ', 'e', 'd', 'g', 'e'],
    }
}

/// The line describing node `i`.
pub open spec fn node_line(i: nat, n: NodeV) -> Seq<char> {
    seq!['n', 'o', 'd', 'e', ' '] + spec_decimal(i) + seq![':', ' '] + node_text(n) + seq!['\n']
}

/// The line describing edge `k`.
pub open spec fn edge_line(k: nat, e: EdgeV) -> Seq<char> {
    seq!['e', 'd', 'g', 'e', ' '] + spec_decimal(k) + seq![':', ' '] + spec_decimal(
        e.source as nat,
    ) + seq![' ', '-', '>', ' '] + spec_decimal(e.target as nat) + seq![' '] + weight_text(
        e.weight,
    ) + seq!['\n']
}

/// The node list, one line per node.
pub open spec fn node_lines(ns: Seq<NodeV>) -> Seq<char>
    decreases ns.len(),
{
    if ns.len() == 0 {
        seq![]
    } else {
        node_lines(ns.drop_last()) + node_line((ns.len() - 1) as nat, ns.last())
    }
}

/// The edge list, one line per edge.
pub open spec fn edge_lines(es: Seq<EdgeV>) -> Seq<char>
    decreases es.len(),
{
    if es.len() == 0 {
        seq![]
    } else {
        edge_lines(es.drop_last()) + edge_line((es.len() - 1) as nat, es.last())
    }
}

/// The whole graph snapshot: the node list followed by the edge list.
pub open spec fn graph_text(ns: Seq<NodeV>, es: Seq<EdgeV>) -> Seq<char> {
    node_lines(ns) + edge_lines(es)
}

/// The mark of one ancestry value.
fn anc_str(a: Ancestry) -> (s: &'static str)
    ensures
        s@ == anc_mark(a),
{
    proof {
        reveal_strlit("+");
        reveal_strlit("-");
        reveal_strlit("?");
        reveal_strlit("n");
    }
    let s: &'static str = match a {
        Ancestry::Positive => "+",
        Ancestry::Negative => "-",
        Ancestry::Unknown => "?",
        Ancestry::Neither => "n",
    };
    proof {
        assert(s@ =~= anc_mark(a));
    }
    s
}

impl AnnotatedDependencyGraph {
    /// The diagnostic snapshot of the graph as text: a node list and an
    /// edge list with labels, one entry per line.
    #[verifier::rlimit(100)]
    pub fn render_self_to_text(&self) -> (s: String)
        ensures
            s@ == graph_text(nodes_view(self.nodes@), edges_view(self.edges@)),
    {
        proof {
            reveal_strlit("node ");
            reveal_strlit("edge ");
            reveal_strlit(": ");
            reveal_strlit(", ");
            reveal_strlit("(");
            reveal_strlit(")");
            reveal_strlit("\n");
            reveal_strlit("None");
            reveal_strlit(" -> ");
            reveal_strlit(" ");
            reveal_strlit("fact edge");
            assert("node "@ =~= seq!['n', 'o', 'd', 'e', ' ']);
            assert("edge "@ =~= seq!['e', 'd', 'g', 'e', ' ']);
            assert(": "@ =~= seq![':', ' ']);
            assert(", "@ =~= seq![',', ' ']);
            assert("("@ =~= seq!['(']);
            assert(")"@ =~= seq![')']);
            assert("\n"@ =~= seq!['\n']);
            assert("None"@ =~= seq!['N', 'o', 'n', 'e']);
            assert(" -> "@ =~= seq![' ', '-', '>', ' ']);
            assert(" "@ =~= seq![' ']);
            assert("fact edge"@ =~= seq!['f', 'a', 'c', 't', ' ', 'e', 'd', 'g', 'e']);
        }
        let ghost nv = nodes_view(self.nodes@);
        let ghost ev = edges_view(self.edges@);
        let mut s = String::new();
        proof {
            assert(s@ =~= node_lines(nv.take(0)));
        }
        let mut i: usize = 0;
        while i < self.nodes.len()
            invariant
                i <= self.nodes.len(),
                nv == nodes_view(self.nodes@),
                nv.len() == self.nodes@.len(),
                "node "@ == seq!['n', 'o', 'd', 'e', ' '],
                ": "@ == seq![':', ' '],
                ", "@ == seq![',', ' '],
                "("@ == seq!['('],
                ")"@ == seq![')'],
                "\n"@ == seq!['\n'],
                "None"@ == seq!['N', 'o', 'n', 'e'],
                s@ == node_lines(nv.take(i as int)),
            decreases self.nodes.len() - i,
        {
            let ghost pre = s@;
            s.append("node ");
            s.append(u64_to_decimal(i as u64).as_str());
            s.append(": ");
            match &self.nodes[i] {
                crate::adg::ADGNode::ADGRelationalNode(rn) => {
                    s.append("(");
                    s.append(rn.tag.as_str());
                    s.append(", ");
                    match rn.inverse_stratum {
                        Some(v) => {
                            s.append(u64_to_decimal(v as u64).as_str());
                        },
                        None => {
                            s.append("None");
                        },
                    }
                    s.append(", ");
                    match rn.ancestry {
                        Some(a) => {
                            s.append(anc_str(a));
                        },
                        None => {
                            s.append("None");
                        },
                    }
                    s.append(")");
                },
                crate::adg::ADGNode::ADGFactNode(f) => {
                    s.append("(");
                    s.append(f.name.as_str());
                    s.append(")");
                },
            }
            s.append("\n");
            proof {
                assert(s@ =~= pre + node_line(i as nat, nv[i as int]));
                assert(nv.take(i + 1).drop_last() =~= nv.take(i as int));
                assert(nv.take(i + 1).last() == nv[i as int]);
                assert(nv.take(i + 1).len() - 1 == i as int);
                assert(s@ =~= node_lines(nv.take(i + 1)));
            }
            i += 1;
        }
        proof {
            assert(nv.take(nv.len() as int) =~= nv);
            assert(s@ + edge_lines(ev.take(0)) =~= s@);
        }
        let ghost base = s@;
        let mut k: usize = 0;
        while k < self.edges.len()
            invariant
                k <= self.edges.len(),
                ev == edges_view(self.edges@),
                ev.len() == self.edges@.len(),
                "edge "@ == seq!['e', 'd', 'g', 'e', ' '],
                ": "@ == seq![':', ' '],
                ", "@ == seq![',', ' '],
                "("@ == seq!['('],
                ")"@ == seq![')'],
                "\n"@ == seq!['\n'],
                "None"@ == seq!['N', 'o', 'n', 'e'],
                " -> "@ == seq![' ', '-', '>', ' '],
                " "@ == seq![' '],
                "fact edge"@ == seq!['f', 'a', 'c', 't', ' ', 'e', 'd', 'g', 'e'],
                base == node_lines(nv),
                s@ == base + edge_lines(ev.take(k as int)),
            decreases self.edges.len() - k,
        {
            let ghost pre = s@;
            s.append("edge ");
            s.append(u64_to_decimal(k as u64).as_str());
            s.append(": ");
            s.append(u64_to_decimal(self.edges[k].source as u64).as_str());
            s.append(" -> ");
            s.append(u64_to_decimal(self.edges[k].target as u64).as_str());
            s.append(" ");
            match &self.edges[k].weight {
                crate::adg::ADGEdge::ADGRelationalEdge(re) => {
                    s.append("(");
                    match &re.rule_name {
                        Some(n) => {
                            s.append(n.as_str());
                        },
                        None => {
                            s.append("None");
                        },
                    }
                    s.append(", ");
                    match re.sign {
                        Sign::Positive => {
                            s.append(anc_str(Ancestry::Positive));
                        },
                        Sign::Negative => {
                            s.append(anc_str(Ancestry::Negative));
                        },
                    }
                    s.append(")");
                },
                crate::adg::ADGEdge::ADGFactEdge(_) => {
                    s.append("fact edge");
                },
            }
            s.append("\n");
            proof {
                assert(s@ =~= pre + edge_line(k as nat, ev[k as int]));
                assert(ev.take(k + 1).drop_last() =~= ev.take(k as int));
                assert(ev.take(k + 1).last() == ev[k as int]);
                assert(ev.take(k + 1).len() - 1 == k as int);
                assert(s@ =~= base + edge_lines(ev.take(k + 1)));
            }
            k += 1;
        }
        proof {
            assert(ev.take(ev.len() as int) =~= ev);
            assert(s@ =~= graph_text(nv, ev));
        }
        s
    }
}

} // verus!
