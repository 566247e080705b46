use vstd::prelude::*;

use crate::ancestry::{spec_le, Ancestry};
use crate::errors::ErrorKind;
use crate::program::{term_view, GroundTerm, TermV};

verus! {

/// The sign of a dependency: whether the body literal occurs positively or
/// under negation.
#[derive(Clone, Copy, Debug, PartialEq, Eq, Structural)]
pub enum Sign {
    Positive,
    Negative,
}

/// A node standing for one relation: its tag (the predicate name), and the
/// inverse stratum and ancestry that propagation fills in.
pub struct ADGRelationalNode {
    pub tag: String,
    pub inverse_stratum: Option<u32>,
    pub ancestry: Option<Ancestry>,
}

/// A node standing for one fact source, labelled for diagnostics.
pub struct ADGFactNode {
    pub name: String,
}

/// A node of the annotated dependency graph.
pub enum ADGNode {
    ADGRelationalNode(ADGRelationalNode),
    ADGFactNode(ADGFactNode),
}

/// A dependency between two relations, tagged with the identity of the rule
/// it comes from and the sign of the body literal.
pub struct ADGRelationalEdge {
    pub rule_name: Option<String>,
    pub id: u64,
    pub sign: Sign,
}

/// The edge from a fact node to the relation that owns the fact.
pub struct ADGFactEdge {}

/// The label of one edge of the annotated dependency graph.
pub enum ADGEdge {
    ADGRelationalEdge(ADGRelationalEdge),
    ADGFactEdge(ADGFactEdge),
}

/// One directed edge of the graph arena: stable node handles and a label.
pub struct EdgeEntry {
    pub source: usize,
    pub target: usize,
    pub weight: ADGEdge,
}

/// The annotated dependency graph: an arena of nodes and edges addressed by
/// stable integer handles, the designated output predicate, and the registry
/// of ground terms known to the program.
pub struct AnnotatedDependencyGraph {
    pub nodes: Vec<ADGNode>,
    pub edges: Vec<EdgeEntry>,
    pub output_predicate: Option<String>,
    pub ground_terms: Vec<GroundTerm>,
}

/// Whether a node stands for a relation.
pub open spec fn is_rel(n: ADGNode) -> bool {
    n is ADGRelationalNode
}

/// The relational payload of a node.
pub open spec fn rel_of(n: ADGNode) -> ADGRelationalNode {
    n->ADGRelationalNode_0
}

/// The tag of a relational node.
pub open spec fn node_tag(n: ADGNode) -> Seq<char> {
    rel_of(n).tag@
}

/// The ancestry assignment of a relational node.
pub open spec fn node_anc(n: ADGNode) -> Option<Ancestry> {
    rel_of(n).ancestry
}

/// The inverse-stratum assignment of a relational node.
pub open spec fn node_strat(n: ADGNode) -> Option<u32> {
    rel_of(n).inverse_stratum
}

/// The effective ancestry of a relational node: an unset assignment counts as
/// `Neither`, that is, no influence on the output.
pub open spec fn eff_anc(n: ADGNode) -> Ancestry {
    match node_anc(n) {
        Some(a) => a,
        None => Ancestry::Neither,
    }
}

/// Whether an edge is a relational dependency edge.
pub open spec fn is_rel_edge(e: EdgeEntry) -> bool {
    e.weight is ADGRelationalEdge
}

/// The sign of a relational edge.
pub open spec fn edge_sign(e: EdgeEntry) -> Sign {
    e.weight->ADGRelationalEdge_0.sign
}

/// Whether one edge is well formed over the node arena: its handles are in
/// bounds, a relational edge connects two relational nodes, and a fact edge
/// leads from a fact node to a relational node.
pub open spec fn edge_ok(nodes: Seq<ADGNode>, e: EdgeEntry) -> bool {
    &&& e.source < nodes.len()
    &&& e.target < nodes.len()
    &&& (is_rel_edge(e) ==> is_rel(nodes[e.source as int]) && is_rel(nodes[e.target as int]))
    &&& (!is_rel_edge(e) ==> !is_rel(nodes[e.source as int]) && is_rel(nodes[e.target as int]))
}

/// Whether every edge is well formed over the node arena.
pub open spec fn edges_ok(nodes: Seq<ADGNode>, edges: Seq<EdgeEntry>) -> bool {
    forall|k: int| 0 <= k < edges.len() ==> edge_ok(nodes, #[trigger] edges[k])
}

/// Whether no two relational nodes carry the same tag: exactly one relational
/// node per predicate name.
pub open spec fn distinct_rel_tags(nodes: Seq<ADGNode>) -> bool {
    forall|i: int, j: int|
        0 <= i < j < nodes.len() && is_rel(#[trigger] nodes[i]) && is_rel(#[trigger] nodes[j])
            ==> node_tag(nodes[i]) != node_tag(nodes[j])
}

/// Whether some relational node carries the tag.
pub open spec fn has_rel_node(nodes: Seq<ADGNode>, tag: Seq<char>) -> bool {
    exists|i: int| 0 <= i < nodes.len() && is_rel(#[trigger] nodes[i]) && node_tag(nodes[i]) == tag
}

/// Whether a ground term of this value is already registered.
pub open spec fn term_known(ts: Seq<GroundTerm>, v: TermV) -> bool {
    exists|i: int| 0 <= i < ts.len() && term_view(#[trigger] ts[i]) == v
}

/// The tags of the relational nodes whose effective ancestry lies at or below
/// `bound` in the ancestry lattice, in arena order.
pub open spec fn tags_with_eff_le(nodes: Seq<ADGNode>, bound: Ancestry) -> Seq<Seq<char>>
    decreases nodes.len(),
{
    if nodes.len() == 0 {
        seq![]
    } else {
        let pre = tags_with_eff_le(nodes.drop_last(), bound);
        if is_rel(nodes.last()) && spec_le(eff_anc(nodes.last()), bound) {
            pre.push(node_tag(nodes.last()))
        } else {
            pre
        }
    }
}

/// The tags of the relational nodes whose effective ancestry is exactly
/// `bound`, in arena order.
pub open spec fn tags_with_eff_eq(nodes: Seq<ADGNode>, bound: Ancestry) -> Seq<Seq<char>>
    decreases nodes.len(),
{
    if nodes.len() == 0 {
        seq![]
    } else {
        let pre = tags_with_eff_eq(nodes.drop_last(), bound);
        if is_rel(nodes.last()) && eff_anc(nodes.last()) == bound {
            pre.push(node_tag(nodes.last()))
        } else {
            pre
        }
    }
}

impl AnnotatedDependencyGraph {
    /// The structural invariant of the graph: well-formed edges and exactly
    /// one relational node per predicate name.
    pub open spec fn wf(self) -> bool {
        &&& edges_ok(self.nodes@, self.edges@)
        &&& distinct_rel_tags(self.nodes@)
    }

    /// An empty graph.
    pub fn new() -> (r: Self)
        ensures
            r.nodes@ =~= Seq::<ADGNode>::empty(),
            r.edges@ =~= Seq::<EdgeEntry>::empty(),
            r.output_predicate is None,
            r.ground_terms@ =~= Seq::<GroundTerm>::empty(),
            r.wf(),
    {
        AnnotatedDependencyGraph {
            nodes: Vec::new(),
            edges: Vec::new(),
            output_predicate: None,
            ground_terms: Vec::new(),
        }
    }

    /// The node handle of the relational node tagged `tag`, or
    /// `PredicateNotFound` if no relation of that name exists.
    pub fn get_rel_node_tag(&self, tag: &String) -> (r: Result<usize, ErrorKind>)
        ensures
            match r {
                Ok(i) => i < self.nodes@.len() && is_rel(self.nodes@[i as int]) && node_tag(
                    self.nodes@[i as int],
                ) == tag@,
                Err(e) => e == ErrorKind::PredicateNotFound && !has_rel_node(self.nodes@, tag@),
            },
    {
        let mut i: usize = 0;
        while i < self.nodes.len()
            invariant
                i <= self.nodes.len(),
                forall|k: int|
                    0 <= k < i ==> !(is_rel(#[trigger] self.nodes@[k]) && node_tag(self.nodes@[k])
                        == tag@),
            decreases self.nodes.len() - i,
        {
            match &self.nodes[i] {
                ADGNode::ADGRelationalNode(r) => {
                    if r.tag == *tag {
                        return Ok(i);
                    }
                },
                ADGNode::ADGFactNode(_) => {},
            }
            i += 1;
        }
        Err(ErrorKind::PredicateNotFound)
    }

    /// The relational node tagged `tag`. Fails with `PredicateNotFound` if
    /// the tag is unknown, and with `GraphInvariantViolation` if the tag
    /// unexpectedly resolves to a fact node.
    pub fn get_rel_node(&self, tag: &String) -> (r: Result<&ADGRelationalNode, ErrorKind>)
        ensures
            match r {
                Ok(n) => has_rel_node(self.nodes@, tag@) && n.tag@ == tag@ && exists|i: int|
                    0 <= i < self.nodes@.len() && self.nodes@[i]
                        == ADGNode::ADGRelationalNode(*n),
                Err(e) => e == ErrorKind::PredicateNotFound && !has_rel_node(self.nodes@, tag@),
            },
    {
        let idx = match self.get_rel_node_tag(tag) {
            Ok(i) => i,
            Err(e) => {
                return Err(e);
            },
        };
        match &self.nodes[idx] {
            ADGNode::ADGRelationalNode(r) => Ok(r),
            ADGNode::ADGFactNode(_) => Err(ErrorKind::GraphInvariantViolation),
        }
    }

    /// Add a new relational node with this tag, its stratum and ancestry
    /// unset. The tag must not name an existing relational node.
    pub fn add_rel_node(&mut self, tag: &String)
        requires
            old(self).wf(),
            !has_rel_node(old(self).nodes@, tag@),
        ensures
            final(self).nodes@ == old(self).nodes@.push(
                ADGNode::ADGRelationalNode(
                    (ADGRelationalNode { tag: *tag, inverse_stratum: None, ancestry: None }),
                ),
            ),
            final(self).edges == old(self).edges,
            final(self).output_predicate == old(self).output_predicate,
            final(self).ground_terms == old(self).ground_terms,
            final(self).wf(),
    {
        self.nodes.push(
            ADGNode::ADGRelationalNode(
                ADGRelationalNode { tag: tag.clone(), inverse_stratum: None, ancestry: None },
            ),
        );
        proof {
            assert forall|k: int| 0 <= k < self.edges@.len() implies edge_ok(
                self.nodes@,
                #[trigger] self.edges@[k],
            ) by {
                assert(edge_ok(old(self).nodes@, self.edges@[k]));
            }
        }
    }

    /// Add a fact node labelled `name` and return its handle.
    pub fn add_fact_node(&mut self, name: String) -> (r: usize)
        requires
            old(self).wf(),
        ensures
            r == old(self).nodes@.len(),
            final(self).nodes@ == old(self).nodes@.push(
                ADGNode::ADGFactNode((ADGFactNode { name: name })),
            ),
            final(self).edges == old(self).edges,
            final(self).output_predicate == old(self).output_predicate,
            final(self).ground_terms == old(self).ground_terms,
            final(self).wf(),
    {
        let r = self.nodes.len();
        self.nodes.push(ADGNode::ADGFactNode(ADGFactNode { name: name }));
        proof {
            assert forall|k: int| 0 <= k < self.edges@.len() implies edge_ok(
                self.nodes@,
                #[trigger] self.edges@[k],
            ) by {
                assert(edge_ok(old(self).nodes@, self.edges@[k]));
            }
        }
        r
    }

    /// Add the edge from a fact node to the relation that owns it.
    pub fn add_fact_edge(&mut self, fact_node: usize, rel_node: usize)
        requires
            old(self).wf(),
            fact_node < old(self).nodes@.len(),
            !is_rel(old(self).nodes@[fact_node as int]),
            rel_node < old(self).nodes@.len(),
            is_rel(old(self).nodes@[rel_node as int]),
        ensures
            final(self).edges@ == old(self).edges@.push(
                (EdgeEntry {
                    source: fact_node,
                    target: rel_node,
                    weight: ADGEdge::ADGFactEdge((ADGFactEdge {  })),
                }),
            ),
            final(self).nodes == old(self).nodes,
            final(self).output_predicate == old(self).output_predicate,
            final(self).ground_terms == old(self).ground_terms,
            final(self).wf(),
    {
        self.edges.push(
            EdgeEntry {
                source: fact_node,
                target: rel_node,
                weight: ADGEdge::ADGFactEdge(ADGFactEdge {  }),
            },
        );
    }

    /// Add a relational dependency edge from `start_node` to `end_node`,
    /// tagged with the rule it comes from, and return its handle. Parallel
    /// edges between the same pair are kept apart, never merged.
    pub fn add_rel_edge(
        &mut self,
        rule_name: Option<String>,
        sign: Sign,
        start_node: usize,
        end_node: usize,
        rule_id: u64,
    ) -> (r: usize)
        requires
            old(self).wf(),
            start_node < old(self).nodes@.len(),
            is_rel(old(self).nodes@[start_node as int]),
            end_node < old(self).nodes@.len(),
            is_rel(old(self).nodes@[end_node as int]),
        ensures
            r == old(self).edges@.len(),
            final(self).edges@ == old(self).edges@.push(
                (EdgeEntry {
                    source: start_node,
                    target: end_node,
                    weight: ADGEdge::ADGRelationalEdge(
                        (ADGRelationalEdge { rule_name: rule_name, id: rule_id, sign: sign }),
                    ),
                }),
            ),
            final(self).nodes == old(self).nodes,
            final(self).output_predicate == old(self).output_predicate,
            final(self).ground_terms == old(self).ground_terms,
            final(self).wf(),
    {
        let r = self.edges.len();
        self.edges.push(
            EdgeEntry {
                source: start_node,
                target: end_node,
                weight: ADGEdge::ADGRelationalEdge(
                    ADGRelationalEdge { rule_name: rule_name, id: rule_id, sign: sign },
                ),
            },
        );
        r
    }

    /// Designate the relation that seeds ancestry propagation. The output
    /// predicate is set exactly once, before propagation runs.
    pub fn set_output_rel(&mut self, tag: &String)
        requires
            old(self).output_predicate is None,
        ensures
            final(self).output_predicate == Some(*tag),
            final(self).nodes == old(self).nodes,
            final(self).edges == old(self).edges,
            final(self).ground_terms == old(self).ground_terms,
    {
        self.output_predicate = Some(tag.clone());
    }

    /// The ground terms that appear in the program.
    pub fn get_ground_terms(&self) -> (r: &Vec<GroundTerm>)
        ensures
            *r == self.ground_terms,
    {
        &self.ground_terms
    }
}

} // verus!

verus! {

use crate::ancestry::spec_merge;
use crate::numerals::{spec_decimal, u64_to_decimal};
use crate::program::strs_view;
use crate::rng::{rng_next_u32, rng_next_u64};
use vstd::string::StringExecFns;

/// Whether an incoming ancestry signal contradicts the node's state: a fresh
/// signal of `Unknown` or `Neither` onto an already concrete assignment is an
/// invariant violation, never a legitimate merge input.
pub open spec fn merge_conflicts(old_anc: Option<Ancestry>, new_anc: Ancestry) -> bool {
    match old_anc {
        Some(a) => (a == Ancestry::Positive || a == Ancestry::Negative) && (new_anc
            == Ancestry::Unknown || new_anc == Ancestry::Neither),
        None => false,
    }
}

impl ADGRelationalNode {
    /// Merge an incoming ancestry signal into this node: an unset assignment
    /// takes the signal as it is, a set one moves to the lattice join. A
    /// signal of `Unknown` or `Neither` arriving at a node already assigned
    /// `Positive` or `Negative` is a graph invariant violation and leaves the
    /// node unchanged.
    pub fn merge(&mut self, new_ancestry: Ancestry) -> (r: Result<(), ErrorKind>)
        ensures
            match r {
                Ok(()) => !merge_conflicts(old(self).ancestry, new_ancestry) && final(self).ancestry
                    == Some(
                    match old(self).ancestry {
                        None => new_ancestry,
                        Some(a) => spec_merge(a, new_ancestry),
                    },
                ),
                Err(e) => e == ErrorKind::GraphInvariantViolation && merge_conflicts(
                    old(self).ancestry,
                    new_ancestry,
                ) && final(self).ancestry == old(self).ancestry,
            },
            final(self).tag == old(self).tag,
            final(self).inverse_stratum == old(self).inverse_stratum,
    {
        match self.ancestry {
            None => {
                self.ancestry = Some(new_ancestry);
                Ok(())
            },
            Some(old_ancestry) => {
                match old_ancestry {
                    Ancestry::Unknown => Ok(()),
                    Ancestry::Neither => {
                        self.ancestry = Some(new_ancestry);
                        Ok(())
                    },
                    Ancestry::Positive | Ancestry::Negative => {
                        match new_ancestry {
                            Ancestry::Unknown | Ancestry::Neither => Err(
                                ErrorKind::GraphInvariantViolation,
                            ),
                            _ => {
                                self.ancestry = Some(old_ancestry.merge(new_ancestry));
                                Ok(())
                            },
                        }
                    },
                }
            },
        }
    }
}

impl AnnotatedDependencyGraph {
    /// The tags of the relational nodes whose effective ancestry lies at or
    /// below `bound`.
    fn collect_eff_le(&self, bound: Ancestry) -> (r: Vec<String>)
        ensures
            strs_view(r@) == tags_with_eff_le(self.nodes@, bound),
    {
        let mut acc: Vec<String> = Vec::new();
        proof {
            assert(strs_view(acc@) =~= Seq::<Seq<char>>::empty());
            assert(tags_with_eff_le(self.nodes@.take(0), bound) =~= Seq::<Seq<char>>::empty());
        }
        let mut i: usize = 0;
        while i < self.nodes.len()
            invariant
                i <= self.nodes.len(),
                strs_view(acc@) == tags_with_eff_le(self.nodes@.take(i as int), bound),
            decreases self.nodes.len() - i,
        {
            let ghost before = strs_view(acc@);
            match &self.nodes[i] {
                ADGNode::ADGRelationalNode(rn) => {
                    let ea = match rn.ancestry {
                        Some(a) => a,
                        None => Ancestry::Neither,
                    };
                    if ea.le(bound) {
                        acc.push(rn.tag.clone());
                        proof {
                            assert(strs_view(acc@) =~= before.push(rn.tag@));
                        }
                    }
                },
                ADGNode::ADGFactNode(_) => {},
            }
            proof {
                assert(self.nodes@.take(i + 1).drop_last() =~= self.nodes@.take(i as int));
                assert(self.nodes@.take(i + 1).last() == self.nodes@[i as int]);
            }
            i += 1;
        }
        proof {
            assert(self.nodes@.take(self.nodes@.len() as int) =~= self.nodes@);
        }
        acc
    }

    /// The tags of the relational nodes whose effective ancestry is exactly
    /// `bound`.
    fn collect_eff_eq(&self, bound: Ancestry) -> (r: Vec<String>)
        ensures
            strs_view(r@) == tags_with_eff_eq(self.nodes@, bound),
    {
        let mut acc: Vec<String> = Vec::new();
        proof {
            assert(strs_view(acc@) =~= Seq::<Seq<char>>::empty());
            assert(tags_with_eff_eq(self.nodes@.take(0), bound) =~= Seq::<Seq<char>>::empty());
        }
        let mut i: usize = 0;
        while i < self.nodes.len()
            invariant
                i <= self.nodes.len(),
                strs_view(acc@) == tags_with_eff_eq(self.nodes@.take(i as int), bound),
            decreases self.nodes.len() - i,
        {
            let ghost before = strs_view(acc@);
            match &self.nodes[i] {
                ADGNode::ADGRelationalNode(rn) => {
                    let ea = match rn.ancestry {
                        Some(a) => a,
                        None => Ancestry::Neither,
                    };
                    if ea == bound {
                        acc.push(rn.tag.clone());
                        proof {
                            assert(strs_view(acc@) =~= before.push(rn.tag@));
                        }
                    }
                },
                ADGNode::ADGFactNode(_) => {},
            }
            proof {
                assert(self.nodes@.take(i + 1).drop_last() =~= self.nodes@.take(i as int));
                assert(self.nodes@.take(i + 1).last() == self.nodes@[i as int]);
            }
            i += 1;
        }
        proof {
            assert(self.nodes@.take(self.nodes@.len() as int) =~= self.nodes@);
        }
        acc
    }

    /// The relations with positive or no ancestry: the eligible targets of an
    /// expansive mutation.
    pub fn get_leq_positive_ancestry_relational_nodes(&self) -> (r: Vec<String>)
        ensures
            strs_view(r@) == tags_with_eff_le(self.nodes@, Ancestry::Positive),
    {
        self.collect_eff_le(Ancestry::Positive)
    }

    /// The relations with exactly positive ancestry.
    pub fn get_positive_ancestry_relational_nodes(&self) -> (r: Vec<String>)
        ensures
            strs_view(r@) == tags_with_eff_eq(self.nodes@, Ancestry::Positive),
    {
        self.collect_eff_eq(Ancestry::Positive)
    }

    /// The relations with negative or no ancestry: the eligible targets of a
    /// contractive mutation.
    pub fn get_leq_negative_ancestry_relational_nodes(&self) -> (r: Vec<String>)
        ensures
            strs_view(r@) == tags_with_eff_le(self.nodes@, Ancestry::Negative),
    {
        self.collect_eff_le(Ancestry::Negative)
    }

    /// The relations with exactly negative ancestry.
    pub fn get_negative_ancestry_relational_nodes(&self) -> (r: Vec<String>)
        ensures
            strs_view(r@) == tags_with_eff_eq(self.nodes@, Ancestry::Negative),
    {
        self.collect_eff_eq(Ancestry::Negative)
    }

    /// The relations with no ancestry: unreachable from the output root, the
    /// eligible targets of a semantics-preserving mutation.
    pub fn get_none_ancestry_relational_nodes(&self) -> (r: Vec<String>)
        ensures
            strs_view(r@) == tags_with_eff_eq(self.nodes@, Ancestry::Neither),
    {
        self.collect_eff_eq(Ancestry::Neither)
    }

    /// Whether a term of this value is already registered.
    pub fn term_is_known(&self, t: &GroundTerm) -> (r: bool)
        ensures
            r == term_known(self.ground_terms@, term_view(*t)),
    {
        let mut i: usize = 0;
        while i < self.ground_terms.len()
            invariant
                i <= self.ground_terms.len(),
                forall|k: int|
                    0 <= k < i ==> term_view(#[trigger] self.ground_terms@[k]) != term_view(*t),
            decreases self.ground_terms.len() - i,
        {
            if self.ground_terms[i].same_value(t) {
                return true;
            }
            i += 1;
        }
        false
    }
}

/// The shape of every string constant the registry mints: the prefix `c_`
/// followed by the decimal numeral of a 32-bit draw.
pub open spec fn is_minted_constant_name(s: Seq<char>) -> bool {
    exists|n: nat| n < 0x1_0000_0000 && s == seq!['c', '_'] + #[trigger] spec_decimal(n)
}

/// The shape of every relation name the registry mints: the prefix `R_`
/// followed by the decimal numeral of a 32-bit draw.
pub open spec fn is_minted_relation_name(s: Seq<char>) -> bool {
    exists|n: nat| n < 0x1_0000_0000 && s == seq!['R', '_'] + #[trigger] spec_decimal(n)
}

/// The shape of every ground term the registry mints: an integer constant,
/// or a string constant of the minted shape.
pub open spec fn minted_term_shape(t: TermV) -> bool {
    match t {
        TermV::IntV(_) => true,
        TermV::StrV(cs) => is_minted_constant_name(cs),
    }
}

/// How many random candidates a fresh-name search tries before giving up
/// with `NameGenerationExhausted`.
pub const NAME_RETRY_LIMIT: u64 = 64;

impl AnnotatedDependencyGraph {
    /// Get and register a new string constant, distinct in value from every
    /// ground term the program already uses.
    pub fn get_and_register_new_string_constant(
        &mut self,
        rng: &mut rand_chacha::ChaCha8Rng,
    ) -> (r: Result<GroundTerm, ErrorKind>)
        ensures
            match r {
                Ok(t) => {
                    &&& t matches GroundTerm::StrVal(cs) && is_minted_constant_name(cs@)
                    &&& !term_known(old(self).ground_terms@, term_view(t))
                    &&& final(self).ground_terms@ == old(self).ground_terms@.push(t)
                },
                Err(e) => e == ErrorKind::NameGenerationExhausted && final(self).ground_terms
                    == old(self).ground_terms,
            },
            old(self).ground_terms@.len() == 0 ==> r is Ok,
            final(self).nodes == old(self).nodes,
            final(self).edges == old(self).edges,
            final(self).output_predicate == old(self).output_predicate,
    {
        let mut attempts: u64 = 0;
        while attempts < NAME_RETRY_LIMIT
            invariant
                self.nodes == old(self).nodes,
                self.edges == old(self).edges,
                self.output_predicate == old(self).output_predicate,
                self.ground_terms == old(self).ground_terms,
                attempts > 0 ==> old(self).ground_terms@.len() > 0,
            decreases NAME_RETRY_LIMIT - attempts,
        {
            let number = rng_next_u32(rng);
            let mut name = String::from_str("c_");
            name.append(u64_to_decimal(number as u64).as_str());
            proof {
                reveal_strlit("c_");
                assert("c_"@ =~= seq!['c', '_']);
                assert((number as u64) as nat == number as nat);
                assert(name@ == seq!['c', '_'] + spec_decimal(number as nat));
                assert((number as nat) < 0x1_0000_0000);
                assert(is_minted_constant_name(name@));
            }
            let cand = GroundTerm::StrVal(name);
            if !self.term_is_known(&cand) {
                let copy = cand.clone();
                self.ground_terms.push(copy);
                proof {
                    assert(self.ground_terms@ =~= old(self).ground_terms@.push(cand));
                }
                return Ok(cand);
            }
            attempts += 1;
        }
        Err(ErrorKind::NameGenerationExhausted)
    }

    /// Get and register a new integer constant, distinct in value from every
    /// ground term the program already uses.
    pub fn get_and_register_new_integer_constant(
        &mut self,
        rng: &mut rand_chacha::ChaCha8Rng,
    ) -> (r: Result<GroundTerm, ErrorKind>)
        ensures
            match r {
                Ok(t) => t is IntVal && !term_known(old(self).ground_terms@, term_view(t))
                    && final(self).ground_terms@ == old(self).ground_terms@.push(t),
                Err(e) => e == ErrorKind::NameGenerationExhausted && final(self).ground_terms
                    == old(self).ground_terms,
            },
            old(self).ground_terms@.len() == 0 ==> r is Ok,
            final(self).nodes == old(self).nodes,
            final(self).edges == old(self).edges,
            final(self).output_predicate == old(self).output_predicate,
    {
        let mut attempts: u64 = 0;
        while attempts < NAME_RETRY_LIMIT
            invariant
                self.nodes == old(self).nodes,
                self.edges == old(self).edges,
                self.output_predicate == old(self).output_predicate,
                self.ground_terms == old(self).ground_terms,
                attempts > 0 ==> old(self).ground_terms@.len() > 0,
            decreases NAME_RETRY_LIMIT - attempts,
        {
            let cand = GroundTerm::IntVal(rng_next_u64(rng));
            if !self.term_is_known(&cand) {
                let copy = cand.clone();
                self.ground_terms.push(copy);
                proof {
                    assert(self.ground_terms@ =~= old(self).ground_terms@.push(cand));
                }
                return Ok(cand);
            }
            attempts += 1;
        }
        Err(ErrorKind::NameGenerationExhausted)
    }

    /// Get a new relation name, distinct from every relational node's tag.
    /// Does not itself register the name: callers add the node explicitly on
    /// success.
    pub fn get_new_relation_name(&self, rng: &mut rand_chacha::ChaCha8Rng) -> (r: Result<
        String,
        ErrorKind,
    >)
        ensures
            match r {
                Ok(s) => !has_rel_node(self.nodes@, s@) && is_minted_relation_name(s@),
                Err(e) => e == ErrorKind::NameGenerationExhausted,
            },
            self.nodes@.len() == 0 ==> r is Ok,
    {
        let mut attempts: u64 = 0;
        while attempts < NAME_RETRY_LIMIT
            invariant
                attempts > 0 ==> self.nodes@.len() > 0,
            decreases NAME_RETRY_LIMIT - attempts,
        {
            let number = rng_next_u32(rng);
            let mut name = String::from_str("R_");
            name.append(u64_to_decimal(number as u64).as_str());
            proof {
                reveal_strlit("R_");
                assert("R_"@ =~= seq!['R', '_']);
                assert((number as u64) as nat == number as nat);
                assert(name@ == seq!['R', '_'] + spec_decimal(number as nat));
                assert((number as nat) < 0x1_0000_0000);
                assert(is_minted_relation_name(name@));
            }
            match self.get_rel_node_tag(&name) {
                Err(_) => {
                    return Ok(name);
                },
                Ok(_) => {},
            }
            attempts += 1;
        }
        Err(ErrorKind::NameGenerationExhausted)
    }
}

} // verus!

verus! {

/// The mathematical value of one graph node.
pub enum NodeV {
    Rel { tag: Seq<char>, stratum: Option<u32>, ancestry: Option<Ancestry> },
    Fact { label: Seq<char> },
}

/// The mathematical value of one edge label.
pub enum EdgeWV {
    Rel { rule_name: Option<Seq<char>>, id: u64, sign: Sign },
    Fact,
}

/// The mathematical value of one edge.
pub struct EdgeV {
    pub source: int,
    pub target: int,
    pub weight: EdgeWV,
}

/// The value of one graph node.
pub open spec fn node_view(n: ADGNode) -> NodeV {
    match n {
        ADGNode::ADGRelationalNode(rn) => NodeV::Rel {
            tag: rn.tag@,
            stratum: rn.inverse_stratum,
            ancestry: rn.ancestry,
        },
        ADGNode::ADGFactNode(f) => NodeV::Fact { label: f.name@ },
    }
}

/// The value of a node arena.
pub open spec fn nodes_view(nodes: Seq<ADGNode>) -> Seq<NodeV> {
    nodes.map_values(|n: ADGNode| node_view(n))
}

/// The value of one edge.
pub open spec fn edge_view(e: EdgeEntry) -> EdgeV {
    EdgeV {
        source: e.source as int,
        target: e.target as int,
        weight: match e.weight {
            ADGEdge::ADGRelationalEdge(re) => EdgeWV::Rel {
                rule_name: crate::program::opt_str_view(re.rule_name),
                id: re.id,
                sign: re.sign,
            },
            ADGEdge::ADGFactEdge(_) => EdgeWV::Fact,
        },
    }
}

/// The value of an edge arena.
pub open spec fn edges_view(edges: Seq<EdgeEntry>) -> Seq<EdgeV> {
    edges.map_values(|e: EdgeEntry| edge_view(e))
}

} // verus!

verus! {

/// Which edges of a node to enumerate: those leaving it or those entering
/// it.
#[derive(Clone, Copy, Debug, PartialEq, Eq, Structural)]
pub enum Direction {
    Outgoing,
    Incoming,
}

/// The handles of the edges whose source (`outgoing` true) or target
/// (`outgoing` false) is node `idx`, in arena order.
pub open spec fn edge_indices_dir(edges: Seq<EdgeEntry>, idx: int, outgoing: bool) -> Seq<int>
    decreases edges.len(),
{
    if edges.len() == 0 {
        seq![]
    } else {
        let pre = edge_indices_dir(edges.drop_last(), idx, outgoing);
        if (if outgoing {
            edges.last().source as int
        } else {
            edges.last().target as int
        }) == idx {
            pre.push(edges.len() - 1)
        } else {
            pre
        }
    }
}

impl AnnotatedDependencyGraph {
    /// The handles of a relation's edges, outgoing or incoming as `dir`
    /// says, or `PredicateNotFound` for an unknown tag.
    pub fn get_node_edges(&self, tag: &String, dir: Direction) -> (r: Result<Vec<usize>, ErrorKind>)
        ensures
            match r {
                Ok(v) => exists|i: int|
                    0 <= i < self.nodes@.len() && is_rel(#[trigger] self.nodes@[i]) && node_tag(
                        self.nodes@[i],
                    ) == tag@ && v@.map_values(|u: usize| u as int) == edge_indices_dir(
                        self.edges@,
                        i,
                        dir == Direction::Outgoing,
                    ),
                Err(e) => e == ErrorKind::PredicateNotFound && !has_rel_node(self.nodes@, tag@),
            },
    {
        let idx = match self.get_rel_node_tag(tag) {
            Ok(i) => i,
            Err(e) => {
                return Err(e);
            },
        };
        let outgoing = match dir {
            Direction::Outgoing => true,
            Direction::Incoming => false,
        };
        let mut v: Vec<usize> = Vec::new();
        proof {
            assert(v@.map_values(|u: usize| u as int) =~= edge_indices_dir(
                self.edges@.take(0),
                idx as int,
                outgoing,
            ));
        }
        let mut k: usize = 0;
        while k < self.edges.len()
            invariant
                k <= self.edges.len(),
                outgoing == (dir == Direction::Outgoing),
                v@.map_values(|u: usize| u as int) == edge_indices_dir(
                    self.edges@.take(k as int),
                    idx as int,
                    outgoing,
                ),
            decreases self.edges.len() - k,
        {
            let ghost pre = v@.map_values(|u: usize| u as int);
            let hit = if outgoing {
                self.edges[k].source == idx
            } else {
                self.edges[k].target == idx
            };
            if hit {
                v.push(k);
                proof {
                    assert(v@.map_values(|u: usize| u as int) =~= pre.push(k as int));
                }
            }
            proof {
                assert(self.edges@.take(k + 1).drop_last() =~= self.edges@.take(k as int));
                assert(self.edges@.take(k + 1).last() == self.edges@[k as int]);
                assert(self.edges@.take(k + 1).len() - 1 == k as int);
            }
            k += 1;
        }
        proof {
            assert(self.edges@.take(self.edges@.len() as int) =~= self.edges@);
        }
        Ok(v)
    }
}

} // verus!
