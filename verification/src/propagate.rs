use vstd::prelude::*;

use crate::adg::{
    distinct_rel_tags, edge_ok, edge_sign, edges_ok, eff_anc, has_rel_node, is_rel, is_rel_edge,
    node_anc, node_strat, node_tag, rel_of, ADGNode, ADGRelationalNode, AnnotatedDependencyGraph,
    EdgeEntry, Sign,
};
use crate::ancestry::{lemma_le_trans, lemma_merge_upper_bound, spec_le, spec_merge, Ancestry};
use crate::errors::ErrorKind;

verus! {

/// Whether `p` is a sequence of relational-edge handles forming a directed
/// path from node `from` to node `to`.
pub open spec fn is_path(edges: Seq<EdgeEntry>, p: Seq<int>, from: int, to: int) -> bool
    decreases p.len(),
{
    if p.len() == 0 {
        from == to
    } else {
        let e = p.first();
        &&& 0 <= e < edges.len()
        &&& is_rel_edge(edges[e])
        &&& edges[e].source == from
        &&& is_path(edges, p.drop_first(), edges[e].target as int, to)
    }
}

/// How many negative edges a path crosses.
pub open spec fn path_negs(edges: Seq<EdgeEntry>, p: Seq<int>) -> nat
    decreases p.len(),
{
    if p.len() == 0 {
        0
    } else {
        (if edge_sign(edges[p.first()]) == Sign::Negative {
            1nat
        } else {
            0nat
        }) + path_negs(edges, p.drop_first())
    }
}

/// Whether some directed path leads from `v` to `out`.
pub open spec fn reaches(edges: Seq<EdgeEntry>, v: int, out: int) -> bool {
    exists|p: Seq<int>| #[trigger] is_path(edges, p, v, out)
}

/// Whether some directed path from `v` to `out` crosses an odd (`odd` true)
/// or even (`odd` false) number of negative edges.
pub open spec fn reaches_with_parity(edges: Seq<EdgeEntry>, v: int, out: int, odd: bool) -> bool {
    exists|p: Seq<int>|
        #[trigger] is_path(edges, p, v, out) && ((path_negs(edges, p) % 2 == 1) == odd)
}

/// The ancestry a signal of stratum `s` carries: the seed is positive and
/// each negative edge flips the sign, so the parity of `s` decides.
pub open spec fn parity_anc(s: nat) -> Ancestry {
    if s % 2 == 0 {
        Ancestry::Positive
    } else {
        Ancestry::Negative
    }
}

/// Whether every relational edge of the graph is positive.
pub open spec fn all_pos(edges: Seq<EdgeEntry>) -> bool {
    forall|k: int|
        0 <= k < edges.len() && is_rel_edge(#[trigger] edges[k]) ==> edge_sign(edges[k])
            == Sign::Positive
}

/// Prepending one edge to a path yields a path and adds the edge's sign to
/// the negative count.
pub proof fn lemma_path_cons(edges: Seq<EdgeEntry>, e: int, p: Seq<int>, u: int, v: int, out: int)
    requires
        0 <= e < edges.len(),
        is_rel_edge(edges[e]),
        edges[e].source == u,
        edges[e].target == v,
        is_path(edges, p, v, out),
    ensures
        is_path(edges, seq![e] + p, u, out),
        path_negs(edges, seq![e] + p) == path_negs(edges, p) + (if edge_sign(edges[e])
            == Sign::Negative {
            1nat
        } else {
            0nat
        }),
{
    let q = seq![e] + p;
    assert(q.first() == e);
    assert(q.drop_first() =~= p);
}

/// The index of the relational node carrying `tag`; meaningful when such a
/// node exists.
pub open spec fn rel_index(nodes: Seq<ADGNode>, tag: Seq<char>) -> int {
    choose|i: int| 0 <= i < nodes.len() && is_rel(nodes[i]) && node_tag(nodes[i]) == tag
}

/// With one relational node per tag, any node carrying the tag is the one
/// `rel_index` names.
pub proof fn lemma_rel_index_unique(nodes: Seq<ADGNode>, tag: Seq<char>, i: int)
    requires
        distinct_rel_tags(nodes),
        0 <= i < nodes.len(),
        is_rel(nodes[i]),
        node_tag(nodes[i]) == tag,
    ensures
        rel_index(nodes, tag) == i,
{
    assert(0 <= i < nodes.len() && is_rel(nodes[i]) && node_tag(nodes[i]) == tag);
    let j = rel_index(nodes, tag);
    assert(0 <= j < nodes.len() && is_rel(nodes[j]) && node_tag(nodes[j]) == tag);
    if i < j {
        assert(node_tag(nodes[i]) != node_tag(nodes[j]));
    } else if j < i {
        assert(node_tag(nodes[j]) != node_tag(nodes[i]));
    }
}

/// Whether the two node arenas agree on length, node kinds, tags, and fact
/// nodes: everything but strata and ancestry assignments.
pub open spec fn same_skeleton(a: Seq<ADGNode>, b: Seq<ADGNode>) -> bool {
    &&& a.len() == b.len()
    &&& forall|i: int|
        0 <= i < a.len() ==> {
            &&& is_rel(#[trigger] a[i]) == is_rel(#[trigger] b[i])
            &&& (is_rel(a[i]) ==> rel_of(a[i]).tag == rel_of(b[i]).tag)
            &&& (!is_rel(a[i]) ==> a[i] == b[i])
        }
}

/// Whether every stratum set in `a` is still set in `b` and has not
/// decreased: inverse-stratum values only ever increase during propagation.
pub open spec fn strat_monotone(a: Seq<ADGNode>, b: Seq<ADGNode>) -> bool {
    forall|i: int|
        0 <= i < a.len() && is_rel(#[trigger] a[i]) && node_strat(a[i]) is Some ==> (node_strat(
            #[trigger] b[i],
        ) is Some && node_strat(b[i]).unwrap() >= node_strat(a[i]).unwrap())
}

/// Whether every relational node's effective ancestry in `b` lies at or
/// above the one in `a`: propagation only moves ancestry up the lattice.
pub open spec fn anc_monotone(a: Seq<ADGNode>, b: Seq<ADGNode>) -> bool {
    forall|i: int|
        0 <= i < a.len() && is_rel(#[trigger] a[i]) ==> spec_le(eff_anc(a[i]), eff_anc(
            #[trigger] b[i],
        ))
}

/// Every arena sits at or above itself in the ancestry order.
pub proof fn lemma_anc_monotone_refl(nodes: Seq<ADGNode>)
    ensures
        anc_monotone(nodes, nodes),
{
    assert forall|i: int| 0 <= i < nodes.len() && is_rel(#[trigger] nodes[i]) implies spec_le(
        eff_anc(nodes[i]),
        eff_anc(#[trigger] nodes[i]),
    ) by {
        crate::ancestry::lemma_le_refl(eff_anc(nodes[i]));
    }
}

/// Whether no relational node carries any stratum or ancestry assignment
/// yet: the state in which propagation starts on a freshly built graph.
pub open spec fn all_unset(nodes: Seq<ADGNode>) -> bool {
    forall|i: int|
        0 <= i < nodes.len() && is_rel(#[trigger] nodes[i]) ==> node_anc(nodes[i]) is None
            && node_strat(nodes[i]) is None
}

/// The termination potential of one node: unset strata hold the most work,
/// and a raise toward the cap leaves less.
pub open spec fn node_pot(n: ADGNode, cap: nat) -> nat {
    if !is_rel(n) {
        0
    } else {
        match node_strat(n) {
            None => cap + 2,
            Some(s) => if s as nat >= cap + 1 {
                0
            } else {
                (cap + 1 - s as nat) as nat
            },
        }
    }
}

/// The summed termination potential of the arena.
pub open spec fn total_pot(nodes: Seq<ADGNode>, cap: nat) -> nat
    decreases nodes.len(),
{
    if nodes.len() == 0 {
        0
    } else {
        total_pot(nodes.drop_last(), cap) + node_pot(nodes.last(), cap)
    }
}

/// Updating one node changes the summed potential by exactly that node's
/// difference.
pub proof fn lemma_total_pot_update(nodes: Seq<ADGNode>, i: int, n: ADGNode, cap: nat)
    requires
        0 <= i < nodes.len(),
    ensures
        total_pot(nodes.update(i, n), cap) + node_pot(nodes[i], cap) == total_pot(nodes, cap)
            + node_pot(n, cap),
    decreases nodes.len(),
{
    let upd = nodes.update(i, n);
    if i == nodes.len() - 1 {
        assert(upd.drop_last() =~= nodes.drop_last());
        assert(upd.last() == n);
    } else {
        assert(upd.drop_last() =~= nodes.drop_last().update(i, n));
        assert(upd.last() == nodes.last());
        lemma_total_pot_update(nodes.drop_last(), i, n, cap);
    }
}

/// Whether one worklist signal is sound: it names a relational node in
/// bounds, keeps under the stratum cap, carries the ancestry its parity
/// dictates, and corresponds to a real path to the output.
pub open spec fn signal_ok(
    nodes: Seq<ADGNode>,
    edges: Seq<EdgeEntry>,
    sig: (usize, u32, Ancestry),
    out: int,
    cap: u32,
) -> bool {
    &&& (sig.0 as int) < nodes.len()
    &&& is_rel(nodes[sig.0 as int])
    &&& sig.1 <= cap
    &&& sig.2 == parity_anc(sig.1 as nat)
    &&& exists|p: Seq<int>|
        #[trigger] is_path(edges, p, sig.0 as int, out) && path_negs(edges, p) == sig.1 as nat
}

/// Whether every worklist signal is sound.
pub open spec fn signals_ok(
    nodes: Seq<ADGNode>,
    edges: Seq<EdgeEntry>,
    wl: Seq<(usize, u32, Ancestry)>,
    out: int,
    cap: u32,
) -> bool {
    forall|m: int| 0 <= m < wl.len() ==> signal_ok(nodes, edges, #[trigger] wl[m], out, cap)
}

/// Whether the worklist holds some signal for node `u`.
pub open spec fn wl_has(wl: Seq<(usize, u32, Ancestry)>, u: int) -> bool {
    exists|m: int| 0 <= m < wl.len() && (#[trigger] wl[m]).0 as int == u
}

/// Whether propagation work is never lost: wherever a relational edge leads
/// into a node whose stratum is set, its source is set too or a signal for
/// the source is still queued.
pub open spec fn coverage(
    nodes: Seq<ADGNode>,
    edges: Seq<EdgeEntry>,
    wl: Seq<(usize, u32, Ancestry)>,
) -> bool {
    forall|k: int|
        0 <= k < edges.len() && is_rel_edge(#[trigger] edges[k]) && node_strat(
            nodes[edges[k].target as int],
        ) is Some ==> (node_strat(nodes[edges[k].source as int]) is Some || wl_has(
            wl,
            edges[k].source as int,
        ))
}

/// The stratum increment one relational edge contributes: one across a
/// negative edge, none across a positive one.
pub open spec fn edge_delta(e: EdgeEntry) -> int {
    if edge_sign(e) == Sign::Negative {
        1
    } else {
        0
    }
}

/// Whether the worklist holds a signal for node `u` carrying at least the
/// stratum `need`.
pub open spec fn wl_has_geq(wl: Seq<(usize, u32, Ancestry)>, u: int, need: int) -> bool {
    exists|m: int|
        0 <= m < wl.len() && (#[trigger] wl[m]).0 as int == u && wl[m].1 as int >= need
}

/// Whether one relational edge's stratum obligation is met: the source
/// already carries at least the target's stratum plus the edge's increment,
/// or a signal that large is still queued for the source.
pub open spec fn covered_bound_at(
    nodes: Seq<ADGNode>,
    edges: Seq<EdgeEntry>,
    wl: Seq<(usize, u32, Ancestry)>,
    k: int,
) -> bool {
    let need = node_strat(nodes[edges[k].target as int]).unwrap() as int + edge_delta(edges[k]);
    ||| (node_strat(nodes[edges[k].source as int]) matches Some(su) && su as int >= need)
    ||| wl_has_geq(wl, edges[k].source as int, need)
}

/// Whether every relational edge into a node with a set stratum meets its
/// stratum obligation: this is what makes the final strata dominate every
/// path's negative count.
pub open spec fn coverage_bound(
    nodes: Seq<ADGNode>,
    edges: Seq<EdgeEntry>,
    wl: Seq<(usize, u32, Ancestry)>,
) -> bool {
    forall|k: int|
        0 <= k < edges.len() && is_rel_edge(#[trigger] edges[k]) && node_strat(
            nodes[edges[k].target as int],
        ) is Some ==> covered_bound_at(nodes, edges, wl, k)
}

/// Once every edge's stratum obligation is met outright, the stratum of any
/// node dominates the negative count of every path it has to the output:
/// walk the path forward, gaining the edge increments.
pub proof fn lemma_strat_dominates_path(
    nodes: Seq<ADGNode>,
    edges: Seq<EdgeEntry>,
    p: Seq<int>,
    v: int,
    out: int,
)
    requires
        edges_ok(nodes, edges),
        is_path(edges, p, v, out),
        0 <= out < nodes.len(),
        node_strat(nodes[out]) is Some,
        forall|k: int|
            0 <= k < edges.len() && is_rel_edge(#[trigger] edges[k]) && node_strat(
                nodes[edges[k].target as int],
            ) is Some ==> (node_strat(nodes[edges[k].source as int]) matches Some(su)
                && su as int >= node_strat(nodes[edges[k].target as int]).unwrap() as int
                + edge_delta(edges[k])),
    ensures
        node_strat(nodes[v]) matches Some(sv) && sv as int >= path_negs(edges, p) + node_strat(
            nodes[out],
        ).unwrap() as int,
    decreases p.len(),
{
    if p.len() == 0 {
    } else {
        let e = p.first();
        assert(edge_ok(nodes, edges[e]));
        lemma_strat_dominates_path(nodes, edges, p.drop_first(), edges[e].target as int, out);
    }
}

/// Whether the assignment of node `v` is justified by real paths: set
/// ancestry goes with a set stratum, `Negative` and `Unknown` come only with
/// an odd path, `Positive` and `Unknown` only with an even path, `Neither` is
/// never assigned, and a set stratum counts the negatives of a real path.
pub open spec fn anc_sound_at(
    nodes: Seq<ADGNode>,
    edges: Seq<EdgeEntry>,
    out: int,
    v: int,
) -> bool {
    &&& ((node_anc(nodes[v]) == Some(Ancestry::Negative) || node_anc(nodes[v]) == Some(
        Ancestry::Unknown,
    )) ==> reaches_with_parity(edges, v, out, true))
    &&& ((node_anc(nodes[v]) == Some(Ancestry::Positive) || node_anc(nodes[v]) == Some(
        Ancestry::Unknown,
    )) ==> reaches_with_parity(edges, v, out, false))
    &&& node_anc(nodes[v]) != Some(Ancestry::Neither)
    &&& (node_anc(nodes[v]) is Some <==> node_strat(nodes[v]) is Some)
    &&& (node_strat(nodes[v]) matches Some(s) ==> exists|p: Seq<int>|
        #[trigger] is_path(edges, p, v, out) && path_negs(edges, p) == s as nat)
}

/// Whether every node's assignment is justified by real paths.
pub open spec fn anc_sound(nodes: Seq<ADGNode>, edges: Seq<EdgeEntry>, out: int) -> bool {
    forall|v: int|
        0 <= v < nodes.len() && is_rel(#[trigger] nodes[v]) ==> anc_sound_at(nodes, edges, out, v)
}

/// What a completed propagation guarantees on every relational node: an
/// assignment exactly on the nodes that reach the output, parities justified
/// by real paths, no `Neither` assignment, and each stratum the maximum
/// negative count over the node's paths to the output — it equals the count
/// of one real path and dominates the count of every other.
pub open spec fn propagation_result_correct(
    edges: Seq<EdgeEntry>,
    nodes: Seq<ADGNode>,
    out: int,
) -> bool {
    forall|v: int|
        0 <= v < nodes.len() && is_rel(#[trigger] nodes[v]) ==> {
            &&& anc_sound_at(nodes, edges, out, v)
            &&& (node_anc(nodes[v]) is Some <==> reaches(edges, v, out))
            &&& (node_strat(nodes[v]) is Some <==> reaches(edges, v, out))
            &&& (forall|p: Seq<int>|
                #[trigger] is_path(edges, p, v, out) ==> (node_strat(nodes[v]) matches Some(sv)
                    && path_negs(edges, p) <= sv as nat))
        }
}

/// Once the worklist has drained, every node on a path to a visited node has
/// been visited: walk the path backward from the output.
pub proof fn lemma_reach_visited(
    nodes: Seq<ADGNode>,
    edges: Seq<EdgeEntry>,
    p: Seq<int>,
    v: int,
    out: int,
)
    requires
        edges_ok(nodes, edges),
        is_path(edges, p, v, out),
        0 <= out < nodes.len(),
        node_strat(nodes[out]) is Some,
        forall|k: int|
            0 <= k < edges.len() && is_rel_edge(#[trigger] edges[k]) && node_strat(
                nodes[edges[k].target as int],
            ) is Some ==> node_strat(nodes[edges[k].source as int]) is Some,
    ensures
        node_strat(nodes[v]) is Some,
    decreases p.len(),
{
    if p.len() == 0 {
    } else {
        let e = p.first();
        assert(edge_ok(nodes, edges[e]));
        lemma_reach_visited(nodes, edges, p.drop_first(), edges[e].target as int, out);
    }
}

impl AnnotatedDependencyGraph {
    /// Whether the designated output predicate names a relational node of the
    /// graph.
    pub open spec fn output_resolves(self) -> bool {
        &&& self.output_predicate is Some
        &&& has_rel_node(self.nodes@, self.output_predicate->0@)
    }

    /// The arena index of the output predicate's relational node; meaningful
    /// when the output resolves.
    pub open spec fn output_index(self) -> int {
        rel_index(self.nodes@, self.output_predicate->0@)
    }

    /// Whether a propagation pass has already run to completion: the output
    /// node carries a stratum, and an ancestry that includes the positive
    /// seed.
    pub open spec fn already_propagated(self) -> bool {
        &&& self.output_resolves()
        &&& node_strat(self.nodes@[self.output_index()]) is Some
        &&& (node_anc(self.nodes@[self.output_index()]) == Some(Ancestry::Positive) || node_anc(
            self.nodes@[self.output_index()],
        ) == Some(Ancestry::Unknown))
    }
}

} // verus!

verus! {

use crate::adg::ADGEdge;
use vstd::pervasive::VecAdditionalExecFns;

impl AnnotatedDependencyGraph {
    /// Overwrite one relational node's stratum and ancestry, keeping its tag.
    fn set_rel_state(&mut self, v: usize, strat: Option<u32>, anc: Option<Ancestry>)
        requires
            old(self).wf(),
            (v as int) < old(self).nodes@.len(),
            is_rel(old(self).nodes@[v as int]),
        ensures
            final(self).nodes@ == old(self).nodes@.update(
                v as int,
                ADGNode::ADGRelationalNode(
                    (ADGRelationalNode {
                        tag: rel_of(old(self).nodes@[v as int]).tag,
                        inverse_stratum: strat,
                        ancestry: anc,
                    }),
                ),
            ),
            final(self).edges == old(self).edges,
            final(self).output_predicate == old(self).output_predicate,
            final(self).ground_terms == old(self).ground_terms,
            final(self).wf(),
            same_skeleton(old(self).nodes@, final(self).nodes@),
    {
        let tag: String = match &self.nodes[v] {
            ADGNode::ADGRelationalNode(rn) => rn.tag.clone(),
            ADGNode::ADGFactNode(f) => f.name.clone(),
        };
        self.nodes.set(
            v,
            ADGNode::ADGRelationalNode(
                ADGRelationalNode { tag: tag, inverse_stratum: strat, ancestry: anc },
            ),
        );
        proof {
            let a = old(self).nodes@;
            let b = self.nodes@;
            assert forall|i: int| 0 <= i < a.len() implies {
                &&& is_rel(#[trigger] a[i]) == is_rel(#[trigger] b[i])
                &&& (is_rel(a[i]) ==> rel_of(a[i]).tag == rel_of(b[i]).tag)
                &&& (!is_rel(a[i]) ==> a[i] == b[i])
            } by {
                if i != v as int {
                    assert(b[i] == a[i]);
                }
            }
            assert(same_skeleton(a, b));
            assert forall|k: int| 0 <= k < self.edges@.len() implies edge_ok(
                b,
                #[trigger] self.edges@[k],
            ) by {
                assert(edge_ok(a, self.edges@[k]));
            }
            assert forall|i: int, j: int|
                0 <= i < j < b.len() && is_rel(#[trigger] b[i]) && is_rel(#[trigger] b[j]) implies
                node_tag(b[i]) != node_tag(b[j]) by {
                assert(is_rel(a[i]) && is_rel(a[j]));
                assert(node_tag(a[i]) != node_tag(a[j]));
                assert(node_tag(b[i]) == node_tag(a[i]));
                assert(node_tag(b[j]) == node_tag(a[j]));
            }
        }
    }
}

/// Queue a propagation signal for every relational edge leading into `v`:
/// the stratum is kept over a positive edge and raised with the ancestry
/// inverted over a negative one. A stratum about to pass the cap means the
/// graph cannot belong to a stratifiable program.
fn push_incoming(
    Ghost(nodes): Ghost<Seq<ADGNode>>,
    edges: &Vec<EdgeEntry>,
    wl: &mut Vec<(usize, u32, Ancestry)>,
    v: usize,
    s: u32,
    a: Ancestry,
    cap: u32,
    Ghost(out): Ghost<int>,
) -> (r: Result<(), ErrorKind>)
    requires
        edges_ok(nodes, edges@),
        signals_ok(nodes, edges@, old(wl)@, out, cap),
        s <= cap,
        a == parity_anc(s as nat),
        exists|p: Seq<int>|
            #[trigger] is_path(edges@, p, v as int, out) && path_negs(edges@, p) == s as nat,
    ensures
        signals_ok(nodes, edges@, final(wl)@, out, cap),
        final(wl)@.len() >= old(wl)@.len(),
        forall|m: int| 0 <= m < old(wl)@.len() ==> final(wl)@[m] == old(wl)@[m],
        r is Ok ==> forall|k: int|
            0 <= k < edges@.len() && is_rel_edge(#[trigger] edges@[k]) && edges@[k].target as int
                == v as int ==> wl_has(final(wl)@, edges@[k].source as int),
        r is Ok ==> forall|k: int|
            0 <= k < edges@.len() && is_rel_edge(#[trigger] edges@[k]) && edges@[k].target as int
                == v as int ==> wl_has_geq(
                final(wl)@,
                edges@[k].source as int,
                s as int + edge_delta(edges@[k]),
            ),
        r is Err ==> r == Err::<(), ErrorKind>(ErrorKind::GraphInvariantViolation) && !all_pos(
            edges@,
        ) && !(no_negative_cycle(edges@) && edges@.len() <= cap as int),
{
    let ghost pth = choose|p: Seq<int>|
        is_path(edges@, p, v as int, out) && path_negs(edges@, p) == s as nat;
    let mut j: usize = 0;
    while j < edges.len()
        invariant
            j <= edges.len(),
            edges_ok(nodes, edges@),
            signals_ok(nodes, edges@, wl@, out, cap),
            s <= cap,
            a == parity_anc(s as nat),
            is_path(edges@, pth, v as int, out),
            path_negs(edges@, pth) == s as nat,
            wl@.len() >= old(wl)@.len(),
            forall|m: int| 0 <= m < old(wl)@.len() ==> wl@[m] == old(wl)@[m],
            forall|k: int|
                0 <= k < j && is_rel_edge(#[trigger] edges@[k]) && edges@[k].target as int
                    == v as int ==> wl_has(wl@, edges@[k].source as int),
            forall|k: int|
                0 <= k < j && is_rel_edge(#[trigger] edges@[k]) && edges@[k].target as int
                    == v as int ==> wl_has_geq(
                    wl@,
                    edges@[k].source as int,
                    s as int + edge_delta(edges@[k]),
                ),
        decreases edges.len() - j,
    {
        let src: usize = edges[j].source;
        let tgt: usize = edges[j].target;
        let rel_sign: Option<Sign> = match &edges[j].weight {
            ADGEdge::ADGRelationalEdge(re) => Some(re.sign),
            ADGEdge::ADGFactEdge(_) => None,
        };
        match rel_sign {
            Some(sign) => {
                if tgt == v {
                    proof {
                        assert(edge_ok(nodes, edges@[j as int]));
                        lemma_path_cons(edges@, j as int, pth, src as int, v as int, out);
                    }
                    let ghost before = wl@;
                    match sign {
                        Sign::Positive => {
                            wl.push((src, s, a));
                            proof {
                                assert(is_path(edges@, seq![j as int] + pth, src as int, out));
                                assert(path_negs(edges@, seq![j as int] + pth) == s as nat);
                                assert((src as int) < nodes.len() && is_rel(nodes[src as int]));
                                let sig = (src, s, a);
                                assert(sig.0 == src && sig.1 == s && sig.2 == a);
                                assert(exists|p: Seq<int>|
                                    #[trigger] is_path(edges@, p, src as int, out) && path_negs(
                                        edges@,
                                        p,
                                    ) == s as nat);
                                assert(signal_ok(nodes, edges@, sig, out, cap));
                            }
                        },
                        Sign::Negative => {
                            if s >= cap {
                                proof {
                                    assert(!all_pos(edges@));
                                    if no_negative_cycle(edges@) && edges@.len() <= cap as int {
                                        let q = seq![j as int] + pth;
                                        assert(is_path(edges@, q, src as int, out));
                                        assert(path_negs(edges@, q) == s + 1);
                                        lemma_negs_bounded(edges@, q, src as int, out);
                                        assert(false);
                                    }
                                }
                                return Err(ErrorKind::GraphInvariantViolation);
                            }
                            let a2 = a.inverse();
                            let s2: u32 = s + 1;
                            wl.push((src, s2, a2));
                            proof {
                                if s as nat % 2 == 0 {
                                    assert(s2 as nat % 2 == 1);
                                } else {
                                    assert(s2 as nat % 2 == 0);
                                }
                                assert(a2 == parity_anc(s2 as nat));
                                assert(is_path(edges@, seq![j as int] + pth, src as int, out));
                                assert(path_negs(edges@, seq![j as int] + pth) == s2 as nat);
                                assert(signal_ok(nodes, edges@, (src, s2, a2), out, cap));
                            }
                        },
                    }
                    proof {
                        assert(wl@.len() == before.len() + 1);
                        assert forall|m: int| 0 <= m < wl@.len() implies signal_ok(
                            nodes,
                            edges@,
                            #[trigger] wl@[m],
                            out,
                            cap,
                        ) by {
                            if m < before.len() {
                                assert(wl@[m] == before[m]);
                                assert(signal_ok(nodes, edges@, before[m], out, cap));
                            }
                        }
                        assert forall|k: int|
                            0 <= k < j + 1 && is_rel_edge(#[trigger] edges@[k]) && edges@[
                                k
                            ].target as int == v as int implies wl_has(
                            wl@,
                            edges@[k].source as int,
                        ) by {
                            if k < j {
                                let m = choose|m: int|
                                    0 <= m < before.len() && (#[trigger] before[m]).0 as int
                                        == edges@[k].source as int;
                                assert(wl@[m] == before[m]);
                                assert(wl_has(wl@, edges@[k].source as int));
                            } else {
                                assert((wl@[before.len() as int]).0 as int == src as int);
                                assert(wl_has(wl@, src as int));
                            }
                        }
                        assert forall|k: int|
                            0 <= k < j + 1 && is_rel_edge(#[trigger] edges@[k]) && edges@[
                                k
                            ].target as int == v as int implies wl_has_geq(
                            wl@,
                            edges@[k].source as int,
                            s as int + edge_delta(edges@[k]),
                        ) by {
                            if k < j {
                                let m = choose|m: int|
                                    0 <= m < before.len() && (#[trigger] before[m]).0 as int
                                        == edges@[k].source as int && before[m].1 as int >= s as int
                                        + edge_delta(edges@[k]);
                                assert(wl@[m] == before[m]);
                                assert(wl_has_geq(wl@, edges@[k].source as int, s as int
                                    + edge_delta(edges@[k])));
                            } else {
                                assert((wl@[before.len() as int]).0 as int == src as int);
                                assert((wl@[before.len() as int]).1 as int >= s as int
                                    + edge_delta(edges@[j as int]));
                                assert(wl_has_geq(wl@, src as int, s as int + edge_delta(
                                    edges@[j as int],
                                )));
                            }
                        }
                    }
                }
            },
            None => {},
        }
        j += 1;
    }
    Ok(())
}

} // verus!

verus! {


/// After overwriting one relational node's assignments without lowering its
/// stratum, the skeleton and monotonicity facts carry over, pointwise.
proof fn lemma_after_update(
    base: Seq<ADGNode>,
    pre: Seq<ADGNode>,
    mid: Seq<ADGNode>,
    v: int,
    strat: Option<u32>,
    anc: Option<Ancestry>,
)
    requires
        same_skeleton(base, pre),
        strat_monotone(base, pre),
        0 <= v < pre.len(),
        is_rel(pre[v]),
        mid == pre.update(
            v,
            ADGNode::ADGRelationalNode(
                (ADGRelationalNode {
                    tag: rel_of(pre[v]).tag,
                    inverse_stratum: strat,
                    ancestry: anc,
                }),
            ),
        ),
        node_strat(pre[v]) is Some ==> (strat is Some && strat.unwrap() >= node_strat(
            pre[v],
        ).unwrap()),
    ensures
        same_skeleton(base, mid),
        strat_monotone(base, mid),
        same_skeleton(pre, mid),
        mid.len() == pre.len(),
        forall|i: int| 0 <= i < pre.len() && i != v ==> mid[i] == pre[i],
        is_rel(mid[v]),
        node_strat(mid[v]) == strat,
        node_anc(mid[v]) == anc,
        node_tag(mid[v]) == node_tag(pre[v]),
{
    assert forall|i: int| 0 <= i < base.len() implies {
        &&& is_rel(#[trigger] base[i]) == is_rel(#[trigger] mid[i])
        &&& (is_rel(base[i]) ==> rel_of(base[i]).tag == rel_of(mid[i]).tag)
        &&& (!is_rel(base[i]) ==> base[i] == mid[i])
    } by {
        if i != v {
            assert(mid[i] == pre[i]);
        }
    }
    assert forall|i: int|
        0 <= i < base.len() && is_rel(#[trigger] base[i]) && node_strat(base[i]) is Some implies (
    node_strat(#[trigger] mid[i]) is Some && node_strat(mid[i]).unwrap() >= node_strat(
        base[i],
    ).unwrap()) by {
        assert(node_strat(pre[i]) is Some && node_strat(pre[i]).unwrap() >= node_strat(
            base[i],
        ).unwrap());
        if i != v {
            assert(mid[i] == pre[i]);
        }
    }
    assert forall|i: int| 0 <= i < pre.len() implies {
        &&& is_rel(#[trigger] pre[i]) == is_rel(#[trigger] mid[i])
        &&& (is_rel(pre[i]) ==> rel_of(pre[i]).tag == rel_of(mid[i]).tag)
        &&& (!is_rel(pre[i]) ==> pre[i] == mid[i])
    } by {
        if i != v {
            assert(mid[i] == pre[i]);
        }
    }
}

/// Merging one sound signal into a node keeps its assignment justified by
/// real paths.
proof fn lemma_merge_signal_sound(
    pre: Seq<ADGNode>,
    mid: Seq<ADGNode>,
    edges: Seq<EdgeEntry>,
    out: int,
    v: int,
    s: u32,
    a: Ancestry,
    merged: Ancestry,
    cur_anc: Option<Ancestry>,
    new_strat: Option<u32>,
)
    requires
        0 <= v < pre.len(),
        is_rel(pre[v]),
        anc_sound_at(pre, edges, out, v),
        node_anc(pre[v]) == cur_anc,
        a == Ancestry::Positive || a == Ancestry::Negative,
        a == Ancestry::Positive ==> reaches_with_parity(edges, v, out, false),
        a == Ancestry::Negative ==> reaches_with_parity(edges, v, out, true),
        merged == (match cur_anc {
            None => a,
            Some(x) => spec_merge(x, a),
        }),
        node_anc(mid[v]) == Some(merged),
        node_strat(mid[v]) == new_strat,
        new_strat is Some,
        exists|p: Seq<int>|
            #[trigger] is_path(edges, p, v, out) && path_negs(edges, p)
                == new_strat.unwrap() as nat,
    ensures
        anc_sound_at(mid, edges, out, v),
{
    match cur_anc {
        None => {},
        Some(x) => {
            assert(x != Ancestry::Neither);
        },
    }
}

/// Processing one signal keeps the output node's ancestry positive-seeded:
/// either the node already carried `Positive` or `Unknown`, or this very
/// signal was the seed and assigns `Positive`.
proof fn lemma_out_anc_preserved(
    pre: Seq<ADGNode>,
    mid: Seq<ADGNode>,
    wl_pre: Seq<(usize, u32, Ancestry)>,
    out_i: int,
    v: int,
    a: Ancestry,
    merged: Ancestry,
    cur_anc: Option<Ancestry>,
    out: usize,
)
    requires
        0 <= out_i < pre.len(),
        out as int == out_i,
        mid.len() == pre.len(),
        0 <= v < pre.len(),
        forall|i: int| 0 <= i < pre.len() && i != v ==> mid[i] == pre[i],
        node_anc(mid[v]) == Some(merged),
        node_anc(pre[v]) == cur_anc,
        wl_pre.len() > 0,
        wl_pre.last().0 as int == v,
        wl_pre.last().2 == a,
        a == Ancestry::Positive || a == Ancestry::Negative,
        merged == (match cur_anc {
            None => a,
            Some(x) => spec_merge(x, a),
        }),
        node_anc(pre[out_i]) == Some(Ancestry::Positive) || node_anc(pre[out_i]) == Some(
            Ancestry::Unknown,
        ) || (node_anc(pre[out_i]) is None && wl_pre =~= seq![(out, 0u32, Ancestry::Positive)]),
    ensures
        node_anc(mid[out_i]) == Some(Ancestry::Positive) || node_anc(mid[out_i]) == Some(
            Ancestry::Unknown,
        ),
{
    if v == out_i {
        match cur_anc {
            None => {
                assert(wl_pre =~= seq![(out, 0u32, Ancestry::Positive)]);
                assert(wl_pre.last() == (out, 0u32, Ancestry::Positive));
                assert(a == Ancestry::Positive);
            },
            Some(x) => {
                assert(x == Ancestry::Positive || x == Ancestry::Unknown);
            },
        }
    } else {
        assert(node_anc(mid[out_i]) == node_anc(pre[out_i]));
        if node_anc(pre[out_i]) is None {
            assert(wl_pre.last() == (out, 0u32, Ancestry::Positive));
            assert(false);
        }
    }
}

impl AnnotatedDependencyGraph {
    /// The ancestry/stratum fixpoint: seed the designated output predicate
    /// with ancestry `Positive` at inverse stratum `0`, then walk incoming
    /// relational edges backward, merging ancestry at every visited node;
    /// a positive edge keeps the signal, a negative edge raises the stratum
    /// by one and inverts the ancestry. A node whose stratum is already at
    /// or above the incoming one stops the walk. On a fresh graph the result
    /// assigns exactly the nodes that reach the output, with parities
    /// justified by real paths and each stratum the maximum negative count
    /// over all of the node's paths to the output; strata never decrease and
    /// ancestry only moves up the lattice. Fails with a typed error when no
    /// output predicate is set, when it names no relational node, or when a
    /// stratum outgrows any bound a stratifiable program could produce —
    /// never on a graph free of cycles through negative edges.
    #[verifier::rlimit(100)]
    pub fn calculate_ancestry_and_inverse_stratum(&mut self) -> (r: Result<(), ErrorKind>)
        requires
            old(self).wf(),
        ensures
            final(self).edges == old(self).edges,
            final(self).output_predicate == old(self).output_predicate,
            final(self).ground_terms == old(self).ground_terms,
            final(self).wf(),
            same_skeleton(old(self).nodes@, final(self).nodes@),
            strat_monotone(old(self).nodes@, final(self).nodes@),
            anc_monotone(old(self).nodes@, final(self).nodes@),
            old(self).output_predicate is None ==> r == Err::<(), ErrorKind>(
                ErrorKind::GraphInvariantViolation,
            ) && final(self).nodes@ == old(self).nodes@,
            old(self).output_predicate is Some && !old(self).output_resolves() ==> r == Err::<
                (),
                ErrorKind,
            >(ErrorKind::PredicateNotFound) && final(self).nodes@ == old(self).nodes@,
            old(self).already_propagated() ==> r == Ok::<(), ErrorKind>(()) && final(self).nodes@
                == old(self).nodes@,
            old(self).output_resolves() && all_pos(old(self).edges@) ==> r is Ok,
            (old(self).output_resolves() && no_negative_cycle(old(self).edges@) && old(
                self,
            ).edges@.len() < u32::MAX as usize) ==> r is Ok,
            (r is Ok && old(self).output_resolves() && all_unset(old(self).nodes@)) ==> {
                &&& propagation_result_correct(
                    old(self).edges@,
                    final(self).nodes@,
                    old(self).output_index(),
                )
                &&& final(self).already_propagated()
                &&& final(self).output_index() == old(self).output_index()
            },
    {
        let ghost og = *old(self);
        let out_tag: String = match &self.output_predicate {
            None => {
                proof {
                    lemma_anc_monotone_refl(self.nodes@);
                }
                return Err(ErrorKind::GraphInvariantViolation);
            },
            Some(t) => t.clone(),
        };
        let out: usize = match self.get_rel_node_tag(&out_tag) {
            Ok(i) => i,
            Err(e) => {
                proof {
                    lemma_anc_monotone_refl(self.nodes@);
                }
                return Err(e);
            },
        };
        proof {
            assert(og.output_resolves());
            lemma_rel_index_unique(og.nodes@, out_tag@, out as int);
            assert(og.output_index() == out as int);
        }
        let cap: u32 = if self.edges.len() >= (u32::MAX - 1) as usize {
            u32::MAX - 1
        } else {
            self.edges.len() as u32
        };
        let ghost fresh0 = all_unset(og.nodes@);
        let ghost quick0 = og.already_propagated();
        let ghost out_i = out as int;
        let ghost eds = og.edges@;
        let mut wl: Vec<(usize, u32, Ancestry)> = Vec::new();
        wl.push((out, 0u32, Ancestry::Positive));
        proof {
            assert(is_path(eds, Seq::<int>::empty(), out_i, out_i));
            assert(path_negs(eds, Seq::<int>::empty()) == 0nat);
            assert(wl@ =~= seq![(out, 0u32, Ancestry::Positive)]);
            let sig = (out, 0u32, Ancestry::Positive);
            assert(sig.0 == out && sig.1 == 0u32 && sig.2 == Ancestry::Positive);
            assert(exists|p: Seq<int>|
                #[trigger] is_path(eds, p, out_i, out_i) && path_negs(eds, p) == 0nat);
            assert(signal_ok(self.nodes@, eds, sig, out_i, cap));
        }
        proof {
            assert(wl@[0].0 as int == out_i);
            assert(wl_has(wl@, out_i));
            lemma_anc_monotone_refl(self.nodes@);
        }
        while wl.len() > 0
            invariant
                og == *old(self),
                og.wf(),
                og.output_resolves(),
                og.output_index() == out_i,
                self.wf(),
                self.edges == og.edges,
                self.output_predicate == og.output_predicate,
                self.ground_terms == og.ground_terms,
                same_skeleton(og.nodes@, self.nodes@),
                strat_monotone(og.nodes@, self.nodes@),
                anc_monotone(og.nodes@, self.nodes@),
                out_i == out as int,
                og.edges@.len() < u32::MAX as usize ==> cap as int == og.edges@.len() as int,
                0 <= out_i < self.nodes@.len(),
                is_rel(self.nodes@[out_i]),
                node_tag(self.nodes@[out_i]) == out_tag@,
                eds == self.edges@,
                signals_ok(self.nodes@, eds, wl@, out_i, cap),
                fresh0 == all_unset(og.nodes@),
                quick0 == og.already_propagated(),
                fresh0 ==> coverage(self.nodes@, eds, wl@),
                fresh0 ==> coverage_bound(self.nodes@, eds, wl@),
                fresh0 ==> anc_sound(self.nodes@, eds, out_i),
                fresh0 ==> (node_strat(self.nodes@[out_i]) is Some || wl_has(wl@, out_i)),
                fresh0 ==> (node_anc(self.nodes@[out_i]) == Some(Ancestry::Positive) || node_anc(
                    self.nodes@[out_i],
                ) == Some(Ancestry::Unknown) || (node_anc(self.nodes@[out_i]) is None && wl@ =~=
                    seq![(out, 0u32, Ancestry::Positive)])),
                quick0 ==> (self.nodes@ == og.nodes@ && (wl@ =~= seq![
                    (out, 0u32, Ancestry::Positive),
                ] || wl@.len() == 0)),
            decreases total_pot(self.nodes@, cap as nat), wl@.len(),
        {
            let ghost wl_pre = wl@;
            let ghost nodes_pre = self.nodes@;
            let popped = wl.pop().unwrap();
            let v: usize = popped.0;
            let s: u32 = popped.1;
            let a: Ancestry = popped.2;
            proof {
                assert(wl@ =~= wl_pre.drop_last());
                assert(popped == wl_pre.last());
                assert(signal_ok(nodes_pre, eds, wl_pre[wl_pre.len() - 1], out_i, cap));
                assert(popped.0 == v && popped.1 == s && popped.2 == a);
            }
            let ghost pth = choose|p: Seq<int>|
                is_path(eds, p, v as int, out_i) && path_negs(eds, p) == s as nat;
            let node_read: (bool, Option<u32>, Option<Ancestry>) = match &self.nodes[v] {
                ADGNode::ADGRelationalNode(rn) => (true, rn.inverse_stratum, rn.ancestry),
                ADGNode::ADGFactNode(_) => (false, None, None),
            };
            let node_is_rel = node_read.0;
            let cur_strat = node_read.1;
            let cur_anc = node_read.2;
            if !node_is_rel {
                // a sound signal always names a relational node; this typed
                // guard mirrors the failure mode of propagation reaching a
                // fact node
                return Err(ErrorKind::GraphInvariantViolation);
            }
            let merged: Ancestry = match cur_anc {
                None => a,
                Some(old_a) => {
                    if (old_a == Ancestry::Positive || old_a == Ancestry::Negative) && (a
                        == Ancestry::Unknown || a == Ancestry::Neither) {
                        return Err(ErrorKind::GraphInvariantViolation);
                    }
                    old_a.merge(a)
                },
            };
            proof {
                assert(is_path(eds, pth, v as int, out_i) && path_negs(eds, pth) == s as nat);
                if a == Ancestry::Positive {
                    assert(reaches_with_parity(eds, v as int, out_i, false));
                } else {
                    assert(a == Ancestry::Negative);
                    assert(reaches_with_parity(eds, v as int, out_i, true));
                }
            }
            let do_push: bool = match cur_strat {
                None => true,
                Some(s_old) => s_old < s,
            };
            if do_push {
                proof {
                    if quick0 {
                        assert(self.nodes@ == og.nodes@);
                        assert(wl_pre =~= seq![(out, 0u32, Ancestry::Positive)]);
                        assert(popped == (out, 0u32, Ancestry::Positive));
                        assert(v == out && s == 0u32);
                        assert(node_strat(og.nodes@[out_i]) is Some);
                        assert(false);
                    }
                }
                self.set_rel_state(v, Some(s), Some(merged));
                let ghost nodes_mid = self.nodes@;
                proof {
                    lemma_after_update(
                        og.nodes@,
                        nodes_pre,
                        nodes_mid,
                        v as int,
                        Some(s),
                        Some(merged),
                    );
                    assert forall|i: int|
                        0 <= i < og.nodes@.len() && is_rel(#[trigger] og.nodes@[i]) implies
                        spec_le(eff_anc(og.nodes@[i]), eff_anc(#[trigger] nodes_mid[i])) by {
                        if i == v as int {
                            match cur_anc {
                                None => {},
                                Some(x) => {
                                    lemma_merge_upper_bound(x, a);
                                },
                            }
                            lemma_le_trans(
                                eff_anc(og.nodes@[i]),
                                eff_anc(nodes_pre[i]),
                                eff_anc(nodes_mid[i]),
                            );
                        } else {
                            assert(nodes_mid[i] == nodes_pre[i]);
                        }
                    }
                    assert forall|m: int| 0 <= m < wl@.len() implies signal_ok(
                        nodes_mid,
                        eds,
                        #[trigger] wl@[m],
                        out_i,
                        cap,
                    ) by {
                        assert(wl@[m] == wl_pre[m]);
                        assert(signal_ok(nodes_pre, eds, wl_pre[m], out_i, cap));
                        assert(is_rel(nodes_mid[wl_pre[m].0 as int]) == is_rel(
                            nodes_pre[wl_pre[m].0 as int],
                        ));
                    }
                }
                let ghost wl_mid = wl@;
                let push_result = push_incoming(
                    Ghost(self.nodes@),
                    &self.edges,
                    &mut wl,
                    v,
                    s,
                    a,
                    cap,
                    Ghost(out_i),
                );
                match push_result {
                    Ok(()) => {},
                    Err(e) => {
                        proof {
                            if og.output_resolves() && no_negative_cycle(og.edges@)
                                && og.edges@.len() < u32::MAX as usize {
                                assert(false);
                            }
                        }
                        return Err(e);
                    },
                }
                proof {
                    // coverage after update and pushes
                    if fresh0 {
                        assert forall|k: int|
                            0 <= k < eds.len() && is_rel_edge(#[trigger] eds[k]) && node_strat(
                                nodes_mid[eds[k].target as int],
                            ) is Some implies (node_strat(nodes_mid[eds[k].source as int]) is Some
                            || wl_has(wl@, eds[k].source as int)) by {
                            assert(edge_ok(nodes_pre, eds[k]));
                            let t = eds[k].target as int;
                            let u = eds[k].source as int;
                            if t == v as int {
                                assert(wl_has(wl@, u));
                            } else {
                                assert(node_strat(nodes_pre[t]) is Some);
                                assert(node_strat(nodes_pre[u]) is Some || wl_has(wl_pre, u));
                                if node_strat(nodes_pre[u]) is Some {
                                    assert(node_strat(nodes_mid[u]) is Some);
                                } else {
                                    let m = choose|m: int|
                                        0 <= m < wl_pre.len() && (#[trigger] wl_pre[m]).0 as int
                                            == u;
                                    if m < wl_pre.len() - 1 {
                                        assert(wl_mid[m] == wl_pre[m]);
                                        assert(wl@[m] == wl_mid[m]);
                                        assert(wl_has(wl@, u));
                                    } else {
                                        assert(u == v as int);
                                        assert(node_strat(nodes_mid[u]) is Some);
                                    }
                                }
                            }
                        }
                        assert(coverage(nodes_mid, eds, wl@));
                        assert forall|k: int|
                            0 <= k < eds.len() && is_rel_edge(#[trigger] eds[k]) && node_strat(
                                nodes_mid[eds[k].target as int],
                            ) is Some implies covered_bound_at(nodes_mid, eds, wl@, k) by {
                            assert(edge_ok(nodes_pre, eds[k]));
                            let t = eds[k].target as int;
                            let u = eds[k].source as int;
                            let need = node_strat(nodes_mid[t]).unwrap() as int + edge_delta(
                                eds[k],
                            );
                            if t == v as int {
                                assert(node_strat(nodes_mid[t]) == Some(s));
                                assert(wl_has_geq(wl@, u, s as int + edge_delta(eds[k])));
                            } else {
                                assert(node_strat(nodes_pre[t]) is Some);
                                assert(covered_bound_at(nodes_pre, eds, wl_pre, k));
                                assert(node_strat(nodes_pre[t]) == node_strat(nodes_mid[t]));
                                if node_strat(nodes_pre[u]) is Some && node_strat(
                                    nodes_pre[u],
                                ).unwrap() as int >= need {
                                    if u == v as int {
                                        assert(cur_strat == node_strat(nodes_pre[u]));
                                        assert(node_strat(nodes_mid[u]) == Some(s));
                                        assert(s as int >= need);
                                    } else {
                                        assert(nodes_mid[u] == nodes_pre[u]);
                                    }
                                } else {
                                    let m = choose|m: int|
                                        0 <= m < wl_pre.len() && (#[trigger] wl_pre[m]).0 as int
                                            == u && wl_pre[m].1 as int >= need;
                                    if m < wl_pre.len() - 1 {
                                        assert(wl_mid[m] == wl_pre[m]);
                                        assert(wl@[m] == wl_mid[m]);
                                        assert(wl_has_geq(wl@, u, need));
                                    } else {
                                        assert(u == v as int && s as int >= need);
                                        assert(node_strat(nodes_mid[u]) == Some(s));
                                    }
                                }
                            }
                        }
                        assert(coverage_bound(nodes_mid, eds, wl@));
                        // ancestry soundness after the merge at v
                        assert forall|w: int|
                            0 <= w < nodes_mid.len() && is_rel(#[trigger] nodes_mid[w]) implies
                            anc_sound_at(nodes_mid, eds, out_i, w) by {
                            if w != v as int {
                                assert(nodes_mid[w] == nodes_pre[w]);
                                assert(anc_sound_at(nodes_pre, eds, out_i, w));
                            } else {
                                lemma_merge_signal_sound(
                                    nodes_pre,
                                    nodes_mid,
                                    eds,
                                    out_i,
                                    v as int,
                                    s,
                                    a,
                                    merged,
                                    cur_anc,
                                    Some(s),
                                );
                            }
                        }
                        assert(anc_sound(nodes_mid, eds, out_i));
                        // the output node keeps a stratum or a queued signal
                        if v == out {
                            assert(node_strat(nodes_mid[out_i]) is Some);
                        } else {
                            if !(node_strat(nodes_pre[out_i]) is Some) {
                                let m = choose|m: int|
                                    0 <= m < wl_pre.len() && (#[trigger] wl_pre[m]).0 as int
                                        == out_i;
                                assert(m < wl_pre.len() - 1);
                                assert(wl@[m] == wl_pre[m]);
                                assert(wl_has(wl@, out_i));
                            }
                        }
                        // the output node's ancestry stays positive-seeded
                        lemma_out_anc_preserved(
                            nodes_pre,
                            nodes_mid,
                            wl_pre,
                            out_i,
                            v as int,
                            a,
                            merged,
                            cur_anc,
                            out,
                        );
                    }
                    // termination potential strictly decreased
                    lemma_total_pot_update(
                        nodes_pre,
                        v as int,
                        nodes_mid[v as int],
                        cap as nat,
                    );
                    assert(node_pot(nodes_mid[v as int], cap as nat) < node_pot(
                        nodes_pre[v as int],
                        cap as nat,
                    ));
                }
            } else {
                let s_old: u32 = match cur_strat {
                    Some(x) => x,
                    None => 0,
                };
                self.set_rel_state(v, Some(s_old), Some(merged));
                let ghost nodes_mid = self.nodes@;
                proof {
                    lemma_after_update(
                        og.nodes@,
                        nodes_pre,
                        nodes_mid,
                        v as int,
                        Some(s_old),
                        Some(merged),
                    );
                    assert forall|i: int|
                        0 <= i < og.nodes@.len() && is_rel(#[trigger] og.nodes@[i]) implies
                        spec_le(eff_anc(og.nodes@[i]), eff_anc(#[trigger] nodes_mid[i])) by {
                        if i == v as int {
                            match cur_anc {
                                None => {},
                                Some(x) => {
                                    lemma_merge_upper_bound(x, a);
                                },
                            }
                            lemma_le_trans(
                                eff_anc(og.nodes@[i]),
                                eff_anc(nodes_pre[i]),
                                eff_anc(nodes_mid[i]),
                            );
                        } else {
                            assert(nodes_mid[i] == nodes_pre[i]);
                        }
                    }
                    assert forall|m: int| 0 <= m < wl@.len() implies signal_ok(
                        nodes_mid,
                        eds,
                        #[trigger] wl@[m],
                        out_i,
                        cap,
                    ) by {
                        assert(wl@[m] == wl_pre[m]);
                        assert(signal_ok(nodes_pre, eds, wl_pre[m], out_i, cap));
                        assert(is_rel(nodes_mid[wl_pre[m].0 as int]) == is_rel(
                            nodes_pre[wl_pre[m].0 as int],
                        ));
                    }
                    if fresh0 {
                        assert forall|k: int|
                            0 <= k < eds.len() && is_rel_edge(#[trigger] eds[k]) && node_strat(
                                nodes_mid[eds[k].target as int],
                            ) is Some implies (node_strat(nodes_mid[eds[k].source as int]) is Some
                            || wl_has(wl@, eds[k].source as int)) by {
                            assert(edge_ok(nodes_pre, eds[k]));
                            let t = eds[k].target as int;
                            let u = eds[k].source as int;
                            assert(node_strat(nodes_pre[t]) is Some);
                            assert(node_strat(nodes_pre[u]) is Some || wl_has(wl_pre, u));
                            if node_strat(nodes_pre[u]) is Some {
                                assert(node_strat(nodes_mid[u]) is Some);
                            } else {
                                let m = choose|m: int|
                                    0 <= m < wl_pre.len() && (#[trigger] wl_pre[m]).0 as int == u;
                                if m < wl_pre.len() - 1 {
                                    assert(wl@[m] == wl_pre[m]);
                                    assert(wl_has(wl@, u));
                                } else {
                                    assert(u == v as int);
                                    assert(node_strat(nodes_mid[u]) is Some);
                                }
                            }
                        }
                        assert(coverage(nodes_mid, eds, wl@));
                        assert forall|k: int|
                            0 <= k < eds.len() && is_rel_edge(#[trigger] eds[k]) && node_strat(
                                nodes_mid[eds[k].target as int],
                            ) is Some implies covered_bound_at(nodes_mid, eds, wl@, k) by {
                            assert(edge_ok(nodes_pre, eds[k]));
                            let t = eds[k].target as int;
                            let u = eds[k].source as int;
                            assert(node_strat(nodes_mid[v as int]) == Some(s_old));
                            assert(node_strat(nodes_pre[t]) == node_strat(nodes_mid[t]));
                            assert(node_strat(nodes_pre[u]) == node_strat(nodes_mid[u]));
                            let need = node_strat(nodes_mid[t]).unwrap() as int + edge_delta(
                                eds[k],
                            );
                            assert(covered_bound_at(nodes_pre, eds, wl_pre, k));
                            if node_strat(nodes_pre[u]) is Some && node_strat(
                                nodes_pre[u],
                            ).unwrap() as int >= need {
                            } else {
                                let m = choose|m: int|
                                    0 <= m < wl_pre.len() && (#[trigger] wl_pre[m]).0 as int == u
                                        && wl_pre[m].1 as int >= need;
                                if m < wl_pre.len() - 1 {
                                    assert(wl@[m] == wl_pre[m]);
                                    assert(wl_has_geq(wl@, u, need));
                                } else {
                                    assert(u == v as int && s as int >= need);
                                    assert(s_old >= s);
                                }
                            }
                        }
                        assert(coverage_bound(nodes_mid, eds, wl@));
                        assert forall|w: int|
                            0 <= w < nodes_mid.len() && is_rel(#[trigger] nodes_mid[w]) implies
                            anc_sound_at(nodes_mid, eds, out_i, w) by {
                            if w != v as int {
                                assert(nodes_mid[w] == nodes_pre[w]);
                                assert(anc_sound_at(nodes_pre, eds, out_i, w));
                            } else {
                                lemma_merge_signal_sound(
                                    nodes_pre,
                                    nodes_mid,
                                    eds,
                                    out_i,
                                    v as int,
                                    s,
                                    a,
                                    merged,
                                    cur_anc,
                                    Some(s_old),
                                );
                            }
                        }
                        assert(anc_sound(nodes_mid, eds, out_i));
                        if v == out {
                            assert(node_strat(nodes_mid[out_i]) is Some);
                        } else {
                            if !(node_strat(nodes_pre[out_i]) is Some) {
                                let m = choose|m: int|
                                    0 <= m < wl_pre.len() && (#[trigger] wl_pre[m]).0 as int
                                        == out_i;
                                assert(m < wl_pre.len() - 1);
                                assert(wl@[m] == wl_pre[m]);
                                assert(wl_has(wl@, out_i));
                            }
                        }
                        lemma_out_anc_preserved(
                            nodes_pre,
                            nodes_mid,
                            wl_pre,
                            out_i,
                            v as int,
                            a,
                            merged,
                            cur_anc,
                            out,
                        );
                    }
                    if quick0 {
                        assert(nodes_pre == og.nodes@);
                        assert(wl_pre =~= seq![(out, 0u32, Ancestry::Positive)]);
                        assert(popped == (out, 0u32, Ancestry::Positive));
                        assert(v == out && s == 0u32 && a == Ancestry::Positive);
                        let x = node_anc(og.nodes@[out_i]).unwrap();
                        assert(cur_anc == Some(x));
                        assert(x == Ancestry::Positive || x == Ancestry::Unknown);
                        assert(merged == spec_merge(x, Ancestry::Positive));
                        assert(merged == x);
                        assert(nodes_mid[v as int] == nodes_pre[v as int]);
                        assert(nodes_mid =~= nodes_pre);
                        assert(wl@.len() == 0);
                    }
                    lemma_total_pot_update(
                        nodes_pre,
                        v as int,
                        nodes_mid[v as int],
                        cap as nat,
                    );
                    assert(node_pot(nodes_mid[v as int], cap as nat) == node_pot(
                        nodes_pre[v as int],
                        cap as nat,
                    ));
                }
            }
        }
        proof {
            if fresh0 {
                assert(node_strat(self.nodes@[out_i]) is Some);
                assert forall|k: int|
                    0 <= k < eds.len() && is_rel_edge(#[trigger] eds[k]) && node_strat(
                        self.nodes@[eds[k].target as int],
                    ) is Some implies node_strat(self.nodes@[eds[k].source as int]) is Some by {
                    assert(!wl_has(wl@, eds[k].source as int));
                }
                assert forall|k: int|
                    0 <= k < eds.len() && is_rel_edge(#[trigger] eds[k]) && node_strat(
                        self.nodes@[eds[k].target as int],
                    ) is Some implies (node_strat(self.nodes@[eds[k].source as int]) matches Some(
                    su,
                ) && su as int >= node_strat(self.nodes@[eds[k].target as int]).unwrap() as int
                    + edge_delta(eds[k])) by {
                    assert(covered_bound_at(self.nodes@, eds, wl@, k));
                    assert(!wl_has_geq(
                        wl@,
                        eds[k].source as int,
                        node_strat(self.nodes@[eds[k].target as int]).unwrap() as int + edge_delta(
                            eds[k],
                        ),
                    ));
                }
                assert forall|w: int|
                    0 <= w < self.nodes@.len() && is_rel(#[trigger] self.nodes@[w]) implies {
                    &&& (node_anc(self.nodes@[w]) is Some <==> reaches(eds, w, out_i))
                    &&& (node_strat(self.nodes@[w]) is Some <==> reaches(eds, w, out_i))
                    &&& (forall|p: Seq<int>|
                        #[trigger] is_path(eds, p, w, out_i) ==> (node_strat(
                            self.nodes@[w],
                        ) matches Some(sv) && path_negs(eds, p) <= sv as nat))
                } by {
                    assert(anc_sound_at(self.nodes@, eds, out_i, w));
                    if reaches(eds, w, out_i) {
                        let p = choose|p: Seq<int>| #[trigger] is_path(eds, p, w, out_i);
                        lemma_reach_visited(self.nodes@, eds, p, w, out_i);
                    }
                    if node_strat(self.nodes@[w]) is Some {
                        let q = choose|p: Seq<int>|
                            #[trigger] is_path(eds, p, w, out_i) && path_negs(eds, p)
                                == node_strat(self.nodes@[w]).unwrap() as nat;
                        assert(reaches(eds, w, out_i));
                    }
                    assert forall|p: Seq<int>| #[trigger] is_path(eds, p, w, out_i) implies (
                    node_strat(self.nodes@[w]) matches Some(sv) && path_negs(eds, p)
                        <= sv as nat) by {
                        lemma_strat_dominates_path(self.nodes@, eds, p, w, out_i);
                    }
                }
                assert(propagation_result_correct(eds, self.nodes@, out_i));
                assert(node_anc(self.nodes@[out_i]) == Some(Ancestry::Positive) || node_anc(
                    self.nodes@[out_i],
                ) == Some(Ancestry::Unknown));
                lemma_rel_index_unique(self.nodes@, out_tag@, out_i);
                assert(self.already_propagated());
            }
            if quick0 {
                assert(self.nodes@ == og.nodes@);
            }
        }
        Ok(())
    }
}

} // verus!

verus! {

/// A relational node that reaches the output only over positive-sign paths
/// ends propagation with ancestry exactly `Positive`.
pub proof fn lemma_positive_only_paths(
    edges: Seq<EdgeEntry>,
    nodes: Seq<ADGNode>,
    out: int,
    v: int,
)
    requires
        propagation_result_correct(edges, nodes, out),
        0 <= v < nodes.len(),
        is_rel(nodes[v]),
        reaches(edges, v, out),
        forall|p: Seq<int>| #[trigger] is_path(edges, p, v, out) ==> path_negs(edges, p) == 0,
    ensures
        node_anc(nodes[v]) == Some(Ancestry::Positive),
{
    assert(anc_sound_at(nodes, edges, out, v));
    assert(node_anc(nodes[v]) is Some);
    if node_anc(nodes[v]) == Some(Ancestry::Negative) || node_anc(nodes[v]) == Some(
        Ancestry::Unknown,
    ) {
        let p = choose|p: Seq<int>|
            #[trigger] is_path(edges, p, v, out) && ((path_negs(edges, p) % 2 == 1) == true);
        assert(path_negs(edges, p) == 0);
        assert(false);
    }
}

/// A relational node all of whose paths to the output cross an odd number of
/// negative edges ends propagation with ancestry exactly `Negative`.
pub proof fn lemma_odd_only_paths(edges: Seq<EdgeEntry>, nodes: Seq<ADGNode>, out: int, v: int)
    requires
        propagation_result_correct(edges, nodes, out),
        0 <= v < nodes.len(),
        is_rel(nodes[v]),
        reaches(edges, v, out),
        forall|p: Seq<int>| #[trigger] is_path(edges, p, v, out) ==> path_negs(edges, p) % 2 == 1,
    ensures
        node_anc(nodes[v]) == Some(Ancestry::Negative),
{
    assert(anc_sound_at(nodes, edges, out, v));
    assert(node_anc(nodes[v]) is Some);
    if node_anc(nodes[v]) == Some(Ancestry::Positive) || node_anc(nodes[v]) == Some(
        Ancestry::Unknown,
    ) {
        let p = choose|p: Seq<int>|
            #[trigger] is_path(edges, p, v, out) && ((path_negs(edges, p) % 2 == 1) == false);
        assert(path_negs(edges, p) % 2 == 1);
        assert(false);
    }
}

/// A relational node that cannot reach the output keeps both its ancestry
/// and its inverse stratum unset.
pub proof fn lemma_unreachable_retains_none(
    edges: Seq<EdgeEntry>,
    nodes: Seq<ADGNode>,
    out: int,
    v: int,
)
    requires
        propagation_result_correct(edges, nodes, out),
        0 <= v < nodes.len(),
        is_rel(nodes[v]),
        !reaches(edges, v, out),
    ensures
        node_anc(nodes[v]) is None,
        node_strat(nodes[v]) is None,
{
}

/// When no cycle through the output predicate crosses a negative edge, the
/// output ends propagation with ancestry exactly `Positive` at inverse
/// stratum zero.
pub proof fn lemma_output_positive_at_stratum_zero(
    edges: Seq<EdgeEntry>,
    nodes: Seq<ADGNode>,
    out: int,
)
    requires
        propagation_result_correct(edges, nodes, out),
        0 <= out < nodes.len(),
        is_rel(nodes[out]),
        forall|p: Seq<int>| #[trigger] is_path(edges, p, out, out) ==> path_negs(edges, p) == 0,
    ensures
        node_anc(nodes[out]) == Some(Ancestry::Positive),
        node_strat(nodes[out]) == Some(0u32),
{
    assert(is_path(edges, Seq::<int>::empty(), out, out));
    assert(reaches(edges, out, out));
    lemma_positive_only_paths(edges, nodes, out, out);
    assert(anc_sound_at(nodes, edges, out, out));
    assert(node_strat(nodes[out]) is Some);
    let s = node_strat(nodes[out]).unwrap();
    let p = choose|p: Seq<int>|
        #[trigger] is_path(edges, p, out, out) && path_negs(edges, p) == s as nat;
    assert(path_negs(edges, p) == 0);
}

/// On the graph of a stratifiable program — one where no cycle crosses a
/// negative edge — a completed propagation leaves the output predicate at
/// ancestry exactly `Positive` and inverse stratum zero.
pub proof fn lemma_output_seeded_when_stratifiable(
    edges: Seq<EdgeEntry>,
    nodes: Seq<ADGNode>,
    out: int,
)
    requires
        propagation_result_correct(edges, nodes, out),
        0 <= out < nodes.len(),
        is_rel(nodes[out]),
        no_negative_cycle(edges),
    ensures
        node_anc(nodes[out]) == Some(Ancestry::Positive),
        node_strat(nodes[out]) == Some(0u32),
{
    assert forall|p: Seq<int>| #[trigger] is_path(edges, p, out, out) implies path_negs(
        edges,
        p,
    ) == 0 by {
        if p.len() > 0 {
            assert(path_negs(edges, p) == 0);
        }
    }
    lemma_output_positive_at_stratum_zero(edges, nodes, out);
}

} // verus!

verus! {

use vstd::set_lib::{lemma_int_range, lemma_len_subset, set_int_range};

/// Whether no directed cycle crosses a negative edge: the shape the
/// dependency graph of a stratifiable program always has.
pub open spec fn no_negative_cycle(edges: Seq<EdgeEntry>) -> bool {
    forall|w: int, q: Seq<int>|
        q.len() > 0 && #[trigger] is_path(edges, q, w, w) ==> path_negs(edges, q) == 0
}

/// Counting a path's negatives from the back: the last edge contributes its
/// own sign.
pub proof fn lemma_path_negs_snoc(edges: Seq<EdgeEntry>, p: Seq<int>)
    requires
        p.len() > 0,
    ensures
        path_negs(edges, p) == path_negs(edges, p.drop_last()) + (if edge_sign(edges[p.last()])
            == Sign::Negative {
            1nat
        } else {
            0nat
        }),
    decreases p.len(),
{
    if p.len() == 1 {
        assert(p.drop_first() =~= Seq::<int>::empty());
        assert(p.drop_last() =~= Seq::<int>::empty());
        assert(p.first() == p.last());
    } else {
        lemma_path_negs_snoc(edges, p.drop_first());
        assert(p.drop_first().drop_last() =~= p.drop_last().drop_first());
        assert(p.drop_first().last() == p.last());
        assert(p.drop_last().first() == p.first());
    }
}

/// The positions of a path's negative edges, in order.
pub open spec fn neg_positions(edges: Seq<EdgeEntry>, p: Seq<int>) -> Seq<int>
    decreases p.len(),
{
    if p.len() == 0 {
        seq![]
    } else {
        let pre = neg_positions(edges, p.drop_last());
        if edge_sign(edges[p.last()]) == Sign::Negative {
            pre.push(p.len() - 1)
        } else {
            pre
        }
    }
}

/// A path has as many negative positions as its negative count; each is in
/// bounds and names a negative edge, and they come strictly in order.
pub proof fn lemma_neg_positions_props(edges: Seq<EdgeEntry>, p: Seq<int>)
    ensures
        neg_positions(edges, p).len() == path_negs(edges, p),
        forall|m: int|
            0 <= m < neg_positions(edges, p).len() ==> {
                &&& 0 <= #[trigger] neg_positions(edges, p)[m] < p.len()
                &&& edge_sign(edges[p[neg_positions(edges, p)[m]]]) == Sign::Negative
            },
        forall|m1: int, m2: int|
            0 <= m1 < m2 < neg_positions(edges, p).len() ==> #[trigger] neg_positions(edges, p)[m1]
                < #[trigger] neg_positions(edges, p)[m2],
    decreases p.len(),
{
    if p.len() == 0 {
    } else {
        lemma_neg_positions_props(edges, p.drop_last());
        lemma_path_negs_snoc(edges, p);
        let pre = neg_positions(edges, p.drop_last());
        let np = neg_positions(edges, p);
        assert forall|m: int| 0 <= m < np.len() implies {
            &&& 0 <= #[trigger] np[m] < p.len()
            &&& edge_sign(edges[p[np[m]]]) == Sign::Negative
        } by {
            if m < pre.len() {
                assert(np[m] == pre[m]);
                assert(p.drop_last()[pre[m]] == p[pre[m]]);
            }
        }
        assert forall|m1: int, m2: int| 0 <= m1 < m2 < np.len() implies #[trigger] np[m1]
            < #[trigger] np[m2] by {
            if m2 < pre.len() {
                assert(np[m1] == pre[m1] && np[m2] == pre[m2]);
            } else {
                assert(np[m1] == pre[m1]);
                assert(0 <= pre[m1] < p.drop_last().len());
            }
        }
    }
}

/// Under no negative cycle, no path crosses more negative edges than the
/// graph has edges: a larger count would revisit a negative edge and close a
/// cycle through it.
pub proof fn lemma_negs_bounded(edges: Seq<EdgeEntry>, p: Seq<int>, v: int, out: int)
    requires
        is_path(edges, p, v, out),
        no_negative_cycle(edges),
    ensures
        path_negs(edges, p) <= edges.len(),
{
    if path_negs(edges, p) > edges.len() {
        lemma_neg_positions_props(edges, p);
        let np = neg_positions(edges, p);
        let vals = np.map_values(|pos: int| p[pos]);
        assert forall|k: int| 0 <= k < vals.len() implies 0 <= #[trigger] vals[k] < edges.len() by {
            assert(vals[k] == p[np[k]]);
            lemma_path_suffix(edges, p, v, out, np[k]);
            assert(p.skip(np[k]).first() == p[np[k]]);
        }
        lemma_long_seq_repeats(vals, edges.len() as int);
        let (a, b) = choose|a: int, b: int| 0 <= a < b < vals.len() && vals[a] == vals[b];
        let i = np[a];
        let j = np[b];
        assert(vals[a] == p[i] && vals[b] == p[j]);
        assert(i < j);
        assert(p[i] == p[j]);
        assert(edge_sign(edges[p[i]]) == Sign::Negative);
        lemma_path_suffix(edges, p, v, out, i);
        lemma_path_suffix(edges, p, v, out, j);
        assert(p.skip(i).first() == p[i]);
        assert(p.skip(j).first() == p[j]);
        assert(path_node(edges, p, v, i) == edges[p[i]].source as int);
        assert(path_node(edges, p, v, j) == edges[p[j]].source as int);
        lemma_path_prefix(edges, p.skip(i), path_node(edges, p, v, i), out, j - i);
        let q = p.skip(i).take(j - i);
        assert(q.len() > 0);
        assert(path_node(edges, p.skip(i), path_node(edges, p, v, i), j - i) == edges[p.skip(i)[j
            - i - 1]].target as int);
        assert(p.skip(i)[j - i - 1] == p[j - 1]);
        assert(path_node(edges, p.skip(i), path_node(edges, p, v, i), j - i) == path_node(
            edges,
            p,
            v,
            j,
        ));
        assert(is_path(edges, q, path_node(edges, p, v, i), path_node(edges, p, v, i)));
        assert(q.first() == p[i]);
        assert(path_negs(edges, q) == 1 + path_negs(edges, q.drop_first()));
        assert(false);
    }
}

/// The node a path stands on after `k` of its edges.
pub open spec fn path_node(edges: Seq<EdgeEntry>, p: Seq<int>, v: int, k: int) -> int {
    if k == 0 {
        v
    } else {
        edges[p[k - 1]].target as int
    }
}

/// Dropping the first `i` edges of a path leaves a path from the node the
/// original stands on after `i` edges.
pub proof fn lemma_path_suffix(edges: Seq<EdgeEntry>, p: Seq<int>, v: int, out: int, i: int)
    requires
        is_path(edges, p, v, out),
        0 <= i <= p.len(),
    ensures
        is_path(edges, p.skip(i), path_node(edges, p, v, i), out),
    decreases i,
{
    if i == 0 {
        assert(p.skip(0) =~= p);
    } else {
        lemma_path_suffix(edges, p, v, out, i - 1);
        let q = p.skip(i - 1);
        assert(q.len() > 0);
        assert(q.first() == p[i - 1]);
        assert(q.drop_first() =~= p.skip(i));
        assert(path_node(edges, p, v, i) == edges[p[i - 1]].target as int);
    }
}

/// Two paths chained at a shared node form a path.
pub proof fn lemma_path_concat(
    edges: Seq<EdgeEntry>,
    a: Seq<int>,
    b: Seq<int>,
    v: int,
    m: int,
    w: int,
)
    requires
        is_path(edges, a, v, m),
        is_path(edges, b, m, w),
    ensures
        is_path(edges, a + b, v, w),
    decreases a.len(),
{
    if a.len() == 0 {
        assert(a + b =~= b);
    } else {
        assert((a + b).first() == a.first());
        assert((a + b).drop_first() =~= a.drop_first() + b);
        lemma_path_concat(edges, a.drop_first(), b, edges[a.first()].target as int, m, w);
    }
}

/// The first `j` edges of a path form a path to the node the original
/// stands on after `j` edges.
pub proof fn lemma_path_prefix(edges: Seq<EdgeEntry>, p: Seq<int>, v: int, out: int, j: int)
    requires
        is_path(edges, p, v, out),
        0 <= j <= p.len(),
    ensures
        is_path(edges, p.take(j), v, path_node(edges, p, v, j)),
    decreases j,
{
    if j == 0 {
        assert(p.take(0) =~= Seq::<int>::empty());
    } else {
        lemma_path_prefix(edges, p, v, out, j - 1);
        lemma_path_suffix(edges, p, v, out, j - 1);
        let q = p.skip(j - 1);
        assert(q.first() == p[j - 1]);
        let single = seq![p[j - 1]];
        assert(single.first() == p[j - 1]);
        assert(single.drop_first() =~= Seq::<int>::empty());
        assert(0 <= p[j - 1] < edges.len() && is_rel_edge(edges[p[j - 1]]) && edges[p[j
            - 1]].source as int == path_node(edges, p, v, j - 1));
        assert(is_path(
            edges,
            Seq::<int>::empty(),
            edges[p[j - 1]].target as int,
            edges[p[j - 1]].target as int,
        ));
        assert(is_path(
            edges,
            single,
            path_node(edges, p, v, j - 1),
            edges[p[j - 1]].target as int,
        ));
        lemma_path_concat(
            edges,
            p.take(j - 1),
            single,
            v,
            path_node(edges, p, v, j - 1),
            path_node(edges, p, v, j),
        );
        assert(p.take(j - 1) + single =~= p.take(j));
    }
}

/// A sequence of more than `bound` values drawn from `[0, bound)` repeats
/// one of them.
pub proof fn lemma_long_seq_repeats(p: Seq<int>, bound: int)
    requires
        forall|k: int| 0 <= k < p.len() ==> 0 <= #[trigger] p[k] < bound,
        p.len() > bound,
        bound >= 0,
    ensures
        exists|i: int, j: int| 0 <= i < j < p.len() && p[i] == p[j],
{
    if p.no_duplicates() {
        p.unique_seq_to_set();
        assert(p.to_set().subset_of(set_int_range(0, bound))) by {
            assert forall|x: int| p.to_set().contains(x) implies set_int_range(0, bound).contains(
                x,
            ) by {
                let k = choose|k: int| 0 <= k < p.len() && p[k] == x;
            }
        }
        lemma_int_range(0, bound);
        lemma_len_subset(p.to_set(), set_int_range(0, bound));
        assert(false);
    } else {
        let (a, b) = choose|a: int, b: int|
            0 <= a < p.len() && 0 <= b < p.len() && a != b && p[a] == p[b];
        if a < b {
            assert(p[a] == p[b]);
        } else {
            assert(p[b] == p[a]);
        }
    }
}

} // verus!
