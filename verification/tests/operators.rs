use nemo_metamorphic_testing::add_fact_node_and_edge::AddFactNodeAndEdge;
use nemo_metamorphic_testing::add_relational_node::AddRelationalNode;
use nemo_metamorphic_testing::adg::{ADGEdge, ADGNode, AnnotatedDependencyGraph, Sign};
use nemo_metamorphic_testing::ancestry::Ancestry;
use nemo_metamorphic_testing::errors::ErrorKind;
use nemo_metamorphic_testing::program::{FactData, GroundTerm, Program, Statement};
use nemo_metamorphic_testing::transformation_manager::TransformationManager;
use nemo_metamorphic_testing::transformation_types::TransformationTypes;
use rand::SeedableRng;

fn add_relation(adg: &mut AnnotatedDependencyGraph, name: &str) -> usize {
    let tag = String::from(name);
    adg.add_rel_node(&tag);
    adg.get_rel_node_tag(&tag).expect("just added")
}

fn propagated_positive_pair() -> AnnotatedDependencyGraph {
    // R <-pos- A: every relation ends with positive ancestry.
    let mut adg = AnnotatedDependencyGraph::new();
    let r = add_relation(&mut adg, "R");
    let a = add_relation(&mut adg, "A");
    adg.add_rel_edge(None, Sign::Positive, a, r, 0);
    adg.set_output_rel(&String::from("R"));
    adg.calculate_ancestry_and_inverse_stratum().expect("propagation");
    adg
}

#[test]
fn add_relational_node_grows_predicates_by_one() {
    let mut rng = rand_chacha::ChaCha8Rng::seed_from_u64(11);
    let mut adg = propagated_positive_pair();
    let mut program = Program { statements: Vec::new() };
    let before_nodes = adg.render_self_to_text();
    let node_count = adg.nodes.len();

    let op = AddRelationalNode::new(&adg, &mut rng, TransformationTypes::EQU)
        .expect("always constructible");
    op.apply(&mut program, &mut adg, &mut rng).expect("apply");

    assert_eq!(adg.nodes.len(), node_count + 1);
    assert!(program.statements.is_empty());
    // every prior node kept its tag, stratum and ancestry, and the edges
    // are untouched: only one line for the new node was inserted
    let after = adg.render_self_to_text();
    let before_lines: Vec<&str> = before_nodes.lines().collect();
    let after_lines: Vec<&str> = after.lines().collect();
    assert_eq!(after_lines.len(), before_lines.len() + 1);
    for k in 0..node_count {
        assert_eq!(before_lines[k], after_lines[k]);
    }
    for k in node_count..before_lines.len() {
        assert_eq!(before_lines[k], after_lines[k + 1]);
    }
    // the new node is isolated and unset
    match adg.nodes.last().expect("new node") {
        ADGNode::ADGRelationalNode(rn) => {
            assert!(rn.tag.starts_with("R_"));
            assert_eq!(rn.inverse_stratum, None);
            assert_eq!(rn.ancestry, None);
        },
        ADGNode::ADGFactNode(_) => panic!("expected a relational node"),
    }
    assert_eq!(adg.edges.len(), 1);
}

#[test]
fn contractive_fact_with_no_eligible_target_returns_none() {
    let mut rng = rand_chacha::ChaCha8Rng::seed_from_u64(3);
    let adg = propagated_positive_pair();
    // every node is Positive: a contractive fact has no eligible target
    let op = AddFactNodeAndEdge::new(&adg, &mut rng, TransformationTypes::CON);
    assert!(op.is_none());
}

#[test]
fn equivalent_fact_targets_the_unreachable_relation() {
    let mut rng = rand_chacha::ChaCha8Rng::seed_from_u64(5);
    let mut adg = propagated_positive_pair();
    let lonely = add_relation(&mut adg, "Lonely");
    let mut program = Program { statements: Vec::new() };

    let op = AddFactNodeAndEdge::new(&adg, &mut rng, TransformationTypes::EQU)
        .expect("one unreachable relation is eligible");
    op.apply(&mut program, &mut adg, &mut rng).expect("apply");

    // the program gained exactly one fact for the unreachable relation
    assert_eq!(program.statements.len(), 1);
    match &program.statements[0] {
        Statement::Fact(f) => {
            assert_eq!(f.predicate, String::from("Lonely"));
            assert!(1 <= f.terms.len() && f.terms.len() < 6);
        },
        _ => panic!("expected a fact"),
    }
    // the graph gained a fact node and an edge to the chosen relation,
    // whose ancestry at acceptance time was unset
    match adg.edges.last().expect("new edge") {
        e => {
            assert!(matches!(e.weight, ADGEdge::ADGFactEdge(_)));
            assert_eq!(e.target, lonely);
        },
    }
    match adg.nodes.last().expect("new node") {
        ADGNode::ADGFactNode(f) => {
            assert!(f.name.starts_with("(") && f.name.ends_with(")"));
        },
        ADGNode::ADGRelationalNode(_) => panic!("expected a fact node"),
    }
    // every argument of the staged fact is a constant the registry knows
    match &program.statements[0] {
        Statement::Fact(f) => {
            for t in &f.terms {
                assert!(adg.term_is_known(t));
            }
        },
        _ => panic!("expected a fact"),
    }
}

#[test]
fn staged_fact_takes_the_established_arity() {
    let mut rng = rand_chacha::ChaCha8Rng::seed_from_u64(9);
    let mut adg = AnnotatedDependencyGraph::new();
    add_relation(&mut adg, "Edge");
    let mut program = Program {
        statements: vec![
            Statement::Fact(FactData {
                predicate: String::from("Edge"),
                terms: vec![
                    GroundTerm::StrVal(String::from("a")),
                    GroundTerm::StrVal(String::from("b")),
                    GroundTerm::IntVal(3),
                ],
            }),
        ],
    };
    let op = AddFactNodeAndEdge::new(&adg, &mut rng, TransformationTypes::EQU)
        .expect("unpropagated relation is eligible");
    op.apply(&mut program, &mut adg, &mut rng).expect("apply");
    assert_eq!(program.statements.len(), 2);
    match &program.statements[1] {
        Statement::Fact(f) => assert_eq!(f.terms.len(), 3),
        _ => panic!("expected a fact"),
    }
}

#[test]
fn orchestrator_reports_no_eligible_target_instead_of_crashing() {
    // every relation has positive ancestry, so a round that samples the
    // fact-and-edge kind must report the missing target rather than crash
    let manager = TransformationManager::new(TransformationTypes::CON);
    let mut reported = false;
    for seed in 0..16 {
        let mut rng = rand_chacha::ChaCha8Rng::seed_from_u64(seed);
        let mut adg = propagated_positive_pair();
        let mut program = Program { statements: Vec::new() };
        if let Err(e) = manager.run_round(&mut program, &mut adg, &mut rng) {
            assert_eq!(e, ErrorKind::NoEligibleMutationTarget);
            assert!(program.statements.is_empty());
            assert_eq!(adg.nodes.len(), 2);
            reported = true;
        }
    }
    assert!(reported);
}

#[test]
fn orchestrator_commits_exactly_one_mutation_per_round() {
    let mut rng = rand_chacha::ChaCha8Rng::seed_from_u64(21);
    let mut adg = propagated_positive_pair();
    add_relation(&mut adg, "Spare");
    let mut program = Program { statements: Vec::new() };
    let manager = TransformationManager::new(TransformationTypes::EXP);

    let mut committed: usize = 0;
    for _round in 0..16 {
        let nodes_before = adg.nodes.len();
        let facts_before = program.statements.len();
        match manager.run_round(&mut program, &mut adg, &mut rng) {
            Ok(()) => {
                committed += 1;
                let grew_node = adg.nodes.len() == nodes_before + 1;
                let grew_fact = program.statements.len() == facts_before + 1;
                assert!(grew_node || grew_fact);
            },
            Err(e) => {
                assert_eq!(e, ErrorKind::NoEligibleMutationTarget);
                assert_eq!(adg.nodes.len(), nodes_before);
                assert_eq!(program.statements.len(), facts_before);
            },
        }
    }
    assert!(committed > 0);
}
