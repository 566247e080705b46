use nemo_metamorphic_testing::adg::{AnnotatedDependencyGraph, Direction, Sign};
use nemo_metamorphic_testing::errors::ErrorKind;
use nemo_metamorphic_testing::program::{AtomData, Program, RuleData, Statement};
use nemo_metamorphic_testing::testing_transformation::OverviewTransformation;
use rand::SeedableRng;

fn ruled_program() -> Program {
    Program {
        statements: vec![
            Statement::Rule(RuleData {
                name: Some(String::from("r_0")),
                id: 0,
                head: vec![AtomData { predicate: String::from("q"), arity: 1 }],
                body_positive: vec![AtomData { predicate: String::from("p"), arity: 1 }],
                body_negative: vec![],
            }),
        ],
    }
}

#[test]
fn node_edges_filter_by_direction() {
    let p = ruled_program();
    let adg = AnnotatedDependencyGraph::from_program(&p).expect("build");
    let q = String::from("q");
    let pp = String::from("p");
    let incoming = adg.get_node_edges(&q, Direction::Incoming).expect("q exists");
    assert_eq!(incoming, vec![0]);
    let outgoing = adg.get_node_edges(&q, Direction::Outgoing).expect("q exists");
    assert!(outgoing.is_empty());
    let from_p = adg.get_node_edges(&pp, Direction::Outgoing).expect("p exists");
    assert_eq!(from_p, vec![0]);
    let missing = String::from("missing");
    assert!(matches!(
        adg.get_node_edges(&missing, Direction::Incoming),
        Err(ErrorKind::PredicateNotFound)
    ));
}

#[test]
fn overview_requires_a_propagated_graph() {
    let mut rng = rand_chacha::ChaCha8Rng::seed_from_u64(8);
    let p = ruled_program();
    let adg = AnnotatedDependencyGraph::from_program(&p).expect("build");
    let r = OverviewTransformation::new().apply(&p, &adg, &mut rng);
    assert!(matches!(r, Err(ErrorKind::GraphInvariantViolation)));
}

#[test]
fn overview_collects_cited_rule_names() {
    let mut rng = rand_chacha::ChaCha8Rng::seed_from_u64(8);
    let p = ruled_program();
    let mut adg = AnnotatedDependencyGraph::from_program(&p).expect("build");
    adg.set_output_rel(&String::from("q"));
    adg.calculate_ancestry_and_inverse_stratum().expect("propagation");
    // whichever predicate the walk picks, every name it returns cites a
    // rule of the program
    let names = OverviewTransformation::new().apply(&p, &adg, &mut rng).expect("propagated");
    for n in &names {
        assert_eq!(n, &String::from("r_0"));
    }
    // the edge p -> q is the only dependency edge, so walking from p finds
    // the rule
    let mut rng2 = rand_chacha::ChaCha8Rng::seed_from_u64(8);
    let mut any_found = false;
    for _ in 0..8 {
        let names = OverviewTransformation::new().apply(&p, &adg, &mut rng2).expect("propagated");
        if !names.is_empty() {
            any_found = true;
        }
    }
    assert!(any_found);
}

#[test]
fn sign_values_compare_structurally() {
    assert_eq!(Sign::Positive, Sign::Positive);
    assert_ne!(Sign::Positive, Sign::Negative);
}
