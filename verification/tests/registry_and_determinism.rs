use nemo_metamorphic_testing::adg::{AnnotatedDependencyGraph, Sign};
use nemo_metamorphic_testing::program::{
    AtomData, ExportData, FactData, GroundTerm, Program, RuleData, Statement,
};
use nemo_metamorphic_testing::select_random_output_predicate::TransformationSelectRandomOutputPredicate;
use nemo_metamorphic_testing::transformation_manager::TransformationManager;
use nemo_metamorphic_testing::transformation_types::TransformationTypes;
use rand::SeedableRng;

#[test]
fn fresh_string_constants_are_distinct_and_registered() {
    let mut rng = rand_chacha::ChaCha8Rng::seed_from_u64(1);
    let mut adg = AnnotatedDependencyGraph::new();
    let a = adg.get_and_register_new_string_constant(&mut rng).expect("fresh");
    let b = adg.get_and_register_new_string_constant(&mut rng).expect("fresh");
    assert!(!a.same_value(&b));
    assert_eq!(adg.ground_terms.len(), 2);
    assert!(adg.term_is_known(&a));
    assert!(adg.term_is_known(&b));
    match a {
        GroundTerm::StrVal(s) => {
            assert!(s.starts_with("c_"));
            assert!(s.len() > 2);
            assert!(s[2..].chars().all(|c| c.is_ascii_digit()));
        },
        GroundTerm::IntVal(_) => panic!("expected a string constant"),
    }
}

#[test]
fn fresh_integer_constants_avoid_known_values() {
    let mut rng = rand_chacha::ChaCha8Rng::seed_from_u64(1);
    let mut adg = AnnotatedDependencyGraph::new();
    let a = adg.get_and_register_new_integer_constant(&mut rng).expect("fresh");
    let b = adg.get_and_register_new_integer_constant(&mut rng).expect("fresh");
    assert!(!a.same_value(&b));
    assert!(matches!(a, GroundTerm::IntVal(_)));
}

#[test]
fn fresh_relation_names_avoid_existing_tags() {
    let mut rng = rand_chacha::ChaCha8Rng::seed_from_u64(1);
    let mut adg = AnnotatedDependencyGraph::new();
    let tag = String::from("R");
    adg.add_rel_node(&tag);
    let name = adg.get_new_relation_name(&mut rng).expect("fresh");
    assert_ne!(name, tag);
    assert!(name.starts_with("R_"));
    assert!(name[2..].chars().all(|c| c.is_ascii_digit()));
    // the name is not registered by the generator itself
    assert!(adg.get_rel_node_tag(&name).is_err());
}

fn seed_program() -> Program {
    Program {
        statements: vec![
            Statement::Fact(FactData {
                predicate: String::from("edge"),
                terms: vec![
                    GroundTerm::StrVal(String::from("a")),
                    GroundTerm::StrVal(String::from("b")),
                ],
            }),
            Statement::Rule(RuleData {
                name: Some(String::from("r_1")),
                id: 4,
                head: vec![AtomData { predicate: String::from("path"), arity: 2 }],
                body_positive: vec![AtomData { predicate: String::from("edge"), arity: 2 }],
                body_negative: vec![AtomData { predicate: String::from("blocked"), arity: 1 }],
            }),
            Statement::Export(ExportData { predicate: String::from("path") }),
        ],
    }
}

fn one_run(seed: u64, rounds: usize) -> (String, Program) {
    let mut rng = rand_chacha::ChaCha8Rng::seed_from_u64(seed);
    let mut program = seed_program();
    let mut adg = AnnotatedDependencyGraph::from_program(&program).expect("build");
    program = TransformationSelectRandomOutputPredicate::new()
        .apply(&program, &mut adg, &mut rng)
        .expect("an export directive exists");
    adg.calculate_ancestry_and_inverse_stratum().expect("propagation");
    let manager = TransformationManager::new(TransformationTypes::CON);
    for _ in 0..rounds {
        // a round without an eligible target is reported, not committed
        let _ = manager.run_round(&mut program, &mut adg, &mut rng);
    }
    (adg.render_self_to_text(), program)
}

#[test]
fn fixed_seed_runs_are_byte_identical() {
    let (art1, prog1) = one_run(42, 12);
    let (art2, prog2) = one_run(42, 12);
    assert_eq!(art1, art2);
    assert_eq!(prog1.statements, prog2.statements);
}

#[test]
fn different_seeds_usually_diverge() {
    let (art1, _) = one_run(42, 12);
    let (art2, _) = one_run(43, 12);
    assert_ne!(art1, art2);
}

#[test]
fn graph_snapshot_text_lists_nodes_and_edges() {
    let mut adg = AnnotatedDependencyGraph::new();
    let tag_r = String::from("R");
    let tag_a = String::from("A");
    adg.add_rel_node(&tag_r);
    adg.add_rel_node(&tag_a);
    adg.add_rel_edge(Some(String::from("r_0")), Sign::Negative, 1, 0, 9);
    let text = adg.render_self_to_text();
    assert_eq!(
        text,
        "node 0: (R, None, None)\nnode 1: (A, None, None)\nedge 0: 1 -> 0 (r_0, -)\n"
    );
}
