use nemo_metamorphic_testing::adg::{ADGEdge, ADGNode, AnnotatedDependencyGraph, Sign};
use nemo_metamorphic_testing::hello_world::TransformationHelloWorld;
use nemo_metamorphic_testing::name_rules::TransformationNameRules;
use nemo_metamorphic_testing::numerals::u64_to_decimal;
use nemo_metamorphic_testing::program::{
    fetch_rule_by_name, AtomData, ExportData, FactData, GroundTerm, ImportData, OutputData,
    Program, RuleData, Statement,
};
use nemo_metamorphic_testing::errors::ErrorKind;
use nemo_metamorphic_testing::select_random_output_predicate::TransformationSelectRandomOutputPredicate;
use rand::SeedableRng;

fn atom(p: &str, arity: usize) -> AtomData {
    AtomData { predicate: String::from(p), arity }
}

fn sample_program() -> Program {
    // fact edge(a, b); rule r: path(X,Y) :- edge(X,Y), not blocked(X);
    // import feed into edge; export path.
    Program {
        statements: vec![
            Statement::Fact(FactData {
                predicate: String::from("edge"),
                terms: vec![
                    GroundTerm::StrVal(String::from("a")),
                    GroundTerm::StrVal(String::from("b")),
                ],
            }),
            Statement::Rule(RuleData {
                name: None,
                id: 7,
                head: vec![atom("path", 2)],
                body_positive: vec![atom("edge", 2)],
                body_negative: vec![atom("blocked", 1)],
            }),
            Statement::Import(ImportData {
                predicate: String::from("edge"),
                source: String::from("edges.csv"),
            }),
            Statement::Export(ExportData { predicate: String::from("path") }),
        ],
    }
}

#[test]
fn all_predicates_come_in_first_mention_order_without_duplicates() {
    let p = sample_program();
    let preds = p.all_predicates();
    assert_eq!(
        preds,
        vec![
            String::from("edge"),
            String::from("path"),
            String::from("blocked"),
        ]
    );
}

#[test]
fn derived_predicates_are_the_rule_heads() {
    let p = sample_program();
    assert_eq!(p.derived_predicates(), vec![String::from("path")]);
}

#[test]
fn arity_comes_from_the_first_fact_or_rule() {
    let p = sample_program();
    assert_eq!(p.arity_of(&String::from("edge")), Some(2));
    assert_eq!(p.arity_of(&String::from("path")), Some(2));
    assert_eq!(p.arity_of(&String::from("blocked")), Some(1));
    assert_eq!(p.arity_of(&String::from("unknown")), None);
}

#[test]
fn fact_ground_terms_collects_fact_arguments_in_order() {
    let p = sample_program();
    let terms = p.fact_ground_terms();
    assert_eq!(
        terms,
        vec![
            GroundTerm::StrVal(String::from("a")),
            GroundTerm::StrVal(String::from("b")),
        ]
    );
}

#[test]
fn graph_builder_lays_out_relations_facts_and_edges() {
    let p = sample_program();
    let adg = AnnotatedDependencyGraph::from_program(&p).expect("build");
    // three relational nodes, then one fact node for the fact and one for
    // the import
    assert_eq!(adg.nodes.len(), 5);
    for k in 0..3 {
        assert!(matches!(adg.nodes[k], ADGNode::ADGRelationalNode(_)));
    }
    match &adg.nodes[3] {
        ADGNode::ADGFactNode(f) => assert_eq!(f.name, String::from("a,\nb,\n")),
        _ => panic!("expected the fact node"),
    }
    match &adg.nodes[4] {
        ADGNode::ADGFactNode(f) => assert_eq!(f.name, String::from("edges.csv")),
        _ => panic!("expected the import node"),
    }
    // one fact edge, one positive and one negative rule edge, one import
    // fact edge
    assert_eq!(adg.edges.len(), 4);
    assert!(matches!(adg.edges[0].weight, ADGEdge::ADGFactEdge(_)));
    match &adg.edges[1].weight {
        ADGEdge::ADGRelationalEdge(re) => {
            assert_eq!(re.sign, Sign::Positive);
            assert_eq!(re.id, 7);
        },
        _ => panic!("expected a dependency edge"),
    }
    match &adg.edges[2].weight {
        ADGEdge::ADGRelationalEdge(re) => assert_eq!(re.sign, Sign::Negative),
        _ => panic!("expected a dependency edge"),
    }
    assert!(matches!(adg.edges[3].weight, ADGEdge::ADGFactEdge(_)));
    // edge(0) -> path(1) for the positive body literal
    assert_eq!(adg.edges[1].source, 0);
    assert_eq!(adg.edges[1].target, 1);
    // the registry starts from the program's ground terms
    assert_eq!(adg.ground_terms.len(), 2);
}

#[test]
fn parallel_edges_are_kept_apart() {
    let rule = Statement::Rule(RuleData {
        name: None,
        id: 1,
        head: vec![atom("q", 1)],
        body_positive: vec![atom("p", 1)],
        body_negative: vec![],
    });
    let rule_again = Statement::Rule(RuleData {
        name: None,
        id: 2,
        head: vec![atom("q", 1)],
        body_positive: vec![atom("p", 1)],
        body_negative: vec![],
    });
    let p = Program { statements: vec![rule, rule_again] };
    let adg = AnnotatedDependencyGraph::from_program(&p).expect("build");
    assert_eq!(adg.edges.len(), 2);
    assert_eq!(adg.edges[0].source, adg.edges[1].source);
    assert_eq!(adg.edges[0].target, adg.edges[1].target);
}

#[test]
fn name_rules_numbers_rules_by_statement_position() {
    let p = sample_program();
    let renamed = TransformationNameRules::new().apply(&p);
    match &renamed.statements[1] {
        Statement::Rule(r) => assert_eq!(r.name, Some(String::from("r_1"))),
        _ => panic!("expected the rule"),
    }
    // everything else kept
    assert_eq!(renamed.statements[0], p.statements[0]);
    assert_eq!(renamed.statements[2], p.statements[2]);
    assert_eq!(renamed.statements[3], p.statements[3]);
}

#[test]
fn fetch_rule_by_name_finds_the_named_rule() {
    let p = TransformationNameRules::new().apply(&sample_program());
    let found = fetch_rule_by_name(String::from("r_1"), &p).expect("rule exists");
    assert_eq!(found.id, 7);
    assert!(fetch_rule_by_name(String::from("r_9"), &p).is_none());
}

#[test]
fn hello_world_keeps_every_statement() {
    let p = sample_program();
    let q = TransformationHelloWorld::new().apply(&p);
    assert_eq!(q.statements, p.statements);
}

#[test]
fn select_output_prefers_existing_directives() {
    let mut rng = rand_chacha::ChaCha8Rng::seed_from_u64(2);
    let p = sample_program();
    let mut adg = AnnotatedDependencyGraph::from_program(&p).expect("build");
    let out = TransformationSelectRandomOutputPredicate::new()
        .apply(&p, &mut adg, &mut rng)
        .expect("one export directive exists");
    // the only directive names `path`
    assert_eq!(adg.output_predicate, Some(String::from("path")));
    // original export dropped, one new export appended
    assert_eq!(out.statements.len(), 4);
    match out.statements.last().expect("export") {
        Statement::Export(e) => assert_eq!(e.predicate, String::from("path")),
        _ => panic!("expected the export"),
    }
}

#[test]
fn select_output_falls_back_to_derived_predicates() {
    let mut rng = rand_chacha::ChaCha8Rng::seed_from_u64(2);
    let p = Program {
        statements: vec![
            Statement::Rule(RuleData {
                name: None,
                id: 1,
                head: vec![atom("q", 1)],
                body_positive: vec![atom("p", 1)],
                body_negative: vec![],
            }),
        ],
    };
    let mut adg = AnnotatedDependencyGraph::from_program(&p).expect("build");
    let out = TransformationSelectRandomOutputPredicate::new()
        .apply(&p, &mut adg, &mut rng)
        .expect("a derived predicate exists");
    assert_eq!(adg.output_predicate, Some(String::from("q")));
    // rule kept, one output per derived predicate, one export
    assert_eq!(out.statements.len(), 3);
    assert!(matches!(out.statements[0], Statement::Rule(_)));
    match &out.statements[1] {
        Statement::Output(o) => assert_eq!(o.predicate, String::from("q")),
        _ => panic!("expected the output directive"),
    }
    assert!(matches!(out.statements[2], Statement::Export(_)));
}

#[test]
fn select_output_without_candidates_reports_no_eligible_target() {
    let mut rng = rand_chacha::ChaCha8Rng::seed_from_u64(2);
    let p = Program {
        statements: vec![
            Statement::Fact(FactData {
                predicate: String::from("edge"),
                terms: vec![GroundTerm::IntVal(1)],
            }),
        ],
    };
    let mut adg = AnnotatedDependencyGraph::from_program(&p).expect("build");
    let r = TransformationSelectRandomOutputPredicate::new().apply(&p, &mut adg, &mut rng);
    assert!(matches!(r, Err(ErrorKind::NoEligibleMutationTarget)));
    assert_eq!(adg.output_predicate, None);
}

#[test]
fn output_statements_carry_no_graph_elements() {
    let p = Program {
        statements: vec![
            Statement::Output(OutputData { predicate: String::from("q") }),
            Statement::Export(ExportData { predicate: String::from("q") }),
        ],
    };
    let adg = AnnotatedDependencyGraph::from_program(&p).expect("build");
    assert_eq!(adg.nodes.len(), 1);
    assert_eq!(adg.edges.len(), 0);
}

#[test]
fn decimal_rendering_is_exact() {
    assert_eq!(u64_to_decimal(0), String::from("0"));
    assert_eq!(u64_to_decimal(42), String::from("42"));
    assert_eq!(u64_to_decimal(4294967295), String::from("4294967295"));
    assert_eq!(u64_to_decimal(10), String::from("10"));
}
