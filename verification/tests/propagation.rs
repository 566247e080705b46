use nemo_metamorphic_testing::adg::{ADGRelationalNode, AnnotatedDependencyGraph, Sign};
use nemo_metamorphic_testing::ancestry::Ancestry;
use nemo_metamorphic_testing::errors::ErrorKind;

fn rel(adg: &AnnotatedDependencyGraph, name: &str) -> ADGRelationalNode {
    let tag = String::from(name);
    let node = adg.get_rel_node(&tag).expect("relation should exist");
    ADGRelationalNode {
        tag: node.tag.clone(),
        inverse_stratum: node.inverse_stratum,
        ancestry: node.ancestry,
    }
}

fn add_relation(adg: &mut AnnotatedDependencyGraph, name: &str) -> usize {
    let tag = String::from(name);
    adg.add_rel_node(&tag);
    adg.get_rel_node_tag(&tag).expect("just added")
}

#[test]
fn scenario_two_positive_one_negative_parent() {
    let mut adg = AnnotatedDependencyGraph::new();
    let r = add_relation(&mut adg, "R");
    let a = add_relation(&mut adg, "A");
    let b = add_relation(&mut adg, "B");
    let c = add_relation(&mut adg, "C");
    adg.add_rel_edge(Some(String::from("r_0")), Sign::Positive, a, r, 0);
    adg.add_rel_edge(Some(String::from("r_1")), Sign::Positive, b, r, 1);
    adg.add_rel_edge(Some(String::from("r_2")), Sign::Negative, c, r, 2);
    adg.set_output_rel(&String::from("R"));
    adg.calculate_ancestry_and_inverse_stratum().expect("propagation should succeed");

    let rn = rel(&adg, "R");
    assert_eq!(rn.inverse_stratum, Some(0));
    assert_eq!(rn.ancestry, Some(Ancestry::Positive));
    let an = rel(&adg, "A");
    assert_eq!(an.inverse_stratum, Some(0));
    assert_eq!(an.ancestry, Some(Ancestry::Positive));
    let bn = rel(&adg, "B");
    assert_eq!(bn.inverse_stratum, Some(0));
    assert_eq!(bn.ancestry, Some(Ancestry::Positive));
    let cn = rel(&adg, "C");
    assert_eq!(cn.inverse_stratum, Some(1));
    assert_eq!(cn.ancestry, Some(Ancestry::Negative));
}

#[test]
fn parities_along_a_negative_chain() {
    // D -neg-> E -neg-> R, with U unreachable from R.
    let mut adg = AnnotatedDependencyGraph::new();
    let r = add_relation(&mut adg, "R");
    let e = add_relation(&mut adg, "E");
    let d = add_relation(&mut adg, "D");
    let _u = add_relation(&mut adg, "U");
    adg.add_rel_edge(None, Sign::Negative, e, r, 0);
    adg.add_rel_edge(None, Sign::Negative, d, e, 1);
    adg.set_output_rel(&String::from("R"));
    adg.calculate_ancestry_and_inverse_stratum().expect("propagation should succeed");

    assert_eq!(rel(&adg, "R").ancestry, Some(Ancestry::Positive));
    assert_eq!(rel(&adg, "E").ancestry, Some(Ancestry::Negative));
    assert_eq!(rel(&adg, "E").inverse_stratum, Some(1));
    assert_eq!(rel(&adg, "D").ancestry, Some(Ancestry::Positive));
    assert_eq!(rel(&adg, "D").inverse_stratum, Some(2));
    assert_eq!(rel(&adg, "U").ancestry, None);
    assert_eq!(rel(&adg, "U").inverse_stratum, None);

    // the unreachable relation is the one eligible target of a
    // semantics-preserving mutation
    let none_list = adg.get_none_ancestry_relational_nodes();
    assert_eq!(none_list.len(), 1);
    assert_eq!(none_list[0], String::from("U"));
}

#[test]
fn mixed_parity_gives_unknown() {
    // A reaches R both directly (positive) and through a negative edge.
    let mut adg = AnnotatedDependencyGraph::new();
    let r = add_relation(&mut adg, "R");
    let a = add_relation(&mut adg, "A");
    let m = add_relation(&mut adg, "M");
    adg.add_rel_edge(None, Sign::Positive, a, r, 0);
    adg.add_rel_edge(None, Sign::Negative, m, r, 1);
    adg.add_rel_edge(None, Sign::Positive, a, m, 2);
    adg.set_output_rel(&String::from("R"));
    adg.calculate_ancestry_and_inverse_stratum().expect("propagation should succeed");

    assert_eq!(rel(&adg, "A").ancestry, Some(Ancestry::Unknown));
    assert_eq!(rel(&adg, "M").ancestry, Some(Ancestry::Negative));
}

#[test]
fn propagation_twice_yields_identical_assignments() {
    let mut adg = AnnotatedDependencyGraph::new();
    let r = add_relation(&mut adg, "R");
    let a = add_relation(&mut adg, "A");
    let c = add_relation(&mut adg, "C");
    adg.add_rel_edge(None, Sign::Positive, a, r, 0);
    adg.add_rel_edge(None, Sign::Negative, c, r, 1);
    adg.set_output_rel(&String::from("R"));
    adg.calculate_ancestry_and_inverse_stratum().expect("first run");
    let snapshot_one = adg.render_self_to_text();
    adg.calculate_ancestry_and_inverse_stratum().expect("second run");
    let snapshot_two = adg.render_self_to_text();
    assert_eq!(snapshot_one, snapshot_two);
}

#[test]
fn propagation_without_output_is_a_typed_error() {
    let mut adg = AnnotatedDependencyGraph::new();
    add_relation(&mut adg, "R");
    assert_eq!(
        adg.calculate_ancestry_and_inverse_stratum(),
        Err(ErrorKind::GraphInvariantViolation)
    );
}

#[test]
fn propagation_with_unknown_output_reports_predicate_not_found() {
    let mut adg = AnnotatedDependencyGraph::new();
    add_relation(&mut adg, "R");
    adg.set_output_rel(&String::from("missing"));
    assert_eq!(
        adg.calculate_ancestry_and_inverse_stratum(),
        Err(ErrorKind::PredicateNotFound)
    );
}

#[test]
fn unknown_relation_lookup_reports_predicate_not_found() {
    let adg = AnnotatedDependencyGraph::new();
    let tag = String::from("nowhere");
    assert!(matches!(adg.get_rel_node(&tag), Err(ErrorKind::PredicateNotFound)));
}

#[test]
fn merging_unknown_onto_concrete_ancestry_is_a_violation() {
    let mut node = ADGRelationalNode {
        tag: String::from("R"),
        inverse_stratum: Some(0),
        ancestry: Some(Ancestry::Positive),
    };
    assert_eq!(node.merge(Ancestry::Unknown), Err(ErrorKind::GraphInvariantViolation));
    assert_eq!(node.ancestry, Some(Ancestry::Positive));
    assert_eq!(node.merge(Ancestry::Negative), Ok(()));
    assert_eq!(node.ancestry, Some(Ancestry::Unknown));
}

#[test]
fn ancestry_lists_partition_by_class_bound() {
    let mut adg = AnnotatedDependencyGraph::new();
    let r = add_relation(&mut adg, "R");
    let p = add_relation(&mut adg, "P");
    let n = add_relation(&mut adg, "N");
    let _u = add_relation(&mut adg, "U");
    adg.add_rel_edge(None, Sign::Positive, p, r, 0);
    adg.add_rel_edge(None, Sign::Negative, n, r, 1);
    adg.set_output_rel(&String::from("R"));
    adg.calculate_ancestry_and_inverse_stratum().expect("propagation should succeed");

    let leq_pos = adg.get_leq_positive_ancestry_relational_nodes();
    assert_eq!(leq_pos, vec![String::from("R"), String::from("P"), String::from("U")]);
    let leq_neg = adg.get_leq_negative_ancestry_relational_nodes();
    assert_eq!(leq_neg, vec![String::from("N"), String::from("U")]);
    let pos = adg.get_positive_ancestry_relational_nodes();
    assert_eq!(pos, vec![String::from("R"), String::from("P")]);
    let neg = adg.get_negative_ancestry_relational_nodes();
    assert_eq!(neg, vec![String::from("N")]);
}
