use nemo_metamorphic_testing::ancestry::Ancestry;

fn all_values() -> [Ancestry; 4] {
    [Ancestry::Positive, Ancestry::Negative, Ancestry::Unknown, Ancestry::Neither]
}

#[test]
fn merge_is_commutative_for_all_pairs() {
    for a in all_values() {
        for b in all_values() {
            assert_eq!(a.merge(b), b.merge(a));
        }
    }
}

#[test]
fn merge_is_associative_for_all_triples() {
    for a in all_values() {
        for b in all_values() {
            for c in all_values() {
                assert_eq!(a.merge(b).merge(c), a.merge(b.merge(c)));
            }
        }
    }
}

#[test]
fn merge_is_idempotent_for_all_values() {
    for a in all_values() {
        assert_eq!(a.merge(a), a);
    }
}

#[test]
fn merge_lattice_table() {
    assert_eq!(Ancestry::Neither.merge(Ancestry::Positive), Ancestry::Positive);
    assert_eq!(Ancestry::Neither.merge(Ancestry::Negative), Ancestry::Negative);
    assert_eq!(Ancestry::Positive.merge(Ancestry::Negative), Ancestry::Unknown);
    assert_eq!(Ancestry::Unknown.merge(Ancestry::Positive), Ancestry::Unknown);
    assert_eq!(Ancestry::Unknown.merge(Ancestry::Neither), Ancestry::Unknown);
}

#[test]
fn inverse_swaps_signs_only() {
    assert_eq!(Ancestry::Positive.inverse(), Ancestry::Negative);
    assert_eq!(Ancestry::Negative.inverse(), Ancestry::Positive);
    assert_eq!(Ancestry::Unknown.inverse(), Ancestry::Unknown);
    assert_eq!(Ancestry::Neither.inverse(), Ancestry::Neither);
}

#[test]
fn is_some_is_false_only_for_neither() {
    assert!(Ancestry::Positive.is_some());
    assert!(Ancestry::Negative.is_some());
    assert!(Ancestry::Unknown.is_some());
    assert!(!Ancestry::Neither.is_some());
}

#[test]
fn lattice_order_matches_merge() {
    for a in all_values() {
        assert!(Ancestry::Neither.le(a));
        assert!(a.le(Ancestry::Unknown));
        assert!(a.le(a));
    }
    assert!(!Ancestry::Positive.le(Ancestry::Negative));
    assert!(!Ancestry::Negative.le(Ancestry::Positive));
    assert!(!Ancestry::Unknown.le(Ancestry::Positive));
}
