use dvv::{Dot, VersionVector};

fn vector(counters: &[(&str, i64)]) -> VersionVector {
    let mut v = VersionVector::new();
    for (replica, n) in counters {
        for _ in 0..*n {
            v = v.inc(replica);
        }
    }
    v
}

#[test]
fn merge_of_crossed_vectors_takes_the_larger_counters() {
    let v1 = VersionVector::new().inc("A").inc("A").inc("B");
    assert_eq!(v1.get("A"), Some(2));
    assert_eq!(v1.get("B"), Some(1));
    let v2 = VersionVector::new().inc("B").inc("B").inc("A");
    assert_eq!(v2.get("B"), Some(2));
    assert_eq!(v2.get("A"), Some(1));

    let merged = v1.merge(&v2);
    assert_eq!(merged.get("A"), Some(2));
    assert_eq!(merged.get("B"), Some(2));
    assert_eq!(merged.get("C"), None);
    assert!(v1.concurrent(&v2));
    assert!(v2.concurrent(&v1));
}

#[test]
fn larger_vector_descends_the_smaller() {
    let v1 = VersionVector::new()
        .inc("A")
        .inc("A")
        .inc("B")
        .inc("B")
        .inc("B")
        .inc("C")
        .inc("C");
    let v2 = vector(&[("A", 3), ("B", 4), ("C", 2)]);
    assert_eq!(v1.get("A"), Some(2));
    assert_eq!(v1.get("B"), Some(3));
    assert_eq!(v1.get("C"), Some(2));
    assert_eq!(v2.get("A"), Some(3));
    assert_eq!(v2.get("B"), Some(4));
    assert_eq!(v2.get("C"), Some(2));

    assert!(!v1.descends(&v2));
    assert!(v2.descends(&v1));
    assert!(!v1.concurrent(&v2));
}

#[test]
fn dot_ahead_of_and_behind_a_vector() {
    let v = VersionVector::new().inc("A").inc("A").inc("B");

    let dot = Dot("A".to_string(), 3);
    assert!(dot.descends_vv(&v));
    assert!(!v.descends_dot(&dot));

    let dot = Dot("A".to_string(), 1);
    assert!(!dot.descends_vv(&v));
    assert!(v.descends_dot(&dot));
}

#[test]
fn dot_level_with_a_vector_descends_both_ways() {
    let v = VersionVector::new().inc("A").inc("A").inc("B");
    let dot = Dot("A".to_string(), 2);
    assert!(dot.descends_vv(&v));
    assert!(v.descends_dot(&dot));
}

#[test]
fn new_vector_is_empty() {
    let v = VersionVector::new();
    assert_eq!(v.get("A"), None);
    assert_eq!(v.get(""), None);
    assert_eq!(v.get_dot("A").1, 0);
}

#[test]
fn default_vector_is_empty() {
    let v = VersionVector::default();
    assert_eq!(v.get("A"), None);
    assert!(v.descends(&VersionVector::new()));
    assert!(VersionVector::new().descends(&v));
}

#[test]
fn first_increment_records_one() {
    let v = VersionVector::new().inc("node-1");
    assert_eq!(v.get("node-1"), Some(1));
    assert_eq!(v.get("node-2"), None);
}

#[test]
fn increment_changes_one_counter_only() {
    let v = vector(&[("A", 2), ("B", 5)]).inc("A");
    assert_eq!(v.get("A"), Some(3));
    assert_eq!(v.get("B"), Some(5));
    assert_eq!(v.get("C"), None);
}

#[test]
fn empty_string_names_a_replica() {
    let v = VersionVector::new().inc("").inc("").inc("A");
    assert_eq!(v.get(""), Some(2));
    assert_eq!(v.get("A"), Some(1));
    let dot = v.get_dot("");
    assert_eq!(dot.0, "");
    assert_eq!(dot.1, 2);
    assert!(v.descends_dot(&dot));
}

#[test]
fn replica_names_are_compared_exactly() {
    let v = VersionVector::new().inc("a").inc("A").inc("A ");
    assert_eq!(v.get("a"), Some(1));
    assert_eq!(v.get("A"), Some(1));
    assert_eq!(v.get("A "), Some(1));
    assert_eq!(v.get(" A"), None);
}

#[test]
fn get_dot_of_unknown_replica_is_zero() {
    let v = VersionVector::new().inc("A");
    let dot = v.get_dot("Z");
    assert_eq!(dot.0, "Z");
    assert_eq!(dot.1, 0);
    assert_eq!(v.get("Z"), None);
}

#[test]
fn get_dot_reads_the_current_counter() {
    let v = vector(&[("A", 4), ("B", 1)]);
    let dot = v.get_dot("A");
    assert_eq!(dot.0, "A");
    assert_eq!(dot.1, 4);
    let dot = v.get_dot("B");
    assert_eq!(dot.0, "B");
    assert_eq!(dot.1, 1);
}

#[test]
fn dot_is_a_snapshot() {
    let v = VersionVector::new().inc("A");
    let dot = v.get_dot("A");
    let v = v.inc("A").inc("A");
    assert_eq!(dot.1, 1);
    assert_eq!(v.get("A"), Some(3));
    assert!(v.descends_dot(&dot));
    assert!(!dot.descends_vv(&v));
}

#[test]
fn descends_counts_replicas_known_to_the_other_side_only() {
    let v = vector(&[("A", 5)]);
    let w = vector(&[("A", 1), ("B", 1)]);
    assert!(!v.descends(&w));
    assert!(!w.descends(&v));
    assert!(v.concurrent(&w));
}

#[test]
fn every_vector_descends_the_empty_one() {
    let empty = VersionVector::new();
    let v = vector(&[("A", 1)]);
    assert!(v.descends(&empty));
    assert!(!empty.descends(&v));
    assert!(empty.descends(&empty));
    assert!(!empty.concurrent(&v));
    assert!(!empty.concurrent(&empty));
}

#[test]
fn descends_dot_of_unknown_replica() {
    let v = vector(&[("A", 2)]);
    assert!(v.descends_dot(&Dot("B".to_string(), 0)));
    assert!(!v.descends_dot(&Dot("B".to_string(), 1)));
    assert!(Dot("B".to_string(), 0).descends_vv(&v));
    assert!(Dot("B".to_string(), 1).descends_vv(&v));
}

#[test]
fn dot_descends_dot_of_same_replica() {
    let d2 = Dot("A".to_string(), 2);
    let d1 = Dot("A".to_string(), 1);
    assert!(d2.descends(&d1));
    assert!(!d1.descends(&d2));
    assert!(d2.descends(&d2));
}

#[test]
fn dots_of_different_replicas_never_descend() {
    let a = Dot("A".to_string(), 5);
    let b = Dot("B".to_string(), 1);
    assert!(!a.descends(&b));
    assert!(!b.descends(&a));
    let a0 = Dot("A".to_string(), 0);
    let b0 = Dot("B".to_string(), 0);
    assert!(!a0.descends(&b0));
    assert!(!b0.descends(&a0));
}

#[test]
fn zero_dot_is_below_every_dot_of_its_replica() {
    let zero = Dot("A".to_string(), 0);
    let one = Dot("A".to_string(), 1);
    assert!(one.descends(&zero));
    assert!(!zero.descends(&one));
    assert!(zero.descends(&zero));
}

#[test]
fn merge_with_empty_keeps_the_vector() {
    let v = vector(&[("A", 2), ("B", 1)]);
    let empty = VersionVector::new();
    let left = v.merge(&empty);
    let right = empty.merge(&v);
    assert_eq!(left.get("A"), Some(2));
    assert_eq!(left.get("B"), Some(1));
    assert_eq!(right.get("A"), Some(2));
    assert_eq!(right.get("B"), Some(1));
    assert_eq!(empty.merge(&empty).get("A"), None);
}

#[test]
fn merge_of_disjoint_vectors_holds_both() {
    let v = vector(&[("A", 2)]);
    let w = vector(&[("B", 3)]);
    let m = v.merge(&w);
    assert_eq!(m.get("A"), Some(2));
    assert_eq!(m.get("B"), Some(3));
    assert_eq!(m.get("C"), None);
}

#[test]
fn merge_leaves_its_arguments_alone() {
    let v = vector(&[("A", 2)]);
    let w = vector(&[("A", 1), ("B", 3)]);
    let _ = v.merge(&w);
    assert_eq!(v.get("A"), Some(2));
    assert_eq!(v.get("B"), None);
    assert_eq!(w.get("A"), Some(1));
    assert_eq!(w.get("B"), Some(3));
}

#[test]
fn clone_has_the_same_counters() {
    let v = vector(&[("A", 2), ("B", 1)]);
    let copy = v.clone();
    assert_eq!(copy.get("A"), Some(2));
    assert_eq!(copy.get("B"), Some(1));
    assert!(copy.descends(&v));
    assert!(v.descends(&copy));
    let later = copy.inc("A");
    assert_eq!(later.get("A"), Some(3));
    assert_eq!(v.get("A"), Some(2));
}

#[test]
fn clone_of_a_dot_is_the_same_dot() {
    let dot = Dot("A".to_string(), 7);
    let copy = dot.clone();
    assert_eq!(copy.0, "A");
    assert_eq!(copy.1, 7);
    assert!(copy.descends(&dot));
    assert!(dot.descends(&copy));
}

#[test]
fn order_of_increments_does_not_matter() {
    let v = VersionVector::new().inc("A").inc("B").inc("A").inc("C");
    let w = VersionVector::new().inc("C").inc("A").inc("A").inc("B");
    assert!(v.descends(&w));
    assert!(w.descends(&v));
    assert!(!v.concurrent(&w));
    assert_eq!(v.get("A"), w.get("A"));
    assert_eq!(v.get("B"), w.get("B"));
    assert_eq!(v.get("C"), w.get("C"));
}

#[test]
fn debug_output_shows_the_counters() {
    let v = VersionVector::new().inc("A");
    let text = format!("{:?}", v);
    assert!(text.contains("\"A\""));
    assert!(text.contains('1'));
    let dot = format!("{:?}", Dot("B".to_string(), 4));
    assert!(dot.contains("\"B\""));
    assert!(dot.contains('4'));
}
