use dvv::{Dot, VersionVector};

#[test]
fn test_vv_new() {
    let mut vv = VersionVector::new();
    vv = vv.inc("A").inc("B");

    assert_eq!(vv.get("A").unwrap(), 1_i64);
    assert_eq!(vv.get("B").unwrap(), 1_i64);

    vv = vv.inc("A").inc("C");

    assert_eq!(vv.get("A").unwrap(), 2_i64);
    assert_eq!(vv.get("C").unwrap(), 1_i64);
}

#[test]
fn test_vv_merge() {
    // [2, 1]
    let v1 = VersionVector::new().inc("A").inc("A").inc("B");
    // [1, 2]
    let v2 = VersionVector::new().inc("B").inc("B").inc("A");

    let v3 = v1.merge(&v2);

    // [2, 2]
    assert_eq!(v3.get("A").unwrap(), 2_i64);
    assert_eq!(v3.get("B").unwrap(), 2_i64);
}

#[test]
fn test_vv_descends() {
    // The first descends the second.
    // [2, 3, 2]
    let v1 = VersionVector::new()
        .inc("A")
        .inc("A")
        .inc("B")
        .inc("B")
        .inc("B")
        .inc("C")
        .inc("C");

    // [1, 2, 1]
    let v2 = VersionVector::new().inc("A").inc("B").inc("B").inc("C");

    assert!(v1.descends(&v2));
    assert!(!v2.descends(&v1));

    // Concurrent.
    // [2, 3, 2]
    let v1 = VersionVector::new()
        .inc("A")
        .inc("A")
        .inc("B")
        .inc("B")
        .inc("B")
        .inc("C")
        .inc("C");

    // [1, 4, 1]
    let v2 = VersionVector::new()
        .inc("A")
        .inc("B")
        .inc("B")
        .inc("B")
        .inc("B")
        .inc("C");

    assert!(!v1.descends(&v2));
    assert!(!v2.descends(&v1));
}

#[test]
fn test_vv_concurrent() {
    // Not concurrent.
    // [2, 3, 2]
    let v1 = VersionVector::new()
        .inc("A")
        .inc("A")
        .inc("B")
        .inc("B")
        .inc("B")
        .inc("C")
        .inc("C");

    // [1, 2, 1]
    let v2 = VersionVector::new().inc("A").inc("B").inc("B").inc("C");

    assert!(!v1.concurrent(&v2));
    assert!(!v2.concurrent(&v1));

    // Concurrent.
    // [2, 3, 2]
    let v1 = VersionVector::new()
        .inc("A")
        .inc("A")
        .inc("B")
        .inc("B")
        .inc("B")
        .inc("C")
        .inc("C");

    // [1, 4, 1]
    let v2 = VersionVector::new()
        .inc("A")
        .inc("B")
        .inc("B")
        .inc("B")
        .inc("B")
        .inc("C");
    assert!(v1.concurrent(&v2));
    assert!(v2.concurrent(&v1));
}

#[test]
fn test_get_dot() {
    let v = VersionVector::new().inc("A").inc("B");
    let dot = v.get_dot("A");

    assert_eq!("A", dot.0);
    assert_eq!(1, dot.1);
}

#[test]
fn test_descends_dot() {
    let v = VersionVector::new().inc("A").inc("A").inc("B");

    let dot = Dot("A".to_string(), 3);

    assert!(dot.descends_vv(&v));
    assert!(!v.descends_dot(&dot));

    let v = VersionVector::new().inc("A").inc("A").inc("B");

    let dot = Dot("A".to_string(), 1);
    assert!(!dot.descends_vv(&v));
    assert!(v.descends_dot(&dot));
}
