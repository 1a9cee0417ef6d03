use ternary_tnn::{count_ops_float, count_ops_ternary};

#[test]
fn ternary_ops_fewer_than_float() {
    let (m, n, k) = (64, 64, 64);
    assert!(count_ops_ternary(m, n, k) < count_ops_float(m, n, k));
    // Specifically: ternary uses exactly half the ops (only additions, no muls)
    assert_eq!(count_ops_float(m, n, k), 2 * count_ops_ternary(m, n, k));
}

#[test]
fn ops_counts_match_readme_example() {
    assert_eq!(count_ops_float(768, 768, 512), 603_979_776);
    assert_eq!(count_ops_ternary(768, 768, 512), 301_989_888);
}

#[test]
fn ops_counts_of_empty_product_are_zero() {
    assert_eq!(count_ops_ternary(0, 5, 7), 0);
    assert_eq!(count_ops_float(3, 0, 7), 0);
    assert_eq!(count_ops_float(3, 5, 0), 0);
}

#[test]
fn ops_counts_exact_small() {
    assert_eq!(count_ops_ternary(2, 3, 4), 24);
    assert_eq!(count_ops_float(2, 3, 4), 48);
}
