use grn_simulator::combinatorics::{binomial, binomial_checked};

#[test]
fn binomial_of_zero_is_one() {
    assert_eq!(binomial(0, 0), 1);
    assert_eq!(binomial(1, 0), 1);
    assert_eq!(binomial(7, 0), 1);
    assert_eq!(binomial(1000, 0), 1);
}

#[test]
fn binomial_of_one_is_n() {
    assert_eq!(binomial(0, 1), 0);
    assert_eq!(binomial(1, 1), 1);
    assert_eq!(binomial(7, 1), 7);
    assert_eq!(binomial(1000, 1), 1000);
}

#[test]
fn binomial_above_n_is_zero() {
    assert_eq!(binomial(2, 3), 0);
    assert_eq!(binomial(0, 5), 0);
    assert_eq!(binomial(10, 11), 0);
}

#[test]
fn binomial_five_choose_two_is_ten() {
    assert_eq!(binomial(5, 2), 10);
}

#[test]
fn binomial_small_values() {
    assert_eq!(binomial(4, 2), 6);
    assert_eq!(binomial(6, 3), 20);
    assert_eq!(binomial(10, 7), 120);
    assert_eq!(binomial(10, 10), 1);
    assert_eq!(binomial(52, 5), 2_598_960);
}

#[test]
fn binomial_matches_product_formula() {
    // C(60, 30) computed independently by the exact product formula.
    let mut acc: u128 = 1;
    for i in 1..=30u128 {
        acc = acc * (30 + i) / i;
    }
    assert_eq!(binomial_checked(60, 30), Some(acc as u64));
}

#[test]
fn binomial_checked_reports_overflow() {
    // C(100, 50) is far beyond the u64 range.
    assert_eq!(binomial_checked(100, 50), None);
    // C(62, 28) still fits.
    assert!(binomial_checked(62, 28).is_some());
}
