use grn_simulator::decimal::{counts_to_csv, u64_to_decimal};

#[test]
fn decimal_of_small_numbers() {
    assert_eq!(u64_to_decimal(0).as_str(), "0");
    assert_eq!(u64_to_decimal(7).as_str(), "7");
    assert_eq!(u64_to_decimal(10).as_str(), "10");
    assert_eq!(u64_to_decimal(42).as_str(), "42");
}

#[test]
fn decimal_of_large_numbers() {
    assert_eq!(u64_to_decimal(1_234_567_890).as_str(), "1234567890");
    assert_eq!(u64_to_decimal(1_000_000).as_str(), "1000000");
    assert_eq!(u64_to_decimal(u64::MAX).as_str(), "18446744073709551615");
}

#[test]
fn csv_of_count_vectors() {
    assert_eq!(counts_to_csv(&vec![]).as_str(), "");
    assert_eq!(counts_to_csv(&vec![5]).as_str(), "5");
    assert_eq!(counts_to_csv(&vec![0, 1, 1000]).as_str(), "0,1,1000");
    assert_eq!(counts_to_csv(&vec![10, 0, 10]).as_str(), "10,0,10");
}
