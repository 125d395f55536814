use arbitrary_precision_integer::magnitude::{
    add_magnitudes, add_with_carry, compare_magnitudes, equal_limbs, sub_magnitudes,
    sub_with_borrow, trim, MagnitudeOrder,
};

const MAX: u64 = u64::MAX;

#[test]
fn add_with_carry_without_overflow() {
    assert_eq!(add_with_carry(2, 3, false), (5, false));
    assert_eq!(add_with_carry(2, 3, true), (6, false));
    assert_eq!(add_with_carry(MAX - 1, 1, false), (MAX, false));
    assert_eq!(add_with_carry(MAX - 1, 0, true), (MAX, false));
}

#[test]
fn add_with_carry_wraps_and_reports_the_carry() {
    assert_eq!(add_with_carry(MAX, 1, false), (0, true));
    assert_eq!(add_with_carry(MAX, 0, true), (0, true));
    assert_eq!(add_with_carry(MAX - 3, 42, false), (38, true));
    assert_eq!(add_with_carry(MAX, MAX, false), (MAX - 1, true));
    assert_eq!(add_with_carry(MAX, MAX, true), (MAX, true));
}

#[test]
fn sub_with_borrow_without_underflow() {
    assert_eq!(sub_with_borrow(5, 3, false), (2, false));
    assert_eq!(sub_with_borrow(5, 3, true), (1, false));
    assert_eq!(sub_with_borrow(5, 4, true), (0, false));
    assert_eq!(sub_with_borrow(MAX, MAX, false), (0, false));
}

#[test]
fn sub_with_borrow_wraps_and_reports_the_borrow() {
    assert_eq!(sub_with_borrow(0, 1, false), (MAX, true));
    assert_eq!(sub_with_borrow(0, 0, true), (MAX, true));
    assert_eq!(sub_with_borrow(5, 5, true), (MAX, true));
    assert_eq!(sub_with_borrow(0, MAX, false), (1, true));
    assert_eq!(sub_with_borrow(0, MAX, true), (0, true));
    assert_eq!(sub_with_borrow(3, 7, true), (MAX - 4, true));
}

#[test]
fn add_magnitudes_of_equal_lengths() {
    assert_eq!(add_magnitudes(&[1, 2], &[3, 4]), vec![4, 6]);
    assert_eq!(add_magnitudes(&[MAX, 2], &[1, 4]), vec![0, 7]);
    assert_eq!(add_magnitudes(&[MAX, MAX], &[1, 0]), vec![0, 0, 1]);
    assert_eq!(add_magnitudes(&[MAX, MAX], &[MAX, MAX]), vec![MAX - 1, MAX, 1]);
}

#[test]
fn add_magnitudes_of_unequal_lengths() {
    assert_eq!(add_magnitudes(&[1], &[MAX, 5, 7]), vec![0, 6, 7]);
    assert_eq!(add_magnitudes(&[MAX, 5, 7], &[1]), vec![0, 6, 7]);
    assert_eq!(add_magnitudes(&[1], &[MAX, MAX, 7]), vec![0, 0, 8]);
    assert_eq!(add_magnitudes(&[1], &[MAX, MAX, MAX]), vec![0, 0, 0, 1]);
    assert_eq!(add_magnitudes(&[5], &[10, 20, 30]), vec![15, 20, 30]);
}

#[test]
fn add_magnitudes_with_an_empty_operand() {
    assert_eq!(add_magnitudes(&[], &[]), Vec::<u64>::new());
    assert_eq!(add_magnitudes(&[], &[9, 8]), vec![9, 8]);
    assert_eq!(add_magnitudes(&[9, 8], &[]), vec![9, 8]);
}

#[test]
fn sub_magnitudes_keeps_the_length_of_the_longer() {
    assert_eq!(sub_magnitudes(&[5], &[3]), vec![2]);
    assert_eq!(sub_magnitudes(&[5], &[5]), vec![0]);
    assert_eq!(sub_magnitudes(&[0, 0, 1], &[1]), vec![MAX, MAX, 0]);
    assert_eq!(sub_magnitudes(&[0, 1], &[MAX]), vec![1, 0]);
    assert_eq!(sub_magnitudes(&[3, 9], &[4, 2]), vec![MAX, 6]);
    assert_eq!(sub_magnitudes(&[7, 1], &[7, 0, 0]), vec![0, 1, 0]);
    assert_eq!(sub_magnitudes(&[], &[]), Vec::<u64>::new());
}

#[test]
fn trim_strips_high_zero_limbs_only() {
    assert_eq!(trim(vec![]), Vec::<u64>::new());
    assert_eq!(trim(vec![0]), Vec::<u64>::new());
    assert_eq!(trim(vec![0, 0, 0]), Vec::<u64>::new());
    assert_eq!(trim(vec![1, 0, 0]), vec![1]);
    assert_eq!(trim(vec![0, 1, 0]), vec![0, 1]);
    assert_eq!(trim(vec![0, 0, 1]), vec![0, 0, 1]);
    assert_eq!(trim(vec![MAX, MAX]), vec![MAX, MAX]);
}

#[test]
fn compare_magnitudes_by_length_first() {
    assert_eq!(compare_magnitudes(&[MAX], &[0, 1]), MagnitudeOrder::Less);
    assert_eq!(compare_magnitudes(&[0, 1], &[MAX]), MagnitudeOrder::Greater);
    assert_eq!(compare_magnitudes(&[], &[1]), MagnitudeOrder::Less);
    assert_eq!(compare_magnitudes(&[1], &[]), MagnitudeOrder::Greater);
    assert_eq!(compare_magnitudes(&[], &[]), MagnitudeOrder::Equal);
}

#[test]
fn compare_magnitudes_from_the_high_limb_down() {
    assert_eq!(compare_magnitudes(&[MAX, 1], &[0, 2]), MagnitudeOrder::Less);
    assert_eq!(compare_magnitudes(&[0, 2], &[MAX, 1]), MagnitudeOrder::Greater);
    assert_eq!(compare_magnitudes(&[1, 5, 3], &[2, 5, 3]), MagnitudeOrder::Less);
    assert_eq!(compare_magnitudes(&[2, 5, 3], &[1, 5, 3]), MagnitudeOrder::Greater);
    assert_eq!(compare_magnitudes(&[9, 4, 3], &[1, 5, 3]), MagnitudeOrder::Less);
    assert_eq!(compare_magnitudes(&[2, 5, 3], &[2, 5, 3]), MagnitudeOrder::Equal);
    assert_eq!(compare_magnitudes(&[7], &[7]), MagnitudeOrder::Equal);
}

#[test]
fn equal_limbs_compares_limb_for_limb() {
    assert!(equal_limbs(&[], &[]));
    assert!(equal_limbs(&[1, 2, 3], &[1, 2, 3]));
    assert!(!equal_limbs(&[1, 2, 3], &[1, 2, 4]));
    assert!(!equal_limbs(&[1, 2, 3], &[0, 2, 3]));
    assert!(!equal_limbs(&[1, 2], &[1, 2, 0]));
    assert!(!equal_limbs(&[], &[0]));
}
