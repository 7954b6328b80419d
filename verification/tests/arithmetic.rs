use bigint_engine::arith::{borrowing_sub, difference, overflowing_add, sum};
use bigint_engine::bigint::BigInt;

#[test]
fn test_overflowing_add() {
    assert_eq!(overflowing_add(10, 100, false), (110, false));
    assert_eq!(overflowing_add(10, 100, true), (111, false));
    assert_eq!(overflowing_add(1 << 63, 1 << 63, false), (0, true));
    assert_eq!(overflowing_add(1 << 63, 1 << 63, true), (1, true));
    assert_eq!(overflowing_add(1 << 63, (1 << 63) - 1, true), (0, true));
}

#[test]
fn test_add() {
    let b1 = BigInt::new(1 << 32);
    let b2 = BigInt::from_vec(vec![0, 1]);
    let b3 = BigInt::from_vec(vec![1, 1]);
    let b4 = BigInt::new(1);
    let b5 = BigInt::from_vec(vec![u64::MAX]);

    assert_eq!(&b1 + &b2, BigInt::from_vec(vec![1 << 32, 1]));
    assert_eq!(&b2 + &b3, BigInt::from_vec(vec![1, 2]));
    assert_eq!(&b4 + &b5, BigInt::from_vec(vec![0, 1]));
}

#[test]
fn test_sub() {
    assert_eq!(
        &BigInt::from_vec(vec![2, 3]) - &BigInt::from_vec(vec![1, 1]),
        Some(BigInt::from_vec(vec![1, 2]))
    );
    assert_eq!(
        &BigInt::from_vec(vec![5, 5]) - &BigInt::from_vec(vec![5, 5]),
        Some(BigInt::new(0))
    );
    assert_eq!(
        &BigInt::from_vec(vec![4, 6]) - &BigInt::from_vec(vec![0, 6]),
        Some(BigInt::new(4))
    );
    assert_eq!(
        &BigInt::from_vec(vec![1, 0, 1]) - &BigInt::new(1),
        Some(BigInt::from_vec(vec![0, 0, 1]))
    );
    assert_eq!(
        &BigInt::from_vec(vec![1, 0, 1]) - &BigInt::new(1),
        Some(BigInt::from_vec(vec![0, 0, 1]))
    );
}

#[test]
fn borrowing_sub_word_boundaries() {
    assert_eq!(borrowing_sub(111, 100, false), (11, false));
    assert_eq!(borrowing_sub(111, 100, true), (10, false));
    assert_eq!(borrowing_sub(0, 0, true), (u64::MAX, true));
    assert_eq!(borrowing_sub(0, 1, false), (u64::MAX, true));
    assert_eq!(borrowing_sub(0, u64::MAX, true), (0, true));
    assert_eq!(borrowing_sub(5, 5, false), (0, false));
    assert_eq!(borrowing_sub(1 << 63, (1 << 63) - 1, true), (0, false));
}

#[test]
fn overflowing_add_carry_in_alone_overflows() {
    assert_eq!(overflowing_add(u64::MAX, 0, true), (0, true));
    assert_eq!(overflowing_add(0, u64::MAX, true), (0, true));
    assert_eq!(overflowing_add(u64::MAX, u64::MAX, true), (u64::MAX, true));
    assert_eq!(overflowing_add(0, 0, false), (0, false));
}

#[test]
fn sub_underflow_is_none() {
    assert_eq!(&BigInt::new(1) - &BigInt::new(2), None);
    assert_eq!(&BigInt::new(0) - &BigInt::new(1), None);
    assert_eq!(
        &BigInt::from_vec(vec![u64::MAX]) - &BigInt::from_vec(vec![0, 1]),
        None
    );
    assert_eq!(
        &BigInt::from_vec(vec![5, 1]) - &BigInt::from_vec(vec![6, 1]),
        None
    );
}

#[test]
fn sub_borrows_across_digits() {
    assert_eq!(
        &BigInt::from_vec(vec![0, 1]) - &BigInt::new(1),
        Some(BigInt::from_vec(vec![u64::MAX]))
    );
    assert_eq!(
        &BigInt::from_vec(vec![0, 0, 1]) - &BigInt::new(1),
        Some(BigInt::from_vec(vec![u64::MAX, u64::MAX]))
    );
    assert_eq!(
        &BigInt::from_vec(vec![0, 0, 2]) - &BigInt::from_vec(vec![1, 0, 1]),
        Some(BigInt::from_vec(vec![u64::MAX, u64::MAX]))
    );
}

#[test]
fn add_zero_is_identity() {
    let zero = BigInt::new(0);
    let x = BigInt::from_vec(vec![7, 0, 9]);
    assert_eq!(&x + &zero, x);
    assert_eq!(&zero + &x, x);
    assert_eq!(&zero + &zero, zero);
}

#[test]
fn add_is_commutative() {
    let x = BigInt::from_vec(vec![u64::MAX, u64::MAX]);
    let y = BigInt::from_vec(vec![1, 2, 3]);
    assert_eq!(&x + &y, &y + &x);
    assert_eq!(&x + &y, BigInt::from_vec(vec![0, 2, 4]));
}

#[test]
fn sub_undoes_add() {
    let x = BigInt::from_vec(vec![u64::MAX, u64::MAX]);
    let y = BigInt::from_vec(vec![1]);
    let s = &x + &y;
    assert_eq!(s, BigInt::from_vec(vec![0, 0, 1]));
    assert_eq!(&s - &y, Some(x.clone()));
    assert_eq!(&s - &x, Some(y));
}

#[test]
fn add_by_value_and_named_functions_agree() {
    let b = BigInt::new(1 << 63) + BigInt::new(1 << 16) + BigInt::new(1 << 63);
    assert_eq!(b, BigInt::from_vec(vec![1 << 16, 1]));
    assert_eq!(sum(&BigInt::new(2), &BigInt::new(3)), BigInt::new(5));
    assert_eq!(
        difference(&BigInt::new(3), &BigInt::new(2)),
        Some(BigInt::new(1))
    );
    assert_eq!(difference(&BigInt::new(2), &BigInt::new(3)), None);
}

#[test]
fn results_are_canonical() {
    let x = BigInt::from_vec(vec![3, 4, 0, 0]);
    let y = BigInt::from_vec_without_remove_last_zeroes(vec![1, 0, 0]);
    assert!((&x + &y).test_invariant());
    assert_eq!(&x + &y, BigInt::from_vec(vec![4, 4]));
    let d = (&x - &BigInt::from_vec(vec![0, 4])).unwrap();
    assert!(d.test_invariant());
    assert_eq!(d, BigInt::new(3));
    assert_eq!(&y - &BigInt::new(1), Some(BigInt::new(0)));
}
