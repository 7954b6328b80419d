use bigint_engine::bigint::BigInt;
use bigint_engine::consume::Action;
use bigint_engine::cursor::Iter;

#[test]
fn test_big_int_iter() {
    let b = BigInt::from_vec(vec![3, 2, 1]);
    let mut iter = b.iter();

    assert_eq!(iter.next(), Some(1));
    assert_eq!(iter.next(), Some(2));
    assert_eq!(iter.next(), Some(3));
    assert_eq!(iter.next(), None);
}

#[test]
fn test_big_int_iter_ldf() {
    let b = BigInt::from_vec(vec![3, 2, 1]);
    let mut iter = b.iter_ldf();

    assert_eq!(iter.next(), Some(3));
    assert_eq!(iter.next(), Some(2));
    assert_eq!(iter.next(), Some(1));
    assert_eq!(iter.next(), None);
}

#[test]
fn cursors_over_zero_end_at_once() {
    let zero = BigInt::new(0);
    let mut msd = zero.iter();
    assert_eq!(msd.next(), None);
    assert_eq!(msd.next(), None);
    let mut lsd = zero.iter_ldf();
    assert_eq!(lsd.next(), None);
    assert_eq!(lsd.next(), None);
    let empty = BigInt::from_vec(vec![0, 0]);
    assert_eq!(Iter::new(&empty).next(), None);
    assert_eq!(Iter::new_rev(&empty).next(), None);
}

#[test]
fn cursors_over_one_digit() {
    let b = BigInt::new(42);
    let mut msd = Iter::new(&b);
    assert_eq!(msd.next(), Some(42));
    assert_eq!(msd.next(), None);
    assert_eq!(msd.next(), None);
    let mut lsd = Iter::new_rev(&b);
    assert_eq!(lsd.next(), Some(42));
    assert_eq!(lsd.next(), None);
    assert_eq!(lsd.next(), None);
}

#[test]
fn cursors_over_two_digits_with_a_zero() {
    let b = BigInt::from_vec(vec![0, 9]);
    let mut msd = b.iter();
    assert_eq!(msd.next(), Some(9));
    assert_eq!(msd.next(), Some(0));
    assert_eq!(msd.next(), None);
    let mut lsd = b.iter_ldf();
    assert_eq!(lsd.next(), Some(0));
    assert_eq!(lsd.next(), Some(9));
    assert_eq!(lsd.next(), None);
}

struct Collector {
    seen: Vec<u64>,
}

impl Action for Collector {
    fn do_action(&mut self, digit: u64) {
        self.seen.push(digit);
    }
}

#[test]
fn act_v1_hands_over_digits_most_significant_first() {
    let b = BigInt::from_vec(vec![3, 2, 1]);
    let mut c = Collector { seen: vec![10] };
    b.act_v1(&mut c);
    assert_eq!(c.seen, vec![10, 1, 2, 3]);
    BigInt::new(0).act_v1(&mut c);
    assert_eq!(c.seen, vec![10, 1, 2, 3]);
}

#[test]
fn a_vector_collects_what_it_is_handed() {
    let b = BigInt::from_vec(vec![0, 5, u64::MAX]);
    let mut seen: Vec<u64> = vec![1];
    b.act_v1(&mut seen);
    assert_eq!(seen, vec![1, u64::MAX, 5, 0]);
    seen.do_action(9);
    assert_eq!(seen, vec![1, u64::MAX, 5, 0, 9]);
}

#[test]
fn act_calls_the_closure_on_each_digit() {
    let b = BigInt::from_vec(vec![3, 2, 1]);
    let mut seen: Vec<u64> = Vec::new();
    b.act(|digit| seen.push(digit));
    assert_eq!(seen, vec![1, 2, 3]);
    let mut count: usize = 0;
    BigInt::new(0).act(|_| count = count + 1);
    assert_eq!(count, 0);
}
