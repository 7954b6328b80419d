use bigint_engine::numbers::{
    above_threshold, abs, at_even_places, at_odd_places, compute_stuff, filter_vec_by_divisor,
    number_or_default, read_vec, sqr, vec_min, vec_min_with_map, vec_sum, work_on_variant,
    NumberOrNothing, SomethingOrNothing, Variant,
};

#[test]
fn test_vec_min_with_map_or() {
    assert_eq!(vec_min_with_map(&vec![]), None);
    assert_eq!(vec_min_with_map(&vec![1, 2, 3, 4, 5]), Some(1));
    assert_eq!(vec_min_with_map(&vec![2, 2, 2]), Some(2));
    assert_eq!(vec_min_with_map(&vec![1, 2, 3, 4, 5, 0]), Some(0));
}

#[test]
fn test_sum_even_numbers() {
    assert_eq!(
        at_even_places(&vec![1, 2, 3, 4, 5]).into_iter().sum::<i32>(),
        6
    );
    assert_eq!(
        at_even_places(&vec![1.1, 2.2, 3.1, 4.2, 5.1])
            .into_iter()
            .sum::<f64>(),
        6.4
    );
}

#[test]
fn test_product_odd_numbers() {
    assert_eq!(
        at_odd_places(&vec![1, 2, 3, 4, 5])
            .into_iter()
            .product::<i32>(),
        15
    );
    assert_eq!(
        at_odd_places(&vec![1.0, 2.0, 3.0, 4.0, 5.0])
            .into_iter()
            .product::<f64>(),
        15.0
    );
}

#[test]
fn vec_min_of_the_worked_example() {
    let vec = read_vec();
    assert_eq!(vec, vec![18, 5, 7, 2, 9, 27]);
    assert_eq!(vec_min(&vec), NumberOrNothing::Number(2));
    assert_eq!(vec_sum(&vec), 68);
    assert_eq!(vec_min(&vec![]), NumberOrNothing::Nothing);
    assert_eq!(vec_min(&vec![-3, i32::MIN, 4]), NumberOrNothing::Number(i32::MIN));
    assert_eq!(vec_min(&vec![7]), NumberOrNothing::Number(7));
}

#[test]
fn vec_sum_adds_up() {
    assert_eq!(vec_sum(&[]), 0);
    assert_eq!(vec_sum(&[5]), 5);
    assert_eq!(vec_sum(&[i32::MAX, -1, -2]), i32::MAX - 3);
    assert_eq!(vec_sum(&[-4, 4, -6]), -6);
}

#[test]
fn small_arithmetic() {
    assert_eq!(sqr(0), 0);
    assert_eq!(sqr(-7), 49);
    assert_eq!(sqr(46340), 2147395600);
    assert_eq!(abs(5), 5);
    assert_eq!(abs(-5), 5);
    assert_eq!(abs(0), 0);
    assert_eq!(abs(-i32::MAX), i32::MAX);
    assert_eq!(compute_stuff(0), 196);
    assert_eq!(compute_stuff(2), 324);
    assert_eq!(compute_stuff(-3), 529);
    assert_eq!(compute_stuff(215), 2138045121);
}

#[test]
fn number_or_default_picks() {
    assert_eq!(number_or_default(NumberOrNothing::Number(3), 9), 3);
    assert_eq!(number_or_default(NumberOrNothing::Nothing, 9), 9);
}

#[test]
fn filter_vec_by_divisor_keeps_multiples() {
    assert_eq!(
        filter_vec_by_divisor(&vec![1, 2, 3, 4, 5, 6, 0, -4, -5], 2),
        vec![2, 4, 6, 0, -4]
    );
    assert_eq!(
        filter_vec_by_divisor(&vec![9, -9, 10, 0, 3], -3),
        vec![9, -9, 0, 3]
    );
    assert_eq!(
        filter_vec_by_divisor(&vec![i32::MIN, i32::MAX, 7], 1),
        vec![i32::MIN, i32::MAX, 7]
    );
    assert_eq!(filter_vec_by_divisor(&vec![5, 7], -1), vec![5, 7]);
    assert_eq!(filter_vec_by_divisor(&vec![i32::MIN, 6], 4), vec![i32::MIN]);
    assert_eq!(filter_vec_by_divisor(&vec![], 4), Vec::<i32>::new());
}

#[test]
fn above_threshold_raises_then_filters() {
    assert_eq!(above_threshold(&vec![1, 5, 2, 9], 1, 3), vec![6, 10]);
    assert_eq!(above_threshold(&vec![1, 5, 2, 9], -5, -4), vec![0, -3, 4]);
    assert_eq!(above_threshold(&vec![3], 0, 3), Vec::<i32>::new());
}

#[test]
fn places_are_counted_from_one() {
    let v = vec![1, 2, 3, 4, 5];
    assert_eq!(at_even_places(&v), vec![&2, &4]);
    assert_eq!(at_odd_places(&v), vec![&1, &3, &5]);
    let w = vec![1.1, 2.2, 3.1, 4.2];
    assert_eq!(at_even_places(&w), vec![&2.2, &4.2]);
    assert_eq!(at_odd_places(&w), vec![&1.1, &3.1]);
    let e: Vec<u8> = Vec::new();
    assert!(at_even_places(&e).is_empty());
    assert!(at_odd_places(&e).is_empty());
    assert_eq!(at_even_places(&vec!['x']), Vec::<&char>::new());
    assert_eq!(at_odd_places(&vec!['x']), vec![&'x']);
}

#[test]
fn something_or_nothing_clones() {
    let s = SomethingOrNothing::Something(vec![1, 2]);
    assert_eq!(s.clone(), SomethingOrNothing::Something(vec![1, 2]));
    let n: SomethingOrNothing<String> = SomethingOrNothing::Nothing;
    assert_eq!(n.clone(), SomethingOrNothing::Nothing);
}

#[test]
fn work_on_variant_sets_the_number() {
    assert_eq!(
        work_on_variant(Variant::Number(5), String::from("t")),
        Variant::Number(1337)
    );
    assert_eq!(
        work_on_variant(Variant::Text(String::from("kept")), String::from("t")),
        Variant::Text(String::from("kept"))
    );
}
