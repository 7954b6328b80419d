use vstd::prelude::*;

verus! {

/// A number, or the lack of one.
#[derive(Clone, Copy, Debug, PartialEq, Eq)]
pub enum NumberOrNothing {
    Number(i32),
    Nothing,
}

/// A value of any type, or the lack of one.
#[derive(Debug, PartialEq, Eq)]
pub enum SomethingOrNothing<T> {
    Something(T),
    Nothing,
}

impl<T: Clone> Clone for SomethingOrNothing<T> {
    fn clone(&self) -> (r: Self)
        ensures
            match *self {
                SomethingOrNothing::Something(value) => r matches SomethingOrNothing::Something(copy)
                    && cloned::<T>(value, copy),
                SomethingOrNothing::Nothing => r is Nothing,
            },
    {
        match self {
            SomethingOrNothing::Something(value) => SomethingOrNothing::Something(value.clone()),
            SomethingOrNothing::Nothing => SomethingOrNothing::Nothing,
        }
    }
}

/// A number or a text.
#[derive(Debug, PartialEq, Eq)]
pub enum Variant {
    Number(i32),
    Text(String),
}

/// The sum of the numbers of `s`.
pub open spec fn sum_of(s: Seq<i32>) -> int
    decreases s.len(),
{
    if s.len() == 0 {
        0
    } else {
        sum_of(s.drop_last()) + s.last()
    }
}

/// `m` occurs in `s` and no number of `s` is smaller.
pub open spec fn is_min_of(m: i32, s: Seq<i32>) -> bool {
    s.contains(m) && forall|i: int| 0 <= i < s.len() ==> m <= s[i]
}

/// The distance of `n` from zero.
pub open spec fn magnitude(n: int) -> int {
    if n < 0 {
        -n
    } else {
        n
    }
}

/// The predicate that picks the multiples of `divisor`: the numbers that leave no
/// remainder when divided by it, whatever the signs.
pub open spec fn is_multiple_of(divisor: i32) -> spec_fn(i32) -> bool {
    |n: i32| magnitude(n as int) % magnitude(divisor as int) == 0
}

/// The predicate that picks the numbers above `threshold`.
pub open spec fn is_above(threshold: i32) -> spec_fn(i32) -> bool {
    |n: i32| n > threshold
}

/// `var` with its number, if it holds one, set to 1337; a text stays as it is.
pub fn work_on_variant(var: Variant, _text: String) -> (r: Variant)
    ensures
        match var {
            Variant::Number(_) => r == Variant::Number(1337i32),
            Variant::Text(t) => r == Variant::Text(t),
        },
{
    let mut var = var;
    match &mut var {
        Variant::Number(n) => {
            *n = 1337;
        },
        Variant::Text(_) => {},
    }
    var
}

/// The square of `i`.
pub fn sqr(i: i32) -> (r: i32)
    requires
        i * i <= i32::MAX,
    ensures
        r == i * i,
{
    assert(i * i >= 0) by (nonlinear_arith);
    i * i
}

/// The absolute value of `i`.
pub fn abs(i: i32) -> (r: i32)
    requires
        i != i32::MIN,
    ensures
        r >= 0,
        r == i || r == -i,
{
    if i >= 0 {
        i
    } else {
        -i
    }
}

/// The number that `n` holds, or `default` where it holds none.
pub fn number_or_default(n: NumberOrNothing, default: i32) -> (r: i32)
    ensures
        r == match n {
            NumberOrNothing::Nothing => default,
            NumberOrNothing::Number(k) => k,
        },
{
    match n {
        NumberOrNothing::Nothing => default,
        NumberOrNothing::Number(n) => n,
    }
}

/// The square of fourteen more than the square of `x`.
pub fn compute_stuff(x: i32) -> (r: i32)
    requires
        (x * x + 14) * (x * x + 14) <= i32::MAX,
    ensures
        r == (x * x + 14) * (x * x + 14),
{
    assert(0 <= x * x && x * x + 14 <= (x * x + 14) * (x * x + 14)) by (nonlinear_arith);
    let y = {
        let z = x * x;
        z + 14
    };
    y * y
}

/// The smallest number of `v`, or `Nothing` where `v` is empty.
pub fn vec_min(v: &Vec<i32>) -> (r: NumberOrNothing)
    ensures
        r is Nothing <==> v@.len() == 0,
        r matches NumberOrNothing::Number(m) ==> is_min_of(m, v@),
{
    let mut min = NumberOrNothing::Nothing;
    let mut i: usize = 0;
    while i < v.len()
        invariant
            i <= v.len(),
            min is Nothing <==> i == 0,
            min matches NumberOrNothing::Number(m) ==> is_min_of(m, v@.take(i as int)),
        decreases v.len() - i,
    {
        let e = v[i];
        let ghost seen = v@.take(i as int);
        let ghost now = v@.take(i + 1);
        proof {
            assert(now[i as int] == e);
            assert forall|k: int| 0 <= k < seen.len() implies now[k] == seen[k] by {}
        }
        min = NumberOrNothing::Number(
            match min {
                NumberOrNothing::Nothing => e,
                NumberOrNothing::Number(n) => {
                    proof {
                        let k = choose|k: int| 0 <= k < seen.len() && seen[k] == n;
                        assert(now[k] == n);
                    }
                    if n < e {
                        n
                    } else {
                        e
                    }
                },
            },
        );
        i = i + 1;
    }
    proof {
        assert(v@.take(i as int) =~= v@);
    }
    min
}

/// The numbers of the worked example.
pub fn read_vec() -> (r: Vec<i32>)
    ensures
        r@ == seq![18i32, 5, 7, 2, 9, 27],
{
    let mut v: Vec<i32> = Vec::new();
    v.push(18);
    v.push(5);
    v.push(7);
    v.push(2);
    v.push(9);
    v.push(27);
    proof {
        assert(v@ =~= seq![18i32, 5, 7, 2, 9, 27]);
    }
    v
}

/// The sum of `numbers`, added up from the first to the last.
pub fn vec_sum(numbers: &[i32]) -> (r: i32)
    requires
        forall|k: int|
            0 <= k <= numbers@.len() ==> i32::MIN <= #[trigger] sum_of(numbers@.take(k))
                <= i32::MAX,
    ensures
        r == sum_of(numbers@),
{
    let mut total: i32 = 0;
    let mut i: usize = 0;
    while i < numbers.len()
        invariant
            i <= numbers.len(),
            total == sum_of(numbers@.take(i as int)),
            forall|k: int|
                0 <= k <= numbers@.len() ==> i32::MIN <= #[trigger] sum_of(numbers@.take(k))
                    <= i32::MAX,
        decreases numbers.len() - i,
    {
        proof {
            let next = numbers@.take(i + 1);
            assert(next.drop_last() =~= numbers@.take(i as int));
            assert(next.last() == numbers@[i as int]);
            assert(i32::MIN <= sum_of(next) <= i32::MAX);
        }
        total = total + numbers[i];
        i = i + 1;
    }
    proof {
        assert(numbers@.take(i as int) =~= numbers@);
    }
    total
}

/// The smallest number of `v`, or `None` where `v` is empty.
pub fn vec_min_with_map(v: &Vec<i32>) -> (r: Option<i32>)
    ensures
        r is None <==> v@.len() == 0,
        r matches Some(m) ==> is_min_of(m, v@),
{
    match vec_min(v) {
        NumberOrNothing::Nothing => None,
        NumberOrNothing::Number(m) => Some(m),
    }
}

/// The numbers of `v` that `divisor` divides, in their order.
pub fn filter_vec_by_divisor(v: &Vec<i32>, divisor: i32) -> (r: Vec<i32>)
    requires
        divisor != 0,
        divisor == -1 ==> !v@.contains(i32::MIN),
    ensures
        r@ == v@.filter(is_multiple_of(divisor)),
{
    let mut kept: Vec<i32> = Vec::new();
    let mut i: usize = 0;
    while i < v.len()
        invariant
            i <= v.len(),
            divisor != 0,
            divisor == -1 ==> !v@.contains(i32::MIN),
            kept@ == v@.take(i as int).filter(is_multiple_of(divisor)),
        decreases v.len() - i,
    {
        let n = v[i];
        proof {
            let next = v@.take(i + 1);
            assert(next.drop_last() =~= v@.take(i as int));
            assert(next.last() == n);
            assert(v@.contains(n));
            reveal(Seq::filter);
        }
        let size: i64 = if n < 0 {
            -(n as i64)
        } else {
            n as i64
        };
        let step: i64 = if divisor < 0 {
            -(divisor as i64)
        } else {
            divisor as i64
        };
        if size % step == 0 {
            kept.push(n);
        }
        i = i + 1;
    }
    proof {
        assert(v@.take(i as int) =~= v@);
    }
    kept
}

/// The numbers of `v`, each raised by `offset`, that are then above `threshold`, in
/// their order.
pub fn above_threshold(v: &Vec<i32>, offset: i32, threshold: i32) -> (r: Vec<i32>)
    requires
        forall|i: int| 0 <= i < v@.len() ==> i32::MIN <= #[trigger] v@[i] + offset <= i32::MAX,
    ensures
        r@ == v@.map_values(|n: i32| (n + offset) as i32).filter(is_above(threshold)),
{
    let ghost raised = v@.map_values(|n: i32| (n + offset) as i32);
    let mut kept: Vec<i32> = Vec::new();
    let mut i: usize = 0;
    while i < v.len()
        invariant
            i <= v.len(),
            raised == v@.map_values(|n: i32| (n + offset) as i32),
            forall|i: int| 0 <= i < v@.len() ==> i32::MIN <= #[trigger] v@[i] + offset <= i32::MAX,
            kept@ == raised.take(i as int).filter(is_above(threshold)),
        decreases v.len() - i,
    {
        let n = v[i] + offset;
        proof {
            let next = raised.take(i + 1);
            assert(next.drop_last() =~= raised.take(i as int));
            assert(next.last() == n);
            reveal(Seq::filter);
        }
        if n > threshold {
            kept.push(n);
        }
        i = i + 1;
    }
    proof {
        assert(raised.take(i as int) =~= raised);
    }
    kept
}

/// The items of `v` at the second, fourth, sixth place and so on, in their order.
pub fn at_even_places<T>(v: &Vec<T>) -> (r: Vec<&T>)
    ensures
        r@.len() == v@.len() / 2,
        forall|k: int| 0 <= k < r@.len() ==> *r@[k] == v@[2 * k + 1],
{
    let mut picked: Vec<&T> = Vec::new();
    let mut i: usize = 0;
    while i < v.len()
        invariant
            i <= v.len(),
            picked@.len() == i / 2,
            forall|k: int| 0 <= k < picked@.len() ==> *picked@[k] == v@[2 * k + 1],
        decreases v.len() - i,
    {
        if i % 2 == 1 {
            picked.push(&v[i]);
        }
        i = i + 1;
    }
    picked
}

/// The items of `v` at the first, third, fifth place and so on, in their order.
pub fn at_odd_places<T>(v: &Vec<T>) -> (r: Vec<&T>)
    ensures
        r@.len() == (v@.len() + 1) / 2,
        forall|k: int| 0 <= k < r@.len() ==> *r@[k] == v@[2 * k],
{
    let mut picked: Vec<&T> = Vec::new();
    let mut i: usize = 0;
    while i < v.len()
        invariant
            i <= v.len(),
            picked@.len() == (i + 1) / 2,
            forall|k: int| 0 <= k < picked@.len() ==> *picked@[k] == v@[2 * k],
        decreases v.len() - i,
    {
        if i % 2 == 0 {
            picked.push(&v[i]);
        }
        i = i + 1;
    }
    picked
}

} // verus!
