use crate::bigint::BigInt;
use crate::digits::{
    canonical, digit_at, digits_of, lemma_canonical_is_digits_of, lemma_digits_of,
    lemma_low_digits_step, lemma_low_digits_value, lemma_value_bound, lemma_value_push,
    low_digits, radix, value_of, weight,
};
use vstd::prelude::*;

verus! {

/// A carry or borrow bit as a number.
pub open spec fn bit(b: bool) -> nat {
    if b {
        1
    } else {
        0
    }
}

/// The digits of the sum of the numbers that `a` and `b` denote.
pub open spec fn sum_digits(a: Seq<u64>, b: Seq<u64>) -> Seq<u64> {
    digits_of(value_of(a) + value_of(b))
}

/// The digits of the number that `a` denotes less the one that `b` denotes, or `None`
/// where `b` denotes the greater number.
pub open spec fn difference_digits(a: Seq<u64>, b: Seq<u64>) -> Option<Seq<u64>> {
    if value_of(a) >= value_of(b) {
        Some(digits_of((value_of(a) - value_of(b)) as nat))
    } else {
        None
    }
}

/// Adds two words and a carry bit; returns the low word of the sum and the carry out.
pub fn overflowing_add(a: u64, b: u64, carry: bool) -> (r: (u64, bool))
    ensures
        r.0 + bit(r.1) * radix() == a + b + bit(carry),
{
    let sum = a.wrapping_add(b);
    let carry_word: u64 = if carry {
        1
    } else {
        0
    };
    if sum >= a {
        let sum_with_carry = sum.wrapping_add(carry_word);
        let has_overflow = sum_with_carry < sum;
        (sum_with_carry, has_overflow)
    } else {
        (sum + carry_word, true)
    }
}

/// Subtracts a word and a borrow bit from a word; returns the low word of the
/// difference and the borrow out.
pub fn borrowing_sub(a: u64, b: u64, borrow: bool) -> (r: (u64, bool))
    ensures
        r.0 - bit(r.1) * radix() == a - b - bit(borrow),
{
    let delta = a.wrapping_sub(b);
    let borrow_word: u64 = if borrow {
        1
    } else {
        0
    };
    if a >= b {
        let delta_with_borrow = delta.wrapping_sub(borrow_word);
        let has_borrow = delta_with_borrow > delta;
        (delta_with_borrow, has_borrow)
    } else {
        (delta - borrow_word, true)
    }
}

/// One column of the addition: what holds of the digits below index `n` carries over
/// to the digits below `n + 1`.
proof fn lemma_add_column(
    a: Seq<u64>,
    b: Seq<u64>,
    low: Seq<u64>,
    n: nat,
    carry: bool,
    sum: u64,
    carry_out: bool,
)
    requires
        value_of(low) + bit(carry) * weight(n) == value_of(low_digits(a, n)) + value_of(
            low_digits(b, n),
        ),
        low.len() == n,
        sum + bit(carry_out) * radix() == digit_at(a, n as int) + digit_at(b, n as int) + bit(
            carry,
        ),
    ensures
        value_of(low.push(sum)) + bit(carry_out) * weight(n + 1) == value_of(
            low_digits(a, n + 1),
        ) + value_of(low_digits(b, n + 1)),
{
    lemma_low_digits_step(a, n);
    lemma_low_digits_step(b, n);
    lemma_value_push(low, sum);
    let w = weight(n) as int;
    let x = digit_at(a, n as int) as int;
    let y = digit_at(b, n as int) as int;
    let c = bit(carry) as int;
    let c2 = bit(carry_out) as int;
    let s = sum as int;
    let big = radix() as int;
    assert(weight(n + 1) == big * w);
    assert(s * w + c2 * (big * w) == x * w + y * w + c * w) by (nonlinear_arith)
        requires
            s + c2 * big == x + y + c,
    ;
}

/// One column of the subtraction, as `lemma_add_column` is for the addition.
proof fn lemma_sub_column(
    a: Seq<u64>,
    b: Seq<u64>,
    low: Seq<u64>,
    n: nat,
    borrow: bool,
    delta: u64,
    borrow_out: bool,
)
    requires
        value_of(low) + value_of(low_digits(b, n)) == value_of(low_digits(a, n)) + bit(borrow)
            * weight(n),
        low.len() == n,
        delta - bit(borrow_out) * radix() == digit_at(a, n as int) - digit_at(b, n as int) - bit(
            borrow,
        ),
    ensures
        value_of(low.push(delta)) + value_of(low_digits(b, n + 1)) == value_of(
            low_digits(a, n + 1),
        ) + bit(borrow_out) * weight(n + 1),
{
    lemma_low_digits_step(a, n);
    lemma_low_digits_step(b, n);
    lemma_value_push(low, delta);
    let w = weight(n) as int;
    let x = digit_at(a, n as int) as int;
    let y = digit_at(b, n as int) as int;
    let c = bit(borrow) as int;
    let c2 = bit(borrow_out) as int;
    let d = delta as int;
    let big = radix() as int;
    assert(weight(n + 1) == big * w);
    assert(d * w + y * w + c * w == x * w + c2 * (big * w)) by (nonlinear_arith)
        requires
            d - c2 * big == x - y - c,
    ;
}

/// The sum of two big integers, in canonical form.
pub fn sum(lhs: &BigInt, rhs: &BigInt) -> (r: BigInt)
    ensures
        r@ == sum_digits(lhs@, rhs@),
        r.wf(),
        r.value() == lhs.value() + rhs.value(),
{
    let max_len = if lhs.data.len() >= rhs.data.len() {
        lhs.data.len()
    } else {
        rhs.data.len()
    };
    let mut result_vec: Vec<u64> = Vec::with_capacity(max_len);
    let mut carry = false;
    let mut i: usize = 0;
    proof {
        assert(low_digits(lhs@, 0).len() == 0 && low_digits(rhs@, 0).len() == 0);
        assert(bit(false) * weight(0) == 0);
    }
    while i < max_len
        invariant
            i <= max_len,
            result_vec@.len() == i,
            value_of(result_vec@) + bit(carry) * weight(i as nat) == value_of(
                low_digits(lhs@, i as nat),
            ) + value_of(low_digits(rhs@, i as nat)),
        decreases max_len - i,
    {
        let lhs_val = if i < lhs.data.len() {
            lhs.data[i]
        } else {
            0
        };
        let rhs_val = if i < rhs.data.len() {
            rhs.data[i]
        } else {
            0
        };
        let (digit, new_carry) = overflowing_add(lhs_val, rhs_val, carry);
        proof {
            lemma_add_column(lhs@, rhs@, result_vec@, i as nat, carry, digit, new_carry);
        }
        result_vec.push(digit);
        carry = new_carry;
        i = i + 1;
    }
    proof {
        lemma_low_digits_value(lhs@, max_len as nat);
        lemma_low_digits_value(rhs@, max_len as nat);
        lemma_value_push(result_vec@, 1u64);
    }
    if carry {
        result_vec.push(1);
    }
    proof {
        lemma_digits_of(lhs.value() + rhs.value());
    }
    BigInt::from_vec(result_vec)
}

/// The difference of two big integers in canonical form, or `None` where `rhs` is the
/// greater: the borrow runs through every digit before that is decided.
pub fn difference(lhs: &BigInt, rhs: &BigInt) -> (r: Option<BigInt>)
    ensures
        r is Some <==> lhs.value() >= rhs.value(),
        r matches Some(d) ==> difference_digits(lhs@, rhs@) == Some(d@) && d.wf() && d.value()
            == lhs.value() - rhs.value(),
{
    let max_len = if lhs.data.len() >= rhs.data.len() {
        lhs.data.len()
    } else {
        rhs.data.len()
    };
    let mut result_vec: Vec<u64> = Vec::with_capacity(max_len);
    let mut borrow = false;
    let mut i: usize = 0;
    proof {
        assert(low_digits(lhs@, 0).len() == 0 && low_digits(rhs@, 0).len() == 0);
        assert(bit(false) * weight(0) == 0);
    }
    while i < max_len
        invariant
            i <= max_len,
            result_vec@.len() == i,
            value_of(result_vec@) + value_of(low_digits(rhs@, i as nat)) == value_of(
                low_digits(lhs@, i as nat),
            ) + bit(borrow) * weight(i as nat),
        decreases max_len - i,
    {
        let left = if i < lhs.data.len() {
            lhs.data[i]
        } else {
            0
        };
        let right = if i < rhs.data.len() {
            rhs.data[i]
        } else {
            0
        };
        let (delta, new_borrow) = borrowing_sub(left, right, borrow);
        proof {
            lemma_sub_column(lhs@, rhs@, result_vec@, i as nat, borrow, delta, new_borrow);
        }
        result_vec.push(delta);
        borrow = new_borrow;
        i = i + 1;
    }
    proof {
        lemma_low_digits_value(lhs@, max_len as nat);
        lemma_low_digits_value(rhs@, max_len as nat);
        lemma_value_bound(result_vec@);
    }
    if borrow {
        None
    } else {
        proof {
            lemma_digits_of((lhs.value() - rhs.value()) as nat);
        }
        Some(BigInt::from_vec(result_vec))
    }
}

impl<'a, 'b> core::ops::Add<&'a BigInt> for &'b BigInt {
    type Output = BigInt;

    /// `&x + &y` is `sum(&x, &y)`.
    fn add(self, rhs: &'a BigInt) -> (r: BigInt)
        ensures
            r@ == sum_digits(self@, rhs@),
            r.wf(),
            r.value() == self.value() + rhs.value(),
    {
        sum(self, rhs)
    }
}

/// What `+` returns is stated by the `ensures` of `add` above, over the digits of the
/// result; no value is named for it here.
impl<'a, 'b> vstd::std_specs::ops::AddSpecImpl<&'a BigInt> for &'b BigInt {
    open spec fn obeys_add_spec() -> bool {
        false
    }

    open spec fn add_req(self, rhs: &'a BigInt) -> bool {
        true
    }

    open spec fn add_spec(self, rhs: &'a BigInt) -> BigInt {
        arbitrary()
    }
}

impl core::ops::Add<BigInt> for BigInt {
    type Output = BigInt;

    /// `x + y` is `sum(&x, &y)`.
    fn add(self, rhs: BigInt) -> (r: BigInt)
        ensures
            r@ == sum_digits(self@, rhs@),
            r.wf(),
            r.value() == self.value() + rhs.value(),
    {
        sum(&self, &rhs)
    }
}

/// What `+` returns is stated by the `ensures` of `add` above, over the digits of the
/// result; no value is named for it here.
impl vstd::std_specs::ops::AddSpecImpl<BigInt> for BigInt {
    open spec fn obeys_add_spec() -> bool {
        false
    }

    open spec fn add_req(self, rhs: BigInt) -> bool {
        true
    }

    open spec fn add_spec(self, rhs: BigInt) -> BigInt {
        arbitrary()
    }
}

impl<'a, 'b> core::ops::Sub<&'a BigInt> for &'b BigInt {
    type Output = Option<BigInt>;

    /// `&x - &y` is `difference(&x, &y)`.
    fn sub(self, rhs: &'a BigInt) -> (r: Option<BigInt>)
        ensures
            r is Some <==> self.value() >= rhs.value(),
            r matches Some(d) ==> difference_digits(self@, rhs@) == Some(d@) && d.wf() && d.value()
                == self.value() - rhs.value(),
    {
        difference(self, rhs)
    }
}

/// What `-` returns is stated by the `ensures` of `sub` above, over the digits of the
/// result; no value is named for it here.
impl<'a, 'b> vstd::std_specs::ops::SubSpecImpl<&'a BigInt> for &'b BigInt {
    open spec fn obeys_sub_spec() -> bool {
        false
    }

    open spec fn sub_req(self, rhs: &'a BigInt) -> bool {
        true
    }

    open spec fn sub_spec(self, rhs: &'a BigInt) -> Option<BigInt> {
        arbitrary()
    }
}

/// Sums and differences are in canonical form.
pub proof fn results_are_canonical(x: BigInt, y: BigInt)
    ensures
        canonical(sum_digits(x@, y@)),
        difference_digits(x@, y@) matches Some(d) ==> canonical(d),
{
    lemma_digits_of(value_of(x@) + value_of(y@));
    if value_of(x@) >= value_of(y@) {
        lemma_digits_of((value_of(x@) - value_of(y@)) as nat);
    }
}

/// Adding zero, which is the empty digit sequence, on either side leaves a canonical
/// value as it is.
pub proof fn add_zero_is_identity(x: BigInt)
    requires
        x.wf(),
    ensures
        sum_digits(x@, Seq::empty()) == x@,
        sum_digits(Seq::empty(), x@) == x@,
{
    lemma_canonical_is_digits_of(x@);
}

/// Addition does not depend on the order of its operands.
pub proof fn add_is_commutative(x: BigInt, y: BigInt)
    ensures
        sum_digits(x@, y@) == sum_digits(y@, x@),
{
}

/// Subtracting `y` from the sum of a canonical `x` and `y` gives `x` back.
pub proof fn sub_undoes_add(x: BigInt, y: BigInt)
    requires
        x.wf(),
    ensures
        difference_digits(sum_digits(x@, y@), y@) == Some(x@),
{
    lemma_digits_of(value_of(x@) + value_of(y@));
    lemma_canonical_is_digits_of(x@);
}

/// Where `y` is not the greater, adding `y` to the difference of a canonical `x` and
/// `y` gives `x` back.
pub proof fn add_undoes_sub(x: BigInt, y: BigInt)
    requires
        x.wf(),
        y.value() <= x.value(),
    ensures
        difference_digits(x@, y@) matches Some(d) && sum_digits(d, y@) == x@,
{
    lemma_digits_of((value_of(x@) - value_of(y@)) as nat);
    lemma_canonical_is_digits_of(x@);
}

/// Subtraction has no result exactly where the subtrahend denotes the greater number.
pub proof fn sub_fails_on_underflow(x: BigInt, y: BigInt)
    ensures
        difference_digits(x@, y@) is None <==> y.value() > x.value(),
{
}

} // verus!
