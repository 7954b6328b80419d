use crate::digits::{canonical, digits_of, lemma_trim, lemma_trim_is_digits_of, trim, value_of};
use vstd::prelude::*;

verus! {

/// A non-negative integer of unbounded size, held as 64-bit digits with the least
/// significant digit first.
///
/// A value is in canonical form when `data` is empty or its last digit is not zero;
/// every constructor and operation of this crate but
/// `from_vec_without_remove_last_zeroes` returns canonical values.
#[derive(Debug)]
pub struct BigInt {
    pub data: Vec<u64>,
}

impl View for BigInt {
    type V = Seq<u64>;

    open spec fn view(&self) -> Seq<u64> {
        self.data@
    }
}

/// The predicate that picks the digits that are not zero.
pub open spec fn is_non_zero() -> spec_fn(u64) -> bool {
    |d: u64| d != 0
}

/// Removes the run of most significant zero digits from `v`.
pub fn remove_last_zeroes(v: &mut Vec<u64>)
    ensures
        final(v)@ == trim(old(v)@),
{
    while v.len() > 0 && v[v.len() - 1] == 0
        invariant
            trim(v@) == trim(old(v)@),
        decreases v.len(),
    {
        proof {
            assert(trim(v@) == trim(v@.drop_last()));
        }
        v.pop();
    }
}

impl BigInt {
    /// The natural number that this value denotes.
    pub open spec fn value(&self) -> nat {
        value_of(self@)
    }

    /// Canonical form: no most significant zero digit.
    pub open spec fn wf(&self) -> bool {
        canonical(self@)
    }

    /// The big integer equal to the machine word `x`.
    pub fn new(x: u64) -> (r: Self)
        ensures
            r@ == if x == 0 {
                Seq::<u64>::empty()
            } else {
                seq![x]
            },
            r@ == digits_of(x as nat),
            r.wf(),
            r.value() == x,
    {
        let mut data: Vec<u64> = Vec::new();
        if x != 0 {
            data.push(x);
        }
        proof {
            if x != 0 {
                assert(data@ =~= seq![x]);
                assert(data@.drop_first() =~= Seq::<u64>::empty());
                assert(value_of(data@) == x as nat + crate::digits::radix() * value_of(
                    data@.drop_first(),
                ));
            }
            crate::digits::lemma_canonical_is_digits_of(data@);
        }
        BigInt { data }
    }

    /// Tells whether this value is in canonical form.
    pub fn test_invariant(&self) -> (r: bool)
        ensures
            r == self.wf(),
    {
        let n = self.data.len();
        if n == 0 {
            true
        } else {
            self.data[n - 1] != 0
        }
    }

    /// The big integer denoted by the digits `v`, least significant first: `v` without
    /// its most significant zero digits.
    pub fn from_vec(v: Vec<u64>) -> (r: Self)
        ensures
            r@ == trim(v@),
            r@ == digits_of(value_of(v@)),
            r.wf(),
            r.value() == value_of(v@),
    {
        let mut v = v;
        let ghost given = v@;
        remove_last_zeroes(&mut v);
        proof {
            lemma_trim(given);
            lemma_trim_is_digits_of(given);
        }
        BigInt { data: v }
    }

    /// The number of digits held.
    pub fn digits_count(&self) -> (r: usize)
        ensures
            r == self@.len(),
    {
        self.data.len()
    }

    /// The number of digits that are not zero.
    pub fn non_zero_digits_count(&self) -> (r: usize)
        ensures
            r == self@.filter(is_non_zero()).len(),
    {
        let mut count: usize = 0;
        let mut i: usize = 0;
        while i < self.data.len()
            invariant
                i <= self.data.len(),
                count == self@.take(i as int).filter(is_non_zero()).len(),
                count <= i,
            decreases self.data.len() - i,
        {
            proof {
                let before = self@.take(i as int);
                let after = self@.take(i + 1);
                assert(after.drop_last() =~= before);
                assert(after.last() == self@[i as int]);
                reveal(Seq::filter);
            }
            if self.data[i] > 0 {
                count = count + 1;
            }
            i = i + 1;
        }
        proof {
            assert(self@.take(i as int) =~= self@);
        }
        count
    }

    /// The smallest digit held, or `None` for the value zero.
    pub fn smallest_digit(&self) -> (r: Option<u64>)
        ensures
            r is None <==> self@.len() == 0,
            r matches Some(m) ==> self@.contains(m) && forall|i: int|
                0 <= i < self@.len() ==> m <= self@[i],
    {
        if self.data.len() == 0 {
            return None;
        }
        let mut best: u64 = self.data[0];
        let mut i: usize = 1;
        assert(self@[0] == best);
        while i < self.data.len()
            invariant
                1 <= i <= self.data.len(),
                self@.contains(best),
                forall|k: int| 0 <= k < i ==> best <= self@[k],
            decreases self.data.len() - i,
        {
            if self.data[i] < best {
                best = self.data[i];
            }
            i = i + 1;
        }
        Some(best)
    }

    /// The largest digit held, or `None` for the value zero.
    pub fn largest_digit(&self) -> (r: Option<u64>)
        ensures
            r is None <==> self@.len() == 0,
            r matches Some(m) ==> self@.contains(m) && forall|i: int|
                0 <= i < self@.len() ==> self@[i] <= m,
    {
        if self.data.len() == 0 {
            return None;
        }
        let mut best: u64 = self.data[0];
        let mut i: usize = 1;
        assert(self@[0] == best);
        while i < self.data.len()
            invariant
                1 <= i <= self.data.len(),
                self@.contains(best),
                forall|k: int| 0 <= k < i ==> self@[k] <= best,
            decreases self.data.len() - i,
        {
            if self.data[i] > best {
                best = self.data[i];
            }
            i = i + 1;
        }
        Some(best)
    }

    /// Wraps the digits `v` as they are, canonical or not.
    pub fn from_vec_without_remove_last_zeroes(v: Vec<u64>) -> (r: Self)
        ensures
            r@ == v@,
    {
        BigInt { data: v }
    }

    /// Tells whether this value is in canonical form, as `test_invariant` does.
    pub fn test_invariant_with_map_or(&self) -> (r: bool)
        ensures
            r == self.wf(),
    {
        match self.data.last() {
            None => true,
            Some(last_digit) => *last_digit != 0,
        }
    }
}

/// Two big integers made of one vector of digits: the first of a clone of it, the
/// second of the vector itself.
pub fn clone_demo() -> (r: (BigInt, BigInt))
    ensures
        r.0@ == seq![0u64, 65536u64],
        r.1@ == r.0@,
{
    let mut v: Vec<u64> = Vec::new();
    v.push(0);
    v.push(1 << 16);
    assert(1u64 << 16 == 65536u64) by (bit_vector);
    let b1 = BigInt::from_vec(v.clone());
    let b2 = BigInt::from_vec(v);
    proof {
        assert(v@ =~= seq![0u64, 65536u64]);
        assert(trim(v@) == v@);
    }
    (b1, b2)
}

/// Canonical values are equal digit for digit exactly when they denote the same
/// number.
pub proof fn equal_digits_iff_equal_value(x: BigInt, y: BigInt)
    requires
        x.wf(),
        y.wf(),
    ensures
        x@ == y@ <==> x.value() == y.value(),
{
    if x.value() == y.value() {
        crate::digits::lemma_canonical_unique(x@, y@);
    }
}

impl Clone for BigInt {
    fn clone(&self) -> (r: Self)
        ensures
            r@ == self@,
    {
        BigInt { data: self.data.clone() }
    }
}

impl PartialEq for BigInt {
    fn eq(&self, other: &Self) -> (r: bool) {
        let r = self.data == other.data;
        proof {
            if r {
                assert(self.data@ =~= other.data@);
            }
        }
        r
    }
}

impl vstd::std_specs::cmp::PartialEqSpecImpl for BigInt {
    open spec fn obeys_eq_spec() -> bool {
        true
    }

    open spec fn eq_spec(&self, other: &Self) -> bool {
        self@ == other@
    }
}

impl Eq for BigInt {

}

} // verus!
