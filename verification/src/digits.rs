use vstd::prelude::*;

verus! {

/// The radix of the representation: one digit is one 64-bit machine word.
pub open spec fn radix() -> nat {
    0x1_0000_0000_0000_0000
}

/// The weight of the digit at index `n`, that is `radix()` to the power `n`.
pub open spec fn weight(n: nat) -> nat
    decreases n,
{
    if n == 0 {
        1
    } else {
        radix() * weight((n - 1) as nat)
    }
}

/// The natural number denoted by a digit sequence, least significant digit first.
pub open spec fn value_of(s: Seq<u64>) -> nat
    decreases s.len(),
{
    if s.len() == 0 {
        0
    } else {
        s[0] as nat + radix() * value_of(s.drop_first())
    }
}

/// Canonical form: the sequence is empty or its most significant digit is not zero.
pub open spec fn canonical(s: Seq<u64>) -> bool {
    s.len() == 0 || s.last() != 0
}

/// `s` without its run of most significant zero digits.
pub open spec fn trim(s: Seq<u64>) -> Seq<u64>
    decreases s.len(),
{
    if s.len() > 0 && s.last() == 0 {
        trim(s.drop_last())
    } else {
        s
    }
}

/// The canonical digit sequence of the natural number `n`.
pub open spec fn digits_of(n: nat) -> Seq<u64>
    decreases n,
{
    if n == 0 {
        Seq::empty()
    } else {
        seq![(n % radix()) as u64] + digits_of(n / radix())
    }
}

/// The digit of `s` at index `i`, reading zero beyond the most significant digit.
pub open spec fn digit_at(s: Seq<u64>, i: int) -> u64 {
    if 0 <= i < s.len() {
        s[i]
    } else {
        0
    }
}

/// The `n` least significant digits of `s`, zero-extended where `s` is shorter.
pub open spec fn low_digits(s: Seq<u64>, n: nat) -> Seq<u64> {
    Seq::new(n, |i: int| digit_at(s, i))
}

/// A run of `k` zero digits.
pub open spec fn zeros(k: nat) -> Seq<u64> {
    Seq::new(k, |i: int| 0u64)
}

/// Every weight is at least one.
pub proof fn lemma_weight_positive(n: nat)
    ensures
        weight(n) >= 1,
    decreases n,
{
    if n > 0 {
        lemma_weight_positive((n - 1) as nat);
        assert(radix() * weight((n - 1) as nat) >= 1) by (nonlinear_arith)
            requires
                weight((n - 1) as nat) >= 1,
                radix() >= 1,
        ;
    }
}

/// Appending a most significant digit `d` adds `d` times the weight of its position.
pub proof fn lemma_value_push(s: Seq<u64>, d: u64)
    ensures
        value_of(s.push(d)) == value_of(s) + d * weight(s.len()),
    decreases s.len(),
{
    let t = s.push(d);
    assert(t[0] == if s.len() == 0 { d } else { s[0] });
    if s.len() == 0 {
        assert(t.drop_first() =~= Seq::<u64>::empty());
        assert(value_of(t) == d as nat + radix() * value_of(t.drop_first()));
        assert(weight(0) == 1);
        assert(d * weight(0) == d) by (nonlinear_arith)
            requires
                weight(0) == 1,
        ;
    } else {
        let rest = s.drop_first();
        assert(t.drop_first() =~= rest.push(d));
        lemma_value_push(rest, d);
        let w = weight(rest.len());
        assert(weight(s.len()) == radix() * w);
        assert(value_of(t) == s[0] as nat + radix() * value_of(rest.push(d)));
        assert(d * (radix() * w) == radix() * (d * w)) by (nonlinear_arith);
        assert(radix() * (value_of(rest) + d * w) == radix() * value_of(rest) + radix() * (d * w))
            by (nonlinear_arith);
    }
}

/// A sequence of `n` digits denotes a number below `weight(n)`.
pub proof fn lemma_value_bound(s: Seq<u64>)
    ensures
        value_of(s) < weight(s.len()),
    decreases s.len(),
{
    if s.len() > 0 {
        let rest = s.drop_first();
        lemma_value_bound(rest);
        assert(radix() * value_of(rest) <= radix() * (weight(rest.len()) - 1)) by (nonlinear_arith)
            requires
                value_of(rest) <= weight(rest.len()) - 1,
        ;
        assert(radix() * (weight(rest.len()) - 1) == radix() * weight(rest.len()) - radix())
            by (nonlinear_arith);
    }
}

/// A non-empty canonical sequence denotes at least the weight of its top position,
/// so only the empty sequence denotes zero.
pub proof fn lemma_canonical_value(s: Seq<u64>)
    requires
        canonical(s),
        s.len() > 0,
    ensures
        value_of(s) >= weight((s.len() - 1) as nat),
        value_of(s) > 0,
{
    let front = s.drop_last();
    assert(front.push(s.last()) =~= s);
    lemma_value_push(front, s.last());
    lemma_weight_positive(front.len());
    assert(s.last() * weight(front.len()) >= weight(front.len())) by (nonlinear_arith)
        requires
            s.last() >= 1,
            weight(front.len()) >= 1,
    ;
}

/// Trimming yields a canonical prefix that denotes the same number.
pub proof fn lemma_trim(s: Seq<u64>)
    ensures
        canonical(trim(s)),
        value_of(trim(s)) == value_of(s),
        trim(s).len() <= s.len(),
        trim(s) == s.take(trim(s).len() as int),
        forall|i: int| trim(s).len() <= i < s.len() ==> s[i] == 0,
    decreases s.len(),
{
    if s.len() > 0 && s.last() == 0 {
        let front = s.drop_last();
        lemma_trim(front);
        assert(front.push(0u64) =~= s);
        lemma_value_push(front, 0u64);
        assert(trim(s) =~= s.take(trim(s).len() as int));
    } else {
        assert(s =~= s.take(s.len() as int));
    }
}

/// `digits_of(n)` is canonical and denotes `n`; it is empty exactly for zero.
pub proof fn lemma_digits_of(n: nat)
    ensures
        canonical(digits_of(n)),
        value_of(digits_of(n)) == n,
        digits_of(n).len() == 0 <==> n == 0,
    decreases n,
{
    if n > 0 {
        let q = n / radix();
        let r = n % radix();
        let d = digits_of(n);
        lemma_digits_of(q);
        assert(d.drop_first() =~= digits_of(q));
        assert(d[0] == r as u64);
        assert(n == radix() * q + r) by {
            vstd::arithmetic::div_mod::lemma_fundamental_div_mod(n as int, radix() as int);
        }
        if q == 0 {
            assert(d =~= seq![r as u64]);
        } else {
            assert(d.last() == digits_of(q).last());
        }
    }
}

/// A canonical sequence is the canonical digit sequence of the number it denotes.
pub proof fn lemma_canonical_is_digits_of(s: Seq<u64>)
    requires
        canonical(s),
    ensures
        digits_of(value_of(s)) == s,
    decreases s.len(),
{
    if s.len() > 0 {
        let rest = s.drop_first();
        let n = value_of(s);
        lemma_canonical_value(s);
        if rest.len() > 0 {
            assert(rest.last() == s.last());
        }
        lemma_canonical_is_digits_of(rest);
        vstd::arithmetic::div_mod::lemma_fundamental_div_mod_converse(
            n as int,
            radix() as int,
            value_of(rest) as int,
            s[0] as int,
        );
        assert(digits_of(n) =~= s);
    }
}

/// Two canonical sequences that denote the same number are the same sequence.
pub proof fn lemma_canonical_unique(s: Seq<u64>, t: Seq<u64>)
    requires
        canonical(s),
        canonical(t),
        value_of(s) == value_of(t),
    ensures
        s == t,
{
    lemma_canonical_is_digits_of(s);
    lemma_canonical_is_digits_of(t);
}

/// Trimming a sequence gives the canonical digits of the number it denotes.
pub proof fn lemma_trim_is_digits_of(s: Seq<u64>)
    ensures
        trim(s) == digits_of(value_of(s)),
{
    lemma_trim(s);
    lemma_canonical_is_digits_of(trim(s));
}

/// Most significant zero digits do not count: a sequence followed by any run of zero
/// digits trims to what the sequence alone trims to.
pub proof fn trim_ignores_trailing_zeros(v: Seq<u64>, k: nat)
    ensures
        trim(v + zeros(k)) == trim(v),
    decreases k,
{
    let w = v + zeros(k);
    if k == 0 {
        assert(w =~= v);
    } else {
        assert(w.last() == 0);
        assert(w.drop_last() =~= v + zeros((k - 1) as nat));
        trim_ignores_trailing_zeros(v, (k - 1) as nat);
    }
}

/// Zero-extending a sequence does not change the number it denotes.
pub proof fn lemma_low_digits_value(s: Seq<u64>, n: nat)
    requires
        n >= s.len(),
    ensures
        value_of(low_digits(s, n)) == value_of(s),
    decreases n,
{
    if n == s.len() {
        assert(low_digits(s, n) =~= s);
    } else {
        let m = (n - 1) as nat;
        lemma_low_digits_value(s, m);
        assert(low_digits(s, n) =~= low_digits(s, m).push(0u64));
        lemma_value_push(low_digits(s, m), 0u64);
    }
}

/// Taking one more low digit appends that digit at the top.
pub proof fn lemma_low_digits_step(s: Seq<u64>, n: nat)
    ensures
        low_digits(s, n + 1) == low_digits(s, n).push(digit_at(s, n as int)),
        value_of(low_digits(s, n + 1)) == value_of(low_digits(s, n)) + digit_at(s, n as int)
            * weight(n),
{
    assert(low_digits(s, n + 1) =~= low_digits(s, n).push(digit_at(s, n as int)));
    lemma_value_push(low_digits(s, n), digit_at(s, n as int));
}

} // verus!
