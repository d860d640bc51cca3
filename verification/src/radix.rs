//! Numbers written as fixed-length sequences of digits, most significant
//! digit first, and the lexicographic order of such sequences.
use vstd::arithmetic::div_mod::*;
use vstd::prelude::*;

verus! {

/// `base` raised to the power `e`.
pub open spec fn power(base: nat, e: nat) -> nat
    decreases e,
{
    if e == 0 {
        1
    } else {
        base * power(base, (e - 1) as nat)
    }
}

/// The value of `digits` read in base `base`, most significant digit first.
pub open spec fn radix_value(digits: Seq<u8>, base: nat) -> nat
    decreases digits.len(),
{
    if digits.len() == 0 {
        0
    } else {
        radix_value(digits.drop_last(), base) * base + digits.last() as nat
    }
}

/// The `n` lowest digits of `v` in base `base`, most significant first.
pub open spec fn radix_digits(v: nat, base: nat, n: nat) -> Seq<u8> {
    Seq::new(n, |i: int| ((v / power(base, (n - 1 - i) as nat)) % base) as u8)
}

/// Every digit is below `base`.
pub open spec fn digits_below(digits: Seq<u8>, base: nat) -> bool {
    forall|i: int| 0 <= i < digits.len() ==> #[trigger] digits[i] < base
}

/// Lexicographic order of byte sequences: the first difference decides, and
/// a proper prefix comes first.
pub open spec fn bytes_lt(a: Seq<u8>, b: Seq<u8>) -> bool
    decreases a.len(),
{
    if a.len() == 0 {
        b.len() > 0
    } else if b.len() == 0 {
        false
    } else if a[0] != b[0] {
        a[0] < b[0]
    } else {
        bytes_lt(a.skip(1), b.skip(1))
    }
}

pub proof fn lemma_power_positive(base: nat, e: nat)
    requires
        base > 0,
    ensures
        power(base, e) > 0,
    decreases e,
{
    if e > 0 {
        lemma_power_positive(base, (e - 1) as nat);
        assert(base * power(base, (e - 1) as nat) > 0) by (nonlinear_arith)
            requires
                base > 0,
                power(base, (e - 1) as nat) > 0,
        ;
    }
}

/// Splitting off the lowest digit.
pub proof fn lemma_radix_digits_split(v: nat, base: nat, n: nat)
    requires
        0 < base <= 256,
        n > 0,
    ensures
        radix_digits(v, base, n) == radix_digits(v / base, base, (n - 1) as nat).push(
            (v % base) as u8,
        ),
{
    let lhs = radix_digits(v, base, n);
    let rhs = radix_digits(v / base, base, (n - 1) as nat).push((v % base) as u8);
    assert forall|i: int| 0 <= i < n implies lhs[i] == rhs[i] by {
        if i < n - 1 {
            let k = (n - 2 - i) as nat;
            assert((n - 1 - i) as nat == k + 1);
            assert(power(base, (n - 1 - i) as nat) == base * power(base, k));
            lemma_power_positive(base, k);
            lemma_div_denominator(v as int, base as int, power(base, k) as int);
        } else {
            assert(power(base, (n - 1 - i) as nat) == 1);
        }
    }
    assert(lhs =~= rhs);
}

/// The digits of `v` have the value of `v` modulo `base^n`.
pub proof fn lemma_radix_value_of_digits(v: nat, base: nat, n: nat)
    requires
        0 < base <= 256,
    ensures
        radix_value(radix_digits(v, base, n), base) == v % power(base, n),
    decreases n,
{
    if n == 0 {
        assert(radix_digits(v, base, n) =~= Seq::<u8>::empty());
    } else {
        let ds = radix_digits(v, base, n);
        let p = power(base, (n - 1) as nat);
        lemma_radix_digits_split(v, base, n);
        lemma_radix_value_of_digits(v / base, base, (n - 1) as nat);
        assert(ds.drop_last() =~= radix_digits(v / base, base, (n - 1) as nat));
        lemma_mod_pos_bound(v as int, base as int);
        lemma_power_positive(base, (n - 1) as nat);
        lemma_breakdown(v as int, base as int, p as int);
        assert(((v / base) % p) * base == base * ((v / base) % p)) by (nonlinear_arith);
    }
}

/// A value below `base^n` is bounded by its digit count.
pub proof fn lemma_radix_value_bound(digits: Seq<u8>, base: nat)
    requires
        base > 0,
        digits_below(digits, base),
    ensures
        radix_value(digits, base) < power(base, digits.len()),
    decreases digits.len(),
{
    if digits.len() > 0 {
        let init = digits.drop_last();
        assert(digits_below(init, base));
        lemma_radix_value_bound(init, base);
        let r = radix_value(init, base);
        let p = power(base, init.len());
        let l = digits.last() as nat;
        assert(r * base + l < p * base) by (nonlinear_arith)
            requires
                r < p,
                l < base,
        ;
        assert(power(base, digits.len()) == base * p);
        assert(p * base == base * p) by (nonlinear_arith);
    }
}

/// Digits below the base are recovered from their value.
pub proof fn lemma_radix_digits_of_value(digits: Seq<u8>, base: nat)
    requires
        0 < base <= 256,
        digits_below(digits, base),
    ensures
        radix_digits(radix_value(digits, base), base, digits.len()) == digits,
    decreases digits.len(),
{
    let n = digits.len();
    if n == 0 {
        assert(radix_digits(radix_value(digits, base), base, n) =~= digits);
    } else {
        let init = digits.drop_last();
        let l = digits.last();
        let v = radix_value(digits, base);
        assert(digits_below(init, base));
        lemma_radix_digits_of_value(init, base);
        lemma_radix_digits_split(v, base, n);
        assert(l < base);
        lemma_fundamental_div_mod_converse(
            v as int,
            base as int,
            radix_value(init, base) as int,
            l as int,
        );
        assert(digits =~= init.push(l));
    }
}

/// The value of a non-empty sequence split at its most significant digit.
pub proof fn lemma_radix_value_front(digits: Seq<u8>, base: nat)
    requires
        digits.len() > 0,
    ensures
        radix_value(digits, base) == digits[0] as nat * power(base, (digits.len() - 1) as nat)
            + radix_value(digits.skip(1), base),
    decreases digits.len(),
{
    let n = digits.len();
    if n == 1 {
        assert(digits.drop_last() =~= Seq::<u8>::empty());
        assert(digits.skip(1) =~= Seq::<u8>::empty());
        assert(radix_value(digits, base) == radix_value(digits.drop_last(), base) * base
            + digits.last() as nat);
        assert(power(base, 0) == 1);
        assert(digits[0] as nat * 1 == digits[0] as nat);
        assert(radix_value(Seq::<u8>::empty(), base) == 0);
        assert(0 * base == 0);
        assert(digits.last() == digits[0]);
    } else {
        let init = digits.drop_last();
        lemma_radix_value_front(init, base);
        assert(init.skip(1) =~= digits.skip(1).drop_last());
        let tail = digits.skip(1);
        assert(tail.last() == digits.last());
        let d0 = digits[0] as nat;
        assert(init[0] == digits[0]);
        let p = power(base, (n - 2) as nat);
        let rt = radix_value(init.skip(1), base);
        assert(power(base, (n - 1) as nat) == base * p);
        assert(radix_value(digits, base) == radix_value(init, base) * base + digits.last() as nat);
        assert(radix_value(tail, base) == radix_value(tail.drop_last(), base) * base
            + tail.last() as nat);
        assert((d0 * p + rt) * base == d0 * (base * p) + rt * base) by (nonlinear_arith);
    }
}

/// For digit sequences of one length, lexicographic order is numeric order.
pub proof fn lemma_order_is_numeric(a: Seq<u8>, b: Seq<u8>, base: nat)
    requires
        base > 0,
        a.len() == b.len(),
        digits_below(a, base),
        digits_below(b, base),
    ensures
        bytes_lt(a, b) <==> radix_value(a, base) < radix_value(b, base),
    decreases a.len(),
{
    let n = a.len();
    if n > 0 {
        let (ta, tb) = (a.skip(1), b.skip(1));
        assert(digits_below(ta, base));
        assert(digits_below(tb, base));
        lemma_radix_value_front(a, base);
        lemma_radix_value_front(b, base);
        lemma_radix_value_bound(ta, base);
        lemma_radix_value_bound(tb, base);
        lemma_order_is_numeric(ta, tb, base);
        let p = power(base, (n - 1) as nat);
        let (a0, b0) = (a[0] as nat, b[0] as nat);
        let (ra, rb) = (radix_value(ta, base), radix_value(tb, base));
        if a0 < b0 {
            assert(a0 * p + ra < b0 * p + rb) by (nonlinear_arith)
                requires
                    a0 < b0,
                    ra < p,
            ;
        } else if a0 > b0 {
            assert(b0 * p + rb < a0 * p + ra) by (nonlinear_arith)
                requires
                    b0 < a0,
                    rb < p,
            ;
        }
    }
}

/// Between sequences of one length, the first position where they differ
/// decides their order.
pub proof fn lemma_first_difference(a: Seq<u8>, b: Seq<u8>, i: int)
    requires
        a.len() == b.len(),
        0 <= i < a.len(),
        forall|j: int| 0 <= j < i ==> #[trigger] a[j] == b[j],
        a[i] != b[i],
    ensures
        bytes_lt(a, b) == (a[i] < b[i]),
    decreases i,
{
    if i > 0 {
        assert(a[0] == b[0]);
        assert forall|j: int| 0 <= j < i - 1 implies #[trigger] a.skip(1)[j] == b.skip(1)[j] by {
            assert(a[j + 1] == b[j + 1]);
        }
        lemma_first_difference(a.skip(1), b.skip(1), i - 1);
    }
}

/// [`lemma_first_difference`] at an index held in a `usize`; the result for
/// both orders of the two sequences.
pub proof fn lemma_first_difference_at(a: Seq<u8>, b: Seq<u8>, i: usize)
    requires
        a.len() == b.len(),
        i < a.len(),
        forall|j: int| 0 <= j < i ==> #[trigger] a[j] == b[j],
        a[i as int] != b[i as int],
    ensures
        bytes_lt(a, b) == (a[i as int] < b[i as int]),
        bytes_lt(b, a) == (b[i as int] < a[i as int]),
{
    lemma_first_difference(a, b, i as int);
    lemma_first_difference(b, a, i as int);
}

/// No sequence comes before itself.
pub proof fn lemma_bytes_lt_irreflexive(a: Seq<u8>)
    ensures
        !bytes_lt(a, a),
    decreases a.len(),
{
    if a.len() > 0 {
        lemma_bytes_lt_irreflexive(a.skip(1));
    }
}

/// The value of two digit sequences written one after the other.
pub proof fn lemma_radix_value_concat(high: Seq<u8>, low: Seq<u8>, base: nat)
    ensures
        radix_value(high + low, base) == radix_value(high, base) * power(base, low.len())
            + radix_value(low, base),
    decreases low.len(),
{
    if low.len() == 0 {
        assert(high + low =~= high);
        assert(radix_value(high, base) * 1 == radix_value(high, base));
    } else {
        let low_init = low.drop_last();
        lemma_radix_value_concat(high, low_init, base);
        assert((high + low).drop_last() =~= high + low_init);
        assert((high + low).last() == low.last());
        let h = radix_value(high, base);
        let p = power(base, low_init.len());
        let r = radix_value(low_init, base);
        assert(power(base, low.len()) == base * p);
        assert((h * p + r) * base == h * (base * p) + r * base) by (nonlinear_arith);
    }
}

/// Only the value modulo `base^n` matters to its `n` lowest digits.
pub proof fn lemma_radix_digits_mod(v: nat, base: nat, n: nat)
    requires
        0 < base <= 256,
    ensures
        radix_digits(v % power(base, n), base, n) == radix_digits(v, base, n),
{
    let ds = radix_digits(v, base, n);
    assert(digits_below(ds, base)) by {
        assert forall|i: int| 0 <= i < ds.len() implies #[trigger] ds[i] < base by {
            lemma_power_positive(base, (n - 1 - i) as nat);
            lemma_mod_pos_bound((v / power(base, (n - 1 - i) as nat)) as int, base as int);
        }
    }
    lemma_radix_digits_of_value(ds, base);
    lemma_radix_value_of_digits(v, base, n);
}

/// `2^128`, one more than the largest `u128`.
pub open spec fn two_pow_128() -> nat {
    u128::MAX as nat + 1
}

/// Reads `digits` in base `base`, most significant first, keeping the value
/// modulo 2^128 (higher bits are dropped).
pub fn fold_digits(digits: &[u8], base: u128) -> (v: u128)
    requires
        base > 0,
    ensures
        v == radix_value(digits@, base as nat) % two_pow_128(),
{
    let mut acc: u128 = 0;
    let mut i: usize = 0;
    proof {
        assert(digits@.take(0) =~= Seq::<u8>::empty());
        assert(radix_value(digits@.take(0), base as nat) == 0);
    }
    while i < digits.len()
        invariant
            0 <= i <= digits@.len(),
            base > 0,
            acc == radix_value(digits@.take(i as int), base as nat) % two_pow_128(),
        decreases digits@.len() - i,
    {
        let d = digits[i];
        let ghost r = radix_value(digits@.take(i as int), base as nat);
        let scaled = acc.wrapping_mul(base);
        let next = scaled.wrapping_add(d as u128);
        proof {
            let m = two_pow_128() as int;
            assert(digits@.take(i + 1).drop_last() =~= digits@.take(i as int));
            assert(radix_value(digits@.take(i + 1), base as nat) == r * base + d);
            lemma_mul_mod_noop_left(r as int, base as int, m);
            assert(scaled == ((r * base) as int) % m);
            lemma_small_mod(d as nat, m as nat);
            lemma_add_mod_noop((r * base) as int, d as int, m);
            assert(next == (scaled + d) % m);
        }
        acc = next;
        i = i + 1;
    }
    proof {
        assert(digits@.take(digits@.len() as int) =~= digits@);
    }
    acc
}

/// The `n` lowest digits of `v` in base `base`, most significant first.
pub fn split_digits(v: u128, base: u128, n: usize) -> (digits: Vec<u8>)
    requires
        2 <= base <= 256,
    ensures
        digits@ == radix_digits(v as nat, base as nat, n as nat),
{
    let ghost target = radix_digits(v as nat, base as nat, n as nat);
    let mut digits = vec![0u8; n];
    let mut rest = v;
    let mut k: usize = 0;
    proof {
        assert(power(base as nat, 0) == 1);
        assert(v as nat / 1 == v as nat);
    }
    while k < n
        invariant
            2 <= base <= 256,
            target == radix_digits(v as nat, base as nat, n as nat),
            digits@.len() == n,
            k <= n,
            rest as nat == v as nat / power(base as nat, k as nat),
            forall|j: int| n - k <= j < n ==> #[trigger] digits@[j] == target[j],
        decreases n - k,
    {
        proof {
            lemma_power_positive(base as nat, k as nat);
            assert((n - 1 - (n - 1 - k)) as nat == k as nat);
        }
        digits.set(n - 1 - k, (rest % base) as u8);
        proof {
            lemma_div_denominator(v as int, power(base as nat, k as nat) as int, base as int);
            assert(power(base as nat, (k + 1) as nat) == base * power(base as nat, k as nat));
            assert(power(base as nat, k as nat) * base == base * power(base as nat, k as nat))
                by (nonlinear_arith);
        }
        rest = rest / base;
        k = k + 1;
    }
    proof {
        assert(digits@ =~= target);
    }
    digits
}

} // verus!
