//! Integer arithmetic helpers: scaled division and sums.

use vstd::arithmetic::div_mod::{
    lemma_div_by_multiple, lemma_div_by_multiple_is_strongly_ordered, lemma_div_is_ordered,
    lemma_div_multiples_vanish, lemma_div_pos_is_pos, lemma_fundamental_div_mod,
    lemma_fundamental_div_mod_converse_div,
};
use vstd::arithmetic::mul::{lemma_mul_inequality, lemma_mul_strict_inequality};
use vstd::prelude::*;

verus! {

/// `n * v / d` is below `v` when `n` is below `d`.
pub proof fn lemma_scaled_below(n: int, d: int, v: int)
    requires
        0 <= n < d,
        0 < v,
    ensures
        0 <= n * v / d < v,
{
    lemma_mul_strict_inequality(n, d, v);
    assert(n * v < v * d) by (nonlinear_arith)
        requires
            n < d,
            0 < v,
    ;
    assert(0 <= n * v) by (nonlinear_arith)
        requires
            0 <= n,
            0 < v,
    ;
    lemma_div_by_multiple_is_strongly_ordered(n * v, v * d, v, d);
    lemma_div_by_multiple(v, d);
    lemma_div_pos_is_pos(n * v, d);
}

/// `n * v / d` is at most `v` when `n` is at most `d`, and equals `v` when `n` is `d`.
pub proof fn lemma_scaled_le(n: int, d: int, v: int)
    requires
        0 <= n <= d,
        0 < d,
        0 <= v,
    ensures
        0 <= n * v / d <= v,
        n == d ==> n * v / d == v,
{
    lemma_mul_inequality(n, d, v);
    assert(0 <= n * v) by (nonlinear_arith)
        requires
            0 <= n,
            0 <= v,
    ;
    assert(n * v <= d * v) by (nonlinear_arith)
        requires
            n <= d,
            0 <= v,
    ;
    lemma_div_is_ordered(n * v, d * v, d);
    assert(d * v == v * d) by (nonlinear_arith);
    lemma_div_by_multiple(v, d);
    lemma_div_pos_is_pos(n * v, d);
}

/// `a / d + b / d <= (a + b) / d` for non-negative `a`, `b`.
pub proof fn lemma_div_sum_le(a: int, b: int, d: int)
    requires
        0 <= a,
        0 <= b,
        0 < d,
    ensures
        a / d + b / d <= (a + b) / d,
{
    lemma_fundamental_div_mod(a, d);
    lemma_fundamental_div_mod(b, d);
    let q = a / d + b / d;
    assert(d * q <= a + b) by (nonlinear_arith)
        requires
            a == d * (a / d) + a % d,
            b == d * (b / d) + b % d,
            0 <= a % d,
            0 <= b % d,
            q == a / d + b / d,
    ;
    lemma_div_is_ordered(d * q, a + b, d);
    lemma_div_multiples_vanish(q, d);
}

/// The sum of a sequence of integers.
pub open spec fn sum_of(s: Seq<int>) -> int
    decreases s.len(),
{
    if s.len() == 0 {
        0
    } else {
        sum_of(s.drop_last()) + s.last()
    }
}

/// Extending a prefix by one element adds that element to its sum.
pub proof fn lemma_sum_prefix_step(s: Seq<int>, i: int)
    requires
        0 <= i < s.len(),
    ensures
        sum_of(s.subrange(0, i + 1)) == sum_of(s.subrange(0, i)) + s[i],
{
    assert(s.subrange(0, i + 1).drop_last() =~= s.subrange(0, i));
}

/// With no negative element, every prefix sums to between zero and the whole sum, and
/// so does every element.
pub proof fn lemma_sum_prefix_le(s: Seq<int>, i: int)
    requires
        0 <= i <= s.len(),
        forall|j: int| 0 <= j < s.len() ==> #[trigger] s[j] >= 0,
    ensures
        0 <= sum_of(s.subrange(0, i)) <= sum_of(s),
        i < s.len() ==> s[i] <= sum_of(s),
    decreases s.len(),
{
    if i == s.len() {
        assert(s.subrange(0, i) =~= s);
        if s.len() > 0 {
            lemma_sum_prefix_le(s.drop_last(), 0);
        } else {
            assert(s.subrange(0, 0) =~= Seq::<int>::empty());
        }
    } else {
        let d = s.drop_last();
        lemma_sum_prefix_le(d, i);
        assert(d.subrange(0, i) =~= s.subrange(0, i));
        if i < d.len() {
            assert(d[i] == s[i]);
        } else {
            lemma_sum_prefix_le(d, 0);
            assert(d.subrange(0, 0) =~= Seq::<int>::empty());
        }
    }
}

/// `amount * part / whole`, computed without an intermediate that exceeds `amount`.
pub fn portion(amount: u128, part: u128, whole: u128) -> (r: u128)
    requires
        0 < whole <= u64::MAX,
        part <= whole,
    ensures
        r == (amount as int) * (part as int) / (whole as int),
        r <= amount,
{
    let q = amount / whole;
    let m = amount % whole;
    proof {
        lemma_fundamental_div_mod(amount as int, whole as int);
        assert(q * part <= q * whole) by (nonlinear_arith)
            requires
                part <= whole,
                0 <= q,
        ;
        assert(q * whole <= amount) by (nonlinear_arith)
            requires
                amount == whole * q + m,
                0 <= m,
        ;
        assert(m * part < 0x1_0000_0000_0000_0000_0000_0000_0000_0000) by (nonlinear_arith)
            requires
                m < whole,
                whole <= 0xffff_ffff_ffff_ffff,
                part <= whole,
                0 <= m,
        ;
    }
    let hi = q * part;
    let rest = m * part;
    let lo = rest / whole;
    proof {
        let t = rest % whole;
        lemma_fundamental_div_mod(rest as int, whole as int);
        assert(amount * part == (hi + lo) * whole + t) by (nonlinear_arith)
            requires
                amount == whole * q + m,
                hi == q * part,
                rest == m * part,
                rest == whole * lo + t,
        ;
        lemma_fundamental_div_mod_converse_div(amount * part, whole as int, hi + lo, t as int);
        lemma_scaled_le(part as int, whole as int, amount as int);
        assert(amount * part == part * amount) by (nonlinear_arith);
    }
    hi + lo
}

} // verus!
