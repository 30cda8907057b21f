//! Integers as doubles.
use crate::value::{Value, SIGN};
use vstd::arithmetic::power2::{
    lemma2_to64, lemma_pow2_adds, lemma_pow2_pos, lemma_pow2_strictly_increases, lemma_pow2_unfold,
    pow2,
};
use vstd::prelude::*;

verus! {

/// The exponent of the largest power of two that is at most `n`.
pub open spec fn exponent(n: nat) -> nat
    decreases n,
{
    if n < 2 {
        0
    } else {
        1 + exponent(n / 2)
    }
}

/// The bit pattern of the double that holds the integer `n`, which is above zero and has at most
/// 53 binary digits: the biased exponent, and after it the digits that follow the first one.
pub open spec fn integer_pattern(n: nat) -> int {
    let e = exponent(n);
    (1023 + e) * pow2(52) + (n - pow2(e)) * pow2((52 - e) as nat)
}

/// Whether an integer has at most 53 binary digits, so that a double holds it exactly.
pub open spec fn fits(n: int) -> bool {
    -0x20_0000_0000_0000 < n < 0x20_0000_0000_0000
}

/// The double that holds an integer.
pub open spec fn integer_value(n: int) -> Value {
    if n == 0 {
        Value { bits: 0 }
    } else if n > 0 {
        Value { bits: integer_pattern(n as nat) as u64 }
    } else {
        Value { bits: (SIGN + integer_pattern((-n) as nat)) as u64 }
    }
}

proof fn lemma_exponent(n: nat)
    requires
        n > 0,
    ensures
        pow2(exponent(n)) <= n < pow2(exponent(n) + 1),
    decreases n,
{
    lemma2_to64();
    if n >= 2 {
        lemma_exponent(n / 2);
        lemma_pow2_unfold(exponent(n));
        lemma_pow2_unfold(exponent(n) + 1);
    }
}

proof fn lemma_pattern_bounds(n: nat)
    requires
        0 < n < 0x20_0000_0000_0000,
    ensures
        exponent(n) <= 52,
        (1023 + exponent(n)) * pow2(52) <= integer_pattern(n) < (1024 + exponent(n)) * pow2(52),
        0x3ff0_0000_0000_0000 <= integer_pattern(n) < 0x4340_0000_0000_0000,
{
    let e = exponent(n);
    lemma_exponent(n);
    lemma2_to64();
    assert(pow2(53) == 0x20_0000_0000_0000) by {
        lemma_pow2_unfold(53);
        assert(pow2(52) == 0x10_0000_0000_0000) by {
            lemma_pow2_adds(32, 20);
        }
    }
    assert(pow2(52) == 0x10_0000_0000_0000) by {
        lemma_pow2_adds(32, 20);
    }
    if e > 52 {
        if e > 53 {
            lemma_pow2_strictly_increases(53, e);
        }
    }
    let scale = pow2((52 - e) as nat);
    lemma_pow2_pos((52 - e) as nat);
    lemma_pow2_adds(e, (52 - e) as nat);
    lemma_pow2_unfold(e + 1);
    let rest = n - pow2(e);
    assert(0 <= rest * scale < pow2(e) * scale) by (nonlinear_arith)
        requires
            0 <= rest < pow2(e),
            scale > 0,
    ;
}

proof fn lemma_pattern_increases(n: nat, m: nat)
    requires
        0 < n < m < 0x20_0000_0000_0000,
    ensures
        integer_pattern(n) < integer_pattern(m),
{
    let e = exponent(n);
    let f = exponent(m);
    lemma_exponent(n);
    lemma_exponent(m);
    lemma_pattern_bounds(n);
    lemma_pattern_bounds(m);
    if e == f {
        let scale = pow2((52 - e) as nat);
        lemma_pow2_pos((52 - e) as nat);
        let a = n - pow2(e);
        let b = m - pow2(e);
        assert(a * scale < b * scale) by (nonlinear_arith)
            requires
                a < b,
                scale > 0,
        ;
    } else {
        if f < e {
            if f + 1 < e {
                lemma_pow2_strictly_increases(f + 1, e);
            }
        }
        assert((1024 + e) * pow2(52) <= (1023 + f) * pow2(52)) by (nonlinear_arith)
            requires
                e < f,
                pow2(52) >= 0,
        ;
    }
}

/// Doubles that hold integers are ordered as the integers are.
pub proof fn law_integers_keep_their_order(n: int, m: int)
    requires
        fits(n),
        fits(m),
    ensures
        !integer_value(n).nan(),
        integer_value(n).le(integer_value(m)) <==> n <= m,
{
    if n != 0 {
        lemma_pattern_bounds(if n > 0 { n as nat } else { (-n) as nat });
    }
    if m != 0 {
        lemma_pattern_bounds(if m > 0 { m as nat } else { (-m) as nat });
    }
    if 0 < n < m {
        lemma_pattern_increases(n as nat, m as nat);
    }
    if 0 < m < n {
        lemma_pattern_increases(m as nat, n as nat);
    }
    if n < m < 0 {
        lemma_pattern_increases((-m) as nat, (-n) as nat);
    }
    if m < n < 0 {
        lemma_pattern_increases((-n) as nat, (-m) as nat);
    }
}

} // verus!
