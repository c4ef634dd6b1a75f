//! Alignment arithmetic: rounding to a quantum, greatest common divisors and
//! least common multiples of machine integers.

use vstd::prelude::*;
use vstd::arithmetic::div_mod::{
    lemma_fundamental_div_mod, lemma_mod_multiples_basic, lemma_small_mod,
};

verus! {

/// The largest multiple of `nearest` that does not exceed `x`.
pub open spec fn spec_down_to_nearest(x: int, nearest: int) -> int {
    (x / nearest) * nearest
}

/// The smallest multiple of `nearest` that is not below `x`.
pub open spec fn spec_up_to_nearest(x: int, nearest: int) -> int {
    if x % nearest == 0 {
        x
    } else {
        (x / nearest + 1) * nearest
    }
}

/// `d` is positive and divides both `a` and `b`.
pub open spec fn common_divisor(d: nat, a: nat, b: nat) -> bool {
    d > 0 && a % d == 0 && b % d == 0
}

/// `g` is the greatest common divisor of `a` and `b`: the largest number that
/// divides both, and 0 when both are 0.
pub open spec fn is_gcd(a: nat, b: nat, g: nat) -> bool {
    if a == 0 && b == 0 {
        g == 0
    } else {
        &&& common_divisor(g, a, b)
        &&& forall|d: nat| #[trigger] common_divisor(d, a, b) ==> d <= g
    }
}

/// The greatest common divisor of `a` and `b`.
pub open spec fn spec_gcd(a: nat, b: nat) -> nat {
    choose|g: nat| is_gcd(a, b, g)
}

/// The common multiple `a * (b / gcd(a, b))` of `a` and `b`, and 0 when both
/// are 0.
pub open spec fn spec_lcm(a: nat, b: nat) -> nat {
    if a == 0 && b == 0 {
        0
    } else {
        a * (b / spec_gcd(a, b))
    }
}

/// `a` and `b` have no common divisor but 1.
pub open spec fn coprime(a: nat, b: nat) -> bool {
    is_gcd(a, b, 1)
}

/// A pair of numbers has at most one greatest common divisor.
pub proof fn lemma_gcd_unique(a: nat, b: nat, g1: nat, g2: nat)
    requires
        is_gcd(a, b, g1),
        is_gcd(a, b, g2),
    ensures
        g1 == g2,
{
    if !(a == 0 && b == 0) {
        assert(common_divisor(g1, a, b));
        assert(common_divisor(g2, a, b));
    }
}

/// Whatever satisfies `is_gcd` is the value of `spec_gcd`.
pub proof fn lemma_gcd_is_spec_gcd(a: nat, b: nat, g: nat)
    requires
        is_gcd(a, b, g),
    ensures
        spec_gcd(a, b) == g,
        is_gcd(a, b, spec_gcd(a, b)),
{
    lemma_gcd_unique(a, b, g, spec_gcd(a, b));
}

/// A number that leaves remainder 1 modulo `n` shares no divisor with `n`.
pub proof fn lemma_one_more_than_multiple_is_coprime(m: nat, n: nat)
    requires
        n >= 2,
        m % n == 1,
    ensures
        coprime(m, n),
{
    assert(common_divisor(1, m, n));
    assert forall|d: nat| #[trigger] common_divisor(d, m, n) implies d <= 1 by {
        // d divides n, hence every multiple of n, hence m - 1; it divides m too.
        let q = m as int / n as int;
        let k = n as int / d as int;
        let j = m as int / d as int;
        lemma_fundamental_div_mod(m as int, n as int);
        lemma_fundamental_div_mod(n as int, d as int);
        lemma_fundamental_div_mod(m as int, d as int);
        assert(n as int == d * k);
        assert(m as int == d * j);
        assert(m as int == n * q + 1);
        assert(d * j == (d * k) * q + 1);
        assert((d * k) * q == d * (k * q)) by (nonlinear_arith);
        assert(d * j - d * (k * q) == d * (j - k * q)) by (nonlinear_arith);
        assert(d * (j - k * q) == 1);
        assert(d <= 1) by (nonlinear_arith)
            requires
                d * (j - k * q) == 1,
                d > 0,
        ;
    }
}

/// The least common multiple is a multiple of both of its arguments.
pub proof fn lemma_lcm_is_common_multiple(a: nat, b: nat)
    requires
        a > 0,
        b > 0,
    ensures
        spec_lcm(a, b) % a == 0,
        spec_lcm(a, b) % b == 0,
        spec_lcm(a, b) >= a,
        spec_lcm(a, b) >= b,
{
    let g = spec_gcd(a, b);
    lemma_gcd_exists(a, b);
    assert(is_gcd(a, b, g));
    assert(common_divisor(g, a, b));
    let p = a as int / g as int;
    let q = b as int / g as int;
    lemma_fundamental_div_mod(a as int, g as int);
    lemma_fundamental_div_mod(b as int, g as int);
    assert(a as int == g * p);
    assert(b as int == g * q);
    assert(p >= 1 && q >= 1) by (nonlinear_arith)
        requires
            a as int == g * p,
            b as int == g * q,
            a > 0,
            b > 0,
            g > 0,
    ;
    let l = spec_lcm(a, b) as int;
    assert(l == a * q);
    assert(l == b * p) by (nonlinear_arith)
        requires
            l == a * q,
            a as int == g * p,
            b as int == g * q,
    ;
    lemma_mod_multiples_basic(q, a as int);
    lemma_mod_multiples_basic(p, b as int);
    assert(a * q == q * a) by (nonlinear_arith);
    assert(b * p == p * b) by (nonlinear_arith);
    assert(l >= a && l >= b) by (nonlinear_arith)
        requires
            l == a * q,
            l == b * p,
            p >= 1,
            q >= 1,
            a > 0,
            b > 0,
    ;
}

/// Every pair of numbers has a greatest common divisor.
pub proof fn lemma_gcd_exists(a: nat, b: nat)
    ensures
        is_gcd(a, b, spec_gcd(a, b)),
{
    if a == 0 && b == 0 {
        assert(is_gcd(a, b, 0));
    } else {
        let bound = if a == 0 { b } else { a };
        assert forall|d: nat| #[trigger] common_divisor(d, a, b) implies d <= bound by {
            lemma_divisor_is_small(d, bound);
        }
        assert(common_divisor(1, a, b));
        lemma_greatest_below(a, b, bound, bound);
    }
}

/// Every number is coprime with 1.
pub proof fn lemma_coprime_with_one(m: nat)
    ensures
        coprime(m, 1),
{
    assert(common_divisor(1, m, 1)) by {
        vstd::arithmetic::div_mod::lemma_mod_multiples_basic(m as int, 1);
    }
    assert forall|d: nat| #[trigger] common_divisor(d, m, 1) implies d <= 1 by {
        lemma_divisor_is_small(d, 1);
    }
}

/// A positive number is at least as large as each of its divisors.
pub proof fn lemma_divisor_is_small(d: nat, n: nat)
    requires
        d > 0,
        n > 0,
        n % d == 0,
    ensures
        d <= n,
{
    if d > n {
        lemma_small_mod(n, d);
    }
}

/// Among the common divisors of `a` and `b`, all of which are at most
/// `bound`, there is a greatest one, found at or below `from`.
proof fn lemma_greatest_below(a: nat, b: nat, bound: nat, from: nat)
    requires
        !(a == 0 && b == 0),
        from >= 1,
        forall|d: nat| #[trigger] common_divisor(d, a, b) ==> d <= bound,
        forall|d: nat| #[trigger] common_divisor(d, a, b) ==> d <= from,
    ensures
        is_gcd(a, b, spec_gcd(a, b)),
    decreases from,
{
    if common_divisor(from, a, b) {
        assert(is_gcd(a, b, from));
    } else {
        assert(from > 1) by {
            assert(common_divisor(1, a, b));
        }
        assert forall|d: nat| #[trigger] common_divisor(d, a, b) implies d <= (from - 1) as nat by {
            assert(d <= from);
            assert(d != from);
        }
        lemma_greatest_below(a, b, bound, (from - 1) as nat);
    }
}

/// A number divides `n`: it is positive and leaves no remainder.
pub open spec fn divides(d: int, n: int) -> bool {
    d > 0 && n % d == 0
}

/// A divisor of two numbers divides every sum of multiples of them.
pub proof fn lemma_divides_combination(d: int, x: int, y: int, m: int, n: int)
    requires
        divides(d, x),
        divides(d, y),
    ensures
        divides(d, x * m + y * n),
{
    lemma_fundamental_div_mod(x, d);
    lemma_fundamental_div_mod(y, d);
    let p = x / d;
    let q = y / d;
    assert(x * m + y * n == (p * m + q * n) * d) by (nonlinear_arith)
        requires
            x == d * p,
            y == d * q,
    ;
    lemma_mod_multiples_basic(p * m + q * n, d);
}

/// The common divisors of `a` and `b` are those of `b` and of the remainder
/// of `a` by `b`.
pub proof fn lemma_common_divisors_of_remainder(d: nat, a: nat, b: nat)
    requires
        b > 0,
    ensures
        common_divisor(d, a, b) <==> common_divisor(d, b, a % b),
{
    let q = a as int / b as int;
    let r = a as int % b as int;
    lemma_fundamental_div_mod(a as int, b as int);
    if common_divisor(d, a, b) {
        lemma_divides_combination(d as int, a as int, b as int, 1, -q);
        assert(a * 1 + b * (-q) == r) by (nonlinear_arith)
            requires
                a as int == b * q + r,
        ;
    }
    if common_divisor(d, b, a % b) {
        lemma_divides_combination(d as int, b as int, r, q, 1);
        assert(b * q + r * 1 == a as int) by (nonlinear_arith)
            requires
                a as int == b * q + r,
        ;
    }
}

/// The greatest common divisor of two numbers is a sum of multiples of
/// them.
pub proof fn lemma_bezout(a: nat, b: nat) -> (r: (int, int))
    ensures
        a * r.0 + b * r.1 == spec_gcd(a, b),
    decreases b,
{
    lemma_gcd_exists(a, b);
    if b == 0 {
        if a > 0 {
            assert(common_divisor(a, a, 0)) by {
                lemma_mod_multiples_basic(1, a as int);
                lemma_small_mod(0, a);
            }
            assert forall|d: nat| #[trigger] common_divisor(d, a, 0) implies d <= a by {
                lemma_divisor_is_small(d, a);
            }
            assert(is_gcd(a, 0, a));
            lemma_gcd_is_spec_gcd(a, 0, a);
        }
        assert(a * 1 + b * 0 == a) by (nonlinear_arith)
            requires
                b == 0,
        ;
        (1, 0)
    } else {
        let rem = (a % b) as nat;
        let q = a as int / b as int;
        let inner = lemma_bezout(b, rem);
        let g = spec_gcd(b, rem);
        lemma_gcd_exists(b, rem);
        lemma_fundamental_div_mod(a as int, b as int);
        assert(is_gcd(a, b, g)) by {
            lemma_common_divisors_of_remainder(g, a, b);
            assert forall|d: nat| #[trigger] common_divisor(d, a, b) implies d <= g by {
                lemma_common_divisors_of_remainder(d, a, b);
                assert(common_divisor(d, b, rem));
            }
        }
        lemma_gcd_is_spec_gcd(a, b, g);
        let x = inner.1;
        let y = inner.0 - q * inner.1;
        assert(a * x + b * y == b * inner.0 + rem * inner.1) by (nonlinear_arith)
            requires
                a as int == b * q + rem,
                x == inner.1,
                y == inner.0 - q * inner.1,
        ;
        (x, y)
    }
}

/// A number that divides a product and shares no divisor with one factor
/// divides the other factor.
pub proof fn lemma_coprime_divides_factor(n: nat, m: nat, k: int)
    requires
        n > 0,
        coprime(m, n),
        (m * k) % (n as int) == 0,
    ensures
        k % (n as int) == 0,
{
    let (x, y) = lemma_bezout(m, n);
    lemma_gcd_is_spec_gcd(m, n, 1);
    assert(m * x + n * y == 1);
    let t = (m * k) / (n as int);
    lemma_fundamental_div_mod(m * k, n as int);
    assert(m * k == n * t);
    assert(k == (t * x + k * y) * n) by (nonlinear_arith)
        requires
            m * x + n * y == 1,
            m * k == n * t,
    ;
    lemma_mod_multiples_basic(t * x + k * y, n as int);
}

/// Multiplying by a number that shares no divisor with `n` sends different
/// numbers below `n` to different remainders modulo `n`.
pub proof fn lemma_coprime_multiplier_is_injective(n: nat, m: nat, i: int, j: int)
    requires
        coprime(m, n),
        0 <= i < n,
        0 <= j < n,
        (i * m) % (n as int) == (j * m) % (n as int),
    ensures
        i == j,
{
    vstd::arithmetic::div_mod::lemma_mod_equivalence(i * m, j * m, n as int);
    assert(i * m - j * m == m * (i - j)) by (nonlinear_arith);
    lemma_coprime_divides_factor(n, m, i - j);
    if i > j {
        lemma_small_mod((i - j) as nat, n);
    } else if j > i {
        vstd::arithmetic::div_mod::lemma_mod_equivalence(i, j, n as int);
        lemma_small_mod(i as nat, n);
        lemma_small_mod(j as nat, n);
    }
}

/// Rounds `x` down to a multiple of `nearest`.
pub fn down_to_nearest(x: usize, nearest: usize) -> (r: usize)
    requires
        nearest > 0,
    ensures
        r == spec_down_to_nearest(x as int, nearest as int),
        r <= x,
        x - r < nearest,
        r % nearest == 0,
{
    proof {
        lemma_round_down(x as int, nearest as int);
    }
    (x / nearest) * nearest
}

/// Rounds `x` up to a multiple of `nearest`.
pub fn up_to_nearest(x: usize, nearest: usize) -> (r: usize)
    requires
        nearest > 0,
        spec_up_to_nearest(x as int, nearest as int) <= usize::MAX,
    ensures
        r == spec_up_to_nearest(x as int, nearest as int),
        r >= x,
        r - x < nearest,
        r % nearest == 0,
{
    proof {
        lemma_round_up(x as int, nearest as int);
    }
    let rem: usize = x % nearest;
    if rem == 0 {
        x
    } else {
        x + (nearest - rem)
    }
}

/// Rounds `x` up to a multiple of `nearest`, or reports that there is no such
/// multiple: `nearest` is 0, or the multiple does not fit the machine word.
pub fn checked_up_to_nearest(x: usize, nearest: usize) -> (r: Option<usize>)
    ensures
        r is Some <==> nearest > 0 && spec_up_to_nearest(x as int, nearest as int) <= usize::MAX,
        r is Some ==> r->0 == spec_up_to_nearest(x as int, nearest as int),
{
    if nearest == 0 {
        return None;
    }
    proof {
        lemma_round_up(x as int, nearest as int);
    }
    let rem: usize = x % nearest;
    if rem == 0 {
        Some(x)
    } else {
        match x.checked_add(nearest - rem) {
            Some(r) => Some(r),
            None => None,
        }
    }
}

/// What rounding down gives: a multiple of the quantum, less than one quantum
/// below the argument.
pub proof fn lemma_round_down(x: int, nearest: int)
    requires
        x >= 0,
        nearest > 0,
    ensures
        spec_down_to_nearest(x, nearest) == x - x % nearest,
        0 <= spec_down_to_nearest(x, nearest) <= x,
        x - spec_down_to_nearest(x, nearest) < nearest,
        spec_down_to_nearest(x, nearest) % nearest == 0,
        spec_down_to_nearest(x, nearest) / nearest == x / nearest,
{
    lemma_fundamental_div_mod(x, nearest);
    lemma_mod_multiples_basic(x / nearest, nearest);
    assert((x / nearest) * nearest == nearest * (x / nearest)) by (nonlinear_arith);
    vstd::arithmetic::div_mod::lemma_div_multiples_vanish(x / nearest, nearest);
}

/// What rounding up gives: a multiple of the quantum, less than one quantum
/// above the argument.
pub proof fn lemma_round_up(x: int, nearest: int)
    requires
        x >= 0,
        nearest > 0,
    ensures
        spec_up_to_nearest(x, nearest) == if x % nearest == 0 {
            x
        } else {
            x + (nearest - x % nearest)
        },
        spec_up_to_nearest(x, nearest) >= x,
        spec_up_to_nearest(x, nearest) - x < nearest,
        spec_up_to_nearest(x, nearest) % nearest == 0,
{
    lemma_fundamental_div_mod(x, nearest);
    assert((x / nearest + 1) * nearest == nearest * (x / nearest) + nearest) by (nonlinear_arith);
    lemma_mod_multiples_basic(x / nearest + 1, nearest);
}

/// A number between two consecutive multiples of a quantum has the smaller
/// one's factor as its quotient.
pub proof fn lemma_quotient_between_multiples(x: int, nearest: int, q: int)
    requires
        nearest > 0,
        q * nearest <= x < (q + 1) * nearest,
    ensures
        x / nearest == q,
        spec_down_to_nearest(x, nearest) == q * nearest,
{
    assert((q + 1) * nearest == q * nearest + nearest) by (nonlinear_arith);
    vstd::arithmetic::div_mod::lemma_fundamental_div_mod_converse(
        x,
        nearest,
        q,
        x - q * nearest,
    );
}

/// The sum of two multiples of a quantum is a multiple of it.
pub proof fn lemma_sum_of_multiples(a: int, b: int, nearest: int)
    requires
        nearest > 0,
        a % nearest == 0,
        b % nearest == 0,
    ensures
        (a + b) % nearest == 0,
{
    lemma_fundamental_div_mod(a, nearest);
    lemma_fundamental_div_mod(b, nearest);
    let p = a / nearest;
    let q = b / nearest;
    assert(a + b == (p + q) * nearest) by (nonlinear_arith)
        requires
            a == nearest * p,
            b == nearest * q,
    ;
    lemma_mod_multiples_basic(p + q, nearest);
}

/// `num::integer::gcd` on machine words: Stein's algorithm, which gives the
/// greatest common divisor of its arguments, the other argument when one is
/// 0, and 0 when both are.
#[verifier::external_body]
pub(crate) fn gcd(x: usize, y: usize) -> (r: usize)
    ensures
        is_gcd(x as nat, y as nat, r as nat),
{
    num::integer::gcd(x, y)
}

/// `num::integer::lcm` on machine words: 0 when both arguments are 0, else
/// the first argument times the quotient of the second by their greatest
/// common divisor. The product must fit the machine word.
#[verifier::external_body]
pub(crate) fn lcm(x: usize, y: usize) -> (r: usize)
    requires
        spec_lcm(x as nat, y as nat) <= usize::MAX,
    ensures
        r == spec_lcm(x as nat, y as nat),
{
    num::integer::lcm(x, y)
}

/// The greatest common divisor of two machine words.
pub fn greatest_common_divisor(x: usize, y: usize) -> (r: usize)
    ensures
        r == spec_gcd(x as nat, y as nat),
        is_gcd(x as nat, y as nat, r as nat),
{
    let g = gcd(x, y);
    proof {
        lemma_gcd_is_spec_gcd(x as nat, y as nat, g as nat);
    }
    g
}

/// The least common multiple of two machine words, where it fits one.
pub fn checked_lcm(x: usize, y: usize) -> (r: Option<usize>)
    ensures
        r is Some <==> spec_lcm(x as nat, y as nat) <= usize::MAX,
        r is Some ==> r->0 == spec_lcm(x as nat, y as nat),
{
    let g = greatest_common_divisor(x, y);
    if g == 0 {
        assert(x == 0 && y == 0) by {
            if !(x == 0 && y == 0) {
                assert(common_divisor(g as nat, x as nat, y as nat));
            }
        }
        return Some(lcm(x, y));
    }
    assert(!(x == 0 && y == 0));
    let q: usize = y / g;
    match x.checked_mul(q) {
        Some(_) => Some(lcm(x, y)),
        None => None,
    }
}

} // verus!
