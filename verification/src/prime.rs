//! Arithmetic modulo a prime: congruence, and the fact that a product vanishes only where a
//! factor does.
use vstd::prelude::*;
use vstd::arithmetic::div_mod::{
    lemma_add_mod_noop, lemma_fundamental_div_mod,
    lemma_mod_multiples_basic, lemma_mul_mod_noop, lemma_small_mod, lemma_sub_mod_noop,
};

verus! {

/// `p` is a prime number.
pub open spec fn is_prime(p: int) -> bool {
    &&& p > 1
    &&& forall|d: int| 1 < d < p ==> #[trigger] (p % d) != 0
}

/// `v` is zero in the field of integers modulo `p`.
pub open spec fn is_zero(v: int, p: int) -> bool {
    v % p == 0
}

/// `a` and `b` are the same element of the field of integers modulo `p`.
pub open spec fn same(a: int, b: int, p: int) -> bool {
    is_zero(a - b, p)
}

/// `v` is zero or one in the field of integers modulo `p`.
pub open spec fn is_bit(v: int, p: int) -> bool {
    same(v, 0, p) || same(v, 1, p)
}

/// Modulo `p` the statement `stated` tells what `vanishing` is: the one follows from the other, and
/// where `p` is prime, the two are the same.
pub open spec fn tells(vanishing: bool, stated: bool, p: int) -> bool {
    &&& p > 1 && stated ==> vanishing
    &&& is_prime(p) ==> (vanishing <==> stated)
}

/// `d` divides `a`, stated with a witness.
proof fn lemma_divides(a: int, d: int) -> (q: int)
    requires
        d > 0,
        a % d == 0,
    ensures
        a == d * q,
{
    lemma_fundamental_div_mod(a, d);
    a / d
}

/// A common divisor `g` of `x` and `y` such that `g * b` is divisible by `p` whenever `x * b`
/// and `y * b` are.
proof fn lemma_common_divisor(x: int, y: int, b: int, p: int) -> (g: int)
    requires
        x > 0,
        y >= 0,
        p > 1,
        (x * b) % p == 0,
        (y * b) % p == 0,
    ensures
        g > 0,
        x % g == 0,
        y % g == 0,
        (g * b) % p == 0,
    decreases y,
{
    if y == 0 {
        lemma_mod_multiples_basic(1, x);
        lemma_small_mod(0, x as nat);
        x
    } else {
        let r = x % y;
        let q = x / y;
        lemma_fundamental_div_mod(x, y);
        assert(r * b == x * b - q * (y * b)) by (nonlinear_arith)
            requires
                x == y * q + r,
        ;
        lemma_mul_mod_noop(q, y * b, p);
        lemma_sub_mod_noop(x * b, q * (y * b), p);
        assert((q * (y * b)) % p == 0) by {
            assert((q % p) * 0 == 0);
            lemma_small_mod(0, p as nat);
        }
        lemma_small_mod(0, p as nat);
        let g = lemma_common_divisor(y, r, b, p);
        let u = lemma_divides(y, g);
        let v = lemma_divides(r, g);
        assert(x == (u * q + v) * g) by (nonlinear_arith)
            requires
                x == y * q + r,
                y == g * u,
                r == g * v,
        ;
        lemma_mod_multiples_basic(u * q + v, g);
        g
    }
}

/// A product is zero modulo a prime exactly where one of its factors is.
pub proof fn lemma_product_is_zero(a: int, b: int, p: int)
    requires
        is_prime(p),
    ensures
        is_zero(a * b, p) <==> (is_zero(a, p) || is_zero(b, p)),
{
    lemma_mul_mod_noop(a, b, p);
    lemma_small_mod(0, p as nat);
    if is_zero(a, p) {
        assert((a % p) * (b % p) == 0) by (nonlinear_arith)
            requires
                a % p == 0,
        ;
    } else if is_zero(b, p) {
        assert((a % p) * (b % p) == 0) by (nonlinear_arith)
            requires
                b % p == 0,
        ;
    } else if is_zero(a * b, p) {
        let y = a % p;
        lemma_fundamental_div_mod(a, p);
        let q = a / p;
        lemma_mod_multiples_basic(b, p);
        assert(p * b == b * p) by (nonlinear_arith);
        lemma_mod_multiples_basic(q * b, p);
        assert(y * b == a * b - (q * b) * p) by (nonlinear_arith)
            requires
                a == p * q + y,
        ;
        lemma_sub_mod_noop(a * b, (q * b) * p, p);
        let g = lemma_common_divisor(p, y, b, p);
        if g == p {
            lemma_small_mod(y as nat, p as nat);
            assert(false);
        } else if g == 1 {
            assert(false);
        } else {
            if g > p {
                lemma_small_mod(p as nat, g as nat);
            }
            assert(p % g != 0);
            assert(false);
        }
    }
}

/// Congruence is symmetric.
pub proof fn lemma_same_symmetric(a: int, b: int, p: int)
    requires
        p > 1,
        same(a, b, p),
    ensures
        same(b, a, p),
{
    let q = lemma_divides(a - b, p);
    assert(b - a == (-q) * p) by (nonlinear_arith)
        requires
            a - b == p * q,
    ;
    lemma_mod_multiples_basic(-q, p);
}

/// Congruence is transitive.
pub proof fn lemma_same_transitive(a: int, b: int, c: int, p: int)
    requires
        p > 1,
        same(a, b, p),
        same(b, c, p),
    ensures
        same(a, c, p),
{
    lemma_add_mod_noop(a - b, b - c, p);
    lemma_small_mod(0, p as nat);
}

/// Numbers less than `p` apart are congruent only where they are equal.
pub proof fn lemma_same_small(a: int, b: int, p: int)
    requires
        p > 1,
        -p < a - b < p,
    ensures
        same(a, b, p) <==> a == b,
{
    if same(a, b, p) {
        let q = lemma_divides(a - b, p);
        assert(q == 0) by (nonlinear_arith)
            requires
                -p < p * q < p,
                p > 1,
        ;
    } else {
        lemma_small_mod(0, p as nat);
    }
}

/// Sums of congruent numbers are congruent.
pub proof fn lemma_same_sum(a: int, b: int, c: int, d: int, p: int)
    requires
        p > 1,
        same(a, b, p),
        same(c, d, p),
    ensures
        same(a + c, b + d, p),
{
    lemma_add_mod_noop(a - b, c - d, p);
    lemma_small_mod(0, p as nat);
}

/// Multiples of congruent numbers are congruent.
pub proof fn lemma_same_multiple(a: int, b: int, c: int, p: int)
    requires
        p > 1,
        same(a, b, p),
    ensures
        same(a * c, b * c, p),
{
    let q = lemma_divides(a - b, p);
    assert(a * c - b * c == (q * c) * p) by (nonlinear_arith)
        requires
            a - b == p * q,
    ;
    lemma_mod_multiples_basic(q * c, p);
}

/// A product is zero where a factor is.
pub proof fn lemma_product_with_zero(a: int, b: int, p: int)
    requires
        p > 1,
        is_zero(a, p) || is_zero(b, p),
    ensures
        is_zero(a * b, p),
{
    lemma_small_mod(0, p as nat);
    if is_zero(a, p) {
        lemma_same_multiple(a, 0, b, p);
    } else {
        lemma_same_multiple(b, 0, a, p);
        assert(b * a == a * b) by (nonlinear_arith);
    }
}

/// A number is congruent to itself.
pub proof fn lemma_same_reflexive(a: int, p: int)
    requires
        p > 1,
    ensures
        same(a, a, p),
{
    lemma_small_mod(0, p as nat);
}

} // verus!
