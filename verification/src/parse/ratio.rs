//! Common multiples: the resolution at which messages of different lengths
//! meet.

use vstd::arithmetic::div_mod::{lemma_fundamental_div_mod, lemma_mod_multiples_basic, lemma_mod_self_0};
use vstd::prelude::*;

verus! {

/// The greatest common divisor of `a` and `b`, by Euclid's rule.
pub open spec fn gcd(a: nat, b: nat) -> nat
    decreases b,
{
    if b == 0 {
        a
    } else {
        gcd(b, a % b)
    }
}

/// The least common multiple of `a` and `b`: their product over their
/// greatest common divisor.
pub open spec fn lcm(a: nat, b: nat) -> nat {
    if a == 0 || b == 0 {
        0
    } else {
        (a / gcd(a, b)) * b
    }
}

/// The greatest common divisor divides both numbers.
pub proof fn lemma_gcd(a: nat, b: nat)
    requires
        a > 0 || b > 0,
    ensures
        gcd(a, b) > 0,
        a % gcd(a, b) == 0,
        b % gcd(a, b) == 0,
    decreases b,
{
    if b > 0 {
        let r = a % b;
        lemma_gcd(b, r);
        let g = gcd(b, r) as int;
        lemma_fundamental_div_mod(a as int, b as int);
        lemma_fundamental_div_mod(b as int, g);
        lemma_fundamental_div_mod(r as int, g);
        let x = b as int / g;
        let y = r as int / g;
        let q = a as int / b as int;
        assert(a == (x * q + y) * g) by (nonlinear_arith)
            requires
                a == b * q + r,
                b == g * x,
                r == g * y,
        ;
        lemma_mod_multiples_basic(x * q + y, g);
    } else {
        lemma_mod_self_0(a as int);
        vstd::arithmetic::div_mod::lemma_small_mod(0, a);
    }
}

/// The least common multiple is a multiple of both numbers, and no smaller
/// than either.
pub proof fn lemma_lcm(a: nat, b: nat)
    requires
        a > 0,
        b > 0,
    ensures
        lcm(a, b) % a == 0,
        lcm(a, b) % b == 0,
        lcm(a, b) >= a,
        lcm(a, b) >= b,
{
    lemma_gcd(a, b);
    let g = gcd(a, b) as int;
    lemma_fundamental_div_mod(a as int, g);
    lemma_fundamental_div_mod(b as int, g);
    let x = a as int / g;
    let y = b as int / g;
    assert(x >= 1 && y >= 1) by (nonlinear_arith)
        requires
            a == g * x,
            b == g * y,
            a > 0,
            b > 0,
            g > 0,
    ;
    assert(x * b == y * a) by (nonlinear_arith)
        requires
            a == g * x,
            b == g * y,
    ;
    lemma_mod_multiples_basic(x, b as int);
    lemma_mod_multiples_basic(y, a as int);
    assert(x * b >= b && y * a >= a) by (nonlinear_arith)
        requires
            x >= 1,
            y >= 1,
            a > 0,
            b > 0,
    ;
}

/// Every common divisor of two numbers divides their greatest common
/// divisor.
pub proof fn lemma_gcd_greatest(a: nat, b: nat, d: nat)
    requires
        d > 0,
        a % d == 0,
        b % d == 0,
    ensures
        gcd(a, b) % d == 0,
    decreases b,
{
    if b > 0 {
        let r = a % b;
        let q = a as int / b as int;
        lemma_fundamental_div_mod(a as int, b as int);
        lemma_fundamental_div_mod(a as int, d as int);
        lemma_fundamental_div_mod(b as int, d as int);
        let x = a as int / d as int;
        let y = b as int / d as int;
        assert(r == (x - y * q) * d) by (nonlinear_arith)
            requires
                a == b * q + r,
                a == d * x,
                b == d * y,
        ;
        lemma_mod_multiples_basic(x - y * q, d as int);
        lemma_gcd_greatest(b, r, d);
    }
}

/// The greatest common divisor of two numbers is a sum of multiples of the
/// two.
proof fn lemma_gcd_combination(a: nat, b: nat) -> (uv: (int, int))
    ensures
        gcd(a, b) == a * uv.0 + b * uv.1,
    decreases b,
{
    if b == 0 {
        assert(a == a * 1 + b * 0) by (nonlinear_arith);
        (1, 0)
    } else {
        let r = a % b;
        let q = a as int / b as int;
        let (u, v) = lemma_gcd_combination(b, r);
        lemma_fundamental_div_mod(a as int, b as int);
        assert(b * u + r * v == a * v + b * (u - q * v)) by (nonlinear_arith)
            requires
                a == b * q + r,
        ;
        (v, u - q * v)
    }
}

/// Every common multiple of two numbers is a multiple of their least common
/// multiple, which is thus the least.
pub proof fn lemma_lcm_least(a: nat, b: nat, m: nat)
    requires
        a > 0,
        b > 0,
        m > 0,
        m % a == 0,
        m % b == 0,
    ensures
        m % lcm(a, b) == 0,
        lcm(a, b) <= m,
{
    lemma_gcd(a, b);
    lemma_lcm(a, b);
    let g = gcd(a, b) as int;
    let l = lcm(a, b) as int;
    let (u, v) = lemma_gcd_combination(a, b);
    lemma_fundamental_div_mod(a as int, g);
    lemma_fundamental_div_mod(m as int, a as int);
    lemma_fundamental_div_mod(m as int, b as int);
    let x = a as int / g;
    let p = m as int / a as int;
    let q = m as int / b as int;
    let k = q * u + p * v;
    assert(l * g == a * b) by (nonlinear_arith)
        requires
            l == x * b,
            a == g * x,
    ;
    assert(m * g == l * g * k) by (nonlinear_arith)
        requires
            g == a * u + b * v,
            m == a * p,
            m == b * q,
            l * g == a * b,
            k == q * u + p * v,
    ;
    assert(m == l * k) by (nonlinear_arith)
        requires
            m * g == l * g * k,
            g > 0,
    ;
    assert(k >= 1) by (nonlinear_arith)
        requires
            m == l * k,
            m > 0,
            l > 0,
    ;
    assert(l <= m) by (nonlinear_arith)
        requires
            m == l * k,
            k >= 1,
            l > 0,
    ;
    assert(m == k * l) by (nonlinear_arith)
        requires
            m == l * k,
    ;
    lemma_mod_multiples_basic(k, l);
}

/// A multiple of `n` holds `n` steps of its quotient, and the steps divide
/// what lies on them.
pub proof fn lemma_steps(den: nat, n: nat, i: nat)
    requires
        n > 0,
        den > 0,
        den % n == 0,
        i < n,
    ensures
        den / n >= 1,
        (den / n) * n == den,
        1 <= (i + 1) * (den / n) <= den,
        ((i + 1) * (den / n)) % (den / n) == 0,
        ((i + 1) * (den / n)) / (den / n) == i + 1,
{
    lemma_fundamental_div_mod(den as int, n as int);
    let s = den as int / n as int;
    assert(s >= 1 && s * n == den) by (nonlinear_arith)
        requires
            den == n * s,
            den > 0,
            n > 0,
    ;
    assert(1 <= (i + 1) * s <= den) by (nonlinear_arith)
        requires
            s >= 1,
            s * n == den,
            0 <= i < n,
    ;
    lemma_mod_multiples_basic(i as int + 1, s);
    vstd::arithmetic::div_mod::lemma_div_multiples_vanish(i as int + 1, s);
    assert((i + 1) * s == s * (i + 1)) by (nonlinear_arith);
}

/// The greatest common divisor of `a` and `b`.
pub fn gcd_of(a: u32, b: u32) -> (g: u32)
    ensures
        g == gcd(a as nat, b as nat),
{
    let mut x = a;
    let mut y = b;
    while y != 0
        invariant
            gcd(x as nat, y as nat) == gcd(a as nat, b as nat),
        decreases y,
    {
        let r = x % y;
        x = y;
        y = r;
    }
    x
}

/// The least common multiple of `a` and `b`, if it is a `u32`.
pub fn lcm_of(a: u32, b: u32) -> (l: Option<u32>)
    ensures
        match l {
            Some(v) => v == lcm(a as nat, b as nat),
            None => lcm(a as nat, b as nat) > u32::MAX,
        },
{
    if a == 0 || b == 0 {
        return Some(0);
    }
    proof {
        lemma_gcd(a as nat, b as nat);
    }
    let g = gcd_of(a, b);
    let quotient = (a / g) as u64;
    assert(quotient * (b as u64) <= u64::MAX) by (nonlinear_arith)
        requires
            quotient <= u32::MAX,
            b <= u32::MAX,
    ;
    let v = quotient * (b as u64);
    if v <= u32::MAX as u64 {
        Some(v as u32)
    } else {
        None
    }
}

} // verus!
