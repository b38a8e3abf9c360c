//! Modular arithmetic on 128-bit unsigned integers.
//!
//! Every operation is specified against unbounded integer arithmetic and is
//! free of overflow for any modulus that fits in a `u128`.

use vstd::arithmetic::div_mod::*;
use vstd::arithmetic::mul::*;
use vstd::arithmetic::power::*;
use vstd::prelude::*;

verus! {

/// `base` raised to `exp`, reduced modulo `modulus`.
pub open spec fn pow_mod(base: nat, exp: nat, modulus: nat) -> nat {
    (pow(base as int, exp) % (modulus as int)) as nat
}

/// A modular power is a residue of the modulus.
pub proof fn lemma_pow_mod_bound(base: nat, exp: nat, modulus: nat)
    requires
        modulus > 0,
    ensures
        pow_mod(base, exp, modulus) < modulus,
        pow(base as int, exp) % (modulus as int) >= 0,
{
    lemma_mod_bound(pow(base as int, exp), modulus as int);
}

/// Exponents commute under iterated modular exponentiation:
/// `(b^x mod m)^y mod m == (b^y mod m)^x mod m`.
pub proof fn lemma_pow_mod_commutes(base: nat, x: nat, y: nat, modulus: nat)
    requires
        modulus > 0,
    ensures
        pow_mod(pow_mod(base, x, modulus), y, modulus) == pow_mod(
            pow_mod(base, y, modulus),
            x,
            modulus,
        ),
{
    let b = base as int;
    let m = modulus as int;
    lemma_pow_mod_bound(base, x, modulus);
    lemma_pow_mod_bound(base, y, modulus);
    lemma_pow_mod_noop(pow(b, x), y, m);
    lemma_pow_mod_noop(pow(b, y), x, m);
    lemma_pow_multiplies(b, x, y);
    lemma_pow_multiplies(b, y, x);
    lemma_mul_is_commutative(x as int, y as int);
}

/// Sum of two residues, reduced.
pub fn mod_add(a: u128, b: u128, m: u128) -> (r: u128)
    requires
        a < m,
        b < m,
    ensures
        r == (a + b) % (m as int),
        r < m,
{
    let gap: u128 = m - b;
    if a >= gap {
        let r: u128 = a - gap;
        proof {
            lemma_fundamental_div_mod_converse(a + b, m as int, 1, r as int);
        }
        r
    } else {
        proof {
            lemma_small_mod((a + b) as nat, m as nat);
        }
        a + b
    }
}

proof fn lemma_mul_step(acc: int, x: int, y: int, m: int)
    requires
        m > 0,
        y > 0,
    ensures
        (((acc + (y % 2) * x) % m) + ((x + x) % m) * (y / 2)) % m == (acc + x * y) % m,
{
    let bit = y % 2;
    let half = y / 2;
    let head = acc + bit * x;
    let dbl = x + x;
    assert(acc + x * y == head + dbl * half) by (nonlinear_arith)
        requires
            y == 2 * half + bit,
            head == acc + bit * x,
            dbl == x + x,
    ;
    lemma_mul_mod_noop_left(dbl, half, m);
    lemma_add_mod_noop(head, dbl * half, m);
    lemma_add_mod_noop(head % m, (dbl % m) * half, m);
    lemma_mod_twice(head, m);
}

/// Product of two integers, reduced; computed by doubling so that no
/// intermediate value leaves the range of `u128`.
pub fn mod_mul(a: u128, b: u128, m: u128) -> (r: u128)
    requires
        m > 0,
    ensures
        r == (a as int * b as int) % (m as int),
        r < m,
{
    let mut acc: u128 = 0;
    let mut x: u128 = a % m;
    let mut y: u128 = b;
    proof {
        lemma_mul_mod_noop_left(a as int, b as int, m as int);
    }
    while y > 0
        invariant
            m > 0,
            acc < m,
            x < m,
            (acc as int + x as int * y as int) % (m as int) == (a as int * b as int) % (m as int),
        decreases y,
    {
        proof {
            lemma_mul_step(acc as int, x as int, y as int, m as int);
            lemma_mul_basics(x as int);
            lemma_small_mod(acc as nat, m as nat);
        }
        if y % 2 == 1 {
            acc = mod_add(acc, x, m);
        }
        x = mod_add(x, x, m);
        y = y / 2;
    }
    proof {
        lemma_small_mod(acc as nat, m as nat);
    }
    acc
}

proof fn lemma_pow_step(acc: int, x: int, e: nat, m: int)
    requires
        m > 0,
        e > 0,
    ensures
        (((acc * pow(x, e % 2)) % m) * pow((x * x) % m, e / 2)) % m == (acc * pow(x, e)) % m,
{
    let bit: nat = e % 2;
    let half: nat = e / 2;
    let sq = x * x;
    // x^e == x^bit * (x*x)^half
    assert(e == bit + 2 * half);
    lemma_pow_adds(x, bit, 2 * half);
    lemma_pow_multiplies(x, 2, half);
    lemma_square_is_pow2(x);
    assert(pow(x, e) == pow(x, bit) * pow(sq, half));
    let head = acc * pow(x, bit);
    assert(acc * pow(x, e) == head * pow(sq, half)) by {
        lemma_mul_is_associative(acc, pow(x, bit), pow(sq, half));
    }
    // reduce both factors
    lemma_pow_mod_noop(sq, half, m);
    lemma_mul_mod_noop_general(head, pow(sq, half), m);
    lemma_mul_mod_noop_general(head % m, pow(sq % m, half), m);
    lemma_mod_twice(head, m);
}

/// `base` raised to `exp` modulo `m`, by repeated squaring.
pub fn mod_pow(base: u128, exp: u128, m: u128) -> (r: u128)
    requires
        m > 0,
    ensures
        r == pow_mod(base as nat, exp as nat, m as nat),
        r < m,
{
    let mut acc: u128 = 1 % m;
    let mut x: u128 = base % m;
    let mut e: u128 = exp;
    proof {
        lemma_pow_mod_noop(base as int, exp as nat, m as int);
        lemma_mul_mod_noop_left(1, pow(x as int, e as nat), m as int);
        lemma_mul_basics(pow(x as int, e as nat));
        lemma_mul_basics(pow(base as int, exp as nat));
    }
    while e > 0
        invariant
            m > 0,
            acc < m,
            x < m,
            (acc as int * pow(x as int, e as nat)) % (m as int) == pow(base as int, exp as nat) % (
            m as int),
        decreases e,
    {
        proof {
            lemma_pow_step(acc as int, x as int, e as nat, m as int);
            lemma_pow0(x as int);
            lemma_pow1(x as int);
            lemma_small_mod(acc as nat, m as nat);
            lemma_mul_basics(acc as int);
        }
        if e % 2 == 1 {
            acc = mod_mul(acc, x, m);
        }
        x = mod_mul(x, x, m);
        e = e / 2;
    }
    proof {
        lemma_pow0(x as int);
        lemma_mul_basics(acc as int);
        lemma_small_mod(acc as nat, m as nat);
        lemma_pow_mod_bound(base as nat, exp as nat, m as nat);
    }
    acc
}

} // verus!
