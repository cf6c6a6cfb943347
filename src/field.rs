//! Arithmetic in the prime field of order `MODULUS`.
use vstd::prelude::*;

verus! {

/// The field's order, the Mersenne prime 2^31 - 1.
pub const MODULUS: u64 = 2147483647;

/// A canonical representative of a field element.
pub open spec fn is_elem(a: int) -> bool {
    0 <= a < MODULUS as int
}

pub open spec fn reduce(a: int) -> int {
    a % (MODULUS as int)
}

pub open spec fn fadd(a: int, b: int) -> int {
    reduce(a + b)
}

pub open spec fn fmul(a: int, b: int) -> int {
    reduce(a * b)
}

pub open spec fn fneg(a: int) -> int {
    reduce(-a)
}

/// The canonical element that `v` stands for.
pub fn from_u64(v: u64) -> (r: u64)
    ensures
        r as int == reduce(v as int),
        is_elem(r as int),
{
    v % MODULUS
}

pub fn add(a: u64, b: u64) -> (r: u64)
    requires
        is_elem(a as int),
        is_elem(b as int),
    ensures
        r as int == fadd(a as int, b as int),
        is_elem(r as int),
{
    (a + b) % MODULUS
}

pub fn mul(a: u64, b: u64) -> (r: u64)
    requires
        is_elem(a as int),
        is_elem(b as int),
    ensures
        r as int == fmul(a as int, b as int),
        is_elem(r as int),
{
    assert(a * b < 0x4000_0000_0000_0000) by (nonlinear_arith)
        requires
            a < 0x8000_0000,
            b < 0x8000_0000,
    ;
    (a * b) % MODULUS
}

pub fn neg(a: u64) -> (r: u64)
    requires
        is_elem(a as int),
    ensures
        r as int == fneg(a as int),
        is_elem(r as int),
{
    if a == 0 {
        0
    } else {
        assert(reduce(-(a as int)) == MODULUS - a) by {
            vstd::arithmetic::div_mod::lemma_mod_multiples_vanish(1, -(a as int), MODULUS as int);
            vstd::arithmetic::div_mod::lemma_small_mod((MODULUS - a) as nat, MODULUS as nat);
        }
        MODULUS - a
    }
}

/// Reduction leaves a canonical element as it is.
pub proof fn lemma_reduce_elem(a: int)
    requires
        is_elem(a),
    ensures
        reduce(a) == a,
{
    vstd::arithmetic::div_mod::lemma_small_mod(a as nat, MODULUS as nat);
}

/// The identities of the field's operations on canonical elements, and
/// `a + (-a) = 0`.
pub proof fn lemma_field_identities(a: int)
    requires
        is_elem(a),
    ensures
        fmul(a, 0) == 0,
        fmul(0, a) == 0,
        fmul(a, 1) == a,
        fadd(a, 0) == a,
        fadd(0, a) == a,
        fadd(a, fneg(a)) == 0,
        fneg(0) == 0,
{
    lemma_reduce_elem(a);
    assert(reduce(0) == 0);
    if a != 0 {
        vstd::arithmetic::div_mod::lemma_mod_multiples_vanish(1, -a, MODULUS as int);
        lemma_reduce_elem(MODULUS - a);
        assert(fneg(a) == MODULUS - a);
        vstd::arithmetic::div_mod::lemma_mod_self_0(MODULUS as int);
    }
}

/// `a - b` vanishes exactly when `a` and `b` are the same element.
pub proof fn lemma_sub_zero(a: int, b: int)
    requires
        is_elem(a),
        is_elem(b),
    ensures
        fadd(a, fneg(b)) == 0 <==> a == b,
{
    lemma_field_identities(a);
    lemma_field_identities(b);
    if a != b && b != 0 {
        vstd::arithmetic::div_mod::lemma_mod_multiples_vanish(1, -b, MODULUS as int);
        lemma_reduce_elem(MODULUS - b);
        assert(fneg(b) == MODULUS - b);
        if a < b {
            lemma_reduce_elem(a + MODULUS - b);
        } else {
            vstd::arithmetic::div_mod::lemma_mod_multiples_vanish(1, a - b, MODULUS as int);
            lemma_reduce_elem(a - b);
        }
    }
}

} // verus!
