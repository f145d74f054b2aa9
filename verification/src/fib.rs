//! The recurrence the circuit computes: a bounded Fibonacci sequence
//! over the field.

use vstd::prelude::*;

use crate::field::MODULUS;

verus! {

/// Term `n` of the Fibonacci sequence from seeds `a` and `b`: term 0
/// is `a`, term 1 is `b`, and every later term is the field sum of the
/// two terms before it.
pub open spec fn fib(a: int, b: int, n: nat) -> int
    decreases n,
{
    if n == 0 {
        a
    } else if n == 1 {
        b
    } else {
        (fib(a, b, (n - 2) as nat) + fib(a, b, (n - 1) as nat)) % (MODULUS as int)
    }
}

/// From canonical seeds, every term of the sequence is canonical.
pub proof fn lemma_fib_wf(a: int, b: int, n: nat)
    requires
        0 <= a < MODULUS,
        0 <= b < MODULUS,
    ensures
        0 <= fib(a, b, n) < MODULUS,
{
    if n >= 2 {
        vstd::arithmetic::div_mod::lemma_mod_bound(
            fib(a, b, (n - 2) as nat) + fib(a, b, (n - 1) as nat),
            MODULUS as int,
        );
    }
}

/// In the field, subtracting a sum's own reduction from the sum leaves
/// a multiple of the modulus, which reduces to zero.
pub proof fn lemma_sum_reduces_to_zero(x: int, y: int)
    ensures
        (x + y - (x + y) % (MODULUS as int)) % (MODULUS as int) == 0,
{
    let m = MODULUS as int;
    vstd::arithmetic::div_mod::lemma_fundamental_div_mod(x + y, m);
    let q = (x + y) / m;
    assert(x + y - (x + y) % m == q * m);
    vstd::arithmetic::div_mod::lemma_mod_multiples_basic(q, m);
}

} // verus!
