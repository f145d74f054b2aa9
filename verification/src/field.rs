//! A small prime field: the coefficient domain of the circuit.
//!
//! Every cell of the circuit table holds an element of the field of
//! order `MODULUS`, and every gate polynomial is evaluated over it.
//! The type keeps its representative canonical (fully reduced), so
//! equality of field elements is equality of representatives.

use vstd::prelude::*;

verus! {

/// The order of the field: the Mersenne prime `2^61 - 1`.
pub const MODULUS: u64 = 2305843009213693951u64;

/// An element of the prime field of order `MODULUS`, kept in canonical
/// (fully reduced) form.
#[derive(Clone, Copy, Debug, PartialEq, Eq, Structural)]
pub struct Fp {
    pub v: u64,
}

/// The field element with the given representative.
pub open spec fn fp_of(n: int) -> Fp {
    Fp { v: n as u64 }
}

impl Fp {
    /// A field element is well formed when its representative is reduced.
    pub open spec fn wf(self) -> bool {
        self.v < MODULUS
    }

    /// The additive identity of the field.
    pub fn zero() -> (r: Fp)
        ensures
            r.v == 0,
            r.wf(),
    {
        Fp { v: 0 }
    }

    /// Embeds an unsigned integer into the field by reduction.
    pub fn from_u64(n: u64) -> (r: Fp)
        ensures
            r.v == n % MODULUS,
            r.wf(),
    {
        Fp { v: n % MODULUS }
    }

    /// Field addition: the sum of the representatives, reduced.
    pub fn add(self, other: Fp) -> (r: Fp)
        requires
            self.wf(),
            other.wf(),
        ensures
            r.wf(),
            r.v == (self.v + other.v) % (MODULUS as int),
    {
        let s: u64 = self.v + other.v;
        if s >= MODULUS {
            proof {
                vstd::arithmetic::div_mod::lemma_mod_sub_multiples_vanish(
                    s as int,
                    MODULUS as int,
                );
                vstd::arithmetic::div_mod::lemma_small_mod(
                    (s - MODULUS) as nat,
                    MODULUS as nat,
                );
            }
            Fp { v: s - MODULUS }
        } else {
            proof {
                vstd::arithmetic::div_mod::lemma_small_mod(s as nat, MODULUS as nat);
            }
            Fp { v: s }
        }
    }

    /// Field subtraction: the difference of the representatives, reduced.
    pub fn sub(self, other: Fp) -> (r: Fp)
        requires
            self.wf(),
            other.wf(),
        ensures
            r.wf(),
            r.v == (self.v - other.v) % (MODULUS as int),
    {
        if self.v >= other.v {
            proof {
                vstd::arithmetic::div_mod::lemma_small_mod(
                    (self.v - other.v) as nat,
                    MODULUS as nat,
                );
            }
            Fp { v: self.v - other.v }
        } else {
            proof {
                vstd::arithmetic::div_mod::lemma_mod_add_multiples_vanish(
                    self.v - other.v,
                    MODULUS as int,
                );
                vstd::arithmetic::div_mod::lemma_small_mod(
                    (self.v + MODULUS - other.v) as nat,
                    MODULUS as nat,
                );
            }
            Fp { v: self.v + MODULUS - other.v }
        }
    }

    /// True exactly when the element is the additive identity.
    pub fn is_zero(self) -> (r: bool)
        ensures
            r == (self.v == 0),
    {
        self.v == 0
    }
}

} // verus!
