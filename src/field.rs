//! Field elements of the Pallas base field, with arithmetic delegated to `pasta_curves`.
use halo2_proofs::arithmetic::Field;
use halo2_proofs::pasta::group::ff::PrimeField;
use halo2_proofs::pasta::Fp;
use vstd::prelude::*;

verus! {

/// The order of the Pallas base field.
pub open spec fn modulus() -> nat {
    0x40000000000000000000000000000000224698fc094cf91b992d30ed00000001nat
}

/// Little-endian integer value of a byte sequence.
pub open spec fn le_value(s: Seq<u8>) -> nat
    decreases s.len(),
{
    if s.len() == 0 {
        0
    } else {
        s[0] as nat + 256 * le_value(s.subrange(1, s.len() as int))
    }
}

/// Sum in the field.
pub open spec fn fadd(x: nat, y: nat) -> nat {
    (x + y) % modulus()
}

/// Product in the field.
pub open spec fn fmul(x: nat, y: nat) -> nat {
    (x * y) % modulus()
}

/// Additive inverse in the field.
pub open spec fn fneg(x: nat) -> nat {
    ((0 - x) % (modulus() as int)) as nat
}

/// A field element, held as its canonical little-endian encoding.
#[derive(Clone, Copy, Debug)]
pub struct Fe {
    repr: [u8; 32],
}

impl View for Fe {
    type V = nat;

    /// The integer in `0..modulus()` that this element stands for.
    closed spec fn view(&self) -> nat {
        le_value(self.repr@)
    }
}

impl Fe {
    #[verifier::type_invariant]
    spec fn canonical(self) -> bool {
        le_value(self.repr@) < modulus()
    }

}

/// Relies on `From<u64> for Fp`: the element whose integer value is `n`.
#[verifier::external_body]
pub fn fe_from_u64(n: u64) -> (r: Fe)
    ensures
        r@ == n as nat,
{
    Fe { repr: Fp::from(n).to_repr() }
}

/// Relies on `Fp + Fp`, with `Fp::from_repr` and `to_repr` to move between encodings.
#[verifier::external_body]
pub fn fe_add(a: Fe, b: Fe) -> (r: Fe)
    ensures
        r@ == fadd(a@, b@),
{
    Fe { repr: (Fp::from_repr(a.repr).unwrap() + Fp::from_repr(b.repr).unwrap()).to_repr() }
}

/// Relies on `Fp * Fp`, with `Fp::from_repr` and `to_repr` to move between encodings.
#[verifier::external_body]
pub fn fe_mul(a: Fe, b: Fe) -> (r: Fe)
    ensures
        r@ == fmul(a@, b@),
{
    Fe { repr: (Fp::from_repr(a.repr).unwrap() * Fp::from_repr(b.repr).unwrap()).to_repr() }
}

/// Relies on `-Fp`, with `Fp::from_repr` and `to_repr` to move between encodings.
#[verifier::external_body]
pub fn fe_neg(a: Fe) -> (r: Fe)
    ensures
        r@ == fneg(a@),
{
    Fe { repr: (-Fp::from_repr(a.repr).unwrap()).to_repr() }
}

/// Relies on `Fp == Fp`: equal exactly when the two elements are the same.
#[verifier::external_body]
pub fn fe_eq(a: Fe, b: Fe) -> (r: bool)
    ensures
        r == (a@ == b@),
{
    Fp::from_repr(a.repr).unwrap() == Fp::from_repr(b.repr).unwrap()
}

/// Relies on `Field::is_zero_vartime`: whether the element is the additive identity.
#[verifier::external_body]
pub fn fe_is_zero(a: Fe) -> (r: bool)
    ensures
        r == (a@ == 0),
{
    Fp::from_repr(a.repr).unwrap().is_zero_vartime()
}

} // verus!
