//! Scalars of the Pallas base field, held as canonical little-endian bytes.

use vstd::prelude::*;
use vstd::arithmetic::power::{lemma_pow0, lemma_pow1, lemma_pow_adds, pow};
use vstd::arithmetic::div_mod::{lemma_mul_mod_noop_left, lemma_mul_mod_noop_right, lemma_small_mod};
use halo2_proofs::arithmetic::Field;
use halo2_proofs::pasta::group::ff::PrimeField;
use halo2_proofs::pasta::group::ff::WithSmallOrderMulGroup;
use halo2_proofs::pasta::Fp;

verus! {

/// The field's prime modulus,
/// 0x40000000000000000000000000000000224698fc094cf91b992d30ed00000001.
pub open spec fn modulus() -> int {
    (0x40000000000000000000000000000000 * 0x10000000000000000 * 0x10000000000000000
        + 0x224698fc094cf91b992d30ed00000001) as int
}

/// The field's fixed primitive cube root of unity, used for the coset shift.
pub open spec fn zeta_value() -> int {
    (0x12ccca834acdba712caad5dc57aab1b0 * 0x10000000000000000 * 0x10000000000000000
        + 0x1d1f8bd237ad31491dad5ebdfdfe4ab9) as int
}

/// The little-endian integer spelled by a byte sequence.
pub open spec fn le_value(b: Seq<u8>) -> int
    decreases b.len(),
{
    if b.len() == 0 {
        0
    } else {
        b[0] as int + 256 * le_value(b.drop_first())
    }
}

pub open spec fn fadd(x: int, y: int) -> int {
    (x + y) % modulus()
}

pub open spec fn fsub(x: int, y: int) -> int {
    (x - y) % modulus()
}

pub open spec fn fmul(x: int, y: int) -> int {
    (x * y) % modulus()
}

pub open spec fn fpow(x: int, e: nat) -> int {
    pow(x, e) % modulus()
}

/// `y` is a multiplicative inverse of `x`.
pub open spec fn is_inverse(x: int, y: int) -> bool {
    0 <= y < modulus() && fmul(x, y) == 1
}

/// The multiplicative inverse of `x` (unique when it exists).
pub open spec fn finv(x: int) -> int {
    choose|y: int| is_inverse(x, y)
}

/// An element of the field.
#[derive(Clone, Copy, Debug, PartialEq, Eq)]
pub struct Scalar {
    pub bytes: [u8; 32],
}

impl Scalar {
    pub open spec fn val(self) -> int {
        le_value(self.bytes@)
    }

    /// The bytes spell a value below the modulus.
    pub open spec fn wf(self) -> bool {
        0 <= self.val() < modulus()
    }
}

/// The values of a sequence of scalars.
pub open spec fn vals(v: Seq<Scalar>) -> Seq<int> {
    v.map_values(|s: Scalar| s.val())
}

/// Every scalar of the sequence is well formed.
pub open spec fn all_wf(v: Seq<Scalar>) -> bool {
    forall|i: int| 0 <= i < v.len() ==> #[trigger] v[i].wf()
}

/// A multiplicative inverse is unique, so `finv` names it.
pub proof fn lemma_inverse_unique(x: int, y: int)
    requires
        is_inverse(x, y),
    ensures
        finv(x) == y,
{
    let m = modulus();
    let w = finv(x);
    assert(is_inverse(x, w));
    lemma_small_mod(y as nat, m as nat);
    lemma_small_mod(w as nat, m as nat);
    lemma_mul_mod_noop_right(y, x * w, m);
    lemma_mul_mod_noop_right(w, x * y, m);
    assert(y * (x * w) == w * (x * y)) by (nonlinear_arith);
}

/// One more factor of `w` in a power.
pub proof fn lemma_fpow_step(w: int, i: nat)
    requires
        0 <= w < modulus(),
    ensures
        fmul(fpow(w, i), w) == fpow(w, i + 1),
{
    let m = modulus();
    lemma_mul_mod_noop_left(pow(w, i), w, m);
    lemma_pow_adds(w, i, 1);
    lemma_pow1(w);
}

/// The zeroth power is one.
pub proof fn lemma_fpow_zero(w: int)
    ensures
        fpow(w, 0) == 1,
{
    lemma_pow0(w);
    lemma_small_mod(1, modulus() as nat);
}

/// A product of three field values does not depend on how it is grouped or ordered.
pub proof fn lemma_fmul_rotate(x: int, y: int, z: int)
    ensures
        fmul(fmul(x, y), z) == fmul(fmul(z, x), y),
{
    let m = modulus();
    lemma_mul_mod_noop_left(x * y, z, m);
    lemma_mul_mod_noop_left(z * x, y, m);
    assert((x * y) * z == (z * x) * y) by (nonlinear_arith);
}

impl Scalar {
    /// Relies on `From<u64> for Fp` and `PrimeField::to_repr`: the canonical bytes of `v`.
    #[verifier::external_body]
    pub(crate) fn from_u64(v: u64) -> (r: Scalar)
        ensures
            r.wf(),
            r.val() == v,
    {
        Scalar { bytes: Fp::from(v).to_repr() }
    }

    /// Relies on `WithSmallOrderMulGroup::<3>::ZETA` of `Fp`, defined there from these limbs.
    #[verifier::external_body]
    pub(crate) fn zeta() -> (r: Scalar)
        ensures
            r.wf(),
            r.val() == zeta_value(),
    {
        Scalar { bytes: <Fp as WithSmallOrderMulGroup<3>>::ZETA.to_repr() }
    }

    /// Relies on `Fp`'s addition.
    #[verifier::external_body]
    pub(crate) fn plus(self, b: Scalar) -> (r: Scalar)
        requires
            self.wf(),
            b.wf(),
        ensures
            r.wf(),
            r.val() == fadd(self.val(), b.val()),
    {
        let x = Fp::from_repr(self.bytes).unwrap();
        let y = Fp::from_repr(b.bytes).unwrap();
        Scalar { bytes: (x + y).to_repr() }
    }

    /// Relies on `Fp`'s subtraction.
    #[verifier::external_body]
    pub(crate) fn minus(self, b: Scalar) -> (r: Scalar)
        requires
            self.wf(),
            b.wf(),
        ensures
            r.wf(),
            r.val() == fsub(self.val(), b.val()),
    {
        let x = Fp::from_repr(self.bytes).unwrap();
        let y = Fp::from_repr(b.bytes).unwrap();
        Scalar { bytes: (x - y).to_repr() }
    }

    /// Relies on `Fp`'s multiplication.
    #[verifier::external_body]
    pub(crate) fn times(self, b: Scalar) -> (r: Scalar)
        requires
            self.wf(),
            b.wf(),
        ensures
            r.wf(),
            r.val() == fmul(self.val(), b.val()),
    {
        let x = Fp::from_repr(self.bytes).unwrap();
        let y = Fp::from_repr(b.bytes).unwrap();
        Scalar { bytes: (x * y).to_repr() }
    }

    /// Relies on `Field::pow_vartime` of `Fp` with a single-limb exponent.
    #[verifier::external_body]
    pub(crate) fn pow_u64(self, e: u64) -> (r: Scalar)
        requires
            self.wf(),
        ensures
            r.wf(),
            r.val() == fpow(self.val(), e as nat),
    {
        let x = Fp::from_repr(self.bytes).unwrap();
        Scalar { bytes: x.pow_vartime([e]).to_repr() }
    }

    /// Relies on `Field::invert` of `Fp`: the multiplicative inverse, absent for zero.
    #[verifier::external_body]
    pub(crate) fn inverse(self) -> (r: Option<Scalar>)
        requires
            self.wf(),
        ensures
            r is None <==> self.val() == 0,
            r matches Some(y) ==> y.wf() && is_inverse(self.val(), y.val()),
    {
        let x = Fp::from_repr(self.bytes).unwrap();
        Option::from(x.invert()).map(|y: Fp| Scalar { bytes: y.to_repr() })
    }
}

} // verus!
