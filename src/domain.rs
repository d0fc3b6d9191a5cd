//! Multiplicative subgroups of size 2^k used as evaluation domains, and the
//! transforms between coefficients and evaluations over them.

use vstd::prelude::*;
use vstd::arithmetic::power::*;
use vstd::arithmetic::power2::*;
use vstd::bits::lemma_u64_shl_is_mul;
use halo2_proofs::arithmetic::best_fft;
use halo2_proofs::arithmetic::eval_polynomial;
use halo2_proofs::pasta::group::ff::PrimeField;
use halo2_proofs::pasta::Fp;
use halo2_proofs::poly::EvaluationDomain;
use vstd::arithmetic::div_mod::lemma_small_mod;
use crate::field::{all_wf, fadd, fmul, fpow, is_inverse, modulus, vals, Scalar};

verus! {

/// The field's fixed element of order 2^32,
/// 0x2bce74deac30ebda362120830561f81aea322bf2b7bb7584bdad6fabd87ea32f.
pub open spec fn root_of_unity_value() -> int {
    (0x2bce74deac30ebda362120830561f81a * 0x10000000000000000 * 0x10000000000000000
        + 0xea322bf2b7bb7584bdad6fabd87ea32f) as int
}

/// The generator of the subgroup of order 2^k: the root of unity squared 32 - k times.
pub open spec fn generator(k: nat) -> int {
    fpow(root_of_unity_value(), pow2((32 - k) as nat))
}

/// The polynomial with coefficients `c` (lowest degree first) evaluated at `x`.
pub open spec fn poly_eval(c: Seq<int>, x: int) -> int
    decreases c.len(),
{
    if c.len() == 0 {
        0
    } else {
        fadd(c[0], fmul(x, poly_eval(c.drop_first(), x)))
    }
}

/// The evaluations of the polynomial with coefficients `c` at w^0, ..., w^(len - 1).
pub open spec fn dft(c: Seq<int>, w: int) -> Seq<int> {
    Seq::new(c.len(), |j: int| poly_eval(c, fpow(w, j as nat)))
}

/// Every value multiplied by `k`.
pub open spec fn scale(s: Seq<int>, k: int) -> Seq<int> {
    s.map_values(|x: int| fmul(x, k))
}

/// Relies on halo2's `EvaluationDomain::new(1, k)`: `get_omega` is the root of unity
/// squared 32 - k times, and `get_omega_inv` its inverse.
#[verifier::external_body]
fn subgroup_generators(k: u32) -> (r: (Scalar, Scalar))
    requires
        k <= 32,
    ensures
        r.0.wf(),
        r.0.val() == generator(k as nat),
        r.1.wf(),
        is_inverse(r.0.val(), r.1.val()),
{
    let d = EvaluationDomain::<Fp>::new(1, k);
    (Scalar { bytes: d.get_omega().to_repr() }, Scalar { bytes: d.get_omega_inv().to_repr() })
}

/// Relies on halo2's `best_fft`: given `omega` of multiplicative order n = 2^log_n, the
/// coefficients in `v` become the evaluations at omega^0, ..., omega^(n - 1).
#[verifier::external_body]
fn fft_in_place(v: &mut Vec<Scalar>, omega: Scalar, log_n: u32)
    requires
        log_n <= 32,
        old(v).len() == pow2(log_n as nat),
        all_wf(old(v)@),
        omega.wf(),
        omega.val() == generator(log_n as nat) || is_inverse(generator(log_n as nat), omega.val()),
    ensures
        final(v).len() == old(v).len(),
        all_wf(final(v)@),
        vals(final(v)@) == dft(vals(old(v)@), omega.val()),
{
    let mut a: Vec<Fp> = v.iter().map(|s| Fp::from_repr(s.bytes).unwrap()).collect();
    best_fft(&mut a, Fp::from_repr(omega.bytes).unwrap(), log_n);
    *v = a.iter().map(|x| Scalar { bytes: x.to_repr() }).collect();
}

/// Relies on halo2's `eval_polynomial`: the polynomial with coefficients `c` at `point`.
#[verifier::external_body]
pub(crate) fn eval_coeffs(c: &Vec<Scalar>, point: Scalar) -> (r: Scalar)
    requires
        all_wf(c@),
        point.wf(),
    ensures
        r.wf(),
        r.val() == poly_eval(vals(c@), point.val()),
{
    let a: Vec<Fp> = c.iter().map(|s| Fp::from_repr(s.bytes).unwrap()).collect();
    Scalar { bytes: eval_polynomial(&a, Fp::from_repr(point.bytes).unwrap()).to_repr() }
}

/// The subgroup of order 2^log_size with its generator, the generator's inverse and
/// the inverse of its size.
pub struct Domain {
    pub log_size: u32,
    pub size: usize,
    pub omega: Scalar,
    pub omega_inv: Scalar,
    pub size_inv: Scalar,
}

impl Domain {
    pub open spec fn wf(&self) -> bool {
        &&& self.log_size < 32
        &&& self.size == pow2(self.log_size as nat)
        &&& self.omega.wf()
        &&& self.omega.val() == generator(self.log_size as nat)
        &&& self.omega_inv.wf()
        &&& is_inverse(self.omega.val(), self.omega_inv.val())
        &&& self.size_inv.wf()
        &&& is_inverse(self.size as int, self.size_inv.val())
    }

    /// The coefficients of the polynomial whose evaluations over this domain are `e`.
    pub open spec fn interpolate(&self, e: Seq<int>) -> Seq<int> {
        scale(dft(e, self.omega_inv.val()), self.size_inv.val())
    }

    /// The domain of size 2^log_size.
    pub fn new(log_size: u32) -> (r: Domain)
        requires
            log_size < 32,
        ensures
            r.wf(),
            r.log_size == log_size,
    {
        let (omega, omega_inv) = subgroup_generators(log_size);
        proof {
            lemma_pow2_strictly_increases(log_size as nat, 32);
            lemma2_to64();
            lemma_u64_shl_is_mul(1, log_size as u64);
        }
        let n: u64 = 1u64 << (log_size as u64);
        let size: usize = n as usize;
        let size_inv = match Scalar::from_u64(n).inverse() {
            Some(s) => s,
            None => {
                proof {
                    lemma_pow2_pos(log_size as nat);
                }
                assert(false);
                Scalar::from_u64(0)
            },
        };
        Domain { log_size, size, omega, omega_inv, size_inv }
    }

    /// The number of points.
    pub fn size(&self) -> (r: usize)
        ensures
            r == self.size,
    {
        self.size
    }
}

/// A domain eight times larger has a generator whose eighth power is the smaller
/// domain's generator: extended.element(1)^8 == primary.element(1).
pub proof fn lemma_domain_relationship(primary: &Domain, extended: &Domain)
    requires
        primary.wf(),
        extended.wf(),
        extended.log_size == primary.log_size + 3,
    ensures
        fpow(fpow(extended.omega.val(), 1), 8) == fpow(primary.omega.val(), 1),
{
    let k = primary.log_size as nat;
    let m = modulus();
    let r = root_of_unity_value();
    let e = pow2((29 - k) as nat);
    lemma_pow1(extended.omega.val());
    lemma_pow1(primary.omega.val());
    lemma_small_mod(extended.omega.val() as nat, m as nat);
    lemma_small_mod(primary.omega.val() as nat, m as nat);
    lemma_pow_mod_noop(pow(r, e), 8, m);
    lemma_pow_multiplies(r, e, 8);
    lemma_pow2_adds((29 - k) as nat, 3);
    lemma2_to64();
    assert((29 - k) as nat + 3 == (32 - k) as nat);
}

/// The i-th point of the domain, generator^i.
pub fn element(i: usize, dom: &Domain) -> (r: Scalar)
    requires
        dom.wf(),
    ensures
        r.wf(),
        r.val() == fpow(dom.omega.val(), i as nat),
{
    dom.omega.pow_u64(i as u64)
}

/// Coefficients to evaluations over the domain, in place.
pub fn forward_transform(v: &mut Vec<Scalar>, dom: &Domain)
    requires
        dom.wf(),
        old(v).len() == dom.size,
        all_wf(old(v)@),
    ensures
        final(v).len() == old(v).len(),
        all_wf(final(v)@),
        vals(final(v)@) == dft(vals(old(v)@), dom.omega.val()),
{
    fft_in_place(v, dom.omega, dom.log_size);
}

/// Evaluations to coefficients over the domain, in place.
pub fn inverse_transform(v: &mut Vec<Scalar>, dom: &Domain)
    requires
        dom.wf(),
        old(v).len() == dom.size,
        all_wf(old(v)@),
    ensures
        final(v).len() == old(v).len(),
        all_wf(final(v)@),
        vals(final(v)@) == dom.interpolate(vals(old(v)@)),
{
    fft_in_place(v, dom.omega_inv, dom.log_size);
    let ghost spun = vals(v@);
    let n = v.len();
    let mut i: usize = 0;
    while i < n
        invariant
            dom.wf(),
            n == v.len(),
            spun.len() == n,
            0 <= i <= n,
            all_wf(v@),
            forall|j: int| 0 <= j < i ==> #[trigger] v@[j].val() == fmul(spun[j], dom.size_inv.val()),
            forall|j: int| i <= j < n ==> #[trigger] v@[j].val() == spun[j],
        decreases n - i,
    {
        let x = v[i].times(dom.size_inv);
        v.set(i, x);
        i = i + 1;
    }
    assert(vals(v@) =~= dom.interpolate(vals(old(v)@)));
}

} // verus!
