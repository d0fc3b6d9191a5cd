//! The whole proving session: the four rounds run in order over a pair of domains.

use vstd::prelude::*;
use vstd::arithmetic::div_mod::lemma_small_mod;
use vstd::arithmetic::power::lemma_pow1;
use vstd::arithmetic::power2::{lemma2_to64, lemma_pow2_adds};
use crate::domain::{dft, element, poly_eval, scale, Domain};
use crate::field::{all_wf, modulus, vals, Scalar};
use crate::prover::{
    divide_by_vanishing, extend, extension, grand_product, is_grand_product, linearization,
    linearization_at, open, perm_denominator, quotient_at, quotient_evals, resize, resized,
    restrict, scaled, ProverError, ProvingKey,
};

verus! {

/// The primary domain (one point per gate) and the extended domain, eight times larger.
pub struct PlonkDomain {
    pub n_gates: usize,
    pub gates: Domain,
    pub gates8: Domain,
}

impl PlonkDomain {
    pub open spec fn wf(&self) -> bool {
        &&& self.gates.wf()
        &&& self.gates8.wf()
        &&& self.gates.size == self.n_gates
        &&& self.gates8.log_size == self.gates.log_size + 3
        &&& self.gates8.size == 8 * self.n_gates
    }

    /// Domains for 2^log_gates gates.
    pub fn new(log_gates: u32) -> (r: PlonkDomain)
        requires
            log_gates <= 28,
        ensures
            r.wf(),
            r.gates.log_size == log_gates,
    {
        let gates = Domain::new(log_gates);
        let gates8 = Domain::new(log_gates + 3);
        proof {
            lemma_pow2_adds(log_gates as nat, 3);
            lemma2_to64();
        }
        PlonkDomain { n_gates: gates.size(), gates, gates8 }
    }
}

/// The session's random challenges.
pub struct Challenges {
    pub beta: Scalar,
    pub gamma: Scalar,
    pub alpha: Scalar,
    pub point: Scalar,
}

impl Challenges {
    pub open spec fn wf(&self) -> bool {
        self.beta.wf() && self.gamma.wf() && self.alpha.wf() && self.point.wf()
    }
}

/// What a session produces: the polynomials to commit to and the openings at the
/// evaluation point.
pub struct Proof {
    pub z: Vec<Scalar>,
    pub t8: Vec<Scalar>,
    pub r: Vec<Scalar>,
    pub open_a: Scalar,
    pub open_b: Scalar,
    pub open_c: Scalar,
    pub open_s1: Scalar,
    pub open_s2: Scalar,
    pub open_s3: Scalar,
    pub open_r: Scalar,
}

/// The values of a vector stored over the extended domain at the `n` primary points.
pub open spec fn at_primary(v: Seq<Scalar>, n: nat) -> Seq<int> {
    Seq::new(n, |i: int| v[8 * i].val())
}

/// The evaluation vector of the first Lagrange polynomial over `n` points: one, then zeros.
pub open spec fn first_lagrange(n: nat) -> Seq<int> {
    resize(seq![1int], 1, n)
}

/// The polynomial whose evaluations over `dom` are `v`, at `x`.
pub open spec fn opening(v: Seq<int>, dom: Domain, x: int) -> int {
    poly_eval(dom.interpolate(v), x)
}

/// Some primary-domain denominator of the permutation argument is zero.
pub open spec fn degenerate(
    pd: PlonkDomain,
    pk: ProvingKey,
    a: Seq<int>,
    b: Seq<int>,
    c: Seq<int>,
    ch: Challenges,
) -> bool {
    let n = pd.n_gates as nat;
    exists|i: int|
        0 <= i < n && #[trigger] perm_denominator(
            a,
            b,
            c,
            at_primary(pk.s1@, n),
            at_primary(pk.s2@, n),
            at_primary(pk.s3@, n),
            ch.beta.val(),
            ch.gamma.val(),
            i,
        ) == 0
}

/// The quotient's numerator over the extended domain, from the primary-domain
/// witness `a, b, c` and grand product `z`.
pub open spec fn quotient_numerator(
    pd: PlonkDomain,
    pk: ProvingKey,
    a: Seq<int>,
    b: Seq<int>,
    c: Seq<int>,
    z: Seq<int>,
    ch: Challenges,
) -> Seq<int> {
    let ext = |v: Seq<int>| extension(v, pd.gates, pd.gates8);
    Seq::new(
        pd.gates8.size as nat,
        |i: int|
            quotient_at(
                ext(a),
                ext(b),
                ext(c),
                ext(z),
                ext(first_lagrange(pd.n_gates as nat)),
                pk,
                ch.beta.val(),
                ch.gamma.val(),
                ch.alpha.val(),
                pd.gates8.omega.val(),
                pd.n_gates as nat,
                i,
            ),
    )
}

/// Runs the four rounds on the witness `a, b, c` with the given challenges; the
/// quotient's evaluations are finally multiplied by `packing`.
///
/// Fails with `ArithmeticFault` exactly when some permutation denominator is zero.
pub fn localplonk(
    pd: &PlonkDomain,
    pk: &ProvingKey,
    a: &Vec<Scalar>,
    b: &Vec<Scalar>,
    c: &Vec<Scalar>,
    ch: &Challenges,
    packing: Scalar,
) -> (r: Result<Proof, ProverError>)
    requires
        pd.wf(),
        pk.wf(8 * pd.n_gates as nat),
        a.len() == pd.n_gates && all_wf(a@),
        b.len() == pd.n_gates && all_wf(b@),
        c.len() == pd.n_gates && all_wf(c@),
        ch.wf(),
        packing.wf(),
    ensures
        r is Err <==> degenerate(*pd, *pk, vals(a@), vals(b@), vals(c@), *ch),
        r is Err ==> r == Err::<Proof, ProverError>(ProverError::ArithmeticFault),
        r matches Ok(p) ==> {
            let n = pd.n_gates as nat;
            let x = ch.point.val();
            &&& all_wf(p.z@)
            &&& is_grand_product(
                vals(p.z@),
                vals(a@),
                vals(b@),
                vals(c@),
                at_primary(pk.s1@, n),
                at_primary(pk.s2@, n),
                at_primary(pk.s3@, n),
                ch.beta.val(),
                ch.gamma.val(),
                pd.gates8.omega.val(),
            )
            &&& vals(p.t8@) == scale(
                dft(
                    resize(
                        pd.gates8.interpolate(
                            quotient_numerator(*pd, *pk, vals(a@), vals(b@), vals(c@), vals(p.z@), *ch),
                        ),
                        7 * n as int,
                        8 * n,
                    ),
                    pd.gates8.omega.val(),
                ),
                packing.val(),
            )
            &&& p.open_a.val() == opening(vals(a@), pd.gates, x)
            &&& p.open_b.val() == opening(vals(b@), pd.gates, x)
            &&& p.open_c.val() == opening(vals(c@), pd.gates, x)
            &&& p.open_s1.val() == opening(at_primary(pk.s1@, n), pd.gates, x)
            &&& p.open_s2.val() == opening(at_primary(pk.s2@, n), pd.gates, x)
            &&& p.open_s3.val() == opening(at_primary(pk.s3@, n), pd.gates, x)
            &&& p.r.len() == n
            &&& forall|i: int|
                0 <= i < n ==> #[trigger] vals(p.r@)[i] == linearization_at(
                    p.open_a.val(),
                    p.open_b.val(),
                    p.open_c.val(),
                    *pk,
                    i,
                )
            &&& p.open_r.val() == opening(vals(p.r@), pd.gates, x)
        },
{
    let n = pd.n_gates;
    let ghost nn = n as nat;
    // Round 1: extend the witness to the extended domain.
    let a8 = extend(a, &pd.gates, &pd.gates8);
    let b8 = extend(b, &pd.gates, &pd.gates8);
    let c8 = extend(c, &pd.gates, &pd.gates8);
    // Round 2: the grand product over the primary domain.
    let s1 = restrict(&pk.s1, 8, n);
    let s2 = restrict(&pk.s2, 8, n);
    let s3 = restrict(&pk.s3, 8, n);
    assert(vals(s1@) =~= at_primary(pk.s1@, nn));
    assert(vals(s2@) =~= at_primary(pk.s2@, nn));
    assert(vals(s3@) =~= at_primary(pk.s3@, nn));
    let omega = element(1, &pd.gates8);
    proof {
        lemma_pow1(pd.gates8.omega.val());
        lemma_small_mod(pd.gates8.omega.val() as nat, modulus() as nat);
    }
    let z = match grand_product(a, b, c, &s1, &s2, &s3, ch.beta, ch.gamma, omega) {
        Ok(z) => z,
        Err(e) => {
            return Err(e);
        },
    };
    let z8 = extend(&z, &pd.gates, &pd.gates8);
    // Round 3: the quotient, divided by the vanishing polynomial.
    let mut unit: Vec<Scalar> = Vec::new();
    unit.push(Scalar::from_u64(1));
    let first = resized(&unit, 1, n);
    assert(vals(unit@) =~= seq![1int]);
    let l1 = extend(&first, &pd.gates, &pd.gates8);
    let t = quotient_evals(&a8, &b8, &c8, &z8, &l1, pk, ch.beta, ch.gamma, ch.alpha, omega, n as u64);
    assert(vals(t@) =~= quotient_numerator(*pd, *pk, vals(a@), vals(b@), vals(c@), vals(z@), *ch));
    let t8 = scaled(&divide_by_vanishing(&t, &pd.gates8, 7 * n), packing);
    // Round 4: openings and the linearization.
    let open_a = unwrap_opening(open(a, ch.point, &pd.gates));
    let open_b = unwrap_opening(open(b, ch.point, &pd.gates));
    let open_c = unwrap_opening(open(c, ch.point, &pd.gates));
    let open_s1 = unwrap_opening(open(&s1, ch.point, &pd.gates));
    let open_s2 = unwrap_opening(open(&s2, ch.point, &pd.gates));
    let open_s3 = unwrap_opening(open(&s3, ch.point, &pd.gates));
    let r = linearization(open_a, open_b, open_c, pk, n);
    let open_r = unwrap_opening(open(&r, ch.point, &pd.gates));
    Ok(Proof { z, t8, r, open_a, open_b, open_c, open_s1, open_s2, open_s3, open_r })
}

/// The opening of a vector whose length was checked.
fn unwrap_opening(r: Result<Scalar, ProverError>) -> (x: Scalar)
    requires
        r is Ok,
    ensures
        r == Ok::<Scalar, ProverError>(x),
{
    match r {
        Ok(x) => x,
        Err(_) => {
            assert(false);
            Scalar::from_u64(0)
        },
    }
}

} // verus!
