use plonk::domain::{element, forward_transform, inverse_transform, Domain};
use plonk::field::Scalar;
use plonk::localplonk::{localplonk, Challenges, PlonkDomain};
use plonk::prover::{
    divide_by_vanishing, extend, grand_product, linearization, open, quotient_evals, restrict,
    scaled, ProverError, ProvingKey,
};
use halo2_proofs::pasta::group::ff::{Field, PrimeField, WithSmallOrderMulGroup};
use halo2_proofs::pasta::Fp;
use rand::rngs::StdRng;
use rand::{Rng, SeedableRng};

fn s(v: u64) -> Scalar {
    sc(Fp::from(v))
}

fn fp(x: Scalar) -> Fp {
    Fp::from_repr(x.bytes).unwrap()
}

fn sc(x: Fp) -> Scalar {
    Scalar { bytes: x.to_repr() }
}

/// Field arithmetic on scalars, done by the field crate itself.
trait Arith {
    fn add_f(self, o: Scalar) -> Scalar;
    fn mul_f(self, o: Scalar) -> Scalar;
    fn pow_f(self, e: u64) -> Scalar;
}

impl Arith for Scalar {
    fn add_f(self, o: Scalar) -> Scalar {
        sc(fp(self) + fp(o))
    }
    fn mul_f(self, o: Scalar) -> Scalar {
        sc(fp(self) * fp(o))
    }
    fn pow_f(self, e: u64) -> Scalar {
        sc(fp(self).pow_vartime([e]))
    }
}

fn consts(v: u64, n: usize) -> Vec<Scalar> {
    vec![s(v); n]
}

fn seeded(n: usize, rng: &mut StdRng) -> Vec<Scalar> {
    (0..n).map(|_| s(rng.gen::<u64>())).collect()
}

#[test]
fn domain_sizes_and_generators() {
    let d = Domain::new(2);
    assert_eq!(d.size(), 4);
    let w = element(1, &d);
    assert_ne!(w, s(1));
    assert_ne!(element(2, &d), s(1));
    assert_eq!(element(4, &d), s(1));
    assert_eq!(element(0, &d), s(1));
    assert_eq!(d.size_inv.mul_f(s(4)), s(1));
    assert_eq!(d.omega_inv.mul_f(w), s(1));
    assert_eq!(w.pow_f(2), sc(-Fp::ONE));
}

#[test]
fn extended_generator_to_the_eighth_is_primary_generator() {
    for k in 0..6u32 {
        let pd = PlonkDomain::new(k);
        let e1 = element(1, &pd.gates8);
        assert_eq!(e1.pow_f(8), element(1, &pd.gates));
        assert_eq!(pd.gates8.size(), 8 * pd.gates.size());
    }
}

#[test]
fn transform_round_trip_both_domains() {
    let pd = PlonkDomain::new(2);
    let mut rng = StdRng::seed_from_u64(7);
    for dom in [&pd.gates, &pd.gates8] {
        let v = seeded(dom.size(), &mut rng);
        let mut w = v.clone();
        forward_transform(&mut w, dom);
        assert_ne!(w, v);
        inverse_transform(&mut w, dom);
        assert_eq!(w, v);
        let mut u = v.clone();
        inverse_transform(&mut u, dom);
        forward_transform(&mut u, dom);
        assert_eq!(u, v);
    }
}

#[test]
fn forward_transform_of_constant_polynomial() {
    let d = Domain::new(3);
    let mut v = consts(0, 8);
    v[0] = s(9);
    forward_transform(&mut v, &d);
    assert_eq!(v, consts(9, 8));
}

#[test]
fn forward_transform_of_linear_polynomial() {
    let d = Domain::new(2);
    let mut v = vec![s(0), s(1), s(0), s(0)];
    forward_transform(&mut v, &d);
    for i in 0..4 {
        assert_eq!(v[i], element(i, &d));
    }
}

#[test]
fn extension_of_constant_stays_constant() {
    let pd = PlonkDomain::new(2);
    let e = extend(&consts(5, 4), &pd.gates, &pd.gates8);
    assert_eq!(e, consts(5, 32));
}

#[test]
fn extension_agrees_on_primary_points() {
    let pd = PlonkDomain::new(2);
    let mut rng = StdRng::seed_from_u64(3);
    let v = seeded(4, &mut rng);
    let e = extend(&v, &pd.gates, &pd.gates8);
    assert_eq!(e.len(), 32);
    assert_eq!(restrict(&e, 8, 4), v);
}

#[test]
fn open_constant_vector() {
    let d = Domain::new(2);
    assert_eq!(open(&consts(5, 4), s(12345), &d), Ok(s(5)));
}

#[test]
fn open_at_domain_point_returns_entry() {
    let d = Domain::new(2);
    let mut rng = StdRng::seed_from_u64(11);
    let v = seeded(4, &mut rng);
    assert_eq!(open(&v, element(3, &d), &d), Ok(v[3]));
    assert_eq!(open(&v, s(1), &d), Ok(v[0]));
}

#[test]
fn open_with_wrong_length_is_precondition_fault() {
    let d = Domain::new(2);
    assert_eq!(open(&consts(5, 3), s(2), &d), Err(ProverError::PreconditionFault));
    assert_eq!(open(&consts(5, 8), s(2), &d), Err(ProverError::PreconditionFault));
}

#[test]
fn restrict_takes_every_eighth() {
    let v: Vec<Scalar> = (0..32).map(s).collect();
    assert_eq!(restrict(&v, 8, 4), vec![s(0), s(8), s(16), s(24)]);
}

#[test]
fn scaled_multiplies_each_entry() {
    assert_eq!(scaled(&vec![s(1), s(2)], s(123)), vec![s(123), s(246)]);
}

#[test]
fn grand_product_values() {
    // beta = 1, gamma = 0, omega = 1: numerators (a+1)(b+1)(c+1), denominators (a+s1)(b+s2)(c+s3).
    let a = vec![s(1), s(2)];
    let b = vec![s(1), s(1)];
    let c = vec![s(1), s(1)];
    let s1 = vec![s(1), s(2)];
    let s2 = vec![s(3), s(1)];
    let s3 = vec![s(1), s(1)];
    let z = grand_product(&a, &b, &c, &s1, &s2, &s3, s(1), s(0), s(1)).unwrap();
    // z0 = 8 / 16, one half; z1 = z0 * 12 / 16.
    assert_eq!(z[0].mul_f(s(2)), s(1));
    assert_eq!(z[0].mul_f(s(16)), s(8));
    assert_eq!(z[1].mul_f(s(16)), z[0].mul_f(s(12)));
    assert_eq!(z[1].mul_f(s(32)), s(12));
}

#[test]
fn grand_product_boundary_and_recurrence() {
    let mut rng = StdRng::seed_from_u64(5);
    let n = 4;
    let (a, b, c) = (seeded(n, &mut rng), seeded(n, &mut rng), seeded(n, &mut rng));
    let (s1, s2, s3) = (seeded(n, &mut rng), seeded(n, &mut rng), seeded(n, &mut rng));
    let (beta, gamma) = (s(rng.gen::<u64>()), s(rng.gen::<u64>()));
    let omega = element(1, &Domain::new(5));
    let z = grand_product(&a, &b, &c, &s1, &s2, &s3, beta, gamma, omega).unwrap();
    let t = |w: Scalar, x: Scalar| w.add_f(beta.mul_f(x)).add_f(gamma);
    let mut x = s(1);
    for i in 0..n {
        let num = t(a[i], x).mul_f(t(b[i], x)).mul_f(t(c[i], x));
        let den = t(a[i], s1[i]).mul_f(t(b[i], s2[i])).mul_f(t(c[i], s3[i]));
        let prev = if i == 0 { s(1) } else { z[i - 1] };
        assert_eq!(z[i].mul_f(den), prev.mul_f(num));
        x = x.mul_f(omega);
    }
}

#[test]
fn zero_denominator_is_arithmetic_fault() {
    // a_1 + beta * s1_1 + gamma = 0 with beta = 1, gamma = 0.
    let a = vec![s(1), s(0)];
    let ones = vec![s(1), s(1)];
    let s1 = vec![s(1), s(0)];
    let r = grand_product(&a, &ones, &ones, &s1, &ones, &ones, s(1), s(0), s(1));
    assert_eq!(r, Err(ProverError::ArithmeticFault));
}

#[test]
fn proving_key_layout() {
    let draws: Vec<Scalar> = (0..64).map(s).collect();
    let pk = ProvingKey::new(1, &draws);
    assert_eq!(pk.qm.len(), 8);
    assert_eq!(pk.qm[1], s(8));
    assert_eq!(pk.ql[0], s(1));
    assert_eq!(pk.qr[2], s(18));
    assert_eq!(pk.qo[7], s(59));
    assert_eq!(pk.qc[0], s(4));
    assert_eq!(pk.s1[3], s(29));
    assert_eq!(pk.s2[0], s(6));
    assert_eq!(pk.s3[7], s(63));
}

fn key_of(n: usize, v: [u64; 8]) -> ProvingKey {
    let mut draws = Vec::new();
    for _ in 0..8 * n {
        for x in v {
            draws.push(s(x));
        }
    }
    ProvingKey::new(n, &draws)
}

#[test]
fn linearization_values() {
    // qm, ql, qr, qo, qc = 1, 2, 3, 4, 5 at every point; openings 2, 3, 4.
    let pk = key_of(4, [1, 2, 3, 4, 5, 0, 0, 0]);
    let r = linearization(s(2), s(3), s(4), &pk, 4);
    // 2*3*1 + 2*2 + 3*3 + 4*4 + 5 = 40
    assert_eq!(r, consts(40, 4));
}

#[test]
fn quotient_vanishes_where_constraints_hold() {
    // Zero wires and zero selectors satisfy the selector equation; z = 1 everywhere.
    let pk = key_of(4, [0, 0, 0, 0, 0, 1, 1, 1]);
    let zero = consts(0, 32);
    let one = consts(1, 32);
    let pd = PlonkDomain::new(2);
    let w = element(1, &pd.gates8);
    let t = quotient_evals(&zero, &zero, &zero, &one, &one, &pk, s(1), s(0), s(9), w, 4);
    assert_eq!(t.len(), 32);
    // At index 0 the labels, x^n and (zeta x)^n all equal one.
    assert_eq!(t[0], s(0));
}

#[test]
fn quotient_gate_term_alone() {
    // z = 1 and alpha = 0 leave only the selector term: a*b*qm + a*ql + b*qr + c*qo + qc.
    let pk = key_of(4, [1, 2, 3, 4, 5, 7, 7, 7]);
    let pd = PlonkDomain::new(2);
    let w = element(1, &pd.gates8);
    let t = quotient_evals(&consts(2, 32), &consts(3, 32), &consts(4, 32), &consts(1, 32), &consts(1, 32), &pk, s(1), s(1), s(0), w, 4);
    assert_eq!(t, consts(40, 32));
}

#[test]
fn quotient_permutation_and_boundary_terms() {
    let pk = key_of(4, [1, 2, 3, 4, 5, 6, 7, 8]);
    let pd = PlonkDomain::new(2);
    let w = element(1, &pd.gates8);
    let (a, b, c, z, l1) = (s(2), s(3), s(4), s(10), s(11));
    let (beta, gamma, alpha) = (s(5), s(6), s(7));
    let t = quotient_evals(&consts(2, 32), &consts(3, 32), &consts(4, 32), &consts(10, 32), &consts(11, 32), &pk, beta, gamma, alpha, w, 4);
    for i in [1usize, 5, 8, 31] {
        let x = fp(w).pow_vartime([i as u64]);
        let xn = fp(w).pow_vartime([4u64]).pow_vartime([i as u64]);
        let xzn = (Fp::ZETA * fp(w)).pow_vartime([4u64]).pow_vartime([i as u64]);
        let term = |u: Scalar, l: Fp| fp(u) + fp(beta) * l + fp(gamma);
        let gate = fp(a) * fp(b) + fp(a) * Fp::from(2) + fp(b) * Fp::from(3) + fp(c) * Fp::from(4) + Fp::from(5);
        let plus = term(a, x) * term(b, x) * term(c, x) * (xn - Fp::ONE) * fp(alpha);
        let minus = term(a, Fp::from(6)) * term(b, Fp::from(7)) * term(c, Fp::from(8)) * (xzn - Fp::ONE) * fp(alpha);
        let boundary = (fp(z) - Fp::ONE) * fp(l1) * fp(alpha) * fp(alpha);
        assert_eq!(fp(t[i]), gate + plus - minus + boundary);
    }
    assert_ne!(t[1], t[5]);
}

#[test]
fn divide_by_vanishing_keeps_low_degree() {
    let pd = PlonkDomain::new(2);
    assert_eq!(divide_by_vanishing(&consts(6, 32), &pd.gates8, 28), consts(6, 32));
    assert_eq!(divide_by_vanishing(&consts(6, 32), &pd.gates8, 0), consts(0, 32));
}

#[test]
fn divide_by_vanishing_drops_high_coefficients() {
    let pd = PlonkDomain::new(2);
    let mut coeffs = consts(0, 32);
    coeffs[0] = s(3);
    coeffs[30] = s(1);
    let mut evals = coeffs.clone();
    forward_transform(&mut evals, &pd.gates8);
    assert_eq!(divide_by_vanishing(&evals, &pd.gates8, 28), consts(3, 32));
}

fn session(seed: u64) -> Result<plonk::localplonk::Proof, ProverError> {
    let mut rng = StdRng::seed_from_u64(seed);
    let pd = PlonkDomain::new(2);
    let n = pd.n_gates;
    let pk = ProvingKey::new(n, &seeded(64 * n, &mut rng));
    let (a, b, c) = (seeded(n, &mut rng), seeded(n, &mut rng), seeded(n, &mut rng));
    let ch = Challenges { beta: s(rng.gen::<u64>()), gamma: s(rng.gen::<u64>()), alpha: s(rng.gen::<u64>()), point: s(rng.gen::<u64>()) };
    localplonk(&pd, &pk, &a, &b, &c, &ch, s(123))
}

#[test]
fn end_to_end_four_gates() {
    let p = session(42).unwrap();
    assert_eq!(p.z.len(), 4);
    assert_eq!(p.t8.len(), 32);
    assert_eq!(p.r.len(), 4);
    let openings = [p.open_a, p.open_b, p.open_c, p.open_s1, p.open_s2, p.open_s3, p.open_r];
    assert_eq!(openings.len(), 7);
    let q = session(42).unwrap();
    assert_eq!(p.z, q.z);
    assert_eq!(p.t8, q.t8);
    assert_eq!(p.r, q.r);
    assert_eq!(p.open_r, q.open_r);
    assert_eq!(p.open_a, q.open_a);
    let other = session(43).unwrap();
    assert_ne!(p.z, other.z);
}

#[test]
fn end_to_end_degenerate_permutation() {
    let pd = PlonkDomain::new(2);
    let pk = key_of(4, [1, 1, 1, 1, 1, 0, 1, 1]);
    // beta = 1, gamma = 0, a = 0, s1 = 0: the first wire term of every denominator is zero.
    let zero = consts(0, 4);
    let ch = Challenges { beta: s(1), gamma: s(0), alpha: s(2), point: s(3) };
    let r = localplonk(&pd, &pk, &zero, &consts(1, 4), &consts(1, 4), &ch, s(123));
    assert!(matches!(r, Err(ProverError::ArithmeticFault)));
}
