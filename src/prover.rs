//! The four prover rounds: witness extension, the permutation (grand-product)
//! polynomial, the quotient polynomial, and openings with the linearization.

use vstd::prelude::*;
use vstd::arithmetic::div_mod::lemma_small_mod;
use crate::domain::{scale, dft, eval_coeffs, forward_transform, inverse_transform, poly_eval, Domain};
use crate::field::{
    zeta_value, all_wf, fadd, finv, fmul, fpow, fsub, lemma_fmul_rotate, lemma_fpow_step,
    lemma_fpow_zero, lemma_inverse_unique, vals, Scalar,
};

verus! {

/// Why a proving session stops.
#[derive(Clone, Copy, Debug, PartialEq, Eq)]
pub enum ProverError {
    /// A vector's length differs from the size of the domain it is used with.
    PreconditionFault,
    /// A multiplicative inverse of zero was asked for.
    ArithmeticFault,
}

/// w + beta * x + gamma.
pub open spec fn wire_term(w: int, beta: int, x: int, gamma: int) -> int {
    fadd(fadd(w, fmul(beta, x)), gamma)
}

/// The product of the three wires' terms, each against its own label.
pub open spec fn wire_product(
    a: int,
    b: int,
    c: int,
    xa: int,
    xb: int,
    xc: int,
    beta: int,
    gamma: int,
) -> int {
    fmul(
        fmul(wire_term(a, beta, xa, gamma), wire_term(b, beta, xb, gamma)),
        wire_term(c, beta, xc, gamma),
    )
}

/// a * b * qm + a * ql + b * qr + c * qo + qc.
pub open spec fn gate_value(a: int, b: int, c: int, qm: int, ql: int, qr: int, qo: int, qc: int) -> int {
    fadd(fadd(fadd(fadd(fmul(fmul(a, b), qm), fmul(a, ql)), fmul(b, qr)), fmul(c, qo)), qc)
}

/// The numerator of the permutation argument at index i: wires labelled by omega^i.
pub open spec fn perm_numerator(
    a: Seq<int>,
    b: Seq<int>,
    c: Seq<int>,
    beta: int,
    gamma: int,
    omega: int,
    i: int,
) -> int {
    let x = fpow(omega, i as nat);
    wire_product(a[i], b[i], c[i], x, x, x, beta, gamma)
}

/// The denominator of the permutation argument at index i: wires labelled by s1, s2, s3.
pub open spec fn perm_denominator(
    a: Seq<int>,
    b: Seq<int>,
    c: Seq<int>,
    s1: Seq<int>,
    s2: Seq<int>,
    s3: Seq<int>,
    beta: int,
    gamma: int,
    i: int,
) -> int {
    wire_product(a[i], b[i], c[i], s1[i], s2[i], s3[i], beta, gamma)
}

fn wire_term_exec(w: Scalar, beta: Scalar, x: Scalar, gamma: Scalar) -> (r: Scalar)
    requires
        w.wf(),
        beta.wf(),
        x.wf(),
        gamma.wf(),
    ensures
        r.wf(),
        r.val() == wire_term(w.val(), beta.val(), x.val(), gamma.val()),
{
    w.plus(beta.times(x)).plus(gamma)
}

fn wire_product_exec(
    a: Scalar,
    b: Scalar,
    c: Scalar,
    xa: Scalar,
    xb: Scalar,
    xc: Scalar,
    beta: Scalar,
    gamma: Scalar,
) -> (r: Scalar)
    requires
        a.wf(),
        b.wf(),
        c.wf(),
        xa.wf(),
        xb.wf(),
        xc.wf(),
        beta.wf(),
        gamma.wf(),
    ensures
        r.wf(),
        r.val() == wire_product(
            a.val(),
            b.val(),
            c.val(),
            xa.val(),
            xb.val(),
            xc.val(),
            beta.val(),
            gamma.val(),
        ),
{
    let ta = wire_term_exec(a, beta, xa, gamma);
    let tb = wire_term_exec(b, beta, xb, gamma);
    let tc = wire_term_exec(c, beta, xc, gamma);
    ta.times(tb).times(tc)
}

/// `z` holds the running products of the permutation argument: z_0 = num_0 / den_0
/// and z_i = z_(i-1) * num_i / den_i.
pub open spec fn is_grand_product(
    z: Seq<int>,
    a: Seq<int>,
    b: Seq<int>,
    c: Seq<int>,
    s1: Seq<int>,
    s2: Seq<int>,
    s3: Seq<int>,
    beta: int,
    gamma: int,
    omega: int,
) -> bool {
    let num = |i: int| perm_numerator(a, b, c, beta, gamma, omega, i);
    let den = |i: int| perm_denominator(a, b, c, s1, s2, s3, beta, gamma, i);
    &&& z.len() == a.len()
    &&& a.len() > 0 ==> z[0] == fmul(num(0), finv(den(0)))
    &&& forall|i: int| 1 <= i < a.len() ==> #[trigger] z[i] == fmul(fmul(z[i - 1], num(i)), finv(den(i)))
}

/// The running products of the permutation argument over the primary domain.
///
/// With num_i and den_i the numerator and denominator at index i, the result is
/// z_0 = num_0 / den_0 and z_i = z_(i-1) * num_i / den_i. Fails with
/// `ArithmeticFault` exactly when some denominator is zero.
pub fn grand_product(
    a: &Vec<Scalar>,
    b: &Vec<Scalar>,
    c: &Vec<Scalar>,
    s1: &Vec<Scalar>,
    s2: &Vec<Scalar>,
    s3: &Vec<Scalar>,
    beta: Scalar,
    gamma: Scalar,
    omega: Scalar,
) -> (r: Result<Vec<Scalar>, ProverError>)
    requires
        b.len() == a.len(),
        c.len() == a.len(),
        s1.len() == a.len(),
        s2.len() == a.len(),
        s3.len() == a.len(),
        all_wf(a@),
        all_wf(b@),
        all_wf(c@),
        all_wf(s1@),
        all_wf(s2@),
        all_wf(s3@),
        beta.wf(),
        gamma.wf(),
        omega.wf(),
    ensures
        r is Err <==> exists|i: int|
            0 <= i < a.len() && #[trigger] perm_denominator(
                vals(a@),
                vals(b@),
                vals(c@),
                vals(s1@),
                vals(s2@),
                vals(s3@),
                beta.val(),
                gamma.val(),
                i,
            ) == 0,
        r is Err ==> r == Err::<Vec<Scalar>, ProverError>(ProverError::ArithmeticFault),
        r matches Ok(z) ==> all_wf(z@) && is_grand_product(
            vals(z@),
            vals(a@),
            vals(b@),
            vals(c@),
            vals(s1@),
            vals(s2@),
            vals(s3@),
            beta.val(),
            gamma.val(),
            omega.val(),
        ),
{
    let ghost va = vals(a@);
    let ghost vb = vals(b@);
    let ghost vc = vals(c@);
    let ghost v1 = vals(s1@);
    let ghost v2 = vals(s2@);
    let ghost v3 = vals(s3@);
    let n = a.len();
    let mut z: Vec<Scalar> = Vec::new();
    let mut omega_i = Scalar::from_u64(1);
    proof {
        lemma_fpow_zero(omega.val());
    }
    let mut i: usize = 0;
    while i < n
        invariant
            n == a.len(),
            b.len() == n,
            c.len() == n,
            s1.len() == n,
            s2.len() == n,
            s3.len() == n,
            all_wf(a@),
            all_wf(b@),
            all_wf(c@),
            all_wf(s1@),
            all_wf(s2@),
            all_wf(s3@),
            va == vals(a@),
            vb == vals(b@),
            vc == vals(c@),
            v1 == vals(s1@),
            v2 == vals(s2@),
            v3 == vals(s3@),
            beta.wf(),
            gamma.wf(),
            omega.wf(),
            0 <= i <= n,
            z.len() == i,
            all_wf(z@),
            omega_i.wf(),
            omega_i.val() == fpow(omega.val(), i as nat),
            forall|j: int|
                0 <= j < i ==> #[trigger] perm_denominator(va, vb, vc, v1, v2, v3, beta.val(), gamma.val(), j)
                    != 0,
            forall|j: int|
                0 <= j < i ==> #[trigger] z@[j].val() == fmul(
                    perm_numerator(va, vb, vc, beta.val(), gamma.val(), omega.val(), j),
                    finv(perm_denominator(va, vb, vc, v1, v2, v3, beta.val(), gamma.val(), j)),
                ),
        decreases n - i,
    {
        let den = wire_product_exec(a[i], b[i], c[i], s1[i], s2[i], s3[i], beta, gamma);
        assert(den.val() == perm_denominator(va, vb, vc, v1, v2, v3, beta.val(), gamma.val(), i as int));
        let inv = match den.inverse() {
            Some(y) => y,
            None => {
                return Err(ProverError::ArithmeticFault);
            },
        };
        proof {
            lemma_inverse_unique(den.val(), inv.val());
        }
        let num = wire_product_exec(a[i], b[i], c[i], omega_i, omega_i, omega_i, beta, gamma);
        assert(num.val() == perm_numerator(va, vb, vc, beta.val(), gamma.val(), omega.val(), i as int));
        z.push(num.times(inv));
        proof {
            lemma_fpow_step(omega.val(), i as nat);
        }
        omega_i = omega_i.times(omega);
        i = i + 1;
    }
    let ghost single = z@;
    let mut k: usize = 1;
    while k < n
        invariant
            n == a.len(),
            z.len() == n,
            all_wf(z@),
            single.len() == n,
            1 <= k,
            k <= n || n == 0,
            n > 0 ==> z@[0] == single[0],
            forall|j: int| k <= j < n ==> #[trigger] z@[j] == single[j],
            forall|j: int|
                1 <= j < k && j < n ==> #[trigger] z@[j].val() == fmul(single[j].val(), z@[j - 1].val()),
        decreases n - k,
    {
        let last = z[k - 1];
        let cur = z[k];
        z.set(k, cur.times(last));
        k = k + 1;
    }
    assert forall|j: int| 1 <= j < n implies #[trigger] vals(z@)[j] == fmul(
        fmul(vals(z@)[j - 1], perm_numerator(va, vb, vc, beta.val(), gamma.val(), omega.val(), j)),
        finv(perm_denominator(va, vb, vc, v1, v2, v3, beta.val(), gamma.val(), j)),
    ) by {
        lemma_fmul_rotate(
            perm_numerator(va, vb, vc, beta.val(), gamma.val(), omega.val(), j),
            finv(perm_denominator(va, vb, vc, v1, v2, v3, beta.val(), gamma.val(), j)),
            z@[j - 1].val(),
        );
    }
    assert(vals(z@).len() == n);
    Ok(z)
}

/// The first `keep` values of `s` (as far as `s` goes), then zeros, to length `len`.
pub open spec fn resize(s: Seq<int>, keep: int, len: nat) -> Seq<int> {
    Seq::new(len, |i: int| if i < keep && i < s.len() { s[i] } else { 0 })
}

/// The values of `v` at indices 0, stride, 2 * stride, ...: a vector stored over the
/// extended domain restricted to the primary domain's points.
pub fn restrict(v: &Vec<Scalar>, stride: usize, count: usize) -> (r: Vec<Scalar>)
    requires
        stride >= 1,
        stride * count <= v.len(),
        all_wf(v@),
    ensures
        r.len() == count,
        all_wf(r@),
        forall|i: int| 0 <= i < count ==> #[trigger] r@[i] == v@[stride * i],
{
    let mut r: Vec<Scalar> = Vec::new();
    let mut i: usize = 0;
    while i < count
        invariant
            stride >= 1,
            stride * count <= v.len(),
            all_wf(v@),
            0 <= i <= count,
            r.len() == i,
            all_wf(r@),
            forall|j: int| 0 <= j < i ==> #[trigger] r@[j] == v@[stride * j],
        decreases count - i,
    {
        proof {
            assert(stride * i + stride <= stride * count) by (nonlinear_arith)
                requires
                    i + 1 <= count,
            ;
        }
        r.push(v[stride * i]);
        i = i + 1;
    }
    r
}

/// The first `keep` entries of `v`, then zeros, to length `len`.
pub fn resized(v: &Vec<Scalar>, keep: usize, len: usize) -> (r: Vec<Scalar>)
    requires
        all_wf(v@),
    ensures
        r.len() == len,
        all_wf(r@),
        vals(r@) == resize(vals(v@), keep as int, len as nat),
{
    let zero = Scalar::from_u64(0);
    let mut r: Vec<Scalar> = Vec::new();
    let mut i: usize = 0;
    while i < len
        invariant
            all_wf(v@),
            zero.wf(),
            zero.val() == 0,
            0 <= i <= len,
            r.len() == i,
            all_wf(r@),
            forall|j: int|
                0 <= j < i ==> #[trigger] r@[j].val() == resize(vals(v@), keep as int, len as nat)[j],
        decreases len - i,
    {
        if i < keep && i < v.len() {
            r.push(v[i]);
        } else {
            r.push(zero);
        }
        i = i + 1;
    }
    assert(vals(r@) =~= resize(vals(v@), keep as int, len as nat));
    r
}

/// The evaluations over `extended` of the polynomial whose evaluations over
/// `primary` are `v` (a low-degree extension).
pub open spec fn extension(v: Seq<int>, primary: Domain, extended: Domain) -> Seq<int> {
    dft(resize(primary.interpolate(v), primary.size as int, extended.size as nat), extended.omega.val())
}

/// Low-degree extension from the primary domain to the extended domain.
pub fn extend(v: &Vec<Scalar>, primary: &Domain, extended: &Domain) -> (r: Vec<Scalar>)
    requires
        primary.wf(),
        extended.wf(),
        v.len() == primary.size,
        all_wf(v@),
    ensures
        r.len() == extended.size,
        all_wf(r@),
        vals(r@) == extension(vals(v@), *primary, *extended),
{
    let mut coeffs = resized(v, v.len(), v.len());
    assert(vals(coeffs@) =~= vals(v@));
    inverse_transform(&mut coeffs, primary);
    let mut evals = resized(&coeffs, primary.size, extended.size);
    forward_transform(&mut evals, extended);
    evals
}

/// The value at `point` of the polynomial whose evaluations over `dom` are `v`.
/// Fails with `PreconditionFault`, and computes nothing, when `v`'s length is not
/// the domain's size.
pub fn open(v: &Vec<Scalar>, point: Scalar, dom: &Domain) -> (r: Result<Scalar, ProverError>)
    requires
        dom.wf(),
        all_wf(v@),
        point.wf(),
    ensures
        r is Err <==> v.len() != dom.size,
        r is Err ==> r == Err::<Scalar, ProverError>(ProverError::PreconditionFault),
        r matches Ok(x) ==> x.wf() && x.val() == poly_eval(dom.interpolate(vals(v@)), point.val()),
{
    if v.len() != dom.size() {
        return Err(ProverError::PreconditionFault);
    }
    let mut coeffs = resized(v, v.len(), v.len());
    assert(vals(coeffs@) =~= vals(v@));
    inverse_transform(&mut coeffs, dom);
    Ok(eval_coeffs(&coeffs, point))
}

/// The selectors (qm, ql, qr, qo, qc) and permutation labels (s1, s2, s3),
/// each stored over the extended domain.
pub struct ProvingKey {
    pub ql: Vec<Scalar>,
    pub qr: Vec<Scalar>,
    pub qm: Vec<Scalar>,
    pub qo: Vec<Scalar>,
    pub qc: Vec<Scalar>,
    pub s1: Vec<Scalar>,
    pub s2: Vec<Scalar>,
    pub s3: Vec<Scalar>,
}

impl ProvingKey {
    /// Each of the eight vectors has length `len` and holds field elements.
    pub open spec fn wf(&self, len: nat) -> bool {
        &&& self.ql.len() == len && all_wf(self.ql@)
        &&& self.qr.len() == len && all_wf(self.qr@)
        &&& self.qm.len() == len && all_wf(self.qm@)
        &&& self.qo.len() == len && all_wf(self.qo@)
        &&& self.qc.len() == len && all_wf(self.qc@)
        &&& self.s1.len() == len && all_wf(self.s1@)
        &&& self.s2.len() == len && all_wf(self.s2@)
        &&& self.s3.len() == len && all_wf(self.s3@)
    }

    /// A key for `n_gates` gates filled from `draws`, taken eight at a time per
    /// extended-domain index in the order qm, ql, qr, qo, qc, s1, s2, s3.
    pub fn new(n_gates: usize, draws: &Vec<Scalar>) -> (r: ProvingKey)
        requires
            draws.len() == 64 * n_gates,
            all_wf(draws@),
        ensures
            r.wf(8 * n_gates as nat),
            forall|i: int|
                0 <= i < 8 * n_gates ==> {
                    &&& #[trigger] r.qm@[i] == draws@[8 * i]
                    &&& r.ql@[i] == draws@[8 * i + 1]
                    &&& r.qr@[i] == draws@[8 * i + 2]
                    &&& r.qo@[i] == draws@[8 * i + 3]
                    &&& r.qc@[i] == draws@[8 * i + 4]
                    &&& r.s1@[i] == draws@[8 * i + 5]
                    &&& r.s2@[i] == draws@[8 * i + 6]
                    &&& r.s3@[i] == draws@[8 * i + 7]
                },
    {
        let len = 8 * n_gates;
        let mut k = ProvingKey {
            ql: Vec::new(),
            qr: Vec::new(),
            qm: Vec::new(),
            qo: Vec::new(),
            qc: Vec::new(),
            s1: Vec::new(),
            s2: Vec::new(),
            s3: Vec::new(),
        };
        let mut i: usize = 0;
        while i < len
            invariant
                len == 8 * n_gates,
                draws.len() == 64 * n_gates,
                all_wf(draws@),
                0 <= i <= len,
                k.wf(i as nat),
                forall|j: int|
                    0 <= j < i ==> {
                        &&& #[trigger] k.qm@[j] == draws@[8 * j]
                        &&& k.ql@[j] == draws@[8 * j + 1]
                        &&& k.qr@[j] == draws@[8 * j + 2]
                        &&& k.qo@[j] == draws@[8 * j + 3]
                        &&& k.qc@[j] == draws@[8 * j + 4]
                        &&& k.s1@[j] == draws@[8 * j + 5]
                        &&& k.s2@[j] == draws@[8 * j + 6]
                        &&& k.s3@[j] == draws@[8 * j + 7]
                    },
            decreases len - i,
        {
            let b = 8 * i;
            k.qm.push(draws[b]);
            k.ql.push(draws[b + 1]);
            k.qr.push(draws[b + 2]);
            k.qo.push(draws[b + 3]);
            k.qc.push(draws[b + 4]);
            k.s1.push(draws[b + 5]);
            k.s2.push(draws[b + 6]);
            k.s3.push(draws[b + 7]);
            i = i + 1;
        }
        k
    }
}

/// The quotient's numerator at one extended-domain point x, with xn = x^n and
/// xzn = (zeta x)^n: the selector term, plus and minus the permutation terms, plus the
/// boundary term.
pub open spec fn quotient_value(
    a: int,
    b: int,
    c: int,
    z: int,
    l1: int,
    qm: int,
    ql: int,
    qr: int,
    qo: int,
    qc: int,
    s1: int,
    s2: int,
    s3: int,
    beta: int,
    gamma: int,
    alpha: int,
    x: int,
    xn: int,
    xzn: int,
) -> int {
    let gate = gate_value(a, b, c, qm, ql, qr, qo, qc);
    let plus = fmul(fmul(wire_product(a, b, c, x, x, x, beta, gamma), fsub(xn, 1)), alpha);
    let minus = fmul(fmul(wire_product(a, b, c, s1, s2, s3, beta, gamma), fsub(xzn, 1)), alpha);
    let boundary = fmul(fmul(fsub(z, 1), l1), fmul(alpha, alpha));
    fadd(fsub(fadd(gate, plus), minus), boundary)
}

/// The quotient's numerator at extended-domain index i, with omega the extended
/// domain's generator and n the number of gates.
pub open spec fn quotient_at(
    a8: Seq<int>,
    b8: Seq<int>,
    c8: Seq<int>,
    z8: Seq<int>,
    l1: Seq<int>,
    pk: ProvingKey,
    beta: int,
    gamma: int,
    alpha: int,
    omega: int,
    n: nat,
    i: int,
) -> int {
    quotient_value(
        a8[i],
        b8[i],
        c8[i],
        z8[i],
        l1[i],
        pk.qm@[i].val(),
        pk.ql@[i].val(),
        pk.qr@[i].val(),
        pk.qo@[i].val(),
        pk.qc@[i].val(),
        pk.s1@[i].val(),
        pk.s2@[i].val(),
        pk.s3@[i].val(),
        beta,
        gamma,
        alpha,
        fpow(omega, i as nat),
        fpow(fpow(omega, n), i as nat),
        fpow(fpow(fmul(zeta_value(), omega), n), i as nat),
    )
}

/// Where the selector equation holds, the permutation's two products agree, the two
/// shifted powers agree, and z is one or the first Lagrange polynomial vanishes,
/// the quotient's numerator is zero.
pub proof fn lemma_quotient_vanishes(
    a: int,
    b: int,
    c: int,
    z: int,
    l1: int,
    qm: int,
    ql: int,
    qr: int,
    qo: int,
    qc: int,
    s1: int,
    s2: int,
    s3: int,
    beta: int,
    gamma: int,
    alpha: int,
    x: int,
    xn: int,
    xzn: int,
)
    requires
        gate_value(a, b, c, qm, ql, qr, qo, qc) == 0,
        wire_product(a, b, c, x, x, x, beta, gamma) == wire_product(a, b, c, s1, s2, s3, beta, gamma),
        xn == xzn,
        z == 1 || l1 == 0,
    ensures
        quotient_value(a, b, c, z, l1, qm, ql, qr, qo, qc, s1, s2, s3, beta, gamma, alpha, x, xn, xzn)
            == 0,
{
    let m = crate::field::modulus();
    let plus = fmul(fmul(wire_product(a, b, c, x, x, x, beta, gamma), fsub(xn, 1)), alpha);
    assert(0 <= plus < m);
    lemma_small_mod(plus as nat, m as nat);
    lemma_small_mod(0, m as nat);
    assert(fadd(0, plus) == plus);
    assert(fsub(plus, plus) == 0);
    if z == 1 {
        assert(fsub(z, 1) == 0);
        assert(0 * l1 == 0);
    } else {
        assert(fsub(z, 1) * 0 == 0);
    }
    assert(fmul(fsub(z, 1), l1) == 0);
    assert(fmul(0, fmul(alpha, alpha)) == 0);
}

fn gate_value_exec(
    a: Scalar,
    b: Scalar,
    c: Scalar,
    qm: Scalar,
    ql: Scalar,
    qr: Scalar,
    qo: Scalar,
    qc: Scalar,
) -> (r: Scalar)
    requires
        a.wf(),
        b.wf(),
        c.wf(),
        qm.wf(),
        ql.wf(),
        qr.wf(),
        qo.wf(),
        qc.wf(),
    ensures
        r.wf(),
        r.val() == gate_value(
            a.val(),
            b.val(),
            c.val(),
            qm.val(),
            ql.val(),
            qr.val(),
            qo.val(),
            qc.val(),
        ),
{
    a.times(b).times(qm).plus(a.times(ql)).plus(b.times(qr)).plus(c.times(qo)).plus(qc)
}

fn quotient_value_exec(
    w: (Scalar, Scalar, Scalar, Scalar, Scalar),
    q: (Scalar, Scalar, Scalar, Scalar, Scalar),
    s: (Scalar, Scalar, Scalar),
    beta: Scalar,
    gamma: Scalar,
    alpha: Scalar,
    x: Scalar,
    xn: Scalar,
    xzn: Scalar,
) -> (r: Scalar)
    requires
        w.0.wf() && w.1.wf() && w.2.wf() && w.3.wf() && w.4.wf(),
        q.0.wf() && q.1.wf() && q.2.wf() && q.3.wf() && q.4.wf(),
        s.0.wf() && s.1.wf() && s.2.wf(),
        beta.wf() && gamma.wf() && alpha.wf(),
        x.wf() && xn.wf() && xzn.wf(),
    ensures
        r.wf(),
        r.val() == quotient_value(
            w.0.val(),
            w.1.val(),
            w.2.val(),
            w.3.val(),
            w.4.val(),
            q.0.val(),
            q.1.val(),
            q.2.val(),
            q.3.val(),
            q.4.val(),
            s.0.val(),
            s.1.val(),
            s.2.val(),
            beta.val(),
            gamma.val(),
            alpha.val(),
            x.val(),
            xn.val(),
            xzn.val(),
        ),
{
    let one = Scalar::from_u64(1);
    let (a, b, c, z, l1) = w;
    let gate = gate_value_exec(a, b, c, q.0, q.1, q.2, q.3, q.4);
    let plus = wire_product_exec(a, b, c, x, x, x, beta, gamma).times(xn.minus(one)).times(alpha);
    let minus = wire_product_exec(a, b, c, s.0, s.1, s.2, beta, gamma).times(xzn.minus(one)).times(
        alpha,
    );
    let boundary = z.minus(one).times(l1).times(alpha.times(alpha));
    gate.plus(plus).minus(minus).plus(boundary)
}

/// The quotient's numerator at every point of the extended domain, from the
/// extended witness `a8, b8, c8`, the extended grand product `z8`, the extended first
/// Lagrange polynomial `l1` and the key. `omega` is the extended domain's generator
/// and `n` the number of gates.
pub fn quotient_evals(
    a8: &Vec<Scalar>,
    b8: &Vec<Scalar>,
    c8: &Vec<Scalar>,
    z8: &Vec<Scalar>,
    l1: &Vec<Scalar>,
    pk: &ProvingKey,
    beta: Scalar,
    gamma: Scalar,
    alpha: Scalar,
    omega: Scalar,
    n: u64,
) -> (r: Vec<Scalar>)
    requires
        pk.wf(a8.len() as nat),
        b8.len() == a8.len(),
        c8.len() == a8.len(),
        z8.len() == a8.len(),
        l1.len() == a8.len(),
        all_wf(a8@),
        all_wf(b8@),
        all_wf(c8@),
        all_wf(z8@),
        all_wf(l1@),
        beta.wf(),
        gamma.wf(),
        alpha.wf(),
        omega.wf(),
    ensures
        r.len() == a8.len(),
        all_wf(r@),
        forall|i: int|
            0 <= i < a8.len() ==> #[trigger] r@[i].val() == quotient_at(
                vals(a8@),
                vals(b8@),
                vals(c8@),
                vals(z8@),
                vals(l1@),
                *pk,
                beta.val(),
                gamma.val(),
                alpha.val(),
                omega.val(),
                n as nat,
                i,
            ),
{
    let zeta = Scalar::zeta();
    let omega_n = omega.pow_u64(n);
    let zeta_omega_n = zeta.times(omega).pow_u64(n);
    let mut x = Scalar::from_u64(1);
    let mut xn = Scalar::from_u64(1);
    let mut xzn = Scalar::from_u64(1);
    proof {
        lemma_fpow_zero(omega.val());
        lemma_fpow_zero(omega_n.val());
        lemma_fpow_zero(zeta_omega_n.val());
    }
    let len = a8.len();
    let mut t: Vec<Scalar> = Vec::new();
    let mut i: usize = 0;
    while i < len
        invariant
            len == a8.len(),
            pk.wf(len as nat),
            b8.len() == len,
            c8.len() == len,
            z8.len() == len,
            l1.len() == len,
            all_wf(a8@),
            all_wf(b8@),
            all_wf(c8@),
            all_wf(z8@),
            all_wf(l1@),
            beta.wf(),
            gamma.wf(),
            alpha.wf(),
            omega.wf(),
            omega_n.wf(),
            omega_n.val() == fpow(omega.val(), n as nat),
            zeta_omega_n.wf(),
            zeta_omega_n.val() == fpow(fmul(zeta_value(), omega.val()), n as nat),
            x.wf(),
            x.val() == fpow(omega.val(), i as nat),
            xn.wf(),
            xn.val() == fpow(omega_n.val(), i as nat),
            xzn.wf(),
            xzn.val() == fpow(zeta_omega_n.val(), i as nat),
            0 <= i <= len,
            t.len() == i,
            all_wf(t@),
            forall|j: int|
                0 <= j < i ==> #[trigger] t@[j].val() == quotient_at(
                    vals(a8@),
                    vals(b8@),
                    vals(c8@),
                    vals(z8@),
                    vals(l1@),
                    *pk,
                    beta.val(),
                    gamma.val(),
                    alpha.val(),
                    omega.val(),
                    n as nat,
                    j,
                ),
        decreases len - i,
    {
        let v = quotient_value_exec(
            (a8[i], b8[i], c8[i], z8[i], l1[i]),
            (pk.qm[i], pk.ql[i], pk.qr[i], pk.qo[i], pk.qc[i]),
            (pk.s1[i], pk.s2[i], pk.s3[i]),
            beta,
            gamma,
            alpha,
            x,
            xn,
            xzn,
        );
        t.push(v);
        proof {
            lemma_fpow_step(omega.val(), i as nat);
            lemma_fpow_step(omega_n.val(), i as nat);
            lemma_fpow_step(zeta_omega_n.val(), i as nat);
        }
        x = x.times(omega);
        xn = xn.times(omega_n);
        xzn = xzn.times(zeta_omega_n);
        i = i + 1;
    }
    t
}

/// Division by the primary domain's vanishing polynomial, done as a truncation: the
/// coefficients of `t8` over `extended` from index `keep` on are dropped, and the rest
/// evaluated over `extended` again. Exact only when the division leaves no remainder.
pub fn divide_by_vanishing(t8: &Vec<Scalar>, extended: &Domain, keep: usize) -> (r: Vec<Scalar>)
    requires
        extended.wf(),
        t8.len() == extended.size,
        all_wf(t8@),
    ensures
        r.len() == t8.len(),
        all_wf(r@),
        vals(r@) == dft(
            resize(extended.interpolate(vals(t8@)), keep as int, extended.size as nat),
            extended.omega.val(),
        ),
{
    let mut coeffs = resized(t8, t8.len(), t8.len());
    assert(vals(coeffs@) =~= vals(t8@));
    inverse_transform(&mut coeffs, extended);
    let mut low = resized(&coeffs, keep, extended.size);
    forward_transform(&mut low, extended);
    low
}

/// Every entry multiplied by `k`.
pub fn scaled(v: &Vec<Scalar>, k: Scalar) -> (r: Vec<Scalar>)
    requires
        all_wf(v@),
        k.wf(),
    ensures
        r.len() == v.len(),
        all_wf(r@),
        vals(r@) == scale(vals(v@), k.val()),
{
    let mut r: Vec<Scalar> = Vec::new();
    let mut i: usize = 0;
    while i < v.len()
        invariant
            all_wf(v@),
            k.wf(),
            0 <= i <= v.len(),
            r.len() == i,
            all_wf(r@),
            forall|j: int| 0 <= j < i ==> #[trigger] r@[j].val() == fmul(v@[j].val(), k.val()),
        decreases v.len() - i,
    {
        r.push(v[i].times(k));
        i = i + 1;
    }
    assert(vals(r@) =~= scale(vals(v@), k.val()));
    r
}

/// The linearization over the primary domain: the selector polynomial with the wires
/// fixed to their openings, read from the selectors at primary-domain points
/// (every eighth entry).
pub open spec fn linearization_at(oa: int, ob: int, oc: int, pk: ProvingKey, i: int) -> int {
    gate_value(
        oa,
        ob,
        oc,
        pk.qm@[8 * i].val(),
        pk.ql@[8 * i].val(),
        pk.qr@[8 * i].val(),
        pk.qo@[8 * i].val(),
        pk.qc@[8 * i].val(),
    )
}

/// r_i = oa * ob * qm_i + oa * ql_i + ob * qr_i + oc * qo_i + qc_i for each of the
/// `n` primary-domain points.
pub fn linearization(oa: Scalar, ob: Scalar, oc: Scalar, pk: &ProvingKey, n: usize) -> (r: Vec<
    Scalar,
>)
    requires
        pk.wf(8 * n as nat),
        oa.wf(),
        ob.wf(),
        oc.wf(),
    ensures
        r.len() == n,
        all_wf(r@),
        forall|i: int|
            0 <= i < n ==> #[trigger] r@[i].val() == linearization_at(
                oa.val(),
                ob.val(),
                oc.val(),
                *pk,
                i,
            ),
{
    let qm = restrict(&pk.qm, 8, n);
    let ql = restrict(&pk.ql, 8, n);
    let qr = restrict(&pk.qr, 8, n);
    let qo = restrict(&pk.qo, 8, n);
    let qc = restrict(&pk.qc, 8, n);
    let mut r: Vec<Scalar> = Vec::new();
    let mut i: usize = 0;
    while i < n
        invariant
            pk.wf(8 * n as nat),
            oa.wf(),
            ob.wf(),
            oc.wf(),
            qm.len() == n && all_wf(qm@) && forall|j: int| 0 <= j < n ==> #[trigger] qm@[j] == pk.qm@[8 * j],
            ql.len() == n && all_wf(ql@) && forall|j: int| 0 <= j < n ==> #[trigger] ql@[j] == pk.ql@[8 * j],
            qr.len() == n && all_wf(qr@) && forall|j: int| 0 <= j < n ==> #[trigger] qr@[j] == pk.qr@[8 * j],
            qo.len() == n && all_wf(qo@) && forall|j: int| 0 <= j < n ==> #[trigger] qo@[j] == pk.qo@[8 * j],
            qc.len() == n && all_wf(qc@) && forall|j: int| 0 <= j < n ==> #[trigger] qc@[j] == pk.qc@[8 * j],
            0 <= i <= n,
            r.len() == i,
            all_wf(r@),
            forall|j: int|
                0 <= j < i ==> #[trigger] r@[j].val() == linearization_at(
                    oa.val(),
                    ob.val(),
                    oc.val(),
                    *pk,
                    j,
                ),
        decreases n - i,
    {
        r.push(gate_value_exec(oa, ob, oc, qm[i], ql[i], qr[i], qo[i], qc[i]));
        i = i + 1;
    }
    r
}

} // verus!
