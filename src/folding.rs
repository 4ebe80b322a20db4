use vstd::prelude::*;

use crate::error::Error;
use crate::field::{p, Fp, MODULUS};
use crate::r1cs::{scalar_of, R1CS};
use crate::relaxed::{copy_vec, zero_vec, zeros, z_of, CommitmentScheme, CommittedInstance, Transcript, Witness};
use crate::vector::{canon, fvs, lemma_canon, mat_vec_mul, row_sum, SparseMatrix};
use vstd::arithmetic::div_mod::{
    lemma_add_mod_noop, lemma_mod_twice, lemma_mul_mod_noop_right, lemma_sub_mod_noop,
    lemma_mul_mod_noop_left,
};

verus! {

/// `x` and `y` are congruent modulo the field's prime.
pub open spec fn cong(x: int, y: int) -> bool {
    x % p() == y % p()
}

proof fn lemma_cong_add(x1: int, x2: int, y1: int, y2: int)
    requires
        cong(x1, x2),
        cong(y1, y2),
    ensures
        cong(x1 + y1, x2 + y2),
{
    lemma_add_mod_noop(x1, y1, p());
    lemma_add_mod_noop(x2, y2, p());
}

proof fn lemma_cong_sub(x1: int, x2: int, y1: int, y2: int)
    requires
        cong(x1, x2),
        cong(y1, y2),
    ensures
        cong(x1 - y1, x2 - y2),
{
    lemma_sub_mod_noop(x1, y1, p());
    lemma_sub_mod_noop(x2, y2, p());
}

proof fn lemma_cong_mul(x1: int, x2: int, y1: int, y2: int)
    requires
        cong(x1, x2),
        cong(y1, y2),
    ensures
        cong(x1 * y1, x2 * y2),
{
    lemma_mul_mod_noop_left(x1, y1, p());
    lemma_mul_mod_noop_left(x2, y1, p());
    lemma_mul_mod_noop_right(x2, y1, p());
    lemma_mul_mod_noop_right(x2, y2, p());
}

proof fn lemma_cong_mod(x: int)
    ensures
        cong(x % p(), x),
{
    lemma_mod_twice(x, p());
}

/// The field values of `a + r b`, element by element.
pub open spec fn fold_seq(a: Seq<Fp>, b: Seq<Fp>, r: int) -> Seq<int> {
    Seq::new(a.len(), |i: int| (a[i].fv() + r * b[i].fv()) % p())
}

/// The cross term of two assignment vectors with scalars `u1`, `u2`:
/// `(A z1) o (B z2) + (A z2) o (B z1) - u1 (C z2) - u2 (C z1)`.
pub open spec fn cross_term(r1cs: R1CS, z1: Seq<Fp>, u1: int, z2: Seq<Fp>, u2: int) -> Seq<int> {
    Seq::new(
        r1cs.A.n_rows as nat,
        |i: int|
            (r1cs.A.mul_spec(z1)[i] * r1cs.B.mul_spec(z2)[i] + r1cs.A.mul_spec(z2)[i]
                * r1cs.B.mul_spec(z1)[i] - u1 * r1cs.C.mul_spec(z2)[i] - u2 * r1cs.C.mul_spec(
                z1,
            )[i]) % p(),
    )
}

/// The error terms of `w` over `n` rows: an empty vector stands for zeros.
pub open spec fn err_of(w: Witness, n: nat) -> Seq<Fp> {
    if w.E@.len() == 0 {
        zeros(n)
    } else {
        w.E@
    }
}

/// `w` is the fold of `w1` and `w2` under the challenge `r` and cross term `t`:
/// `W = W1 + r W2` and `E = E1 + r T + r^2 E2`.
pub open spec fn folded_witness(w: Witness, w1: Witness, w2: Witness, t: Seq<Fp>, r: int) -> bool {
    &&& w.W@.len() == w1.W@.len()
    &&& fvs(w.W@) == fold_seq(w1.W@, w2.W@, r)
    &&& w.E@.len() == w1.E@.len()
    &&& forall|i: int|
        0 <= i < w.E@.len() ==> cong(
            #[trigger] w.E@[i].fv(),
            w1.E@[i].fv() + r * t[i].fv() + r * r * err_of(w2, t.len())[i].fv(),
        )
}

/// `u` is the fold of `u1` and `u2` under `r`: `u = u1 + r u2` and `x = x1 + r x2`.
pub open spec fn folded_instance<C>(
    u: CommittedInstance<C>,
    u1: CommittedInstance<C>,
    u2: CommittedInstance<C>,
    r: int,
) -> bool {
    &&& u.u.fv() == (u1.u.fv() + r * u2.u.fv()) % p()
    &&& u.x@.len() == u1.x@.len()
    &&& fvs(u.x@) == fold_seq(u1.x@, u2.x@, r)
}

/// A sparse row is linear in the vector it multiplies, modulo the prime.
proof fn lemma_row_sum_linear(row: Seq<(Fp, usize)>, z: Seq<Fp>, z1: Seq<Fp>, z2: Seq<Fp>, r: int)
    requires
        forall|k: int| 0 <= k < row.len() ==> 0 <= (#[trigger] row[k]).1 < z.len(),
        z1.len() == z.len(),
        z2.len() == z.len(),
        forall|i: int|
            0 <= i < z.len() ==> (#[trigger] z[i]).fv() == (z1[i].fv() + r * z2[i].fv()) % p(),
    ensures
        cong(row_sum(row, z), row_sum(row, z1) + r * row_sum(row, z2)),
    decreases row.len(),
{
    if row.len() > 0 {
        let rest = row.drop_last();
        let (c, j) = row.last();
        assert(row.last() == row[row.len() - 1]);
        lemma_row_sum_linear(rest, z, z1, z2, r);
        let c = c.val as int;
        let zj = z[j as int].val as int;
        let aj = z1[j as int].val as int;
        let bj = z2[j as int].val as int;
        // z[j] is congruent to z1[j] + r z2[j]
        lemma_cong_mod(zj);
        lemma_cong_mod(aj);
        lemma_cong_mod(bj);
        lemma_cong_mul(r, r, bj % p(), bj);
        lemma_cong_add(aj % p(), aj, r * (bj % p()), r * bj);
        lemma_cong_mod(aj % p() + r * (bj % p()));
        assert(cong(zj, aj + r * bj));
        lemma_cong_mul(c, c, zj, aj + r * bj);
        let s = row_sum(rest, z);
        let s1 = row_sum(rest, z1);
        let s2 = row_sum(rest, z2);
        lemma_cong_add(s, s1 + r * s2, c * zj, c * (aj + r * bj));
        assert(s1 + r * s2 + c * (aj + r * bj) == (s1 + c * aj) + r * (s2 + c * bj))
            by (nonlinear_arith);
    }
}

/// The matrix product of the folded vector is the fold of the products.
proof fn lemma_mul_spec_linear(m: SparseMatrix, z: Seq<Fp>, z1: Seq<Fp>, z2: Seq<Fp>, r: int, i: int)
    requires
        m.wf(),
        z.len() == m.n_cols,
        z1.len() == z.len(),
        z2.len() == z.len(),
        0 <= i < m.n_rows,
        forall|k: int|
            0 <= k < z.len() ==> (#[trigger] z[k]).fv() == (z1[k].fv() + r * z2[k].fv()) % p(),
    ensures
        cong(m.mul_spec(z)[i], m.mul_spec(z1)[i] + r * m.mul_spec(z2)[i]),
{
    let row = m.row(i);
    assert forall|k: int| 0 <= k < row.len() implies 0 <= (#[trigger] row[k]).1 < z.len() by {
        assert(m.row(i)[k].1 < m.n_cols);
    }
    lemma_row_sum_linear(row, z, z1, z2, r);
    let s = row_sum(row, z);
    let s1 = row_sum(row, z1);
    let s2 = row_sum(row, z2);
    lemma_cong_mod(s);
    lemma_cong_mod(s1);
    lemma_cong_mod(s2);
    lemma_cong_mul(r, r, s2 % p(), s2);
    lemma_cong_add(s1 % p(), s1, r * (s2 % p()), r * s2);
}

proof fn lemma_prod_expand(a1: int, a2: int, b1: int, b2: int, r: int)
    ensures
        (a1 + r * a2) * (b1 + r * b2) == a1 * b1 + r * (a1 * b2 + a2 * b1) + r * r * (a2 * b2),
{
    let b = b1 + r * b2;
    vstd::arithmetic::mul::lemma_mul_is_distributive_add_other_way(b, a1, r * a2);
    vstd::arithmetic::mul::lemma_mul_is_distributive_add(a1, b1, r * b2);
    vstd::arithmetic::mul::lemma_mul_is_distributive_add(r * a2, b1, r * b2);
    assert(a1 * (r * b2) == r * (a1 * b2)) by {
        vstd::arithmetic::mul::lemma_mul_is_associative(a1, r, b2);
        vstd::arithmetic::mul::lemma_mul_is_commutative(a1, r);
        vstd::arithmetic::mul::lemma_mul_is_associative(r, a1, b2);
    }
    assert((r * a2) * b1 == r * (a2 * b1)) by {
        vstd::arithmetic::mul::lemma_mul_is_associative(r, a2, b1);
    }
    assert((r * a2) * (r * b2) == r * r * (a2 * b2)) by {
        vstd::arithmetic::mul::lemma_mul_is_associative(r * a2, r, b2);
        vstd::arithmetic::mul::lemma_mul_is_associative(r, a2, r);
        vstd::arithmetic::mul::lemma_mul_is_commutative(a2, r);
        vstd::arithmetic::mul::lemma_mul_is_associative(r, r, a2);
        vstd::arithmetic::mul::lemma_mul_is_associative(r * r, a2, b2);
    }
    vstd::arithmetic::mul::lemma_mul_is_distributive_add(r, a1 * b2, a2 * b1);
}

proof fn lemma_fold_poly(
    a1: int,
    a2: int,
    b1: int,
    b2: int,
    c1: int,
    c2: int,
    v1: int,
    v2: int,
    r: int,
)
    ensures
        (a1 + r * a2) * (b1 + r * b2) - (v1 + r * v2) * (c1 + r * c2) == (a1 * b1 - v1 * c1) + r
            * (a1 * b2 + a2 * b1 - v1 * c2 - v2 * c1) + r * r * (a2 * b2 - v2 * c2),
{
    lemma_prod_expand(a1, a2, b1, b2, r);
    lemma_prod_expand(v1, v2, c1, c2, r);
    vstd::arithmetic::mul::lemma_mul_is_distributive_sub(r, a1 * b2 + a2 * b1, v1 * c2 + v2 * c1);
    vstd::arithmetic::mul::lemma_mul_is_distributive_sub(r * r, a2 * b2, v2 * c2);
}

/// Folding two pairs that satisfy the relaxed relation, with the cross term
/// of their assignment vectors, gives a pair that satisfies it too.
pub proof fn lemma_fold_complete<C>(
    r1cs: R1CS,
    w1: Witness,
    u1: CommittedInstance<C>,
    w2: Witness,
    u2: CommittedInstance<C>,
    t: Seq<Fp>,
    r: int,
    w: Witness,
    u: CommittedInstance<C>,
)
    requires
        r1cs.shape_ok(),
        r1cs.relaxed_result(w1, u1) is Ok,
        r1cs.relaxed_result(w2, u2) is Ok || r1cs.tight_result(w2, u2) is Ok,
        w2.E@.len() == t.len() || w2.E@.len() == 0,
        u1.x@.len() == u2.x@.len(),
        w1.W@.len() == w2.W@.len(),
        fvs(t) == cross_term(r1cs, z_of(w1, u1), u1.u.fv(), z_of(w2, u2), u2.u.fv()),
        folded_witness(w, w1, w2, t, r),
        folded_instance(u, u1, u2, r),
    ensures
        r1cs.relaxed_result(w, u) == Ok::<(), Error>(()),
{
    assert(fvs(t).len() == t.len());
    let e2s = err_of(w2, t.len());
    assert forall|i: int| 0 <= i < r1cs.A.n_rows implies #[trigger] e2s[i].fv()
        == r1cs.residual_spec(z_of(w2, u2), u2.u.fv())[i] by {
        if r1cs.relaxed_result(w2, u2) is Ok {
            assert(fvs(w2.E@).len() == w2.E@.len());
            assert(fvs(w2.E@)[i] == r1cs.residual_spec(z_of(w2, u2), u2.u.fv())[i]);
        } else {
            assert(scalar_of(z_of(w2, u2)) == u2.u.fv());
            assert(r1cs.residual_spec(z_of(w2, u2), scalar_of(z_of(w2, u2)))[i] == 0);
            if w2.E@.len() == 0 {
                vstd::arithmetic::div_mod::lemma_small_mod(0, p() as nat);
            } else {
                assert(w2.E@[i].fv() == 0);
            }
        }
    }
    let z1 = z_of(w1, u1);
    let z2 = z_of(w2, u2);
    let z = z_of(w, u);
    let n = r1cs.A.n_cols;
    assert(z.len() == n);
    assert(fvs(w1.E@).len() == w1.E@.len());
    assert forall|k: int| 0 <= k < z.len() implies (#[trigger] z[k]).fv() == (z1[k].fv() + r
        * z2[k].fv()) % p() by {
        let l = u.x@.len() as int;
        if k == 0 {
        } else if k < 1 + l {
            assert(z[k] == u.x@[k - 1]);
            assert(z1[k] == u1.x@[k - 1]);
            assert(z2[k] == u2.x@[k - 1]);
            assert(fvs(u.x@)[k - 1] == fold_seq(u1.x@, u2.x@, r)[k - 1]);
        } else {
            assert(z[k] == w.W@[k - 1 - l]);
            assert(z1[k] == w1.W@[k - 1 - l]);
            assert(z2[k] == w2.W@[k - 1 - l]);
            assert(fvs(w.W@)[k - 1 - l] == fold_seq(w1.W@, w2.W@, r)[k - 1 - l]);
        }
    }
    let res = r1cs.residual_spec(z, u.u.fv());
    assert forall|i: int| 0 <= i < r1cs.A.n_rows implies #[trigger] fvs(w.E@)[i] == res[i] by {
        let a = r1cs.A.mul_spec(z)[i];
        let b = r1cs.B.mul_spec(z)[i];
        let c = r1cs.C.mul_spec(z)[i];
        let a1 = r1cs.A.mul_spec(z1)[i];
        let b1 = r1cs.B.mul_spec(z1)[i];
        let c1 = r1cs.C.mul_spec(z1)[i];
        let a2 = r1cs.A.mul_spec(z2)[i];
        let b2 = r1cs.B.mul_spec(z2)[i];
        let c2 = r1cs.C.mul_spec(z2)[i];
        let uf = u.u.fv();
        let v1 = u1.u.fv();
        let v2 = u2.u.fv();
        lemma_mul_spec_linear(r1cs.A, z, z1, z2, r, i);
        lemma_mul_spec_linear(r1cs.B, z, z1, z2, r, i);
        lemma_mul_spec_linear(r1cs.C, z, z1, z2, r, i);
        lemma_cong_mod(v1 + r * v2);
        // the residual of the folded vector
        lemma_cong_mul(a, a1 + r * a2, b, b1 + r * b2);
        lemma_cong_mul(uf, v1 + r * v2, c, c1 + r * c2);
        lemma_cong_sub(a * b, (a1 + r * a2) * (b1 + r * b2), uf * c, (v1 + r * v2) * (c1 + r
            * c2));
        let poly = (a1 * b1 - v1 * c1) + r * (a1 * b2 + a2 * b1 - v1 * c2 - v2 * c1) + r * r * (
        a2 * b2 - v2 * c2);
        lemma_fold_poly(a1, a2, b1, b2, c1, c2, v1, v2, r);
        lemma_cong_mod(a * b - uf * c);
        // the folded error term
        let e1 = w1.E@[i].fv();
        let e2 = e2s[i].fv();
        let ti = t[i].fv();
        assert(fvs(w1.E@)[i] == r1cs.residual_spec(z1, v1)[i]);
        assert(e2 == r1cs.residual_spec(z2, v2)[i]);
        assert(fvs(t)[i] == cross_term(r1cs, z1, v1, z2, v2)[i]);
        lemma_cong_mod(a1 * b1 - v1 * c1);
        lemma_cong_mod(a2 * b2 - v2 * c2);
        lemma_cong_mod(a1 * b2 + a2 * b1 - v1 * c2 - v2 * c1);
        lemma_cong_mul(r, r, ti, a1 * b2 + a2 * b1 - v1 * c2 - v2 * c1);
        lemma_cong_mul(r * r, r * r, e2, a2 * b2 - v2 * c2);
        lemma_cong_add(e1, a1 * b1 - v1 * c1, r * ti, r * (a1 * b2 + a2 * b1 - v1 * c2 - v2
            * c1));
        lemma_cong_add(e1 + r * ti, (a1 * b1 - v1 * c1) + r * (a1 * b2 + a2 * b1 - v1 * c2 - v2
            * c1), r * r * e2, r * r * (a2 * b2 - v2 * c2));
        assert(cong(w.E@[i].fv(), e1 + r * ti + r * r * e2));
        lemma_cong_mod(w.E@[i].fv() as int);
        vstd::arithmetic::div_mod::lemma_mod_bound(w.E@[i].val as int, p());
        vstd::arithmetic::div_mod::lemma_small_mod(w.E@[i].fv() as nat, p() as nat);
        vstd::arithmetic::div_mod::lemma_mod_bound(a * b - uf * c, p());
        vstd::arithmetic::div_mod::lemma_small_mod(res[i] as nat, p() as nat);
    }
    assert(fvs(w.E@) =~= res);
}

/// The data a fold hands to the decider: the cross term and its commitment.
#[allow(non_snake_case)]
#[derive(Clone, Debug)]
pub struct FoldingProof<C> {
    pub T: Vec<Fp>,
    pub cmT: C,
}

/// The fold `a + r b` of two vectors of equal length.
pub fn fold_vec(a: &Vec<Fp>, b: &Vec<Fp>, r: Fp) -> (out: Vec<Fp>)
    requires
        a@.len() == b@.len(),
    ensures
        out@.len() == a@.len(),
        fvs(out@) == fold_seq(a@, b@, r.fv()),
{
    let mut out: Vec<Fp> = Vec::new();
    let mut i: usize = 0;
    while i < a.len()
        invariant
            a@.len() == b@.len(),
            i <= a@.len(),
            out@.len() == i,
            forall|j: int|
                0 <= j < i ==> (#[trigger] out@[j]).fv() == (a@[j].fv() + r.fv() * b@[j].fv())
                    % p(),
        decreases a@.len() - i,
    {
        let v = a[i].add(r.mul(b[i]));
        proof {
            lemma_add_mod_noop(a@[i as int].fv(), r.fv() * b@[i as int].fv(), p());
            lemma_mod_twice(a@[i as int].fv() + r.fv() * b@[i as int].fv(), p());
            lemma_add_mod_noop(a@[i as int].fv(), (r.fv() * b@[i as int].fv()) % p(), p());
            lemma_cong_mod(r.fv() * b@[i as int].fv());
            lemma_cong_add(a@[i as int].fv(), a@[i as int].fv(), (r.fv() * b@[i as int].fv()) % p(), r.fv() * b@[i as int].fv());
        }
        out.push(v);
        i = i + 1;
    }
    assert(fvs(out@) =~= fold_seq(a@, b@, r.fv()));
    out
}

impl R1CS {
    /// The cross term of the assignment vectors `z1`, `z2` with scalars `u1`, `u2`.
    pub fn compute_T(&self, z1: &[Fp], u1: Fp, z2: &[Fp], u2: Fp) -> (r: Result<Vec<Fp>, Error>)
        requires
            self.shape_ok(),
        ensures
            r is Ok <==> z1@.len() == self.A.n_cols && z2@.len() == self.A.n_cols,
            r is Err ==> r == Err::<Vec<Fp>, Error>(Error::NotSameLength(
                if z1@.len() != self.A.n_cols { z1@.len() as usize } else { z2@.len() as usize },
                self.A.n_cols,
            )),
            r is Ok ==> fvs(r->Ok_0@) == cross_term(*self, z1@, u1.fv(), z2@, u2.fv()),
            r is Ok ==> r->Ok_0@ == canon(cross_term(*self, z1@, u1.fv(), z2@, u2.fv())),
    {
        let az1 = mat_vec_mul(&self.A, z1)?;
        let bz1 = mat_vec_mul(&self.B, z1)?;
        let cz1 = mat_vec_mul(&self.C, z1)?;
        let az2 = mat_vec_mul(&self.A, z2)?;
        let bz2 = mat_vec_mul(&self.B, z2)?;
        let cz2 = mat_vec_mul(&self.C, z2)?;
        proof {
            assert(fvs(az1@).len() == az1@.len());
            assert(fvs(bz1@).len() == bz1@.len());
            assert(fvs(cz1@).len() == cz1@.len());
            assert(fvs(az2@).len() == az2@.len());
            assert(fvs(bz2@).len() == bz2@.len());
            assert(fvs(cz2@).len() == cz2@.len());
        }
        let ghost want = cross_term(*self, z1@, u1.fv(), z2@, u2.fv());
        let mut t: Vec<Fp> = Vec::new();
        let mut i: usize = 0;
        while i < az1.len()
            invariant
                az1@.len() == self.A.n_rows,
                bz1@.len() == self.A.n_rows,
                cz1@.len() == self.A.n_rows,
                az2@.len() == self.A.n_rows,
                bz2@.len() == self.A.n_rows,
                cz2@.len() == self.A.n_rows,
                self.shape_ok(),
                fvs(az1@) == self.A.mul_spec(z1@),
                fvs(bz1@) == self.B.mul_spec(z1@),
                fvs(cz1@) == self.C.mul_spec(z1@),
                fvs(az2@) == self.A.mul_spec(z2@),
                fvs(bz2@) == self.B.mul_spec(z2@),
                fvs(cz2@) == self.C.mul_spec(z2@),
                want == cross_term(*self, z1@, u1.fv(), z2@, u2.fv()),
                i <= az1@.len(),
                t@.len() == i,
                forall|j: int| 0 <= j < i ==> (#[trigger] t@[j]).fv() == want[j],
                forall|j: int| 0 <= j < i ==> (#[trigger] t@[j]).canonical(),
            decreases az1@.len() - i,
        {
            let prod1 = az1[i].mul(bz2[i]);
            let prod2 = az2[i].mul(bz1[i]);
            let prod3 = u1.mul(cz2[i]);
            let prod4 = u2.mul(cz1[i]);
            let s1 = prod1.add(prod2);
            let s2 = s1.sub(prod3);
            let v = s2.sub(prod4);
            proof {
                let k = i as int;
                let a1 = az1@[k].fv();
                let b1 = bz1@[k].fv();
                let c1 = cz1@[k].fv();
                let a2 = az2@[k].fv();
                let b2 = bz2@[k].fv();
                let c2 = cz2@[k].fv();
                assert(fvs(az1@)[k] == a1 && fvs(bz1@)[k] == b1 && fvs(cz1@)[k] == c1);
                assert(fvs(az2@)[k] == a2 && fvs(bz2@)[k] == b2 && fvs(cz2@)[k] == c2);
                let x1 = a1 * b2;
                let x2 = a2 * b1;
                let x3 = u1.fv() * c2;
                let x4 = u2.fv() * c1;
                lemma_cong_mod(x1);
                lemma_cong_mod(x2);
                lemma_cong_mod(x3);
                lemma_cong_mod(x4);
                lemma_cong_add(prod1.fv(), x1, prod2.fv(), x2);
                lemma_cong_mod(prod1.fv() + prod2.fv());
                lemma_cong_sub(s1.fv(), x1 + x2, prod3.fv(), x3);
                lemma_cong_mod(s1.fv() - prod3.fv());
                lemma_cong_sub(s2.fv(), x1 + x2 - x3, prod4.fv(), x4);
                lemma_cong_mod(s2.fv() - prod4.fv());
                assert(cong(v.fv(), x1 + x2 - x3 - x4));
                lemma_mod_twice(v.val as int, p());
            }
            t.push(v);
            i = i + 1;
        }
        proof {
            assert(fvs(t@) =~= want);
            lemma_canon(t@);
        }
        Ok(t)
    }
}

/// Folds the witnesses: `W = W1 + r W2`, `E = E1 + r T + r^2 E2`, and the
/// blindings alike, with `r_t` the blinding of the cross term.
pub fn fold_witness(w1: &Witness, w2: &Witness, t: &Vec<Fp>, r_t: Fp, r: Fp) -> (w: Witness)
    requires
        w1.W@.len() == w2.W@.len(),
        w1.E@.len() == t@.len(),
        w2.E@.len() == t@.len() || w2.E@.len() == 0,
    ensures
        folded_witness(w, *w1, *w2, t@, r.fv()),
        w.rW.fv() == (w1.rW.fv() + r.fv() * w2.rW.fv()) % p(),
        cong(w.rE.fv(), w1.rE.fv() + r.fv() * r_t.fv() + r.fv() * r.fv() * w2.rE.fv()),
{
    let w_new = fold_vec(&w1.W, &w2.W, r);
    let e2 = if w2.E.len() == 0 {
        zero_vec(t.len())
    } else {
        copy_vec(&w2.E)
    };
    let inner = fold_vec(t, &e2, r);
    let e_new = fold_vec(&w1.E, &inner, r);
    let m1 = r.mul(w2.rE);
    let inner_r = r_t.add(m1);
    let m2 = r.mul(inner_r);
    let r_e = w1.rE.add(m2);
    let r_w = w1.rW.add(r.mul(w2.rW));
    proof {
        let rv = r.fv();
        assert(e2@ == err_of(*w2, t@.len()));
        let a = rv * w2.rE.fv();
        lemma_cong_mod(a);
        lemma_cong_add(r_t.fv(), r_t.fv(), m1.fv(), a);
        lemma_cong_mod(r_t.fv() + m1.fv());
        lemma_cong_mul(rv, rv, inner_r.fv(), r_t.fv() + a);
        lemma_cong_mod(rv * inner_r.fv());
        lemma_cong_add(w1.rE.fv(), w1.rE.fv(), m2.fv(), rv * (r_t.fv() + a));
        lemma_cong_mod(w1.rE.fv() + m2.fv());
        assert(rv * (r_t.fv() + a) == rv * r_t.fv() + rv * rv * w2.rE.fv()) by {
            vstd::arithmetic::mul::lemma_mul_is_distributive_add(rv, r_t.fv(), a);
            vstd::arithmetic::mul::lemma_mul_is_associative(rv, rv, w2.rE.fv());
        }
        lemma_cong_mod(rv * w2.rW.fv());
        lemma_cong_add(w1.rW.fv(), w1.rW.fv(), (rv * w2.rW.fv()) % p(), rv * w2.rW.fv());
        assert forall|i: int| 0 <= i < e_new@.len() implies cong(
            #[trigger] e_new@[i].fv(),
            w1.E@[i].fv() + rv * t@[i].fv() + rv * rv * err_of(*w2, t@.len())[i].fv(),
        ) by {
            let e1 = w1.E@[i].fv();
            let e2v = e2@[i].fv();
            let ti = t@[i].fv();
            assert(fvs(inner@)[i] == fold_seq(t@, e2@, rv)[i]);
            assert(fvs(e_new@)[i] == fold_seq(w1.E@, inner@, rv)[i]);
            let iv = inner@[i].fv();
            lemma_cong_mod(ti + rv * e2v);
            lemma_cong_mul(rv, rv, iv, ti + rv * e2v);
            lemma_cong_add(e1, e1, rv * iv, rv * (ti + rv * e2v));
            lemma_cong_mod(e1 + rv * iv);
            assert(rv * (ti + rv * e2v) == rv * ti + rv * rv * e2v) by {
                vstd::arithmetic::mul::lemma_mul_is_distributive_add(rv, ti, rv * e2v);
                vstd::arithmetic::mul::lemma_mul_is_associative(rv, rv, e2v);
            }
        }
    }
    Witness { E: e_new, rE: r_e, W: w_new, rW: r_w }
}

/// The commitments of `u` are the folds of those of `u1` and `u2` under `r`:
/// `cmE = cmE1 + r (cmT + r cmE2)` and `cmW = cmW1 + r cmW2`.
pub open spec fn folded_commitments<CS: CommitmentScheme>(
    u: CommittedInstance<CS::Commitment>,
    u1: CommittedInstance<CS::Commitment>,
    u2: CommittedInstance<CS::Commitment>,
    cm_t: CS::Commitment,
    r: Fp,
) -> bool {
    &&& u.cmE == CS::combine_of(u1.cmE, CS::combine_of(cm_t, u2.cmE, r), r)
    &&& u.cmW == CS::combine_of(u1.cmW, u2.cmW, r)
}

/// The relation's dimensions `l`, `n_rows`, `n_cols` as field elements.
pub open spec fn dims_of(r1cs: R1CS) -> Seq<Fp> {
    seq![
        Fp { val: (r1cs.l as u64) % MODULUS },
        Fp { val: (r1cs.A.n_rows as u64) % MODULUS },
        Fp { val: (r1cs.A.n_cols as u64) % MODULUS },
    ]
}

/// What a fold absorbs before its challenge: the dimensions, then each
/// instance's scalar, public input and commitments, then the commitment to
/// the cross term.
pub open spec fn fold_inputs<CS: CommitmentScheme>(
    r1cs: R1CS,
    u1: CommittedInstance<CS::Commitment>,
    u2: CommittedInstance<CS::Commitment>,
    cm_t: CS::Commitment,
) -> Seq<Fp> {
    dims_of(r1cs) + seq![u1.u] + u1.x@ + CS::elements_of(u1.cmE) + CS::elements_of(u1.cmW)
        + seq![u2.u] + u2.x@ + CS::elements_of(u2.cmE) + CS::elements_of(u2.cmW)
        + CS::elements_of(cm_t)
}

/// Folds the committed instances: `u = u1 + r u2`, `x = x1 + r x2`, and the
/// commitments homomorphically (`cmE = cmE1 + r (cmT + r cmE2)`).
pub fn fold_committed_instance<CS: CommitmentScheme>(
    u1: &CommittedInstance<CS::Commitment>,
    u2: &CommittedInstance<CS::Commitment>,
    cm_t: &CS::Commitment,
    r: Fp,
) -> (u: CommittedInstance<CS::Commitment>)
    requires
        u1.x@.len() == u2.x@.len(),
    ensures
        folded_instance(u, *u1, *u2, r.fv()),
        folded_commitments::<CS>(u, *u1, *u2, *cm_t, r),
{
    let scalar = u1.u.add(r.mul(u2.u));
    let x = fold_vec(&u1.x, &u2.x, r);
    let inner = CS::combine(cm_t, &u2.cmE, r);
    let cm_e = CS::combine(&u1.cmE, &inner, r);
    let cm_w = CS::combine(&u1.cmW, &u2.cmW, r);
    proof {
        let rv = r.fv();
        lemma_cong_mod(rv * u2.u.fv());
        lemma_cong_add(u1.u.fv(), u1.u.fv(), (rv * u2.u.fv()) % p(), rv * u2.u.fv());
    }
    CommittedInstance { cmE: cm_e, u: scalar, cmW: cm_w, x }
}

/// Absorbs the public data of a fold: the relation's dimensions, both
/// instances and the commitment to the cross term.
pub(crate) fn absorb_fold_inputs<CS: CommitmentScheme, TR: Transcript>(
    transcript: &mut TR,
    r1cs: &R1CS,
    u1: &CommittedInstance<CS::Commitment>,
    u2: &CommittedInstance<CS::Commitment>,
    cm_t: &CS::Commitment,
)
    ensures
        final(transcript).absorbed() == old(transcript).absorbed() + fold_inputs::<CS>(
            *r1cs,
            *u1,
            *u2,
            *cm_t,
        ),
{
    let mut dims: Vec<Fp> = Vec::new();
    dims.push(Fp::from_u64(r1cs.l as u64));
    dims.push(Fp::from_u64(r1cs.A.n_rows as u64));
    dims.push(Fp::from_u64(r1cs.A.n_cols as u64));
    transcript.absorb(&dims);
    let mut s1: Vec<Fp> = Vec::new();
    s1.push(u1.u);
    transcript.absorb(&s1);
    transcript.absorb(&u1.x);
    transcript.absorb(&CS::to_elements(&u1.cmE));
    transcript.absorb(&CS::to_elements(&u1.cmW));
    let mut s2: Vec<Fp> = Vec::new();
    s2.push(u2.u);
    transcript.absorb(&s2);
    transcript.absorb(&u2.x);
    transcript.absorb(&CS::to_elements(&u2.cmE));
    transcript.absorb(&CS::to_elements(&u2.cmW));
    transcript.absorb(&CS::to_elements(cm_t));
    proof {
        assert(dims@ =~= dims_of(*r1cs));
        assert(s1@ =~= seq![u1.u]);
        assert(s2@ =~= seq![u2.u]);
        assert(transcript.absorbed() =~= old(transcript).absorbed() + fold_inputs::<CS>(
            *r1cs,
            *u1,
            *u2,
            *cm_t,
        ));
    }
}

/// The cross term of two pairs, as canonical elements.
pub open spec fn cross_vec<C>(
    r1cs: R1CS,
    w1: Witness,
    u1: CommittedInstance<C>,
    w2: Witness,
    u2: CommittedInstance<C>,
) -> Seq<Fp> {
    canon(cross_term(r1cs, z_of(w1, u1), u1.u.fv(), z_of(w2, u2), u2.u.fv()))
}

/// The first shape error of a fold, if any: the public inputs must have
/// length `l`, the witness values `n_cols - l - 1`, the running error terms
/// `n_rows`, and the incoming error terms `n_rows` or none at all (zeros).
pub open spec fn fold_shape_error<C>(
    r1cs: R1CS,
    w1: Witness,
    u1: CommittedInstance<C>,
    w2: Witness,
    u2: CommittedInstance<C>,
) -> Option<Error> {
    let n_w = (r1cs.A.n_cols - r1cs.l - 1) as usize;
    if u2.x@.len() != r1cs.l {
        Some(Error::NotSameLength(u2.x@.len() as usize, r1cs.l))
    } else if u1.x@.len() != r1cs.l {
        Some(Error::NotSameLength(u1.x@.len() as usize, r1cs.l))
    } else if w1.W@.len() != n_w {
        Some(Error::NotSameLength(w1.W@.len() as usize, n_w))
    } else if w2.W@.len() != n_w {
        Some(Error::NotSameLength(w2.W@.len() as usize, n_w))
    } else if w1.E@.len() != r1cs.A.n_rows {
        Some(Error::NotSameLength(w1.E@.len() as usize, r1cs.A.n_rows))
    } else if w2.E@.len() != r1cs.A.n_rows && w2.E@.len() != 0 {
        Some(Error::NotSameLength(w2.E@.len() as usize, r1cs.A.n_rows))
    } else {
        None
    }
}

/// The running pair and the incoming pair have the shapes the relation asks for.
pub open spec fn fold_shapes_ok<C>(
    r1cs: R1CS,
    w1: Witness,
    u1: CommittedInstance<C>,
    w2: Witness,
    u2: CommittedInstance<C>,
) -> bool {
    fold_shape_error(r1cs, w1, u1, w2, u2) is None
}

impl R1CS {
    /// Folds the incoming pair `(w2, u2)` into the running pair `(w1, u1)`:
    /// computes and commits to the cross term with blinding `r_t`, absorbs the
    /// public data, derives the challenge from the transcript, and returns the
    /// new running witness and instance, the folding proof and the challenge.
    /// An incoming pair may carry no error terms, which then count as zeros.
    pub fn fold<CS: CommitmentScheme, TR: Transcript>(
        &self,
        transcript: &mut TR,
        params: &CS::ProverParams,
        w1: &Witness,
        u1: &CommittedInstance<CS::Commitment>,
        w2: &Witness,
        u2: &CommittedInstance<CS::Commitment>,
        r_t: Fp,
    ) -> (r: Result<
        (Witness, CommittedInstance<CS::Commitment>, FoldingProof<CS::Commitment>, Fp),
        Error,
    >)
        requires
            self.wf(),
        ensures
            fold_shape_error(*self, *w1, *u1, *w2, *u2) is Some ==> r is Err && r->Err_0
                == fold_shape_error(*self, *w1, *u1, *w2, *u2)->Some_0,
            fold_shapes_ok(*self, *w1, *u1, *w2, *u2) ==> (r is Ok <==> CS::commit_of(
                *params,
                cross_vec(*self, *w1, *u1, *w2, *u2),
                r_t,
            ) is Ok),
            fold_shapes_ok(*self, *w1, *u1, *w2, *u2) && r is Err ==> r->Err_0 == CS::commit_of(
                *params,
                cross_vec(*self, *w1, *u1, *w2, *u2),
                r_t,
            )->Err_0,
            r is Ok ==> r->Ok_0.2.T@ == cross_vec(*self, *w1, *u1, *w2, *u2),
            r is Err ==> final(transcript).absorbed() == old(transcript).absorbed(),
            r is Ok ==> fold_shapes_ok(*self, *w1, *u1, *w2, *u2),
            r is Ok ==> fvs(r->Ok_0.2.T@) == cross_term(*self, z_of(*w1, *u1), u1.u.fv(), z_of(*w2, *u2), u2.u.fv()),
            r is Ok ==> r->Ok_0.2.cmT == CS::commit_of(*params, r->Ok_0.2.T@, r_t)->Ok_0,
            r is Ok ==> r->Ok_0.3 == TR::squeeze_of(old(transcript).absorbed() + fold_inputs::<CS>(*self, *u1, *u2, r->Ok_0.2.cmT)),
            r is Ok ==> final(transcript).absorbed() == (old(transcript).absorbed() + fold_inputs::<CS>(*self, *u1, *u2, r->Ok_0.2.cmT)).push(r->Ok_0.3),
            r is Ok ==> folded_witness(r->Ok_0.0, *w1, *w2, r->Ok_0.2.T@, r->Ok_0.3.fv()),
            r is Ok ==> cong(r->Ok_0.0.rE.fv(), w1.rE.fv() + r->Ok_0.3.fv() * r_t.fv() + r->Ok_0.3.fv() * r->Ok_0.3.fv() * w2.rE.fv()),
            r is Ok ==> r->Ok_0.0.rW.fv() == (w1.rW.fv() + r->Ok_0.3.fv() * w2.rW.fv()) % p(),
            r is Ok ==> folded_instance(r->Ok_0.1, *u1, *u2, r->Ok_0.3.fv()),
            r is Ok ==> folded_commitments::<CS>(r->Ok_0.1, *u1, *u2, r->Ok_0.2.cmT, r->Ok_0.3),
            r is Ok && self.relaxed_result(*w1, *u1) is Ok && (self.relaxed_result(*w2, *u2) is Ok
                || self.tight_result(*w2, *u2) is Ok) ==> self.relaxed_result(r->Ok_0.0, r->Ok_0.1)
                == Ok::<(), Error>(()),
    {
        let n_w = self.A.n_cols - self.l - 1;
        if u2.x.len() != self.l {
            return Err(Error::NotSameLength(u2.x.len(), self.l));
        }
        if u1.x.len() != self.l {
            return Err(Error::NotSameLength(u1.x.len(), self.l));
        }
        if w1.W.len() != n_w {
            return Err(Error::NotSameLength(w1.W.len(), n_w));
        }
        if w2.W.len() != n_w {
            return Err(Error::NotSameLength(w2.W.len(), n_w));
        }
        if w1.E.len() != self.A.n_rows {
            return Err(Error::NotSameLength(w1.E.len(), self.A.n_rows));
        }
        if w2.E.len() != self.A.n_rows && w2.E.len() != 0 {
            return Err(Error::NotSameLength(w2.E.len(), self.A.n_rows));
        }
        let z1 = R1CS::extract_z(w1, u1);
        let z2 = R1CS::extract_z(w2, u2);
        let t = match self.compute_T(&z1, u1.u, &z2, u2.u) {
            Ok(t) => t,
            Err(e) => {
                return Err(e);
            },
        };
        proof {
            assert(fvs(t@).len() == t@.len());
        }
        let cm_t = match CS::commit(params, &t, r_t) {
            Ok(c) => c,
            Err(e) => {
                return Err(e);
            },
        };
        absorb_fold_inputs::<CS, TR>(transcript, self, u1, u2, &cm_t);
        let r = transcript.get_challenge();
        let w = fold_witness(w1, w2, &t, r_t, r);
        let u = fold_committed_instance::<CS>(u1, u2, &cm_t, r);
        proof {
            if self.relaxed_result(*w1, *u1) is Ok && (self.relaxed_result(*w2, *u2) is Ok
                || self.tight_result(*w2, *u2) is Ok) {
                lemma_fold_complete(*self, *w1, *u1, *w2, *u2, t@, r.fv(), w, u);
            }
        }
        Ok((w, u, FoldingProof { T: t, cmT: cm_t }, r))
    }
}

/// The error of folding `(w2, u2)` into `(w1, u1)`, if any: a shape error,
/// or the failure to commit to the cross term.
pub open spec fn fold_step_error<CS: CommitmentScheme>(
    r1cs: R1CS,
    params: CS::ProverParams,
    w1: Witness,
    u1: CommittedInstance<CS::Commitment>,
    w2: Witness,
    u2: CommittedInstance<CS::Commitment>,
    r_t: Fp,
) -> Option<Error> {
    if fold_shape_error(r1cs, w1, u1, w2, u2) is Some {
        fold_shape_error(r1cs, w1, u1, w2, u2)
    } else if CS::commit_of(params, cross_vec(r1cs, w1, u1, w2, u2), r_t) is Err {
        Some(CS::commit_of(params, cross_vec(r1cs, w1, u1, w2, u2), r_t)->Err_0)
    } else {
        None
    }
}

/// Whether an incoming pair may be folded: it satisfies the relaxed relation,
/// or the exact one.
pub open spec fn incoming_ok<C>(r1cs: R1CS, w: Witness, u: CommittedInstance<C>) -> bool {
    r1cs.relaxed_result(w, u) is Ok || r1cs.tight_result(w, u) is Ok
}

impl R1CS {
    /// Folds the incoming pairs into the running pair `(w1, u1)` one after the
    /// other, the `k`-th with cross-term blinding `r_ts[k]`. Returns the final
    /// running pair, and the folding proof and challenge of each step.
    pub fn fold_many<CS: CommitmentScheme, TR: Transcript>(
        &self,
        transcript: &mut TR,
        params: &CS::ProverParams,
        w1: Witness,
        u1: CommittedInstance<CS::Commitment>,
        incoming: &Vec<(Witness, CommittedInstance<CS::Commitment>)>,
        r_ts: &Vec<Fp>,
    ) -> (r: Result<
        (Witness, CommittedInstance<CS::Commitment>, Vec<FoldingProof<CS::Commitment>>, Vec<Fp>),
        Error,
    >)
        requires
            self.wf(),
        ensures
            r_ts@.len() != incoming@.len() ==> r == Err::<
                (Witness, CommittedInstance<CS::Commitment>, Vec<FoldingProof<CS::Commitment>>, Vec<Fp>),
                Error,
            >(Error::NotSameLength(r_ts@.len() as usize, incoming@.len() as usize)),
            incoming@.len() == 0 && r_ts@.len() == 0 ==> r is Ok && r->Ok_0.0 == w1 && r->Ok_0.1 == u1,
            r is Ok ==> r->Ok_0.2@.len() == incoming@.len() && r->Ok_0.3@.len() == incoming@.len(),
            r is Err && r_ts@.len() == incoming@.len() ==> exists|k: int, wr: Witness, ur: CommittedInstance<CS::Commitment>|
                0 <= k < incoming@.len() && #[trigger] fold_step_error::<CS>(*self, *params, wr, ur, incoming@[k].0, incoming@[k].1, r_ts@[k]) == Some(r->Err_0),
            r is Ok && self.relaxed_result(w1, u1) is Ok && (forall|k: int|
                0 <= k < incoming@.len() ==> #[trigger] incoming_ok(*self, incoming@[k].0, incoming@[k].1))
                ==> self.relaxed_result(r->Ok_0.0, r->Ok_0.1) == Ok::<(), Error>(()),
    {
        if r_ts.len() != incoming.len() {
            return Err(Error::NotSameLength(r_ts.len(), incoming.len()));
        }
        let mut w = w1;
        let mut u = u1;
        let mut proofs: Vec<FoldingProof<CS::Commitment>> = Vec::new();
        let mut challenges: Vec<Fp> = Vec::new();
        let ghost all_ok = self.relaxed_result(w1, u1) is Ok && (forall|k: int|
            0 <= k < incoming@.len() ==> #[trigger] incoming_ok(*self, incoming@[k].0, incoming@[k].1));
        let mut i: usize = 0;
        while i < incoming.len()
            invariant
                self.wf(),
                r_ts@.len() == incoming@.len(),
                i <= incoming@.len(),
                proofs@.len() == i,
                challenges@.len() == i,
                all_ok == (self.relaxed_result(w1, u1) is Ok && (forall|k: int|
                    0 <= k < incoming@.len() ==> #[trigger] incoming_ok(*self, incoming@[k].0, incoming@[k].1))),
                all_ok ==> self.relaxed_result(w, u) is Ok,
                i == 0 ==> w == w1 && u == u1,
            decreases incoming@.len() - i,
        {
            let (w_in, u_in) = (&incoming[i].0, &incoming[i].1);
            proof {
                if all_ok {
                    assert(incoming_ok(*self, incoming@[i as int].0, incoming@[i as int].1));
                }
            }
            let (w_next, u_next, proof_k, c) = match self.fold::<CS, TR>(
                transcript,
                params,
                &w,
                &u,
                w_in,
                u_in,
                r_ts[i],
            ) {
                Ok(v) => v,
                Err(e) => {
                    proof {
                        assert(fold_step_error::<CS>(*self, *params, w, u, incoming@[i as int].0, incoming@[i as int].1, r_ts@[i as int]) == Some(e));
                    }
                    return Err(e);
                },
            };
            w = w_next;
            u = u_next;
            proofs.push(proof_k);
            challenges.push(c);
            i = i + 1;
        }
        Ok((w, u, proofs, challenges))
    }
}

/// Along a chain of folds that starts from a pair satisfying the relaxed
/// relation (such as the dummy running pair) and folds in, at each step,
/// a pair that satisfies it (such as an exact incoming pair), every running
/// pair satisfies the relaxed relation.
pub proof fn lemma_fold_chain<C>(
    r1cs: R1CS,
    ws: Seq<Witness>,
    us: Seq<CommittedInstance<C>>,
    in_ws: Seq<Witness>,
    in_us: Seq<CommittedInstance<C>>,
    ts: Seq<Seq<Fp>>,
    rs: Seq<int>,
)
    requires
        r1cs.shape_ok(),
        ws.len() == us.len(),
        ws.len() == in_ws.len() + 1,
        in_us.len() == in_ws.len(),
        ts.len() == in_ws.len(),
        rs.len() == in_ws.len(),
        r1cs.relaxed_result(ws[0], us[0]) is Ok,
        forall|k: int| 0 <= k < in_ws.len() ==> #[trigger] r1cs.relaxed_result(in_ws[k], in_us[k]) is Ok,
        forall|k: int| 0 <= k < in_ws.len() ==> (#[trigger] us[k]).x@.len() == in_us[k].x@.len(),
        forall|k: int| 0 <= k < in_ws.len() ==> (#[trigger] ws[k]).W@.len() == in_ws[k].W@.len(),
        forall|k: int|
            0 <= k < in_ws.len() ==> fvs(#[trigger] ts[k]) == cross_term(
                r1cs,
                z_of(ws[k], us[k]),
                us[k].u.fv(),
                z_of(in_ws[k], in_us[k]),
                in_us[k].u.fv(),
            ),
        forall|k: int|
            0 <= k < in_ws.len() ==> #[trigger] folded_witness(ws[k + 1], ws[k], in_ws[k], ts[k], rs[k]),
        forall|k: int|
            0 <= k < in_ws.len() ==> #[trigger] folded_instance(us[k + 1], us[k], in_us[k], rs[k]),
    ensures
        forall|k: int| 0 <= k < ws.len() ==> #[trigger] r1cs.relaxed_result(ws[k], us[k]) == Ok::<(), Error>(()),
    decreases in_ws.len(),
{
    let n = in_ws.len() as int;
    if n > 0 {
        let m = n - 1;
        lemma_fold_chain(
            r1cs,
            ws.take(n),
            us.take(n),
            in_ws.take(m),
            in_us.take(m),
            ts.take(m),
            rs.take(m),
        );
        assert(r1cs.relaxed_result(ws.take(n)[m], us.take(n)[m]) == Ok::<(), Error>(()));
        assert(r1cs.relaxed_result(in_ws[m], in_us[m]) is Ok);
        assert(folded_witness(ws[m + 1], ws[m], in_ws[m], ts[m], rs[m]));
        assert(folded_instance(us[m + 1], us[m], in_us[m], rs[m]));
        assert(fvs(ts[m]) == cross_term(r1cs, z_of(ws[m], us[m]), us[m].u.fv(), z_of(in_ws[m], in_us[m]), in_us[m].u.fv()));
        assert(us[m].x@.len() == in_us[m].x@.len());
        assert(ws[m].W@.len() == in_ws[m].W@.len());
        assert(fvs(in_ws[m].E@).len() == in_ws[m].E@.len());
        assert(fvs(ts[m]).len() == ts[m].len());
        lemma_fold_complete(r1cs, ws[m], us[m], in_ws[m], in_us[m], ts[m], rs[m], ws[m + 1], us[m + 1]);
        assert forall|k: int| 0 <= k < ws.len() implies #[trigger] r1cs.relaxed_result(ws[k], us[k]) == Ok::<(), Error>(()) by {
            if k < n {
                assert(ws.take(n)[k] == ws[k]);
                assert(us.take(n)[k] == us[k]);
            }
        }
    }
}

} // verus!
