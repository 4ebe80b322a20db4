use vstd::prelude::*;

use ark_std::rand::rngs::StdRng;

use crate::error::Error;
use crate::field::{p, Fp};
use crate::rng::draw_fps;
use crate::vector::{
    all_zero, canon, fvs, hadamard, lemma_canon, is_zero_vec, mat_vec_mul, vec_scalar_mul, vec_sub, SparseMatrix,
};
use vstd::arithmetic::div_mod::{lemma_mul_mod_noop, lemma_sub_mod_noop};
use vstd::arithmetic::power::pow;

verus! {

/// The residual `(A z) o (B z) - u (C z)` of a relation, row by row, as field values.
pub open spec fn residual(
    a: SparseMatrix,
    b: SparseMatrix,
    c: SparseMatrix,
    z: Seq<Fp>,
    u: int,
) -> Seq<int> {
    Seq::new(
        a.n_rows as nat,
        |i: int| (a.mul_spec(z)[i] * b.mul_spec(z)[i] - u * c.mul_spec(z)[i]) % p(),
    )
}

/// The relaxation scalar read from an assignment vector: its first element.
pub open spec fn scalar_of(z: Seq<Fp>) -> int {
    if z.len() > 0 {
        z[0].fv()
    } else {
        0
    }
}

/// The public inputs of an assignment vector: positions `1 .. l + 1`.
pub open spec fn split_x(l: int, z: Seq<Fp>) -> Seq<Fp> {
    z.subrange(1, l + 1)
}

/// The private witness of an assignment vector: positions `l + 1 ..`.
pub open spec fn split_w(l: int, z: Seq<Fp>) -> Seq<Fp> {
    z.subrange(l + 1, z.len() as int)
}

/// The eight little-endian bytes of a 64-bit word.
pub open spec fn le_bytes(v: nat) -> Seq<u8> {
    Seq::new(8, |k: int| ((v as int / pow(256, k as nat)) % 256) as u8)
}

/// A rank-1 constraint system: `l` public inputs and the matrices `A`, `B`, `C`.
#[allow(non_snake_case)]
#[derive(Clone, Debug)]
pub struct R1CS {
    pub l: usize,
    pub A: SparseMatrix,
    pub B: SparseMatrix,
    pub C: SparseMatrix,
}

/// Two matrices of the same shape, each well formed.
pub open spec fn same_shape(a: SparseMatrix, b: SparseMatrix) -> bool {
    &&& a.wf()
    &&& b.wf()
    &&& a.n_rows == b.n_rows
    &&& a.n_cols == b.n_cols
}

impl R1CS {
    /// The three matrices are well formed and share their dimensions.
    pub open spec fn shape_ok(self) -> bool {
        &&& same_shape(self.A, self.B)
        &&& same_shape(self.A, self.C)
    }

    /// Well formed: consistent matrices, and room for the constant and the
    /// public inputs.
    pub open spec fn wf(self) -> bool {
        &&& self.shape_ok()
        &&& self.l + 1 <= self.A.n_cols
    }

    /// The residual of the relation on `z`, scaled by `u`.
    pub open spec fn residual_spec(self, z: Seq<Fp>, u: int) -> Seq<int> {
        residual(self.A, self.B, self.C, z, u)
    }

    /// `z` satisfies the relation taken with the scalar `z[0]`.
    pub open spec fn satisfied_by(self, z: Seq<Fp>) -> bool {
        &&& z.len() == self.A.n_cols
        &&& forall|i: int|
            0 <= i < self.A.n_rows ==> #[trigger] self.residual_spec(z, scalar_of(z))[i] == 0
    }

    /// Evaluates `(A z) o (B z) - z[0] (C z)`; all zero exactly when `z`
    /// satisfies the relation.
    pub fn eval_relation(&self, z: &[Fp]) -> (r: Result<Vec<Fp>, Error>)
        requires
            self.shape_ok(),
        ensures
            z@.len() != self.A.n_cols <==> r == Err::<Vec<Fp>, Error>(
                Error::NotSameLength(z@.len() as usize, self.A.n_cols),
            ),
            z@.len() == self.A.n_cols <==> r is Ok,
            r is Ok ==> fvs(r->Ok_0@) == self.residual_spec(z@, scalar_of(z@)),
    {
        if z.len() != self.A.n_cols {
            return Err(Error::NotSameLength(z.len(), self.A.n_cols));
        }
        let u = if z.len() > 0 {
            z[0]
        } else {
            Fp::zero()
        };
        compute_E(&self.A, &self.B, &self.C, z, u)
    }

    /// Succeeds exactly when `z` satisfies the relation.
    pub fn check_relation(&self, z: &[Fp]) -> (r: Result<(), Error>)
        requires
            self.shape_ok(),
        ensures
            z@.len() != self.A.n_cols <==> r == Err::<(), Error>(
                Error::NotSameLength(z@.len() as usize, self.A.n_cols),
            ),
            z@.len() == self.A.n_cols ==> (r is Ok <==> self.satisfied_by(z@)),
            z@.len() == self.A.n_cols && !self.satisfied_by(z@) ==> r == Err::<(), Error>(
                Error::NotSatisfied,
            ),
    {
        let e = match self.eval_relation(z) {
            Ok(e) => e,
            Err(err) => {
                return Err(err);
            },
        };
        proof {
            assert(fvs(e@).len() == e@.len());
            if all_zero(e@) {
                assert forall|i: int| 0 <= i < self.A.n_rows implies #[trigger] self.residual_spec(z@, scalar_of(z@))[i] == 0 by {
                    assert(fvs(e@)[i] == e@[i].fv());
                }
            }
            if self.satisfied_by(z@) {
                assert forall|i: int| 0 <= i < e@.len() implies #[trigger] e@[i].fv() == 0 by {
                    assert(fvs(e@)[i] == e@[i].fv());
                    assert(self.residual_spec(z@, scalar_of(z@))[i] == 0);
                }
            }
        }
        if is_zero_vec(&e) {
            Ok(())
        } else {
            Err(Error::NotSatisfied)
        }
    }

    /// A fixed-width little-endian fingerprint of `(l, n_rows, n_cols)`.
    pub fn params_to_le_bytes(&self) -> (r: Vec<u8>)
        ensures
            r@ == le_bytes(self.l as nat) + le_bytes(self.A.n_rows as nat) + le_bytes(
                self.A.n_cols as nat,
            ),
    {
        let mut out: Vec<u8> = Vec::new();
        push_le_bytes(&mut out, self.l);
        push_le_bytes(&mut out, self.A.n_rows);
        push_le_bytes(&mut out, self.A.n_cols);
        out
    }

    /// A random relation with one public input, `n_rows` constraints and
    /// `n_cols` variables: every entry of the three matrices is drawn from `rng`.
    pub fn rand(rng: &mut StdRng, n_rows: usize, n_cols: usize) -> (r: R1CS)
        requires
            2 <= n_cols,
        ensures
            r.wf(),
            r.l == 1,
            r.A.n_rows == n_rows,
            r.A.n_cols == n_cols,
            exists|a: Seq<Vec<Fp>>| #[trigger] r.A.sparse_of(a),
            exists|b: Seq<Vec<Fp>>| #[trigger] r.B.sparse_of(b),
            exists|c: Seq<Vec<Fp>>| #[trigger] r.C.sparse_of(c),
    {
        let a = draw_rows(rng, n_rows, n_cols);
        let b = draw_rows(rng, n_rows, n_cols);
        let c = draw_rows(rng, n_rows, n_cols);
        let r = Self::from_dense_rows(&a, &b, &c, n_cols);
        proof {
            assert(r.A.sparse_of(a@) && r.B.sparse_of(b@) && r.C.sparse_of(c@));
        }
        r
    }

    /// A relation with one public input whose matrices are the dense rows `a`,
    /// `b`, `c`, in sparse form.
    pub fn from_dense_rows(a: &Vec<Vec<Fp>>, b: &Vec<Vec<Fp>>, c: &Vec<Vec<Fp>>, n_cols: usize) -> (r: R1CS)
        requires
            2 <= n_cols,
            b@.len() == a@.len(),
            c@.len() == a@.len(),
            forall|i: int| 0 <= i < a@.len() ==> (#[trigger] a@[i])@.len() == n_cols,
            forall|i: int| 0 <= i < b@.len() ==> (#[trigger] b@[i])@.len() == n_cols,
            forall|i: int| 0 <= i < c@.len() ==> (#[trigger] c@[i])@.len() == n_cols,
        ensures
            r.wf(),
            r.l == 1,
            r.A.n_rows == a@.len(),
            r.A.n_cols == n_cols,
            r.A.sparse_of(a@),
            r.B.sparse_of(b@),
            r.C.sparse_of(c@),
    {
        R1CS {
            l: 1,
            A: SparseMatrix::from_dense(a, n_cols),
            B: SparseMatrix::from_dense(b, n_cols),
            C: SparseMatrix::from_dense(c, n_cols),
        }
    }

    /// Splits `z = [z0, x, w]` into `(w, x)`.
    pub fn split_z(&self, z: &[Fp]) -> (r: (Vec<Fp>, Vec<Fp>))
        requires
            self.l + 1 <= z@.len(),
        ensures
            r.0@ == split_w(self.l as int, z@),
            r.1@ == split_x(self.l as int, z@),
    {
        let mut w: Vec<Fp> = Vec::new();
        let mut x: Vec<Fp> = Vec::new();
        let n: usize = z.len();
        let end: usize = self.l + 1;
        let mut i: usize = 1;
        while i < end
            invariant
                end == self.l + 1,
                end <= z@.len(),
                1 <= i <= end,
                x@ == z@.subrange(1, i as int),
            decreases end - i,
        {
            x.push(z[i]);
            i = i + 1;
        }
        while i < z.len()
            invariant
                self.l + 1 <= i <= z@.len(),
                w@ == z@.subrange(self.l + 1, i as int),
            decreases z@.len() - i,
        {
            w.push(z[i]);
            i = i + 1;
        }
        (w, x)
    }
}

/// `n_rows` dense rows of `n_cols` elements drawn from `rng`.
fn draw_rows(rng: &mut StdRng, n_rows: usize, n_cols: usize) -> (r: Vec<Vec<Fp>>)
    ensures
        r@.len() == n_rows,
        forall|i: int| 0 <= i < n_rows ==> (#[trigger] r@[i])@.len() == n_cols,
{
    let mut rows: Vec<Vec<Fp>> = Vec::new();
    let mut i: usize = 0;
    while i < n_rows
        invariant
            i <= n_rows,
            rows@.len() == i,
            forall|j: int| 0 <= j < i ==> (#[trigger] rows@[j])@.len() == n_cols,
        decreases n_rows - i,
    {
        rows.push(draw_fps(rng, n_cols));
        i = i + 1;
    }
    rows
}

/// Appends the eight little-endian bytes of `v` to `out`.
fn push_le_bytes(out: &mut Vec<u8>, v: usize)
    ensures
        final(out)@ == old(out)@ + le_bytes(v as nat),
{
    let mut rest: usize = v;
    let mut k: usize = 0;
    let ghost start = old(out)@;
    proof {
        vstd::arithmetic::power::lemma_pow0(256);
        assert(le_bytes(v as nat).take(0) =~= Seq::<u8>::empty());
        assert(start + Seq::<u8>::empty() =~= start);
    }
    while k < 8
        invariant
            k <= 8,
            rest as int == v as int / pow(256, k as nat),
            out@ == start + le_bytes(v as nat).take(k as int),
        decreases 8 - k,
    {
        out.push((rest % 256) as u8);
        proof {
            vstd::arithmetic::power::lemma_pow_positive(256, k as nat);
            vstd::arithmetic::div_mod::lemma_div_denominator(v as int, pow(256, k as nat), 256);
            vstd::arithmetic::power::lemma_pow_adds(256, k as nat, 1);
            vstd::arithmetic::power::lemma_pow1(256);
            assert(le_bytes(v as nat).take(k as int + 1) =~= le_bytes(v as nat).take(k as int).push(
                (rest % 256) as u8,
            ));
        }
        rest = rest / 256;
        k = k + 1;
    }
    proof {
        assert(le_bytes(v as nat).take(8) =~= le_bytes(v as nat));
    }
}

/// Computes the error term `(A z) o (B z) - u (C z)`.
#[allow(non_snake_case)]
pub fn compute_E(
    A: &SparseMatrix,
    B: &SparseMatrix,
    C: &SparseMatrix,
    z: &[Fp],
    u: Fp,
) -> (r: Result<Vec<Fp>, Error>)
    requires
        same_shape(*A, *B),
        same_shape(*A, *C),
    ensures
        z@.len() != A.n_cols <==> r == Err::<Vec<Fp>, Error>(
            Error::NotSameLength(z@.len() as usize, A.n_cols),
        ),
        z@.len() == A.n_cols <==> r is Ok,
        r is Ok ==> fvs(r->Ok_0@) == residual(*A, *B, *C, z@, u.fv()),
        r is Ok ==> r->Ok_0@ == canon(residual(*A, *B, *C, z@, u.fv())),
{
    let az = mat_vec_mul(A, z)?;
    let bz = mat_vec_mul(B, z)?;
    let azbz = match hadamard(&az, &bz) {
        Ok(v) => v,
        Err(e) => {
            proof {
                assert(fvs(az@).len() == az@.len());
                assert(fvs(bz@).len() == bz@.len());
            }
            return Err(e);
        },
    };
    let cz = mat_vec_mul(C, z)?;
    let ucz = vec_scalar_mul(&cz, u);
    proof {
        assert(fvs(az@).len() == az@.len());
        assert(fvs(bz@).len() == bz@.len());
        assert(fvs(cz@).len() == cz@.len());
    }
    let e = vec_sub(&azbz, &ucz)?;
    proof {
        let want = residual(*A, *B, *C, z@, u.fv());
        assert forall|i: int| 0 <= i < e@.len() implies #[trigger] fvs(e@)[i] == want[i] by {
            let a = A.mul_spec(z@)[i];
            let b = B.mul_spec(z@)[i];
            let c = C.mul_spec(z@)[i];
            assert(fvs(az@)[i] == a);
            assert(fvs(bz@)[i] == b);
            assert(fvs(cz@)[i] == c);
            lemma_sub_mod_noop(a * b, c * u.fv(), p());
            lemma_mul_mod_noop(c, u.fv(), p());
            assert(c * u.fv() == u.fv() * c) by (nonlinear_arith);
            vstd::arithmetic::div_mod::lemma_mod_twice(a * b, p());
            vstd::arithmetic::div_mod::lemma_mod_twice(c * u.fv(), p());
            vstd::arithmetic::div_mod::lemma_mod_bound(c, p());
            vstd::arithmetic::div_mod::lemma_mod_bound(a, p());
            vstd::arithmetic::div_mod::lemma_mod_bound(b, p());
            vstd::arithmetic::div_mod::lemma_mod_twice(a, p());
            vstd::arithmetic::div_mod::lemma_mod_twice(b, p());
            vstd::arithmetic::div_mod::lemma_mod_twice(c, p());
        }
        assert(fvs(e@) =~= want);
        lemma_canon(e@);
    }
    Ok(e)
}

/// Splitting a valid assignment vector and reassembling `[1] ++ x ++ w`
/// gives back the vector itself.
pub proof fn lemma_split_z_round_trip(r1cs: R1CS, z: Seq<Fp>)
    requires
        r1cs.l + 1 <= z.len(),
        z[0] == (Fp { val: 1 }),
    ensures
        seq![Fp { val: 1 }] + split_x(r1cs.l as int, z) + split_w(r1cs.l as int, z) == z,
{
    assert(seq![Fp { val: 1 }] + split_x(r1cs.l as int, z) + split_w(r1cs.l as int, z) =~= z);
}

} // verus!
