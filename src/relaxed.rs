use vstd::prelude::*;

use ark_std::rand::rngs::StdRng;

use crate::error::Error;
use crate::field::{p, Fp};
use crate::r1cs::{compute_E, scalar_of, R1CS};
use crate::rng::{draw_fp, draw_fps};
use crate::vector::{all_zero, canon, fvs, is_zero_vec, row_sum, SparseMatrix};

verus! {

/// A commitment scheme: commits to a vector of field elements under a blinding
/// factor. Its spec functions name what each operation returns.
pub trait CommitmentScheme {
    type ProverParams;
    type Commitment;

    /// The outcome of committing to `v` with blinding `blind`.
    spec fn commit_of(params: Self::ProverParams, v: Seq<Fp>, blind: Fp) -> Result<
        Self::Commitment,
        Error,
    >;

    /// The homomorphic combination `a + r b`.
    spec fn combine_of(a: Self::Commitment, b: Self::Commitment, r: Fp) -> Self::Commitment;

    /// The field elements under which a commitment is absorbed.
    spec fn elements_of(c: Self::Commitment) -> Seq<Fp>;

    /// The commitment to zero.
    spec fn zero_of() -> Self::Commitment;

    /// The commitment to the empty (all-zero) vector with zero blinding.
    fn zero_commitment() -> (r: Self::Commitment)
        ensures
            r == Self::zero_of(),
    ;

    /// Commits to `v` with the blinding factor `blind`.
    fn commit(params: &Self::ProverParams, v: &Vec<Fp>, blind: Fp) -> (r: Result<
        Self::Commitment,
        Error,
    >)
        ensures
            r == Self::commit_of(*params, v@, blind),
    ;

    /// The homomorphic combination `a + r b` of two commitments.
    fn combine(a: &Self::Commitment, b: &Self::Commitment, r: Fp) -> (c: Self::Commitment)
        ensures
            c == Self::combine_of(*a, *b, r),
    ;

    /// The field elements under which a commitment is absorbed into a transcript.
    fn to_elements(c: &Self::Commitment) -> (r: Vec<Fp>)
        ensures
            r@ == Self::elements_of(*c),
    ;
}

/// A Fiat-Shamir transcript: absorbs field elements and squeezes challenges,
/// each challenge a function of everything absorbed before it.
pub trait Transcript {
    /// Everything absorbed so far, the challenges squeezed included.
    spec fn absorbed(&self) -> Seq<Fp>;

    /// The challenge squeezed after absorbing `s`.
    spec fn squeeze_of(s: Seq<Fp>) -> Fp;

    /// Absorbs the elements of `v`.
    fn absorb(&mut self, v: &Vec<Fp>)
        ensures
            final(self).absorbed() == old(self).absorbed() + v@,
    ;

    /// Derives a challenge from everything absorbed so far.
    fn get_challenge(&mut self) -> (r: Fp)
        ensures
            r == Self::squeeze_of(old(self).absorbed()),
            final(self).absorbed() == old(self).absorbed().push(r),
    ;
}

/// The outcome of committing to `e` with blinding `re`, then to `w` with
/// blinding `rw`: the first error, or both commitments.
pub open spec fn commit_two<CS: CommitmentScheme>(
    params: CS::ProverParams,
    e: Seq<Fp>,
    re: Fp,
    w: Seq<Fp>,
    rw: Fp,
) -> Result<(CS::Commitment, CS::Commitment), Error> {
    match CS::commit_of(params, e, re) {
        Err(err) => Err(err),
        Ok(cm_e) => match CS::commit_of(params, w, rw) {
            Err(err) => Err(err),
            Ok(cm_w) => Ok((cm_e, cm_w)),
        },
    }
}

/// The prover's private data: the witness values, the error terms, and their blindings.
#[allow(non_snake_case)]
#[derive(Clone, Debug)]
pub struct Witness {
    pub E: Vec<Fp>,
    pub rE: Fp,
    pub W: Vec<Fp>,
    pub rW: Fp,
}

/// The public counterpart of a witness: commitments, relaxation scalar and public input.
#[allow(non_snake_case)]
#[derive(Clone, Debug)]
pub struct CommittedInstance<C> {
    pub cmE: C,
    pub u: Fp,
    pub cmW: C,
    pub x: Vec<Fp>,
}

/// The assignment vector `[u, x, W]` of an instance and its witness.
pub open spec fn z_of<C>(w: Witness, u: CommittedInstance<C>) -> Seq<Fp> {
    seq![u.u].add(u.x@).add(w.W@)
}

/// A vector of `n` zeros.
pub open spec fn zeros(n: nat) -> Seq<Fp> {
    Seq::new(n, |i: int| Fp { val: 0 })
}

/// Whether the instance is relaxed: its scalar is not one, or its error term is not zero.
pub open spec fn is_relaxed_spec<C>(w: Witness, u: CommittedInstance<C>) -> bool {
    u.u.fv() != 1 || !all_zero(w.E@)
}

/// The assignment vector fits in memory.
pub open spec fn fits<C>(w: Witness, u: CommittedInstance<C>) -> bool {
    u.x@.len() + w.W@.len() < usize::MAX
}

/// Copies a vector element by element.
pub(crate) fn copy_vec(v: &Vec<Fp>) -> (r: Vec<Fp>)
    ensures
        r@ == v@,
{
    let mut out: Vec<Fp> = Vec::new();
    let mut i: usize = 0;
    while i < v.len()
        invariant
            i <= v@.len(),
            out@ == v@.take(i as int),
        decreases v@.len() - i,
    {
        out.push(v[i]);
        proof {
            assert(v@.take(i as int + 1) =~= v@.take(i as int).push(v@[i as int]));
        }
        i = i + 1;
    }
    proof {
        assert(v@.take(i as int) =~= v@);
    }
    out
}

/// A vector of `n` zeros.
pub(crate) fn zero_vec(n: usize) -> (r: Vec<Fp>)
    ensures
        r@ == zeros(n as nat),
{
    let mut out: Vec<Fp> = Vec::new();
    let mut i: usize = 0;
    while i < n
        invariant
            i <= n,
            out@ == zeros(i as nat),
        decreases n - i,
    {
        out.push(Fp { val: 0 });
        proof {
            assert(zeros(i as nat + 1) =~= zeros(i as nat).push(Fp { val: 0 }));
        }
        i = i + 1;
    }
    out
}

impl Witness {
    /// A witness for the exact relation: the values `w`, a zero error vector of
    /// length `e_len`, and zero blindings.
    pub fn new(w: Vec<Fp>, e_len: usize) -> (r: Witness)
        ensures
            r.W@ == w@,
            r.E@ == zeros(e_len as nat),
            r.rE.fv() == 0,
            r.rW.fv() == 0,
    {
        Witness { E: zero_vec(e_len), rE: Fp::zero(), W: w, rW: Fp::zero() }
    }

    /// Commits to `W` and `E`, giving the instance with scalar one and public input `x`.
    pub fn commit<CS: CommitmentScheme>(&self, params: &CS::ProverParams, x: Vec<Fp>) -> (r: Result<
        CommittedInstance<CS::Commitment>,
        Error,
    >)
        ensures
            r is Ok <==> commit_two::<CS>(*params, self.E@, self.rE, self.W@, self.rW) is Ok,
            r is Err ==> r->Err_0 == commit_two::<CS>(*params, self.E@, self.rE, self.W@, self.rW)->Err_0,
            r is Ok ==> (r->Ok_0.cmE, r->Ok_0.cmW) == commit_two::<CS>(*params, self.E@, self.rE, self.W@, self.rW)->Ok_0,
            r is Ok ==> r->Ok_0.u == (Fp { val: 1 }),
            r is Ok ==> r->Ok_0.x@ == x@,
    {
        let cm_e = match CS::commit(params, &self.E, self.rE) {
            Ok(c) => c,
            Err(e) => {
                return Err(e);
            },
        };
        let cm_w = match CS::commit(params, &self.W, self.rW) {
            Ok(c) => c,
            Err(e) => {
                return Err(e);
            },
        };
        Ok(CommittedInstance { cmE: cm_e, u: Fp { val: 1 }, cmW: cm_w, x })
    }
}

impl R1CS {
    /// The error terms that make `[u, x, w]` satisfy the relaxed relation with
    /// scalar `u`, as canonical elements.
    pub open spec fn sampled_error(self, u: Fp, x: Seq<Fp>, w: Seq<Fp>) -> Seq<Fp> {
        canon(self.residual_spec(seq![u] + x + w, u.fv()))
    }

    /// The outcome owed by the relaxed check on `(w, u)`.
    pub open spec fn relaxed_result<C>(self, w: Witness, u: CommittedInstance<C>) -> Result<
        (),
        Error,
    > {
        let z = z_of(w, u);
        if z.len() != self.A.n_cols {
            Err(Error::NotSameLength(z.len() as usize, self.A.n_cols))
        } else if fvs(w.E@) == self.residual_spec(z, u.u.fv()) {
            Ok(())
        } else {
            Err(Error::NotSatisfied)
        }
    }

    /// The outcome owed by the tight check on `(w, u)`.
    pub open spec fn tight_result<C>(self, w: Witness, u: CommittedInstance<C>) -> Result<
        (),
        Error,
    > {
        let z = z_of(w, u);
        if is_relaxed_spec(w, u) {
            Err(Error::R1CSUnrelaxedFail)
        } else if z.len() != self.A.n_cols {
            Err(Error::NotSameLength(z.len() as usize, self.A.n_cols))
        } else if self.satisfied_by(z) {
            Ok(())
        } else {
            Err(Error::NotSatisfied)
        }
    }

    /// Whether the instance is relaxed.
    pub fn is_relaxed<C>(w: &Witness, u: &CommittedInstance<C>) -> (r: bool)
        ensures
            r == is_relaxed_spec(*w, *u),
    {
        !u.u.eq_value(Fp::one()) || !is_zero_vec(&w.E)
    }

    /// The assignment vector `[u, x, W]`.
    pub fn extract_z<C>(w: &Witness, u: &CommittedInstance<C>) -> (r: Vec<Fp>)
        requires
            fits(*w, *u),
        ensures
            r@ == z_of(*w, *u),
    {
        let mut z: Vec<Fp> = Vec::new();
        z.push(u.u);
        let mut i: usize = 0;
        while i < u.x.len()
            invariant
                i <= u.x@.len(),
                z@ == seq![u.u].add(u.x@.take(i as int)),
            decreases u.x@.len() - i,
        {
            z.push(u.x[i]);
            proof {
                assert(u.x@.take(i as int + 1) =~= u.x@.take(i as int).push(u.x@[i as int]));
                assert(seq![u.u].add(u.x@.take(i as int + 1)) =~= seq![u.u].add(u.x@.take(i as int)).push(u.x@[i as int]));
            }
            i = i + 1;
        }
        proof {
            assert(u.x@.take(i as int) =~= u.x@);
        }
        let mut j: usize = 0;
        while j < w.W.len()
            invariant
                j <= w.W@.len(),
                z@ == seq![u.u].add(u.x@).add(w.W@.take(j as int)),
            decreases w.W@.len() - j,
        {
            z.push(w.W[j]);
            proof {
                assert(w.W@.take(j as int + 1) =~= w.W@.take(j as int).push(w.W@[j as int]));
                assert(seq![u.u].add(u.x@).add(w.W@.take(j as int + 1)) =~= seq![u.u].add(u.x@).add(w.W@.take(j as int)).push(w.W@[j as int]));
            }
            j = j + 1;
        }
        proof {
            assert(w.W@.take(j as int) =~= w.W@);
        }
        z
    }

    /// Succeeds exactly when the stored error terms equal `e`, element by element.
    pub fn check_error_terms<C>(w: &Witness, u: &CommittedInstance<C>, e: Vec<Fp>) -> (r: Result<
        (),
        Error,
    >)
        ensures
            r is Ok <==> fvs(w.E@) == fvs(e@),
            r is Err ==> r == Err::<(), Error>(Error::NotSatisfied),
    {
        let ok = if w.E.len() != e.len() {
            false
        } else {
            let mut i: usize = 0;
            let mut same = true;
            while i < e.len()
                invariant
                    w.E@.len() == e@.len(),
                    i <= e@.len(),
                    same == forall|j: int| 0 <= j < i ==> #[trigger] w.E@[j].fv() == e@[j].fv(),
                decreases e@.len() - i,
            {
                if !w.E[i].eq_value(e[i]) {
                    same = false;
                }
                i = i + 1;
            }
            same
        };
        proof {
            if ok {
                assert(fvs(w.E@) =~= fvs(e@));
            } else if w.E@.len() == e@.len() {
                let j = choose|j: int| 0 <= j < e@.len() && w.E@[j].fv() != e@[j].fv();
                assert(fvs(w.E@)[j] != fvs(e@)[j]);
            } else {
                assert(fvs(w.E@).len() != fvs(e@).len());
            }
        }
        if ok {
            Ok(())
        } else {
            Err(Error::NotSatisfied)
        }
    }

    /// Checks the tight (unrelaxed) relation; a relaxed instance is refused.
    pub fn check_tight_relation<C>(&self, w: &Witness, u: &CommittedInstance<C>) -> (r: Result<
        (),
        Error,
    >)
        requires
            self.shape_ok(),
            fits(*w, *u),
        ensures
            r == self.tight_result(*w, *u),
    {
        if Self::is_relaxed(w, u) {
            return Err(Error::R1CSUnrelaxedFail);
        }
        let z = Self::extract_z(w, u);
        match self.check_relation(&z) {
            Ok(()) => Ok(()),
            Err(e) => Err(e),
        }
    }

    /// Checks the relaxed relation `(A z) o (B z) = u (C z) + E`.
    pub fn check_relaxed_relation<C>(&self, w: &Witness, u: &CommittedInstance<C>) -> (r: Result<
        (),
        Error,
    >)
        requires
            self.shape_ok(),
            fits(*w, *u),
        ensures
            r == self.relaxed_result(*w, *u),
    {
        let z = Self::extract_z(w, u);
        let e = match self.eval_relation(&z) {
            Ok(e) => e,
            Err(err) => {
                return Err(err);
            },
        };
        proof {
            assert(scalar_of(z@) == u.u.fv());
        }
        match Self::check_error_terms(w, u, e) {
            Ok(()) => Ok(()),
            Err(err) => Err(err),
        }
    }
}


/// The sum of a sparse row against a vector whose elements are all zero is zero.
proof fn lemma_row_sum_zero(row: Seq<(Fp, usize)>, z: Seq<Fp>)
    requires
        forall|k: int| 0 <= k < row.len() ==> 0 <= (#[trigger] row[k]).1 < z.len(),
        forall|i: int| 0 <= i < z.len() ==> (#[trigger] z[i]).val == 0,
    ensures
        row_sum(row, z) == 0,
    decreases row.len(),
{
    if row.len() > 0 {
        let last = row.last();
        assert(last == row[row.len() - 1]);
        assert(z[last.1 as int].val == 0);
        lemma_row_sum_zero(row.drop_last(), z);
    }
}

impl R1CS {
    /// A placeholder running pair: every value zero, commitments to zero. It
    /// satisfies the relaxed relation.
    pub fn dummy_running_instance<CS: CommitmentScheme>(&self) -> (r: (
        Witness,
        CommittedInstance<CS::Commitment>,
    ))
        requires
            self.wf(),
        ensures
            r.0.W@ == zeros((self.A.n_cols - self.l - 1) as nat),
            r.0.E@ == zeros(self.A.n_rows as nat),
            r.1.x@ == zeros(self.l as nat),
            r.1.u.fv() == 0,
            r.1.cmE == CS::zero_of() && r.1.cmW == CS::zero_of(),
            self.relaxed_result(r.0, r.1) == Ok::<(), Error>(()),
    {
        let w = Witness {
            E: zero_vec(self.A.n_rows),
            rE: Fp::zero(),
            W: zero_vec(self.A.n_cols - self.l - 1),
            rW: Fp::zero(),
        };
        let u = CommittedInstance {
            cmE: CS::zero_commitment(),
            u: Fp::zero(),
            cmW: CS::zero_commitment(),
            x: zero_vec(self.l),
        };
        proof {
            let z = z_of(w, u);
            assert(z.len() == self.A.n_cols);
            assert forall|i: int| 0 <= i < z.len() implies (#[trigger] z[i]).val == 0 by {
                if i == 0 {
                } else if i < 1 + self.l {
                    assert(z[i] == u.x@[i - 1]);
                } else {
                    assert(z[i] == w.W@[i - 1 - self.l]);
                }
            }
            assert forall|i: int| 0 <= i < self.A.n_rows implies #[trigger] fvs(w.E@)[i]
                == self.residual_spec(z, u.u.fv())[i] by {
                lemma_row_sum_zero(self.A.row(i), z);
                lemma_row_sum_zero(self.B.row(i), z);
                lemma_row_sum_zero(self.C.row(i), z);
                assert(self.A.row(i) == self.A.coeffs@[i]@);
                vstd::arithmetic::div_mod::lemma_small_mod(0, p() as nat);
            }
            assert(fvs(w.E@) =~= self.residual_spec(z, u.u.fv()));
        }
        (w, u)
    }

    /// A placeholder incoming pair, of the same shape as the running one.
    pub fn dummy_incoming_instance<CS: CommitmentScheme>(&self) -> (r: (
        Witness,
        CommittedInstance<CS::Commitment>,
    ))
        requires
            self.wf(),
        ensures
            r.0.W@ == zeros((self.A.n_cols - self.l - 1) as nat),
            r.0.E@ == zeros(self.A.n_rows as nat),
            r.1.x@ == zeros(self.l as nat),
            r.1.u.fv() == 0,
            r.1.cmE == CS::zero_of() && r.1.cmW == CS::zero_of(),
            self.relaxed_result(r.0, r.1) == Ok::<(), Error>(()),
    {
        self.dummy_running_instance::<CS>()
    }

    /// Builds a satisfiable relaxed pair from the given scalar `u`, blindings
    /// `rE`, `rW`, witness values `W` and public input `x`: the error term is
    /// computed so that the relaxed relation holds, and the instance carries `u`.
    #[allow(non_snake_case)]
    pub fn sample_with<CS: CommitmentScheme>(
        &self,
        params: &CS::ProverParams,
        u: Fp,
        rE: Fp,
        rW: Fp,
        W: Vec<Fp>,
        x: Vec<Fp>,
    ) -> (r: Result<(CommittedInstance<CS::Commitment>, Witness), Error>)
        requires
            self.wf(),
            W@.len() == self.A.n_cols - self.l - 1,
            x@.len() == self.l,
        ensures
            r is Ok ==> self.relaxed_result(r->Ok_0.1, r->Ok_0.0) == Ok::<(), Error>(()),
            r is Ok ==> r->Ok_0.0.u == u && r->Ok_0.0.x@ == x@,
            r is Ok ==> r->Ok_0.1.W@ == W@ && r->Ok_0.1.rE == rE && r->Ok_0.1.rW == rW,
            r is Ok <==> commit_two::<CS>(*params, self.sampled_error(u, x@, W@), rE, W@, rW) is Ok,
            r is Err ==> r->Err_0 == commit_two::<CS>(*params, self.sampled_error(u, x@, W@), rE, W@, rW)->Err_0,
            r is Ok ==> r->Ok_0.1.E@ == self.sampled_error(u, x@, W@),
            r is Ok ==> (r->Ok_0.0.cmE, r->Ok_0.0.cmW) == commit_two::<CS>(*params, r->Ok_0.1.E@, rE, W@, rW)->Ok_0,
    {
        // z = [u, x, W]
        let public = CommittedInstance { cmE: (), u, cmW: (), x: copy_vec(&x) };
        let private = Witness { E: Vec::new(), rE, W: copy_vec(&W), rW };
        let z = Self::extract_z(&private, &public);
        let e = match compute_E(&self.A, &self.B, &self.C, &z, u) {
            Ok(e) => e,
            Err(err) => {
                return Err(err);
            },
        };
        let witness = Witness { E: e, rE, W, rW };
        proof {
            assert(z@ =~= seq![u] + x@ + witness.W@);
        }
        let mut cm_witness = match witness.commit::<CS>(params, x) {
            Ok(c) => c,
            Err(err) => {
                return Err(err);
            },
        };
        cm_witness.u = u;
        proof {
            assert(z_of(witness, cm_witness) =~= z@);
        }
        Ok((cm_witness, witness))
    }
}

impl R1CS {
    /// Samples a satisfiable relaxed pair: draws the scalar `u`, the blindings,
    /// the witness values and the public input from `rng`, and builds the pair
    /// from them as `sample_with` does.
    pub fn sample<CS: CommitmentScheme>(&self, params: &CS::ProverParams, rng: &mut StdRng) -> (r:
        Result<(CommittedInstance<CS::Commitment>, Witness), Error>)
        requires
            self.wf(),
        ensures
            r is Ok ==> self.relaxed_result(r->Ok_0.1, r->Ok_0.0) == Ok::<(), Error>(()),
            r is Ok ==> r->Ok_0.0.x@.len() == self.l,
            r is Ok ==> r->Ok_0.1.W@.len() == self.A.n_cols - self.l - 1,
            r is Ok ==> r->Ok_0.1.E@ == self.sampled_error(r->Ok_0.0.u, r->Ok_0.0.x@, r->Ok_0.1.W@),
            r is Ok ==> (r->Ok_0.0.cmE, r->Ok_0.0.cmW) == commit_two::<CS>(*params, r->Ok_0.1.E@, r->Ok_0.1.rE, r->Ok_0.1.W@, r->Ok_0.1.rW)->Ok_0,
            r is Err ==> exists|u: Fp, re: Fp, rw: Fp, w: Seq<Fp>, x: Seq<Fp>|
                w.len() == self.A.n_cols - self.l - 1 && x.len() == self.l
                    && #[trigger] commit_two::<CS>(*params, self.sampled_error(u, x, w), re, w, rw) is Err
                    && r->Err_0 == commit_two::<CS>(*params, self.sampled_error(u, x, w), re, w, rw)->Err_0,
    {
        let u = draw_fp(rng);
        let r_e = draw_fp(rng);
        let r_w = draw_fp(rng);
        let w = draw_fps(rng, self.A.n_cols - self.l - 1);
        let x = draw_fps(rng, self.l);
        let ghost (gw, gx) = (w@, x@);
        let res = self.sample_with::<CS>(params, u, r_e, r_w, w, x);
        proof {
            if res is Err {
                assert(commit_two::<CS>(*params, self.sampled_error(u, gx, gw), r_e, gw, r_w) is Err);
            }
        }
        res
    }
}

/// For a well-formed constraint system, the extracted relation has `l` equal
/// to the length of the extracted public input, `[1] ++ x ++ w` is the
/// system's assignment (so the relation is checked on that very vector), of
/// the relation's width, and splitting it gives back `(w, x)`.
pub proof fn lemma_extract_consistent(
    cs: ConstraintSystemData,
    r: R1CS,
    w: Seq<Fp>,
    x: Seq<Fp>,
)
    requires
        cs.wf(),
        r.l == cs.num_instance_variables - 1,
        r.A.n_cols == cs.num_instance_variables + cs.num_witness_variables,
        w == cs.witness_assignment@,
        x == cs.instance_assignment@.subrange(1, cs.instance_assignment@.len() as int),
    ensures
        x.len() == r.l,
        seq![Fp { val: 1 }] + x + w == cs.assignment(),
        (seq![Fp { val: 1 }] + x + w).len() == r.A.n_cols,
        crate::r1cs::split_x(r.l as int, cs.assignment()) == x,
        crate::r1cs::split_w(r.l as int, cs.assignment()) == w,
{
    assert(seq![Fp { val: 1 }] + x + w =~= cs.assignment());
    assert(crate::r1cs::split_x(r.l as int, cs.assignment()) =~= x);
    assert(crate::r1cs::split_w(r.l as int, cs.assignment()) =~= w);
}

/// A pair that satisfies the relaxed relation with a scalar other than one is
/// refused by the tight check and accepted by the relaxed one.
pub proof fn lemma_tight_refuses_relaxed<C>(r1cs: R1CS, w: Witness, u: CommittedInstance<C>)
    requires
        u.u.fv() != 1,
        r1cs.relaxed_result(w, u) is Ok,
    ensures
        r1cs.tight_result(w, u) == Err::<(), Error>(Error::R1CSUnrelaxedFail),
        r1cs.relaxed_result(w, u) == Ok::<(), Error>(()),
{
}

impl Witness {
    /// The committed vectors that the decider opens, with their blindings:
    /// the witness values `W` and `rW`.
    pub fn get_openings(&self) -> (r: Vec<(Vec<Fp>, Fp)>)
        ensures
            r@.len() == 1,
            r@[0].0@ == self.W@,
            r@[0].1 == self.rW,
    {
        let mut out: Vec<(Vec<Fp>, Fp)> = Vec::new();
        out.push((copy_vec(&self.W), self.rW));
        out
    }
}

impl R1CS {
    /// Whether `(u, E)` with the assignment `z` satisfies the relaxed relation
    /// `(A z) o (B z) = u (C z) + E`.
    #[allow(non_snake_case)]
    pub fn check_sampled_relaxed_r1cs(&self, u: Fp, E: &Vec<Fp>, z: &[Fp]) -> (r: bool)
        requires
            self.shape_ok(),
        ensures
            r == (z@.len() == self.A.n_cols && fvs(E@) == self.residual_spec(z@, u.fv())),
    {
        let e = match compute_E(&self.A, &self.B, &self.C, z, u) {
            Ok(e) => e,
            Err(_) => {
                return false;
            },
        };
        // compare E with the computed error terms
        let stored = Witness { E: copy_vec(E), rE: u, W: Vec::new(), rW: u };
        let public = CommittedInstance { cmE: (), u, cmW: (), x: Vec::new() };
        match Self::check_error_terms(&stored, &public, e) {
            Ok(()) => true,
            Err(_) => false,
        }
    }
}

/// A constraint system as plain values: its counts of constraints, of
/// instance variables (the constant one included) and of witness variables,
/// its three matrices, and its assignment.
pub struct ConstraintSystemData {
    pub num_constraints: usize,
    pub num_instance_variables: usize,
    pub num_witness_variables: usize,
    pub a: Vec<Vec<(Fp, usize)>>,
    pub b: Vec<Vec<(Fp, usize)>>,
    pub c: Vec<Vec<(Fp, usize)>>,
    pub instance_assignment: Vec<Fp>,
    pub witness_assignment: Vec<Fp>,
}

impl ConstraintSystemData {
    /// The assignment has one value per variable, its first one the constant
    /// one; each matrix has one row per constraint, and its columns are variables.
    pub open spec fn wf(self) -> bool {
        let n_cols = self.num_instance_variables + self.num_witness_variables;
        &&& self.num_instance_variables >= 1
        &&& n_cols <= usize::MAX
        &&& self.instance_assignment@.len() == self.num_instance_variables
        &&& self.witness_assignment@.len() == self.num_witness_variables
        &&& self.instance_assignment@[0] == (Fp { val: 1 })
        &&& self.a@.len() == self.num_constraints
        &&& self.b@.len() == self.num_constraints
        &&& self.c@.len() == self.num_constraints
        &&& forall|i: int, k: int|
            0 <= i < self.num_constraints && 0 <= k < self.a@[i]@.len() ==> (#[trigger] self.a@[i]@[k]).1 < n_cols
        &&& forall|i: int, k: int|
            0 <= i < self.num_constraints && 0 <= k < self.b@[i]@.len() ==> (#[trigger] self.b@[i]@[k]).1 < n_cols
        &&& forall|i: int, k: int|
            0 <= i < self.num_constraints && 0 <= k < self.c@[i]@.len() ==> (#[trigger] self.c@[i]@[k]).1 < n_cols
    }

    /// The full assignment `[1, x, w]`.
    pub open spec fn assignment(self) -> Seq<Fp> {
        self.instance_assignment@ + self.witness_assignment@
    }
}

/// The R1CS of a constraint system: its matrices, with `l` the number of
/// instance variables other than the constant one.
pub fn extract_r1cs(cs: ConstraintSystemData) -> (r: R1CS)
    requires
        cs.num_instance_variables >= 1,
        cs.num_instance_variables + cs.num_witness_variables <= usize::MAX,
    ensures
        r.l == cs.num_instance_variables - 1,
        r.A.n_rows == cs.num_constraints && r.B.n_rows == cs.num_constraints && r.C.n_rows
            == cs.num_constraints,
        r.A.n_cols == cs.num_instance_variables + cs.num_witness_variables,
        r.B.n_cols == r.A.n_cols && r.C.n_cols == r.A.n_cols,
        r.A.coeffs@ == cs.a@ && r.B.coeffs@ == cs.b@ && r.C.coeffs@ == cs.c@,
        cs.wf() ==> r.wf(),
{
    let n_rows = cs.num_constraints;
    let n_cols = cs.num_instance_variables + cs.num_witness_variables;
    R1CS {
        l: cs.num_instance_variables - 1,
        A: SparseMatrix { n_rows, n_cols, coeffs: cs.a },
        B: SparseMatrix { n_rows, n_cols, coeffs: cs.b },
        C: SparseMatrix { n_rows, n_cols, coeffs: cs.c },
    }
}

/// The witness and the public inputs of a constraint system's assignment; the
/// leading constant one of the instance assignment is left out.
pub fn extract_w_x(cs: &ConstraintSystemData) -> (r: (Vec<Fp>, Vec<Fp>))
    requires
        cs.instance_assignment@.len() >= 1,
    ensures
        r.0@ == cs.witness_assignment@,
        r.1@ == cs.instance_assignment@.subrange(1, cs.instance_assignment@.len() as int),
        cs.wf() ==> r.1@.len() == cs.num_instance_variables - 1,
{
    let w = copy_vec(&cs.witness_assignment);
    let mut x: Vec<Fp> = Vec::new();
    let mut i: usize = 1;
    while i < cs.instance_assignment.len()
        invariant
            1 <= i <= cs.instance_assignment@.len(),
            x@ == cs.instance_assignment@.subrange(1, i as int),
        decreases cs.instance_assignment@.len() - i,
    {
        x.push(cs.instance_assignment[i]);
        i = i + 1;
    }
    (w, x)
}

} // verus!
