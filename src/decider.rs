use vstd::prelude::*;

use crate::error::Error;
use crate::field::{p, Fp};
use crate::folding::{
    cross_term, cross_vec, fold_committed_instance, fold_inputs, fold_shape_error, fold_shapes_ok,
    folded_commitments, folded_instance, folded_witness, FoldingProof,
};
use crate::relaxed::z_of;
use crate::vector::fvs;
use crate::r1cs::R1CS;
use crate::relaxed::{CommitmentScheme, CommittedInstance, Transcript, Witness};
use vstd::arithmetic::div_mod::{lemma_add_mod_noop, lemma_mod_twice};

verus! {

/// The value at `c` of the polynomial whose coefficients are `v`
/// (lowest degree first), evaluated by Horner's rule, modulo the prime.
pub open spec fn poly_eval(v: Seq<Fp>, c: int) -> int
    decreases v.len(),
{
    if v.len() == 0 {
        0
    } else {
        (v[0].fv() + c * poly_eval(v.drop_first(), c)) % p()
    }
}

/// Evaluates the polynomial with coefficients `v` at the point `c`.
pub fn evaluate_native(v: &Vec<Fp>, c: Fp) -> (r: Fp)
    ensures
        r.fv() == poly_eval(v@, c.fv()),
{
    let mut acc = Fp::zero();
    let mut i: usize = v.len();
    while i > 0
        invariant
            i <= v@.len(),
            acc.fv() == poly_eval(v@.subrange(i as int, v@.len() as int), c.fv()),
        decreases i,
    {
        i = i - 1;
        let next = v[i].add(c.mul(acc));
        proof {
            let tail = v@.subrange(i as int, v@.len() as int);
            assert(tail.drop_first() =~= v@.subrange(i as int + 1, v@.len() as int));
            lemma_add_mod_noop(v@[i as int].fv(), c.fv() * acc.fv(), p());
            lemma_mod_twice(c.fv() * acc.fv(), p());
            lemma_add_mod_noop(v@[i as int].fv(), (c.fv() * acc.fv()) % p(), p());
            lemma_mod_twice(v@[i as int].fv() + c.fv() * acc.fv(), p());
        }
        acc = next;
    }
    proof {
        assert(v@.subrange(0, v@.len() as int) =~= v@);
    }
    acc
}

/// Re-executes the folding of committed instances on the verifier's side.
pub struct DeciderProtoGalaxyGadget;

impl DeciderProtoGalaxyGadget {
    /// Absorbs the same public data as the prover, derives the challenge, and
    /// folds `u` into `big_u` with the commitment to the cross term in `proof`.
    /// Returns the folded instance and the challenge.
    pub fn fold_gadget<CS: CommitmentScheme, TR: Transcript>(
        arith: &R1CS,
        transcript: &mut TR,
        big_u: &CommittedInstance<CS::Commitment>,
        u: &CommittedInstance<CS::Commitment>,
        proof: &FoldingProof<CS::Commitment>,
    ) -> (r: Result<(CommittedInstance<CS::Commitment>, Fp), Error>)
        ensures
            r is Ok <==> big_u.x@.len() == arith.l && u.x@.len() == arith.l,
            u.x@.len() != arith.l ==> r == Err::<(CommittedInstance<CS::Commitment>, Fp), Error>(
                Error::NotSameLength(u.x@.len() as usize, arith.l),
            ),
            u.x@.len() == arith.l && big_u.x@.len() != arith.l ==> r == Err::<
                (CommittedInstance<CS::Commitment>, Fp),
                Error,
            >(Error::NotSameLength(big_u.x@.len() as usize, arith.l)),
            r is Ok ==> r->Ok_0.1 == TR::squeeze_of(old(transcript).absorbed() + fold_inputs::<CS>(*arith, *big_u, *u, proof.cmT)),
            r is Ok ==> folded_instance(r->Ok_0.0, *big_u, *u, r->Ok_0.1.fv()),
            r is Ok ==> folded_commitments::<CS>(r->Ok_0.0, *big_u, *u, proof.cmT, r->Ok_0.1),
    {
        if u.x.len() != arith.l {
            return Err(Error::NotSameLength(u.x.len(), arith.l));
        }
        if big_u.x.len() != arith.l {
            return Err(Error::NotSameLength(big_u.x.len(), arith.l));
        }
        crate::folding::absorb_fold_inputs::<CS, TR>(transcript, arith, big_u, u, &proof.cmT);
        let c = transcript.get_challenge();
        let folded = fold_committed_instance::<CS>(big_u, u, &proof.cmT, c);
        Ok((folded, c))
    }
}

/// What is absorbed of the folded instance before the evaluation point is
/// derived: its scalar, public input and commitments.
pub open spec fn opening_inputs<CS: CommitmentScheme>(u: CommittedInstance<CS::Commitment>) -> Seq<Fp> {
    seq![u.u] + u.x@ + CS::elements_of(u.cmW) + CS::elements_of(u.cmE)
}

/// What the decider needs from a finished chain: the folded pair, the folding
/// proof and challenge, and the evaluation of the folded witness at a point
/// derived from the transcript.
pub struct DeciderInputs<C> {
    pub w: Witness,
    pub u: CommittedInstance<C>,
    pub proof: FoldingProof<C>,
    pub challenge: Fp,
    pub eval_point: Fp,
    pub eval: Fp,
}

/// Folds the last incoming pair into the running pair, derives the evaluation
/// point from the transcript after absorbing the folded instance, and
/// evaluates the folded witness there.
pub fn decider_inputs<CS: CommitmentScheme, TR: Transcript>(
    r1cs: &R1CS,
    transcript: &mut TR,
    params: &CS::ProverParams,
    w1: &Witness,
    u1: &CommittedInstance<CS::Commitment>,
    w2: &Witness,
    u2: &CommittedInstance<CS::Commitment>,
    r_t: Fp,
) -> (r: Result<DeciderInputs<CS::Commitment>, Error>)
    requires
        r1cs.wf(),
    ensures
        fold_shape_error(*r1cs, *w1, *u1, *w2, *u2) is Some ==> r is Err && r->Err_0
            == fold_shape_error(*r1cs, *w1, *u1, *w2, *u2)->Some_0,
        fold_shapes_ok(*r1cs, *w1, *u1, *w2, *u2) ==> (r is Ok <==> CS::commit_of(
            *params,
            cross_vec(*r1cs, *w1, *u1, *w2, *u2),
            r_t,
        ) is Ok),
        fold_shapes_ok(*r1cs, *w1, *u1, *w2, *u2) && r is Err ==> r->Err_0 == CS::commit_of(
            *params,
            cross_vec(*r1cs, *w1, *u1, *w2, *u2),
            r_t,
        )->Err_0,
        r is Ok ==> r->Ok_0.proof.T@ == cross_vec(*r1cs, *w1, *u1, *w2, *u2),
        r is Ok ==> fvs(r->Ok_0.proof.T@) == cross_term(*r1cs, z_of(*w1, *u1), u1.u.fv(), z_of(*w2, *u2), u2.u.fv()),
        r is Ok ==> r->Ok_0.proof.cmT == CS::commit_of(*params, r->Ok_0.proof.T@, r_t)->Ok_0,
        r is Ok ==> r->Ok_0.challenge == TR::squeeze_of(old(transcript).absorbed() + fold_inputs::<CS>(*r1cs, *u1, *u2, r->Ok_0.proof.cmT)),
        r is Ok ==> r->Ok_0.eval_point == TR::squeeze_of((old(transcript).absorbed() + fold_inputs::<CS>(*r1cs, *u1, *u2, r->Ok_0.proof.cmT)).push(r->Ok_0.challenge) + opening_inputs::<CS>(r->Ok_0.u)),
        r is Ok ==> folded_witness(r->Ok_0.w, *w1, *w2, r->Ok_0.proof.T@, r->Ok_0.challenge.fv()),
        r is Ok ==> folded_instance(r->Ok_0.u, *u1, *u2, r->Ok_0.challenge.fv()),
        r is Ok ==> folded_commitments::<CS>(r->Ok_0.u, *u1, *u2, r->Ok_0.proof.cmT, r->Ok_0.challenge),
        r is Ok ==> r->Ok_0.eval.fv() == poly_eval(r->Ok_0.w.W@, r->Ok_0.eval_point.fv()),
        r is Ok && r1cs.relaxed_result(*w1, *u1) is Ok && (r1cs.relaxed_result(*w2, *u2) is Ok
            || r1cs.tight_result(*w2, *u2) is Ok) ==> r1cs.relaxed_result(r->Ok_0.w, r->Ok_0.u)
            == Ok::<(), Error>(()),
{
    let (w, u, proof, challenge) = match r1cs.fold::<CS, TR>(transcript, params, w1, u1, w2, u2, r_t) {
        Ok(v) => v,
        Err(e) => {
            return Err(e);
        },
    };
    let ghost before = transcript.absorbed();
    let mut head: Vec<Fp> = Vec::new();
    head.push(u.u);
    transcript.absorb(&head);
    transcript.absorb(&u.x);
    transcript.absorb(&CS::to_elements(&u.cmW));
    transcript.absorb(&CS::to_elements(&u.cmE));
    proof {
        assert(head@ =~= seq![u.u]);
        assert(transcript.absorbed() =~= before + opening_inputs::<CS>(u));
    }
    let eval_point = transcript.get_challenge();
    let eval = evaluate_native(&w.W, eval_point);
    Ok(DeciderInputs { w, u, proof, challenge, eval_point, eval })
}

} // verus!
