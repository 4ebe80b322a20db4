use folding_schemes::decider::{decider_inputs, evaluate_native, DeciderProtoGalaxyGadget};
use folding_schemes::error::Error;
use folding_schemes::field::{Fp, MODULUS};
use folding_schemes::folding::{fold_vec, FoldingProof};
use folding_schemes::r1cs::R1CS;
use folding_schemes::relaxed::{CommitmentScheme, CommittedInstance, Witness};
use folding_schemes::schemes::{LinearCommitment, MixTranscript};
use folding_schemes::vector::SparseMatrix;

fn fe(v: u64) -> Fp {
    Fp::from_u64(v)
}

fn to_matrix(rows: Vec<Vec<u64>>) -> SparseMatrix {
    let n_rows = rows.len();
    let n_cols = rows[0].len();
    let coeffs = rows
        .iter()
        .map(|r| {
            r.iter()
                .enumerate()
                .filter(|(_, v)| **v != 0)
                .map(|(c, v)| (fe(*v), c))
                .collect()
        })
        .collect();
    SparseMatrix { n_rows, n_cols, coeffs }
}

fn cubic_r1cs() -> R1CS {
    let a = to_matrix(vec![
        vec![0, 1, 0, 0, 0, 0],
        vec![0, 0, 0, 1, 0, 0],
        vec![0, 1, 0, 0, 1, 0],
        vec![5, 0, 0, 0, 0, 1],
    ]);
    let b = to_matrix(vec![
        vec![0, 1, 0, 0, 0, 0],
        vec![0, 1, 0, 0, 0, 0],
        vec![1, 0, 0, 0, 0, 0],
        vec![1, 0, 0, 0, 0, 0],
    ]);
    let c = to_matrix(vec![
        vec![0, 0, 0, 1, 0, 0],
        vec![0, 0, 0, 0, 1, 0],
        vec![0, 0, 0, 0, 0, 1],
        vec![0, 0, 1, 0, 0, 0],
    ]);
    R1CS { l: 1, A: a, B: b, C: c }
}

/// Generators `[7, 1, 2, 3, ...]`: the blinding weighs 7, value `i` weighs `i + 1`.
fn gens() -> Vec<Fp> {
    let mut g = vec![fe(7)];
    g.extend((1..16u64).map(fe));
    g
}

fn incoming(r1cs: &R1CS, input: u64) -> (Witness, CommittedInstance<Fp>) {
    let z = vec![
        fe(1),
        fe(input),
        fe(input * input * input + input + 5),
        fe(input * input),
        fe(input * input * input),
        fe(input * input * input + input),
    ];
    r1cs.check_relation(&z).unwrap();
    let (w, x) = r1cs.split_z(&z);
    let mut wit = Witness::new(w, r1cs.A.n_rows);
    wit.rW = fe(input + 100);
    let inst = wit.commit::<LinearCommitment>(&gens(), x).unwrap();
    (wit, inst)
}

#[test]
fn fold_chain_keeps_relaxed_relation() {
    let r1cs = cubic_r1cs();
    let mut transcript = MixTranscript::new(fe(42));
    let (mut w_run, mut u_run) = r1cs.dummy_running_instance::<LinearCommitment>();
    assert_eq!(r1cs.check_relaxed_relation(&w_run, &u_run), Ok(()));
    for (step, input) in [3u64, 5, 11, 20].iter().enumerate() {
        let (w_in, u_in) = incoming(&r1cs, *input);
        assert_eq!(r1cs.check_tight_relation(&w_in, &u_in), Ok(()));
        let (w_new, u_new, proof, r) = r1cs
            .fold::<LinearCommitment, MixTranscript>(
                &mut transcript,
                &gens(),
                &w_run,
                &u_run,
                &w_in,
                &u_in,
                fe(step as u64 + 9),
            )
            .unwrap();
        assert_eq!(r1cs.check_relaxed_relation(&w_new, &u_new), Ok(()));
        // the folded commitments are the commitments of the folded values
        assert_eq!(
            LinearCommitment::commit(&gens(), &w_new.W, w_new.rW).unwrap().val,
            u_new.cmW.val
        );
        assert_eq!(
            LinearCommitment::commit(&gens(), &w_new.E, w_new.rE).unwrap().val,
            u_new.cmE.val
        );
        assert_eq!(proof.T.len(), 4);
        assert!(r.val < MODULUS);
        w_run = w_new;
        u_run = u_new;
    }
    assert_ne!(u_run.u.val, 1);
    assert_eq!(r1cs.check_tight_relation(&w_run, &u_run), Err(Error::R1CSUnrelaxedFail));
}

#[test]
fn fold_rejects_wrong_public_input_length() {
    let r1cs = cubic_r1cs();
    let mut transcript = MixTranscript::new(fe(1));
    let (w_run, u_run) = r1cs.dummy_running_instance::<LinearCommitment>();
    let (w_in, mut u_in) = incoming(&r1cs, 2);
    u_in.x.push(fe(0));
    let r = r1cs.fold::<LinearCommitment, MixTranscript>(
        &mut transcript,
        &gens(),
        &w_run,
        &u_run,
        &w_in,
        &u_in,
        fe(0),
    );
    assert_eq!(r.err(), Some(Error::NotSameLength(2, 1)));
}

#[test]
fn fold_of_bad_witness_fails_relaxed_check() {
    let r1cs = cubic_r1cs();
    let mut transcript = MixTranscript::new(fe(5));
    let (w_run, u_run) = r1cs.dummy_running_instance::<LinearCommitment>();
    let (mut w_in, u_in) = incoming(&r1cs, 4);
    w_in.W[0] = fe(1);
    let (w_new, u_new, _, _) = r1cs
        .fold::<LinearCommitment, MixTranscript>(
            &mut transcript,
            &gens(),
            &w_run,
            &u_run,
            &w_in,
            &u_in,
            fe(3),
        )
        .unwrap();
    assert_eq!(r1cs.check_relaxed_relation(&w_new, &u_new), Err(Error::NotSatisfied));
}

#[test]
fn decider_gadget_matches_prover_fold() {
    let r1cs = cubic_r1cs();
    let (w_run, u_run) = r1cs.dummy_running_instance::<LinearCommitment>();
    let (w_in, u_in) = incoming(&r1cs, 3);
    let mut prover_t = MixTranscript::new(fe(8));
    let (w1, u1, proof, r) = r1cs
        .fold::<LinearCommitment, MixTranscript>(
            &mut prover_t,
            &gens(),
            &w_run,
            &u_run,
            &w_in,
            &u_in,
            fe(4),
        )
        .unwrap();
    let (w2, u2) = incoming(&r1cs, 6);
    let mut prover_t2 = MixTranscript::new(fe(8));
    let out = decider_inputs::<LinearCommitment, MixTranscript>(
        &r1cs, &mut prover_t2, &gens(), &w1, &u1, &w2, &u2, fe(2),
    )
    .unwrap();
    assert_eq!(r1cs.check_relaxed_relation(&out.w, &out.u), Ok(()));
    assert_eq!(out.eval.val, evaluate_native(&out.w.W, out.eval_point).val);

    let mut verifier_t = MixTranscript::new(fe(8));
    let proof_copy: FoldingProof<Fp> = FoldingProof { T: proof.T.clone(), cmT: proof.cmT };
    let (u_v, r_v) = DeciderProtoGalaxyGadget::fold_gadget::<LinearCommitment, MixTranscript>(
        &r1cs,
        &mut verifier_t,
        &u_run,
        &u_in,
        &proof_copy,
    )
    .unwrap();
    assert_eq!(r_v.val, r.val);
    assert_eq!(u_v.u.val, u1.u.val);
    assert_eq!(u_v.cmW.val, u1.cmW.val);
    assert_eq!(u_v.cmE.val, u1.cmE.val);
    assert_eq!(u_v.x[0].val, u1.x[0].val);
    let bad = CommittedInstance { cmE: fe(0), u: fe(0), cmW: fe(0), x: vec![] };
    let e = DeciderProtoGalaxyGadget::fold_gadget::<LinearCommitment, MixTranscript>(
        &r1cs,
        &mut verifier_t,
        &u_run,
        &bad,
        &proof_copy,
    );
    assert_eq!(e.err(), Some(Error::NotSameLength(0, 1)));
}

#[test]
fn fold_accepts_incoming_without_error_terms() {
    let r1cs = cubic_r1cs();
    let mut transcript = MixTranscript::new(fe(2));
    let (w_run, u_run) = r1cs.dummy_running_instance::<LinearCommitment>();
    let (mut w_in, u_in) = incoming(&r1cs, 7);
    w_in.E = vec![];
    assert_eq!(r1cs.check_tight_relation(&w_in, &u_in), Ok(()));
    let (w_new, u_new, _, _) = r1cs
        .fold::<LinearCommitment, MixTranscript>(
            &mut transcript,
            &gens(),
            &w_run,
            &u_run,
            &w_in,
            &u_in,
            fe(5),
        )
        .unwrap();
    assert_eq!(w_new.E.len(), 4);
    assert_eq!(r1cs.check_relaxed_relation(&w_new, &u_new), Ok(()));
    w_in.E = vec![fe(0); 2];
    let r = r1cs.fold::<LinearCommitment, MixTranscript>(
        &mut transcript,
        &gens(),
        &w_run,
        &u_run,
        &w_in,
        &u_in,
        fe(5),
    );
    assert_eq!(r.err(), Some(Error::NotSameLength(2, 4)));
}

#[test]
fn test_decider_circuit() {
    let r1cs = cubic_r1cs();
    let mut transcript = MixTranscript::new(fe(3));
    // one step: fold the first incoming pair into the dummy running pair
    let (w0, u0) = r1cs.dummy_running_instance::<LinearCommitment>();
    let (w_in, u_in) = incoming(&r1cs, 3);
    let (w1, u1, _, _) = r1cs
        .fold::<LinearCommitment, MixTranscript>(&mut transcript, &gens(), &w0, &u0, &w_in, &u_in, fe(1))
        .unwrap();
    assert_eq!(r1cs.check_relaxed_relation(&w1, &u1), Ok(()));
    // the decider folds the last incoming pair and evaluates the opening
    let (w2, u2) = incoming(&r1cs, 4);
    let mut decider_t = MixTranscript::new(fe(3));
    let out = decider_inputs::<LinearCommitment, MixTranscript>(
        &r1cs, &mut decider_t, &gens(), &w1, &u1, &w2, &u2, fe(6),
    )
    .unwrap();
    assert_eq!(r1cs.check_relaxed_relation(&out.w, &out.u), Ok(()));
    assert_eq!(out.eval.val, evaluate_native(&out.w.W, out.eval_point).val);
}

#[test]
fn evaluate_native_horner() {
    // 1 + 2 c + 3 c^2 at c = 10
    let v = vec![fe(1), fe(2), fe(3)];
    assert_eq!(evaluate_native(&v, fe(10)).val, 321);
    assert_eq!(evaluate_native(&vec![], fe(10)).val, 0);
}

#[test]
fn fold_vec_exact() {
    let a = vec![fe(1), fe(2)];
    let b = vec![fe(10), fe(MODULUS - 1)];
    let out = fold_vec(&a, &b, fe(3));
    assert_eq!(out[0].val, 31);
    assert_eq!(out[1].val, MODULUS - 1);
}

#[test]
fn fold_many_chain_keeps_relaxed_relation() {
    let r1cs = cubic_r1cs();
    let mut transcript = MixTranscript::new(fe(11));
    let (w0, u0) = r1cs.dummy_running_instance::<LinearCommitment>();
    let incoming_pairs: Vec<(Witness, CommittedInstance<Fp>)> =
        [2u64, 3, 9, 10].iter().map(|x| incoming(&r1cs, *x)).collect();
    let blinds = vec![fe(1), fe(2), fe(3), fe(4)];
    let (w, u, proofs, challenges) = r1cs
        .fold_many::<LinearCommitment, MixTranscript>(&mut transcript, &gens(), w0, u0, &incoming_pairs, &blinds)
        .unwrap();
    assert_eq!(proofs.len(), 4);
    assert_eq!(challenges.len(), 4);
    assert_eq!(r1cs.check_relaxed_relation(&w, &u), Ok(()));

    let (w0, u0) = r1cs.dummy_running_instance::<LinearCommitment>();
    let r = r1cs.fold_many::<LinearCommitment, MixTranscript>(
        &mut transcript,
        &gens(),
        w0,
        u0,
        &incoming_pairs,
        &vec![fe(1)],
    );
    assert_eq!(r.err(), Some(Error::NotSameLength(1, 4)));
}

#[test]
fn fold_fails_when_cross_term_commit_fails() {
    let r1cs = cubic_r1cs();
    let mut transcript = MixTranscript::new(fe(1));
    let (w0, u0) = r1cs.dummy_running_instance::<LinearCommitment>();
    let (w_in, u_in) = incoming(&r1cs, 2);
    // two generators leave room for one value; the cross term has four
    let short = vec![fe(7), fe(1)];
    let r = r1cs.fold::<LinearCommitment, MixTranscript>(&mut transcript, &short, &w0, &u0, &w_in, &u_in, fe(0));
    assert_eq!(r.err(), Some(Error::NotSameLength(4, 2)));
}
