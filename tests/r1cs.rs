use ark_std::rand::rngs::StdRng;
use ark_std::rand::{Rng, SeedableRng};
use folding_schemes::error::Error;
use folding_schemes::field::{Fp, MODULUS};
use folding_schemes::r1cs::R1CS;
use folding_schemes::relaxed::{
    extract_r1cs, extract_w_x, CommittedInstance, ConstraintSystemData, Witness,
};
use folding_schemes::relaxed::CommitmentScheme;
use folding_schemes::schemes::LinearCommitment;
use folding_schemes::vector::{is_zero_vec, mat_vec_mul, SparseMatrix};

fn fe(v: u64) -> Fp {
    Fp::from_u64(v)
}

fn to_matrix(rows: Vec<Vec<u64>>) -> SparseMatrix {
    let n_rows = rows.len();
    let n_cols = rows[0].len();
    let coeffs = rows
        .iter()
        .map(|r| {
            r.iter()
                .enumerate()
                .filter(|(_, v)| **v != 0)
                .map(|(c, v)| (fe(*v), c))
                .collect()
        })
        .collect();
    SparseMatrix { n_rows, n_cols, coeffs }
}

fn get_test_r1cs() -> R1CS {
    let a = to_matrix(vec![
        vec![0, 1, 0, 0, 0, 0],
        vec![0, 0, 0, 1, 0, 0],
        vec![0, 1, 0, 0, 1, 0],
        vec![5, 0, 0, 0, 0, 1],
    ]);
    let b = to_matrix(vec![
        vec![0, 1, 0, 0, 0, 0],
        vec![0, 1, 0, 0, 0, 0],
        vec![1, 0, 0, 0, 0, 0],
        vec![1, 0, 0, 0, 0, 0],
    ]);
    let c = to_matrix(vec![
        vec![0, 0, 0, 1, 0, 0],
        vec![0, 0, 0, 0, 1, 0],
        vec![0, 0, 0, 0, 0, 1],
        vec![0, 0, 1, 0, 0, 0],
    ]);
    R1CS { l: 1, A: a, B: b, C: c }
}

fn get_test_z(input: u64) -> Vec<Fp> {
    vec![
        fe(1),
        fe(input),
        fe(input * input * input + input + 5),
        fe(input * input),
        fe(input * input * input),
        fe(input * input * input + input),
    ]
}

/// Generators `[7, 1, 2, 3, ...]`: the blinding weighs 7, value `i` weighs `i + 1`.
fn gens() -> Vec<Fp> {
    let mut g = vec![fe(7)];
    g.extend((1..16u64).map(fe));
    g
}

fn vals(v: &[Fp]) -> Vec<u64> {
    v.iter().map(|x| x.val % MODULUS).collect()
}

#[test]
fn test_eval_r1cs_relation() {
    let mut rng = ark_std::test_rng();
    let r1cs = get_test_r1cs();
    let mut z = get_test_z(rng.gen::<u16>() as u64);

    let f_w = r1cs.eval_relation(&z).unwrap();
    assert!(is_zero_vec(&f_w));

    z[1] = fe(111);
    let f_w = r1cs.eval_relation(&z).unwrap();
    assert!(!is_zero_vec(&f_w));
}

#[test]
fn eval_cubic_relation_many_inputs() {
    let r1cs = get_test_r1cs();
    for input in [0u64, 1, 3, 5, 1000, 65535] {
        let mut z = get_test_z(input);
        let f_w = r1cs.eval_relation(&z).unwrap();
        assert!(is_zero_vec(&f_w));

        z[1] = fe(111);
        let f_w = r1cs.eval_relation(&z).unwrap();
        assert!(!is_zero_vec(&f_w));
    }
}

#[test]
fn test_check_r1cs_relation() {
    let r1cs = get_test_r1cs();
    let z = get_test_z(5);
    r1cs.check_relation(&z).unwrap();
}

#[test]
fn sample_relaxed_r1cs() {
    let mut rng = StdRng::seed_from_u64(7);
    let r1cs = get_test_r1cs();
    let sampled = r1cs.sample::<LinearCommitment>(&gens(), &mut rng);
    assert!(sampled.is_ok());
}

#[test]
fn sample_with_rng_satisfies_relaxed() {
    for seed in 0..100u64 {
        let mut rng = StdRng::seed_from_u64(seed);
        let r1cs = get_test_r1cs();
        let (u, w) = r1cs.sample::<LinearCommitment>(&gens(), &mut rng).unwrap();
        assert_eq!(r1cs.check_relaxed_relation(&w, &u), Ok(()));
        assert_eq!(w.W.len(), 4);
        assert_eq!(u.x.len(), 1);
    }
}

#[test]
fn sample_with_given_values() {
    let r1cs = get_test_r1cs();
    let w = vec![fe(9), fe(8), fe(7), fe(6)];
    let x = vec![fe(4)];
    let sampled = r1cs.sample_with::<LinearCommitment>(&gens(), fe(3), fe(11), fe(12), w, x);
    assert!(sampled.is_ok());
    let (u, w) = sampled.unwrap();
    assert_eq!(r1cs.check_relaxed_relation(&w, &u), Ok(()));
}

#[test]
fn cubic_relation_holds_at_five() {
    let r1cs = get_test_r1cs();
    let z = vec![fe(1), fe(5), fe(135), fe(25), fe(125), fe(130)];
    assert_eq!(r1cs.check_relation(&z), Ok(()));
    // y must be 5^3 + 5 + 5 = 135: the vector with y = 130 is refused
    let z = vec![fe(1), fe(5), fe(130), fe(25), fe(125), fe(130)];
    assert_eq!(r1cs.check_relation(&z), Err(Error::NotSatisfied));
}

#[test]
fn cubic_relation_fails_on_wrong_output() {
    let r1cs = get_test_r1cs();
    let z = vec![fe(1), fe(5), fe(131), fe(25), fe(125), fe(130)];
    assert_eq!(r1cs.check_relation(&z), Err(Error::NotSatisfied));
}

#[test]
fn eval_residual_exact_values() {
    let r1cs = get_test_r1cs();
    let z = vec![fe(1), fe(5), fe(131), fe(25), fe(125), fe(130)];
    let e = r1cs.eval_relation(&z).unwrap();
    // only the last row changes: (5 + 130) * 1 - 131 = 4
    assert_eq!(vals(&e), vec![0, 0, 0, 4]);
    let z = vec![fe(1), fe(2), fe(15), fe(4), fe(8), fe(10)];
    let e = r1cs.eval_relation(&z).unwrap();
    assert_eq!(vals(&e), vec![0, 0, 0, 0]);
}

#[test]
fn eval_uses_first_element_as_scalar() {
    let r1cs = get_test_r1cs();
    // with z[0] = 2, each row is A z * B z - 2 * C z
    let z = vec![fe(2), fe(1), fe(0), fe(0), fe(0), fe(0)];
    let e = r1cs.eval_relation(&z).unwrap();
    // rows: 1*1 - 0, 0*1 - 0, (1+0)*2 - 0, (10+0)*2 - 0
    assert_eq!(vals(&e), vec![1, 0, 2, 20]);
}

#[test]
fn eval_dimension_mismatch() {
    let r1cs = get_test_r1cs();
    let z = vec![fe(1), fe(5), fe(130)];
    assert_eq!(r1cs.eval_relation(&z).err(), Some(Error::NotSameLength(3, 6)));
    assert_eq!(r1cs.check_relation(&z), Err(Error::NotSameLength(3, 6)));
    let long = vec![fe(1); 7];
    assert_eq!(r1cs.eval_relation(&long).err(), Some(Error::NotSameLength(7, 6)));
}

#[test]
fn eval_dimension_mismatch_zero_columns() {
    let m = SparseMatrix { n_rows: 2, n_cols: 0, coeffs: vec![vec![], vec![]] };
    let r1cs = R1CS { l: 0, A: m.clone(), B: m.clone(), C: m };
    assert_eq!(r1cs.eval_relation(&[fe(1)]).err(), Some(Error::NotSameLength(1, 0)));
    assert_eq!(vals(&r1cs.eval_relation(&[]).unwrap()), vec![0, 0]);
}

#[test]
fn eval_zero_rows_is_empty() {
    let m = SparseMatrix { n_rows: 0, n_cols: 3, coeffs: vec![] };
    let r1cs = R1CS { l: 1, A: m.clone(), B: m.clone(), C: m };
    let e = r1cs.eval_relation(&[fe(1), fe(2), fe(3)]).unwrap();
    assert!(e.is_empty());
    assert_eq!(r1cs.check_relation(&[fe(1), fe(2), fe(3)]), Ok(()));
}

#[test]
fn split_z_round_trip() {
    let r1cs = get_test_r1cs();
    let z = get_test_z(7);
    let (w, x) = r1cs.split_z(&z);
    assert_eq!(vals(&x), vec![7]);
    assert_eq!(vals(&w), vec![355, 49, 343, 350]);
    let mut back = vec![fe(1)];
    back.extend(x);
    back.extend(w);
    assert_eq!(vals(&back), vals(&z));
}

#[test]
fn params_bytes_layout() {
    let r1cs = get_test_r1cs();
    let bytes = r1cs.params_to_le_bytes();
    let mut want = vec![0u8; 24];
    want[0] = 1;
    want[8] = 4;
    want[16] = 6;
    assert_eq!(bytes, want);
    let m = SparseMatrix { n_rows: 258, n_cols: 3, coeffs: vec![vec![]; 258] };
    let r = R1CS { l: 1, A: m.clone(), B: m.clone(), C: m };
    let bytes = r.params_to_le_bytes();
    assert_eq!(&bytes[8..16], &[2, 1, 0, 0, 0, 0, 0, 0]);
}

#[test]
fn mat_vec_mul_exact() {
    let m = to_matrix(vec![vec![1, 2, 0], vec![0, 0, 3]]);
    let r = mat_vec_mul(&m, &[fe(4), fe(5), fe(6)]).unwrap();
    assert_eq!(vals(&r), vec![14, 18]);
    assert_eq!(mat_vec_mul(&m, &[fe(4)]).err(), Some(Error::NotSameLength(1, 3)));
}

#[test]
fn field_ops_wrap_around() {
    let top = Fp { val: MODULUS - 1 };
    assert_eq!(top.add(fe(2)).val, 1);
    assert_eq!(fe(1).sub(fe(2)).val, MODULUS - 1);
    assert_eq!(top.mul(top).val, 1);
    assert_eq!(fe(3).neg().val, MODULUS - 3);
    assert!(Fp { val: MODULUS }.is_zero());
    assert!(Fp { val: u64::MAX }.eq_value(fe(u64::MAX - MODULUS)));
}

#[test]
fn sample_many_shapes_satisfy_relaxed() {
    let mut seed: u64 = 0x1234_5678;
    let mut next = || {
        seed = seed.wrapping_mul(6364136223846793005).wrapping_add(1442695040888963407);
        seed >> 1
    };
    for trial in 0..120u64 {
        let n_rows = (trial % 5) as usize;
        let n_cols = 1 + (trial % 6) as usize;
        let l = (trial as usize / 6) % n_cols;
        let mut rand_matrix = || {
            let rows: Vec<Vec<(Fp, usize)>> = (0..n_rows)
                .map(|_| (0..n_cols).map(|c| (fe(next()), c)).collect())
                .collect();
            SparseMatrix { n_rows, n_cols, coeffs: rows }
        };
        let (a, b, c) = (rand_matrix(), rand_matrix(), rand_matrix());
        let r1cs = R1CS { l, A: a, B: b, C: c };
        let w: Vec<Fp> = (0..n_cols - l - 1).map(|_| fe(next())).collect();
        let x: Vec<Fp> = (0..l).map(|_| fe(next())).collect();
        let (u, wit) = r1cs
            .sample_with::<LinearCommitment>(&gens(), fe(next()), fe(next()), fe(next()), w, x)
            .unwrap();
        assert_eq!(r1cs.check_relaxed_relation(&wit, &u), Ok(()));
    }
}

#[test]
fn tight_check_refuses_relaxed_instance() {
    let r1cs = get_test_r1cs();
    let w = vec![fe(1), fe(2), fe(3), fe(4)];
    let (u, wit) = r1cs.sample_with::<LinearCommitment>(&gens(), fe(3), fe(0), fe(0), w, vec![fe(5)]).unwrap();
    assert_eq!(r1cs.check_relaxed_relation(&wit, &u), Ok(()));
    assert_eq!(r1cs.check_tight_relation(&wit, &u), Err(Error::R1CSUnrelaxedFail));
}

#[test]
fn tight_check_accepts_exact_instance() {
    let r1cs = get_test_r1cs();
    let z = get_test_z(5);
    let (w, x) = r1cs.split_z(&z);
    let wit = Witness::new(w, 4);
    let u: CommittedInstance<Fp> = wit.commit::<LinearCommitment>(&gens(), x).unwrap();
    assert_eq!(u.u.val, 1);
    assert_eq!(u.cmW.val, 135 + 2 * 25 + 3 * 125 + 4 * 130);
    assert_eq!(r1cs.check_tight_relation(&wit, &u), Ok(()));
    assert_eq!(r1cs.check_relaxed_relation(&wit, &u), Ok(()));
    let mut bad = wit.clone();
    bad.W[0] = fe(131);
    assert_eq!(r1cs.check_tight_relation(&bad, &u), Err(Error::NotSatisfied));
    assert_eq!(r1cs.check_relaxed_relation(&bad, &u), Err(Error::NotSatisfied));
}

#[test]
fn dummy_instances_satisfy_relaxed() {
    let r1cs = get_test_r1cs();
    let (w, u) = r1cs.dummy_running_instance::<LinearCommitment>();
    assert_eq!(w.W.len(), 4);
    assert_eq!(w.E.len(), 4);
    assert_eq!(u.x.len(), 1);
    assert_eq!(r1cs.check_relaxed_relation(&w, &u), Ok(()));
    assert_eq!(r1cs.check_tight_relation(&w, &u), Err(Error::R1CSUnrelaxedFail));
    let (w, u) = r1cs.dummy_incoming_instance::<LinearCommitment>();
    assert_eq!(r1cs.check_relaxed_relation(&w, &u), Ok(()));
}

#[test]
fn error_terms_mismatch() {
    let r1cs = get_test_r1cs();
    let (w, u) = r1cs.dummy_running_instance::<LinearCommitment>();
    assert_eq!(R1CS::check_error_terms(&w, &u, vec![fe(0); 4]), Ok(()));
    assert_eq!(R1CS::check_error_terms(&w, &u, vec![fe(0); 3]), Err(Error::NotSatisfied));
    assert_eq!(
        R1CS::check_error_terms(&w, &u, vec![fe(0), fe(0), fe(1), fe(0)]),
        Err(Error::NotSatisfied)
    );
    assert!(!R1CS::is_relaxed(&Witness::new(vec![], 2), &CommittedInstance { cmE: fe(0), u: fe(1), cmW: fe(0), x: vec![] }));
}

#[test]
fn rand_builds_sparse_matrices() {
    let a = vec![vec![fe(0), fe(3), fe(0)], vec![fe(4), fe(0), fe(MODULUS)]];
    let b = vec![vec![fe(1), fe(1), fe(1)], vec![fe(0), fe(0), fe(0)]];
    let c = vec![vec![fe(0), fe(0), fe(2)], vec![fe(5), fe(6), fe(7)]];
    let r1cs = R1CS::from_dense_rows(&a, &b, &c, 3);
    assert_eq!(r1cs.l, 1);
    assert_eq!((r1cs.A.n_rows, r1cs.A.n_cols), (2, 3));
    let cols: Vec<Vec<usize>> = r1cs.A.coeffs.iter().map(|r| r.iter().map(|e| e.1).collect()).collect();
    assert_eq!(cols, vec![vec![1], vec![0]]);
    assert_eq!(r1cs.B.coeffs[0].len(), 3);
    assert!(r1cs.B.coeffs[1].is_empty());
    assert_eq!(r1cs.C.coeffs[1].iter().map(|e| e.0.val).collect::<Vec<u64>>(), vec![5, 6, 7]);
}

#[test]
fn sample_on_rand_relations() {
    let mut seed: u64 = 99;
    let mut next = || {
        seed = seed.wrapping_mul(6364136223846793005).wrapping_add(1442695040888963407);
        seed >> 1
    };
    for n_cols in 2..6usize {
        for n_rows in 0..4usize {
            let mut dense = || -> Vec<Vec<Fp>> {
                (0..n_rows).map(|_| (0..n_cols).map(|_| fe(next() % 4)).collect()).collect()
            };
            let (a, b, c) = (dense(), dense(), dense());
            let r1cs = R1CS::from_dense_rows(&a, &b, &c, n_cols);
            let w: Vec<Fp> = (0..n_cols - 2).map(|_| fe(next())).collect();
            let (u, wit) = r1cs
                .sample_with::<LinearCommitment>(&gens(), fe(next()), fe(next()), fe(next()), w, vec![fe(next())])
                .unwrap();
            assert_eq!(r1cs.check_relaxed_relation(&wit, &u), Ok(()));
            let z = R1CS::extract_z(&wit, &u);
            assert!(r1cs.check_sampled_relaxed_r1cs(u.u, &wit.E, &z));
        }
    }
}

#[test]
fn sampled_check_rejects_wrong_error() {
    let r1cs = get_test_r1cs();
    let z = vec![fe(2), fe(1), fe(0), fe(0), fe(0), fe(0)];
    assert!(r1cs.check_sampled_relaxed_r1cs(fe(2), &vec![fe(1), fe(0), fe(2), fe(20)], &z));
    assert!(!r1cs.check_sampled_relaxed_r1cs(fe(2), &vec![fe(1), fe(0), fe(2), fe(21)], &z));
    // with C z non-zero the scalar matters: row 0 is 1 * 1 - u * 1
    let z2 = vec![fe(2), fe(1), fe(0), fe(1), fe(0), fe(0)];
    let e2 = vec![Fp { val: MODULUS - 1 }, fe(1), fe(2), fe(20)];
    assert!(r1cs.check_sampled_relaxed_r1cs(fe(2), &e2, &z2));
    assert!(!r1cs.check_sampled_relaxed_r1cs(fe(1), &e2, &z2));
    assert!(!r1cs.check_sampled_relaxed_r1cs(fe(2), &vec![fe(1), fe(0), fe(2), fe(20)], &z[..5]));
}

#[test]
fn extract_from_constraint_system() {
    let r = get_test_r1cs();
    let cs = ConstraintSystemData {
        num_constraints: 4,
        num_instance_variables: 2,
        num_witness_variables: 4,
        a: r.A.coeffs.clone(),
        b: r.B.coeffs.clone(),
        c: r.C.coeffs.clone(),
        instance_assignment: vec![fe(1), fe(5)],
        witness_assignment: vec![fe(135), fe(25), fe(125), fe(130)],
    };
    let (w, x) = extract_w_x(&cs);
    assert_eq!(vals(&x), vec![5]);
    assert_eq!(vals(&w), vec![135, 25, 125, 130]);
    let r1cs = extract_r1cs(cs);
    assert_eq!(r1cs.l, 1);
    assert_eq!((r1cs.A.n_rows, r1cs.A.n_cols), (4, 6));
    let mut z = vec![fe(1)];
    z.extend(x);
    z.extend(w);
    assert_eq!(r1cs.check_relation(&z), Ok(()));
}

#[test]
fn openings_are_the_witness_values() {
    let mut wit = Witness::new(vec![fe(3), fe(4)], 1);
    wit.rW = fe(9);
    let o = wit.get_openings();
    assert_eq!(o.len(), 1);
    assert_eq!(vals(&o[0].0), vec![3, 4]);
    assert_eq!(o[0].1.val, 9);
}

#[test]
fn rand_draws_a_relation() {
    let mut rng = StdRng::seed_from_u64(3);
    let r1cs = R1CS::rand(&mut rng, 3, 5);
    assert_eq!(r1cs.l, 1);
    assert_eq!((r1cs.A.n_rows, r1cs.A.n_cols), (3, 5));
    assert_eq!((r1cs.C.n_rows, r1cs.C.n_cols), (3, 5));
    assert!(r1cs.B.coeffs.iter().all(|row| row.iter().all(|e| e.1 < 5 && !e.0.is_zero())));
    let (u, w) = r1cs.sample::<LinearCommitment>(&gens(), &mut rng).unwrap();
    assert_eq!(r1cs.check_relaxed_relation(&w, &u), Ok(()));
}

#[test]
fn sample_passes_on_commit_error() {
    let r1cs = get_test_r1cs();
    // three generators: room for two values, while E has four
    let short = vec![fe(7), fe(1), fe(2)];
    let r = r1cs.sample_with::<LinearCommitment>(&short, fe(3), fe(1), fe(2), vec![fe(1); 4], vec![fe(5)]);
    assert_eq!(r.err(), Some(Error::NotSameLength(4, 3)));
}

#[test]
fn linear_commitment_values() {
    let c = LinearCommitment::commit(&gens(), &vec![fe(2), fe(3)], fe(1)).unwrap();
    assert_eq!(c.val, 7 + 2 + 6);
    let d = LinearCommitment::combine(&c, &fe(10), fe(2));
    assert_eq!(d.val, 35);
}
