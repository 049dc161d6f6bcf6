use proof_essentials::error::CryptoError;
use proof_essentials::field::Scalar;
use proof_essentials::utils::random::sample_vector;
use proof_essentials::vector_commitment::pedersen::{Commitment, PedersenCommitment};
use proof_essentials::zkp::arguments::zero_value_bilinear_map::prover::Prover;
use proof_essentials::zkp::arguments::zero_value_bilinear_map::{
    Parameters, Statement, Witness, YMapping,
};
use proof_essentials::zkp::transcript::Transcript;
use rand::rngs::StdRng;
use rand::SeedableRng;

fn vanishing_instance(
    rng: &mut StdRng,
    n: usize,
) -> (Vec<Vec<Scalar>>, Vec<Vec<Scalar>>) {
    let a1 = sample_vector(rng, n);
    let b1 = sample_vector(rng, n);
    let a2 = a1.clone();
    let b2: Vec<Scalar> = b1.iter().map(|x| x.neg()).collect();
    (vec![a1, a2], vec![b1, b2])
}

#[test]
fn zero_argument_accepts_an_honest_proof() {
    let mut rng = StdRng::seed_from_u64(7);
    let (m, n) = (2, 3);
    let commit_key = PedersenCommitment::setup(&mut rng, n);
    let (matrix_a, matrix_b) = vanishing_instance(&mut rng, n);
    let r = sample_vector(&mut rng, m);
    let s = sample_vector(&mut rng, m);
    let a_commits: Vec<Commitment> = (0..m)
        .map(|i| PedersenCommitment::commit(&commit_key, &matrix_a[i], r[i]).unwrap())
        .collect();
    let b_commits: Vec<Commitment> = (0..m)
        .map(|i| PedersenCommitment::commit(&commit_key, &matrix_b[i], s[i]).unwrap())
        .collect();
    let mapping = YMapping::new(Scalar::rand(&mut rng), n);

    let parameters = Parameters::new(m, n, &commit_key);
    let statement = Statement::new(&a_commits, &b_commits, &mapping);
    let witness = Witness::new(&matrix_a, &r, &matrix_b, &s);
    let prover = Prover::new(&parameters, &statement, &witness);

    let mut fs_rng = Transcript::from_seed(b"Initialised with some input");
    let proof = prover.prove(&mut rng, &mut fs_rng).unwrap();

    let mut fs_rng = Transcript::from_seed(b"Initialised with some input");
    assert_eq!(proof.verify(&parameters, &statement, &mut fs_rng), Ok(()));
}

#[test]
fn zero_argument_rejects_a_witness_that_does_not_vanish() {
    let mut rng = StdRng::seed_from_u64(8);
    let (m, n) = (2, 3);
    let commit_key = PedersenCommitment::setup(&mut rng, n);
    let (matrix_a, mut matrix_b) = vanishing_instance(&mut rng, n);
    matrix_b[1][0] = matrix_b[1][0].add(&Scalar::one());
    let r = sample_vector(&mut rng, m);
    let s = sample_vector(&mut rng, m);
    let a_commits: Vec<Commitment> = (0..m)
        .map(|i| PedersenCommitment::commit(&commit_key, &matrix_a[i], r[i]).unwrap())
        .collect();
    let b_commits: Vec<Commitment> = (0..m)
        .map(|i| PedersenCommitment::commit(&commit_key, &matrix_b[i], s[i]).unwrap())
        .collect();
    let mapping = YMapping::new(Scalar::rand(&mut rng), n);

    let parameters = Parameters::new(m, n, &commit_key);
    let statement = Statement::new(&a_commits, &b_commits, &mapping);
    let witness = Witness::new(&matrix_a, &r, &matrix_b, &s);
    let prover = Prover::new(&parameters, &statement, &witness);

    let mut fs_rng = Transcript::from_seed(b"Initialised with some input");
    let proof = prover.prove(&mut rng, &mut fs_rng).unwrap();

    let mut fs_rng = Transcript::from_seed(b"Initialised with some input");
    assert_eq!(
        proof.verify(&parameters, &statement, &mut fs_rng),
        Err(CryptoError::ProofVerificationError(String::from(
            "Zero Argument (5.2)"
        )))
    );
}

#[test]
fn zero_argument_rejects_changed_proofs_and_other_seeds() {
    let mut rng = StdRng::seed_from_u64(9);
    let (m, n) = (2, 3);
    let commit_key = PedersenCommitment::setup(&mut rng, n);
    let (matrix_a, matrix_b) = vanishing_instance(&mut rng, n);
    let r = sample_vector(&mut rng, m);
    let s = sample_vector(&mut rng, m);
    let a_commits: Vec<Commitment> = (0..m)
        .map(|i| PedersenCommitment::commit(&commit_key, &matrix_a[i], r[i]).unwrap())
        .collect();
    let b_commits: Vec<Commitment> = (0..m)
        .map(|i| PedersenCommitment::commit(&commit_key, &matrix_b[i], s[i]).unwrap())
        .collect();
    let mapping = YMapping::new(Scalar::rand(&mut rng), n);
    let parameters = Parameters::new(m, n, &commit_key);
    let statement = Statement::new(&a_commits, &b_commits, &mapping);
    let witness = Witness::new(&matrix_a, &r, &matrix_b, &s);
    let rejection = Err(CryptoError::ProofVerificationError(String::from(
        "Zero Argument (5.2)",
    )));

    let mut fs_rng = Transcript::from_seed(b"Initialised with some input");
    let proof = Prover::new(&parameters, &statement, &witness)
        .prove(&mut rng, &mut fs_rng)
        .unwrap();
    assert_eq!(proof.vector_of_committed_diagonals.len(), 2 * m + 1);
    assert_eq!(
        proof.vector_of_committed_diagonals[m + 1],
        PedersenCommitment::commit(&commit_key, &vec![Scalar::zero()], Scalar::zero()).unwrap()
    );

    let mut fs_rng = Transcript::from_seed(b"Initialised with another input");
    assert_eq!(proof.verify(&parameters, &statement, &mut fs_rng), rejection);

    let mut changed = proof.clone();
    changed.t_blinded = changed.t_blinded.add(&Scalar::one());
    let mut fs_rng = Transcript::from_seed(b"Initialised with some input");
    assert_eq!(changed.verify(&parameters, &statement, &mut fs_rng), rejection);

    let mut changed = proof.clone();
    changed.a_blinded[1] = changed.a_blinded[1].add(&Scalar::one());
    let mut fs_rng = Transcript::from_seed(b"Initialised with some input");
    assert_eq!(changed.verify(&parameters, &statement, &mut fs_rng), rejection);

    let mut shortened = proof.clone();
    shortened.vector_of_committed_diagonals.truncate(m + 1);
    let mut fs_rng = Transcript::from_seed(b"Initialised with some input");
    assert_eq!(shortened.verify(&parameters, &statement, &mut fs_rng), rejection);

    let mut shortened = proof.clone();
    shortened.vector_of_committed_diagonals.pop();
    let mut fs_rng = Transcript::from_seed(b"Initialised with some input");
    assert_eq!(shortened.verify(&parameters, &statement, &mut fs_rng), rejection);

    let fewer = a_commits[..1].to_vec();
    let short = Statement::new(&fewer, &b_commits, &mapping);
    let mut fs_rng = Transcript::from_seed(b"Initialised with some input");
    assert_eq!(
        proof.verify(&parameters, &short, &mut fs_rng),
        Err(CryptoError::DotProductLengthError(2, 1))
    );

    let swapped = Statement::new(&b_commits, &a_commits, &mapping);
    let mut fs_rng = Transcript::from_seed(b"Initialised with some input");
    assert_eq!(proof.verify(&parameters, &swapped, &mut fs_rng), rejection);
}
