use proof_essentials::error::CryptoError;
use proof_essentials::field::Scalar;
use proof_essentials::utils::random::sample_vector;
use proof_essentials::vector_commitment::pedersen::PedersenCommitment;
use proof_essentials::zkp::arguments::single_value_product::prover::Prover;
use proof_essentials::zkp::arguments::single_value_product::{Parameters, Statement, Witness};
use proof_essentials::zkp::transcript::Transcript;
use rand::rngs::StdRng;
use rand::SeedableRng;

#[test]
fn test_single_product_argument() {
    let n = 13;
    let rng = &mut StdRng::from_entropy();
    let commit_key = PedersenCommitment::setup(rng, n);

    let mut a: Vec<Scalar> = sample_vector(rng, n);
    let b: Scalar = a.iter().fold(Scalar::one(), |acc, x| acc.mul(x));

    let r = Scalar::rand(rng);
    let a_commit = PedersenCommitment::commit(&commit_key, &a, r).unwrap();

    let parameters = Parameters::new(n, &commit_key);
    let statement = Statement::new(&a_commit, b);

    let mut fs_rng = Transcript::from_seed(b"Initialised with some input");
    let valid_proof = {
        let witness = Witness::new(&a, &r);
        Prover::new(&parameters, &statement, &witness)
            .prove(rng, &mut fs_rng)
            .unwrap()
    };

    let mut fs_rng = Transcript::from_seed(b"Initialised with some input");
    assert_eq!(
        Ok(()),
        valid_proof.verify(&parameters, &statement, &mut fs_rng)
    );

    a[0] = a[0].add(&a[0]);
    let bad_witness = Witness::new(&a, &r);

    let mut fs_rng = Transcript::from_seed(b"Initialised with some input");
    let invalid_proof = Prover::new(&parameters, &statement, &bad_witness)
        .prove(rng, &mut fs_rng)
        .unwrap();

    let mut fs_rng = Transcript::from_seed(b"Initialised with some input");
    assert_eq!(
        Err(CryptoError::ProofVerificationError(String::from(
            "Single Value Product Argument (5.3)",
        ))),
        invalid_proof.verify(&parameters, &statement, &mut fs_rng)
    );
}

#[test]
fn single_value_product_argument_rejects_changed_proofs_and_statements() {
    let n = 5;
    let rng = &mut StdRng::seed_from_u64(41);
    let commit_key = PedersenCommitment::setup(rng, n);
    let a: Vec<Scalar> = sample_vector(rng, n);
    let b: Scalar = a.iter().fold(Scalar::one(), |acc, x| acc.mul(x));
    let r = Scalar::rand(rng);
    let a_commit = PedersenCommitment::commit(&commit_key, &a, r).unwrap();
    let parameters = Parameters::new(n, &commit_key);
    let statement = Statement::new(&a_commit, b);
    let witness = Witness::new(&a, &r);
    let rejection = Err(CryptoError::ProofVerificationError(String::from(
        "Single Value Product Argument (5.3)",
    )));

    let mut fs_rng = Transcript::from_seed(b"Initialised with some input");
    let proof = Prover::new(&parameters, &statement, &witness)
        .prove(rng, &mut fs_rng)
        .unwrap();
    assert_eq!(proof.a_blinded.len(), n);
    assert_eq!(proof.b_blinded.len(), n);
    assert_eq!(proof.a_blinded[0], proof.b_blinded[0]);

    let wrong = Statement::new(&a_commit, b.add(&Scalar::one()));
    let mut fs_rng = Transcript::from_seed(b"Initialised with some input");
    assert_eq!(proof.verify(&parameters, &wrong, &mut fs_rng), rejection);

    let mut fs_rng = Transcript::from_seed(b"Initialised with another input");
    assert_eq!(proof.verify(&parameters, &statement, &mut fs_rng), rejection);

    let mut changed = proof.clone();
    changed.s_blinded = changed.s_blinded.add(&Scalar::one());
    let mut fs_rng = Transcript::from_seed(b"Initialised with some input");
    assert_eq!(changed.verify(&parameters, &statement, &mut fs_rng), rejection);

    let mut changed = proof.clone();
    changed.a_blinded.pop();
    let mut fs_rng = Transcript::from_seed(b"Initialised with some input");
    assert_eq!(changed.verify(&parameters, &statement, &mut fs_rng), rejection);

    let empty = Parameters::new(0, &commit_key);
    let mut nothing = proof.clone();
    nothing.a_blinded.clear();
    nothing.b_blinded.clear();
    let mut fs_rng = Transcript::from_seed(b"Initialised with some input");
    assert_eq!(nothing.verify(&empty, &statement, &mut fs_rng), rejection);
}

#[test]
fn blinding_multiplies_by_the_challenge_and_adds_the_blinder() {
    let x: Vec<Scalar> = [1u64, 2, 3].iter().map(|v| Scalar::from_u64(*v)).collect();
    let blinders: Vec<Scalar> = [10u64, 20, 30].iter().map(|v| Scalar::from_u64(*v)).collect();
    let expected: Vec<Scalar> = [17u64, 34, 51].iter().map(|v| Scalar::from_u64(*v)).collect();
    assert_eq!(Prover::blind(&x, &blinders, Scalar::from_u64(7)), expected);
}
