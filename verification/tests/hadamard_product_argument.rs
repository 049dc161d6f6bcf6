use proof_essentials::error::CryptoError;
use proof_essentials::field::Scalar;
use proof_essentials::utils::random::sample_vector;
use proof_essentials::utils::vector_arithmetic::hadamard_product;
use proof_essentials::vector_commitment::pedersen::{Commitment, PedersenCommitment};
use proof_essentials::zkp::arguments::hadamard_product::prover::Prover;
use proof_essentials::zkp::arguments::hadamard_product::{Parameters, Statement, Witness};
use proof_essentials::zkp::transcript::Transcript;
use rand::rngs::StdRng;
use rand::SeedableRng;

fn product_of_rows(matrix: &[Vec<Scalar>]) -> Vec<Scalar> {
    let mut product = matrix[0].clone();
    for row in &matrix[1..] {
        product = hadamard_product(&product, row).unwrap();
    }
    product
}

fn run(m: usize, n: usize, seed: u64, flip_a_row: bool) -> Result<(), CryptoError> {
    let mut rng = StdRng::seed_from_u64(seed);
    let commit_key = PedersenCommitment::setup(&mut rng, n);
    let mut matrix_a: Vec<Vec<Scalar>> = (0..m).map(|_| sample_vector(&mut rng, n)).collect();
    let r = sample_vector(&mut rng, m);
    let a_commits: Vec<Commitment> = (0..m)
        .map(|i| PedersenCommitment::commit(&commit_key, &matrix_a[i], r[i]).unwrap())
        .collect();
    let b = product_of_rows(&matrix_a);
    let s = Scalar::rand(&mut rng);
    let b_commit = PedersenCommitment::commit(&commit_key, &b, s).unwrap();
    if flip_a_row {
        matrix_a[1] = sample_vector(&mut rng, n);
    }

    let parameters = Parameters::new(m, n, &commit_key);
    let statement = Statement::new(&a_commits, b_commit);
    let witness = Witness::new(&matrix_a, &r, &b, s);
    let prover = Prover::new(&parameters, &statement, &witness);

    let mut fs_rng = Transcript::from_seed(b"Initialised with some input");
    let proof = prover.prove(&mut rng, &mut fs_rng).unwrap();

    let mut fs_rng = Transcript::from_seed(b"Initialised with some input");
    proof.verify(&parameters, &statement, &mut fs_rng)
}

#[test]
fn hadamard_argument_accepts_an_honest_proof() {
    assert_eq!(run(4, 3, 21, false), Ok(()));
    assert_eq!(run(2, 5, 22, false), Ok(()));
}

#[test]
fn hadamard_argument_rejects_a_flipped_row() {
    assert_eq!(
        run(4, 3, 23, true),
        Err(CryptoError::ProofVerificationError(String::from(
            "Hadamard Product (5.1)"
        )))
    );
}
