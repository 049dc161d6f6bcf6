use proof_essentials::error::CryptoError;
use proof_essentials::field::Scalar;
use proof_essentials::homomorphic_encryption::el_gamal::{
    Ciphertext, ElGamal, Generator, Plaintext,
};
use proof_essentials::utils::random::sample_vector;
use proof_essentials::vector_commitment::pedersen::{Commitment, PedersenCommitment};
use proof_essentials::zkp::arguments::matrix_elements_product as product_argument;
use proof_essentials::zkp::arguments::multi_exponentiation as exponentiation_argument;
use proof_essentials::zkp::arguments::zero_value_bilinear_map::YMapping;
use proof_essentials::zkp::arguments::{
    hadamard_product, single_value_product, zero_value_bilinear_map,
};
use proof_essentials::zkp::transcript::Transcript;
use proof_essentials::zkp::ArgumentOfKnowledge;
use rand::rngs::StdRng;
use rand::SeedableRng;

const SEED: &[u8] = b"Initialised with some input";

fn scalars(values: &[u64]) -> Vec<Scalar> {
    values.iter().map(|v| Scalar::from_u64(*v)).collect()
}

fn product_of_entries(matrix: &[Vec<Scalar>]) -> Scalar {
    matrix
        .iter()
        .flat_map(|row| row.iter())
        .fold(Scalar::one(), |acc, x| acc.mul(x))
}

#[test]
fn mapping_weights_entry_i_with_the_power_i_of_the_challenge() {
    let mapping = YMapping::new(Scalar::from_u64(2), 2);
    assert_eq!(
        mapping.compute_mapping(&scalars(&[1, 2]), &scalars(&[3, 4])),
        Ok(Scalar::from_u64(38))
    );
    assert_eq!(
        mapping.compute_mapping(&scalars(&[1, 2]), &scalars(&[3])),
        Err(CryptoError::BilinearMapLengthError(2, 1))
    );
    assert_eq!(
        mapping.compute_mapping(&scalars(&[1, 2, 3]), &scalars(&[3, 4, 5])),
        Err(CryptoError::BilinearMapLengthError(3, 2))
    );
}

fn product_instance(
    rng: &mut StdRng,
    m: usize,
    n: usize,
) -> (
    proof_essentials::vector_commitment::pedersen::CommitKey,
    Vec<Vec<Scalar>>,
    Vec<Scalar>,
    Vec<Commitment>,
) {
    let commit_key = PedersenCommitment::setup(rng, n);
    let matrix: Vec<Vec<Scalar>> = (0..m).map(|_| sample_vector(rng, n)).collect();
    let randoms = sample_vector(rng, m);
    let commits = (0..m)
        .map(|i| PedersenCommitment::commit(&commit_key, &matrix[i], randoms[i]).unwrap())
        .collect();
    (commit_key, matrix, randoms, commits)
}

#[test]
fn product_argument_accepts_the_product_of_the_entries() {
    let mut rng = StdRng::seed_from_u64(31);
    let (m, n) = (3, 4);
    let (commit_key, matrix, randoms, commits) = product_instance(&mut rng, m, n);
    let parameters = product_argument::Parameters::new(m, n, &commit_key);
    let statement = product_argument::Statement::new(&commits, product_of_entries(&matrix));
    let witness = product_argument::Witness::new(&matrix, &randoms);

    let mut fs_rng = Transcript::from_seed(SEED);
    let proof = product_argument::ProductArgument::prove(
        &mut rng,
        &parameters,
        &statement,
        &witness,
        &mut fs_rng,
    )
    .unwrap();
    let mut fs_rng = Transcript::from_seed(SEED);
    assert_eq!(
        product_argument::ProductArgument::verify(&parameters, &statement, &proof, &mut fs_rng),
        Ok(())
    );

    let wrong = product_argument::Statement::new(
        &commits,
        product_of_entries(&matrix).add(&Scalar::one()),
    );
    let mut fs_rng = Transcript::from_seed(SEED);
    assert_eq!(
        proof.verify(&parameters, &wrong, &mut fs_rng),
        Err(CryptoError::ProofVerificationError(String::from(
            "Single Value Product Argument (5.3)"
        )))
    );
}

#[test]
fn product_argument_refuses_a_statement_of_another_shape() {
    let mut rng = StdRng::seed_from_u64(32);
    let (m, n) = (3, 4);
    let (commit_key, matrix, randoms, commits) = product_instance(&mut rng, m, n);
    let parameters = product_argument::Parameters::new(m, n, &commit_key);
    let statement = product_argument::Statement::new(&commits, product_of_entries(&matrix));
    let witness = product_argument::Witness::new(&matrix, &randoms);
    let mut fs_rng = Transcript::from_seed(SEED);
    let proof = product_argument::prover::Prover::new(&parameters, &statement, &witness)
        .prove(&mut rng, &mut fs_rng)
        .unwrap();

    let fewer = commits[..2].to_vec();
    let short = product_argument::Statement::new(&fewer, product_of_entries(&matrix));
    assert_eq!(
        short.is_valid(&parameters),
        Err(CryptoError::InvalidProductArgumentStatement)
    );
    assert_eq!(statement.is_valid(&parameters), Ok(()));
    let mut fs_rng = Transcript::from_seed(SEED);
    assert_eq!(
        proof.verify(&parameters, &short, &mut fs_rng),
        Err(CryptoError::InvalidProductArgumentStatement)
    );
    let mut fs_rng = Transcript::from_seed(SEED);
    assert_eq!(
        product_argument::prover::Prover::new(&parameters, &short, &witness)
            .prove(&mut rng, &mut fs_rng)
            .err(),
        Some(CryptoError::InvalidProductArgumentStatement)
    );
}

#[test]
fn provers_refuse_witnesses_of_another_shape() {
    let mut rng = StdRng::seed_from_u64(33);
    let (m, n) = (3, 4);
    let (commit_key, matrix, randoms, commits) = product_instance(&mut rng, m, n);
    let ragged = vec![matrix[0].clone(), matrix[1].clone()];

    let parameters = product_argument::Parameters::new(m, n, &commit_key);
    let statement = product_argument::Statement::new(&commits, Scalar::one());
    let witness = product_argument::Witness::new(&ragged, &randoms);
    let mut fs_rng = Transcript::from_seed(SEED);
    assert_eq!(
        product_argument::prover::Prover::new(&parameters, &statement, &witness)
            .prove(&mut rng, &mut fs_rng)
            .err(),
        Some(CryptoError::HadamardProductLengthError(2, 3))
    );

    let parameters = hadamard_product::Parameters::new(m, n, &commit_key);
    let statement = hadamard_product::Statement::new(&commits, commits[0]);
    let witness = hadamard_product::Witness::new(&ragged, &randoms, &matrix[0], Scalar::one());
    let mut fs_rng = Transcript::from_seed(SEED);
    assert_eq!(
        hadamard_product::prover::Prover::new(&parameters, &statement, &witness)
            .prove(&mut rng, &mut fs_rng)
            .err(),
        Some(CryptoError::HadamardProductLengthError(2, 3))
    );

    let mapping = YMapping::new(Scalar::one(), n);
    let parameters = zero_value_bilinear_map::Parameters::new(m, n, &commit_key);
    let statement = zero_value_bilinear_map::Statement::new(&commits, &commits, &mapping);
    let witness = zero_value_bilinear_map::Witness::new(&ragged, &randoms, &matrix, &randoms);
    let mut fs_rng = Transcript::from_seed(SEED);
    assert_eq!(
        zero_value_bilinear_map::prover::Prover::new(&parameters, &statement, &witness)
            .prove(&mut rng, &mut fs_rng)
            .err(),
        Some(CryptoError::DiagonalLengthError(2, 3))
    );

    let parameters = single_value_product::Parameters::new(n, &commit_key);
    let statement = single_value_product::Statement::new(&commits[0], Scalar::one());
    let short = matrix[0][..3].to_vec();
    let witness = single_value_product::Witness::new(&short, &randoms[0]);
    let mut fs_rng = Transcript::from_seed(SEED);
    assert_eq!(
        single_value_product::prover::Prover::new(&parameters, &statement, &witness)
            .prove(&mut rng, &mut fs_rng)
            .err(),
        Some(CryptoError::DotProductLengthError(3, 4))
    );
}

#[test]
fn prover_fails_when_the_key_has_too_few_bases() {
    let mut rng = StdRng::seed_from_u64(34);
    let (m, n) = (3, 4);
    let (_, matrix, randoms, commits) = product_instance(&mut rng, m, n);
    let small_key = PedersenCommitment::setup(&mut rng, 2);
    let parameters = product_argument::Parameters::new(m, n, &small_key);
    let statement = product_argument::Statement::new(&commits, Scalar::one());
    let witness = product_argument::Witness::new(&matrix, &randoms);
    let mut fs_rng = Transcript::from_seed(SEED);
    assert_eq!(
        product_argument::prover::Prover::new(&parameters, &statement, &witness)
            .prove(&mut rng, &mut fs_rng)
            .err(),
        Some(CryptoError::CommitmentLengthError(
            String::from("Pedersen"),
            4,
            2
        ))
    );
}

struct Exponentiation {
    parameters: proof_essentials::homomorphic_encryption::el_gamal::Parameters,
    public_key: proof_essentials::group::Point,
    generator: Generator,
    commit_key: proof_essentials::vector_commitment::pedersen::CommitKey,
    ciphers: Vec<Vec<Ciphertext>>,
    exponents: Vec<Vec<Scalar>>,
    blinders: Vec<Scalar>,
    commits: Vec<Commitment>,
    rho: Scalar,
    product: Ciphertext,
}

fn exponentiation_instance(rng: &mut StdRng, m: usize, n: usize) -> Exponentiation {
    let parameters = ElGamal::setup(rng).unwrap();
    let (public_key, _) = ElGamal::keygen(&parameters, rng).unwrap();
    let generator = Generator::rand(rng);
    let commit_key = PedersenCommitment::setup(rng, n);
    let ciphers: Vec<Vec<Ciphertext>> = (0..m)
        .map(|_| {
            (0..n)
                .map(|_| {
                    ElGamal::encrypt(
                        &parameters,
                        &public_key,
                        &Plaintext::rand(rng),
                        &Scalar::rand(rng),
                    )
                    .unwrap()
                })
                .collect()
        })
        .collect();
    let exponents: Vec<Vec<Scalar>> = (0..m).map(|_| sample_vector(rng, n)).collect();
    let blinders = sample_vector(rng, m);
    let commits = (0..m)
        .map(|i| PedersenCommitment::commit(&commit_key, &exponents[i], blinders[i]).unwrap())
        .collect();
    let rho = Scalar::rand(rng);
    let mut product =
        ElGamal::encrypt(&parameters, &public_key, &Plaintext::zero(), &rho).unwrap();
    for i in 0..m {
        product = product.add(&Ciphertext::dot_product(&exponents[i], &ciphers[i]).unwrap());
    }
    Exponentiation {
        parameters,
        public_key,
        generator,
        commit_key,
        ciphers,
        exponents,
        blinders,
        commits,
        rho,
        product,
    }
}

#[test]
fn exponentiation_argument_accepts_the_masked_product_of_the_powers() {
    let mut rng = StdRng::seed_from_u64(35);
    for (m, n) in [(1, 1), (2, 3), (4, 2)] {
        let instance = exponentiation_instance(&mut rng, m, n);
        let parameters = exponentiation_argument::Parameters::new(
            &instance.parameters,
            &instance.public_key,
            &instance.commit_key,
            &instance.generator,
        );
        let statement = exponentiation_argument::Statement::new(
            &instance.ciphers,
            instance.product,
            &instance.commits,
        );
        let witness = exponentiation_argument::Witness::new(
            &instance.exponents,
            &instance.blinders,
            instance.rho,
        );
        let mut fs_rng = Transcript::from_seed(SEED);
        let proof = exponentiation_argument::MultiExponentiation::prove(
            &mut rng,
            &parameters,
            &statement,
            &witness,
            &mut fs_rng,
        )
        .unwrap();
        assert_eq!(proof.commit_b_k.len(), 2 * m + 1);
        assert_eq!(proof.vector_e_k.len(), 2 * m + 1);
        assert_eq!(proof.vector_e_k[m], instance.product);
        let mut fs_rng = Transcript::from_seed(SEED);
        assert_eq!(
            exponentiation_argument::MultiExponentiation::verify(
                &parameters,
                &statement,
                &proof,
                &mut fs_rng
            ),
            Ok(())
        );
    }
}

#[test]
fn exponentiation_argument_rejects_another_product_and_changed_proofs() {
    let mut rng = StdRng::seed_from_u64(36);
    let (m, n) = (2, 3);
    let instance = exponentiation_instance(&mut rng, m, n);
    let parameters = exponentiation_argument::Parameters::new(
        &instance.parameters,
        &instance.public_key,
        &instance.commit_key,
        &instance.generator,
    );
    let statement = exponentiation_argument::Statement::new(
        &instance.ciphers,
        instance.product,
        &instance.commits,
    );
    let witness = exponentiation_argument::Witness::new(
        &instance.exponents,
        &instance.blinders,
        instance.rho,
    );
    let rejection = Err(CryptoError::ProofVerificationError(String::from(
        "Multi Exponentiation",
    )));
    let mut fs_rng = Transcript::from_seed(SEED);
    let proof = exponentiation_argument::prover::Prover::new(&parameters, &statement, &witness)
        .prove(&mut rng, &mut fs_rng)
        .unwrap();

    let other = exponentiation_argument::Statement::new(
        &instance.ciphers,
        instance.product.add(&instance.ciphers[0][0]),
        &instance.commits,
    );
    let mut fs_rng = Transcript::from_seed(SEED);
    assert_eq!(proof.verify(&parameters, &other, &mut fs_rng), rejection);

    let mut changed = proof.clone();
    changed.a_blinded[0] = changed.a_blinded[0].add(&Scalar::one());
    let mut fs_rng = Transcript::from_seed(SEED);
    assert_eq!(changed.verify(&parameters, &statement, &mut fs_rng), rejection);

    let mut changed = proof.clone();
    changed.b_blinded = changed.b_blinded.add(&Scalar::one());
    let mut fs_rng = Transcript::from_seed(SEED);
    assert_eq!(changed.verify(&parameters, &statement, &mut fs_rng), rejection);

    let mut shortened = proof.clone();
    shortened.vector_e_k.truncate(m);
    let mut fs_rng = Transcript::from_seed(SEED);
    assert_eq!(shortened.verify(&parameters, &statement, &mut fs_rng), rejection);

    let mut shortened = proof.clone();
    shortened.commit_b_k.pop();
    let mut fs_rng = Transcript::from_seed(SEED);
    assert_eq!(shortened.verify(&parameters, &statement, &mut fs_rng), rejection);

    let fewer = instance.commits[..1].to_vec();
    let short =
        exponentiation_argument::Statement::new(&instance.ciphers, instance.product, &fewer);
    let mut fs_rng = Transcript::from_seed(SEED);
    assert_eq!(
        proof.verify(&parameters, &short, &mut fs_rng),
        Err(CryptoError::DotProductLengthError(2, 1))
    );

    let mut fs_rng = Transcript::from_seed(b"Initialised with another input");
    assert_eq!(proof.verify(&parameters, &statement, &mut fs_rng), rejection);

    let nothing: Vec<Vec<Ciphertext>> = Vec::new();
    let empty =
        exponentiation_argument::Statement::new(&nothing, instance.product, &instance.commits);
    let mut fs_rng = Transcript::from_seed(SEED);
    assert_eq!(proof.verify(&parameters, &empty, &mut fs_rng), rejection);
}

#[test]
fn exponentiation_prover_refuses_exponents_of_another_shape() {
    let mut rng = StdRng::seed_from_u64(37);
    let (m, n) = (2, 3);
    let instance = exponentiation_instance(&mut rng, m, n);
    let parameters = exponentiation_argument::Parameters::new(
        &instance.parameters,
        &instance.public_key,
        &instance.commit_key,
        &instance.generator,
    );
    let statement = exponentiation_argument::Statement::new(
        &instance.ciphers,
        instance.product,
        &instance.commits,
    );
    let fewer = vec![instance.exponents[0].clone()];
    let witness =
        exponentiation_argument::Witness::new(&fewer, &instance.blinders, instance.rho);
    let mut fs_rng = Transcript::from_seed(SEED);
    assert_eq!(
        exponentiation_argument::prover::Prover::new(&parameters, &statement, &witness)
            .prove(&mut rng, &mut fs_rng)
            .err(),
        Some(CryptoError::DiagonalLengthError(1, 2))
    );
}
