use proof_essentials::error::CryptoError;
use proof_essentials::field::Scalar;
use proof_essentials::homomorphic_encryption::el_gamal::{
    Ciphertext, ElGamal, Generator, Parameters as EncryptParameters, Plaintext, PublicKey,
};
use proof_essentials::utils::permutation::Permutation;
use proof_essentials::utils::random::sample_vector;
use proof_essentials::vector_commitment::pedersen::{CommitKey, PedersenCommitment};
use proof_essentials::zkp::arguments::shuffle::prover::{Prover, Randomness};
use proof_essentials::zkp::arguments::shuffle::verification::Proof;
use proof_essentials::zkp::arguments::shuffle::{Parameters, Statement, Witness};
use proof_essentials::zkp::transcript::Transcript;
use rand::rngs::StdRng;
use rand::SeedableRng;

const SEED: &[u8] = b"Initialised with some input";

struct Setup {
    encrypt_parameters: EncryptParameters,
    public_key: PublicKey,
    generator: Generator,
    commit_key: CommitKey,
}

fn setup(rng: &mut StdRng, n: usize) -> Setup {
    let encrypt_parameters = ElGamal::setup(rng).unwrap();
    let (public_key, _) = ElGamal::keygen(&encrypt_parameters, rng).unwrap();
    let generator = Generator::rand(rng);
    let commit_key = PedersenCommitment::setup(rng, n);
    Setup {
        encrypt_parameters,
        public_key,
        generator,
        commit_key,
    }
}

fn encryptions_of_multiples(setup: &Setup, count: usize) -> Vec<Ciphertext> {
    (1..=count)
        .map(|i| {
            let message = setup.generator.mul(&Scalar::from_u64(i as u64));
            ElGamal::encrypt(
                &setup.encrypt_parameters,
                &setup.public_key,
                &message,
                &Scalar::zero(),
            )
            .unwrap()
        })
        .collect()
}

fn shuffle(
    setup: &Setup,
    ciphers: &Vec<Ciphertext>,
    permutation: &Permutation,
    masking_factors: &[Scalar],
) -> Vec<Ciphertext> {
    permutation
        .permute_array(ciphers)
        .iter()
        .zip(masking_factors.iter())
        .map(|(cipher, masking_factor)| {
            let masking_cipher = ElGamal::encrypt(
                &setup.encrypt_parameters,
                &setup.public_key,
                &Plaintext::zero(),
                masking_factor,
            )
            .unwrap();
            cipher.add(&masking_cipher)
        })
        .collect()
}

fn prove(
    rng: &mut StdRng,
    setup: &Setup,
    ciphers: &Vec<Ciphertext>,
    shuffled: &Vec<Ciphertext>,
    (m, n): (usize, usize),
    permutation: &Permutation,
    masking_factors: &Vec<Scalar>,
) -> Proof {
    let parameters = Parameters::new(
        &setup.encrypt_parameters,
        &setup.public_key,
        &setup.commit_key,
        &setup.generator,
    );
    let statement = Statement::new(ciphers, shuffled, m, n);
    let witness = Witness::new(permutation, masking_factors);
    let mut fs_rng = Transcript::from_seed(SEED);
    Prover::new(&parameters, &statement, &witness)
        .prove(rng, &mut fs_rng)
        .unwrap()
}

fn verify(
    setup: &Setup,
    ciphers: &Vec<Ciphertext>,
    shuffled: &Vec<Ciphertext>,
    (m, n): (usize, usize),
    proof: &Proof,
) -> Result<(), CryptoError> {
    let parameters = Parameters::new(
        &setup.encrypt_parameters,
        &setup.public_key,
        &setup.commit_key,
        &setup.generator,
    );
    let statement = Statement::new(ciphers, shuffled, m, n);
    let mut fs_rng = Transcript::from_seed(SEED);
    proof.verify(&parameters, &statement, &mut fs_rng)
}

#[test]
fn identity_shuffle_without_masking_is_accepted() {
    let mut rng = StdRng::seed_from_u64(1);
    let (m, n) = (2, 3);
    let setup = setup(&mut rng, n);
    let ciphers = encryptions_of_multiples(&setup, 6);
    let permutation = Permutation::identity(6);
    let masking_factors = vec![Scalar::zero(); 6];
    let shuffled = shuffle(&setup, &ciphers, &permutation, &masking_factors);
    assert_eq!(shuffled, ciphers);

    let parameters = Parameters::new(
        &setup.encrypt_parameters,
        &setup.public_key,
        &setup.commit_key,
        &setup.generator,
    );
    let statement = Statement::new(&ciphers, &shuffled, m, n);
    let witness = Witness::new(&permutation, &masking_factors);
    let randomness = Randomness::sample(&mut rng, m, n);
    let mut fs_rng = Transcript::from_seed(SEED);
    let proof = Prover::new(&parameters, &statement, &witness)
        .prove_with(&randomness, &mut fs_rng)
        .unwrap();

    assert_eq!(verify(&setup, &ciphers, &shuffled, (m, n), &proof), Ok(()));

    let rows: Vec<Vec<Scalar>> = vec![
        (1..=3).map(Scalar::from_u64).collect(),
        (4..=6).map(Scalar::from_u64).collect(),
    ];
    for i in 0..m {
        let expected =
            PedersenCommitment::commit(&setup.commit_key, &rows[i], randomness.r[i]).unwrap();
        assert_eq!(proof.a_commits[i], expected);
    }
}

#[test]
fn reversing_shuffle_is_accepted_and_a_changed_masking_factor_rejected() {
    let mut rng = StdRng::seed_from_u64(2);
    let (m, n) = (2, 3);
    let setup = setup(&mut rng, n);
    let ciphers = encryptions_of_multiples(&setup, 6);
    let permutation = Permutation::from_mapping(vec![5, 4, 3, 2, 1, 0]).unwrap();
    let mut masking_factors = sample_vector(&mut rng, 6);
    let shuffled = shuffle(&setup, &ciphers, &permutation, &masking_factors);

    let proof = prove(
        &mut rng,
        &setup,
        &ciphers,
        &shuffled,
        (m, n),
        &permutation,
        &masking_factors,
    );
    assert_eq!(verify(&setup, &ciphers, &shuffled, (m, n), &proof), Ok(()));

    masking_factors[2] = masking_factors[2].add(&Scalar::one());
    let proof = prove(
        &mut rng,
        &setup,
        &ciphers,
        &shuffled,
        (m, n),
        &permutation,
        &masking_factors,
    );
    assert!(matches!(
        verify(&setup, &ciphers, &shuffled, (m, n), &proof),
        Err(CryptoError::ProofVerificationError(_))
    ));
}

#[test]
fn swapping_two_shuffled_ciphertexts_is_rejected() {
    let mut rng = StdRng::seed_from_u64(3);
    let (m, n) = (2, 3);
    let setup = setup(&mut rng, n);
    let ciphers = encryptions_of_multiples(&setup, 6);
    let permutation = Permutation::new(&mut rng, 6);
    let masking_factors = sample_vector(&mut rng, 6);
    let mut shuffled = shuffle(&setup, &ciphers, &permutation, &masking_factors);

    let proof = prove(
        &mut rng,
        &setup,
        &ciphers,
        &shuffled,
        (m, n),
        &permutation,
        &masking_factors,
    );
    shuffled.swap(0, 1);
    assert!(matches!(
        verify(&setup, &ciphers, &shuffled, (m, n), &proof),
        Err(CryptoError::ProofVerificationError(_))
    ));
}

#[test]
fn changed_multi_exponentiation_proof_is_rejected_by_that_layer() {
    let mut rng = StdRng::seed_from_u64(5);
    let (m, n) = (2, 3);
    let setup = setup(&mut rng, n);
    let ciphers = encryptions_of_multiples(&setup, 6);
    let permutation = Permutation::new(&mut rng, 6);
    let masking_factors = sample_vector(&mut rng, 6);
    let shuffled = shuffle(&setup, &ciphers, &permutation, &masking_factors);

    let mut proof = prove(
        &mut rng,
        &setup,
        &ciphers,
        &shuffled,
        (m, n),
        &permutation,
        &masking_factors,
    );
    proof.multi_exp_proof.tau_blinded = proof.multi_exp_proof.tau_blinded.add(&Scalar::one());
    assert_eq!(
        verify(&setup, &ciphers, &shuffled, (m, n), &proof),
        Err(CryptoError::ProofVerificationError(String::from(
            "Multi Exponentiation"
        )))
    );
}

fn deck_round_trip(m: usize, n: usize, seed: u64) {
    let mut rng = StdRng::seed_from_u64(seed);
    let setup = setup(&mut rng, n);
    let ciphers: Vec<Ciphertext> = (0..m * n)
        .map(|_| {
            ElGamal::encrypt(
                &setup.encrypt_parameters,
                &setup.public_key,
                &Plaintext::rand(&mut rng),
                &Scalar::rand(&mut rng),
            )
            .unwrap()
        })
        .collect();
    let permutation = Permutation::new(&mut rng, m * n);
    let masking_factors = sample_vector(&mut rng, m * n);
    let shuffled = shuffle(&setup, &ciphers, &permutation, &masking_factors);
    let proof = prove(
        &mut rng,
        &setup,
        &ciphers,
        &shuffled,
        (m, n),
        &permutation,
        &masking_factors,
    );
    assert_eq!(verify(&setup, &ciphers, &shuffled, (m, n), &proof), Ok(()));
}

#[test]
fn deck_of_52_in_4_rows_of_13() {
    deck_round_trip(4, 13, 10);
}

#[test]
fn deck_of_52_in_13_rows_of_4() {
    deck_round_trip(13, 4, 11);
}

#[test]
fn deck_of_52_in_2_rows_of_26() {
    deck_round_trip(2, 26, 12);
}

#[test]
fn deck_of_52_in_26_rows_of_2() {
    deck_round_trip(26, 2, 13);
}

#[test]
fn invalid_statement_is_refused() {
    let mut rng = StdRng::seed_from_u64(4);
    let (m, n) = (2, 3);
    let setup = setup(&mut rng, n);
    let ciphers = encryptions_of_multiples(&setup, 6);
    let permutation = Permutation::identity(6);
    let masking_factors = vec![Scalar::zero(); 6];
    let shuffled = shuffle(&setup, &ciphers, &permutation, &masking_factors);
    let proof = prove(
        &mut rng,
        &setup,
        &ciphers,
        &shuffled,
        (m, n),
        &permutation,
        &masking_factors,
    );
    assert_eq!(
        verify(&setup, &ciphers, &shuffled, (3, 3), &proof),
        Err(CryptoError::InvalidShuffleStatement)
    );
}

#[test]
fn shuffle_prover_refuses_a_witness_of_another_size() {
    let mut rng = StdRng::seed_from_u64(6);
    let (m, n) = (2, 3);
    let setup = setup(&mut rng, n);
    let ciphers = encryptions_of_multiples(&setup, 6);
    let permutation = Permutation::identity(6);
    let masking_factors = vec![Scalar::zero(); 6];
    let shuffled = shuffle(&setup, &ciphers, &permutation, &masking_factors);
    let parameters = Parameters::new(
        &setup.encrypt_parameters,
        &setup.public_key,
        &setup.commit_key,
        &setup.generator,
    );
    let statement = Statement::new(&ciphers, &shuffled, m, n);
    assert_eq!(statement.is_valid(), Ok(()));

    let smaller = Permutation::identity(5);
    let witness = Witness::new(&smaller, &masking_factors);
    let mut fs_rng = Transcript::from_seed(SEED);
    assert_eq!(
        Prover::new(&parameters, &statement, &witness)
            .prove(&mut rng, &mut fs_rng)
            .err(),
        Some(CryptoError::VectorCastingError(5, 2, 3))
    );

    let fewer = vec![Scalar::zero(); 4];
    let witness = Witness::new(&permutation, &fewer);
    let mut fs_rng = Transcript::from_seed(SEED);
    assert_eq!(
        Prover::new(&parameters, &statement, &witness)
            .prove(&mut rng, &mut fs_rng)
            .err(),
        Some(CryptoError::DotProductLengthError(4, 6))
    );

    let nothing: Vec<Ciphertext> = Vec::new();
    let empty = Statement::new(&nothing, &nothing, 0, 0);
    assert_eq!(empty.is_valid(), Err(CryptoError::InvalidShuffleStatement));
    let witness = Witness::new(&permutation, &masking_factors);
    let mut fs_rng = Transcript::from_seed(SEED);
    assert_eq!(
        Prover::new(&parameters, &empty, &witness)
            .prove(&mut rng, &mut fs_rng)
            .err(),
        Some(CryptoError::InvalidShuffleStatement)
    );
}

#[test]
fn shuffle_proof_is_rejected_under_another_seed_and_for_other_inputs() {
    let mut rng = StdRng::seed_from_u64(7);
    let (m, n) = (2, 3);
    let setup = setup(&mut rng, n);
    let ciphers = encryptions_of_multiples(&setup, 6);
    let permutation = Permutation::new(&mut rng, 6);
    let masking_factors = sample_vector(&mut rng, 6);
    let shuffled = shuffle(&setup, &ciphers, &permutation, &masking_factors);
    let proof = prove(
        &mut rng,
        &setup,
        &ciphers,
        &shuffled,
        (m, n),
        &permutation,
        &masking_factors,
    );

    let parameters = Parameters::new(
        &setup.encrypt_parameters,
        &setup.public_key,
        &setup.commit_key,
        &setup.generator,
    );
    let statement = Statement::new(&ciphers, &shuffled, m, n);
    let mut fs_rng = Transcript::from_seed(b"Initialised with another input");
    assert!(matches!(
        proof.verify(&parameters, &statement, &mut fs_rng),
        Err(CryptoError::ProofVerificationError(_))
    ));

    let mut other_inputs = ciphers.clone();
    other_inputs[3] = other_inputs[3].add(&other_inputs[2]);
    assert!(matches!(
        verify(&setup, &other_inputs, &shuffled, (m, n), &proof),
        Err(CryptoError::ProofVerificationError(_))
    ));

    let mut changed = proof.clone();
    changed.a_commits.swap(0, 1);
    assert!(matches!(
        verify(&setup, &ciphers, &shuffled, (m, n), &changed),
        Err(CryptoError::ProofVerificationError(_))
    ));
}
