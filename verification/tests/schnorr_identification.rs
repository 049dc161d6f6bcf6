use proof_essentials::error::CryptoError;
use proof_essentials::field::Scalar;
use proof_essentials::group::Point;
use proof_essentials::zkp::proofs::schnorr_identification::{Parameters, SchnorrIdentification};
use proof_essentials::zkp::transcript::Transcript;
use proof_essentials::zkp::ArgumentOfKnowledge;
use rand::rngs::StdRng;
use rand::SeedableRng;

type Schnorr = SchnorrIdentification;
type FS = Transcript;

fn setup(rng: &mut StdRng) -> Result<Parameters, CryptoError> {
    Ok(Point::rand(rng))
}

fn test_template() -> (StdRng, Parameters, Scalar, Point) {
    let mut rng = StdRng::from_entropy();

    let crs = setup(&mut rng).unwrap();

    let sk = Scalar::rand(&mut rng);
    let pk = crs.mul(&sk);

    (rng, crs, sk, pk)
}

#[test]
fn test_honest_prover() {
    let (mut rng, crs, sk, pk) = test_template();

    let mut fs_rng = FS::from_seed(b"Initialised with some input");
    let proof = Schnorr::prove(&mut rng, &crs, &pk, &sk, &mut fs_rng).unwrap();

    let mut fs_rng = FS::from_seed(b"Initialised with some input");
    assert_eq!(Schnorr::verify(&crs, &pk, &proof, &mut fs_rng), Ok(()));
}

#[test]
fn test_malicious_prover() {
    let (mut rng, crs, _, pk) = test_template();

    let another_scalar = Scalar::rand(&mut rng);
    let mut fs_rng = FS::from_seed(b"Initialised with some input");

    let invalid_proof = Schnorr::prove(&mut rng, &crs, &pk, &another_scalar, &mut fs_rng).unwrap();
    let mut fs_rng = FS::from_seed(b"Initialised with some input");

    assert_eq!(
        Schnorr::verify(&crs, &pk, &invalid_proof, &mut fs_rng),
        Err(CryptoError::ProofVerificationError(String::from(
            "Schnorr Identification"
        )))
    );
}

#[test]
fn schnorr_proof_is_rejected_under_another_seed() {
    let (mut rng, crs, sk, pk) = test_template();

    let mut fs_rng = FS::from_seed(b"Initialised with some input");
    let proof = Schnorr::prove(&mut rng, &crs, &pk, &sk, &mut fs_rng).unwrap();

    let mut fs_rng = FS::from_seed(b"Initialised with another input");
    assert_eq!(
        Schnorr::verify(&crs, &pk, &proof, &mut fs_rng),
        Err(CryptoError::ProofVerificationError(String::from(
            "Schnorr Identification"
        )))
    );
}

#[test]
fn schnorr_proof_with_a_changed_opening_is_rejected() {
    let (mut rng, crs, sk, pk) = test_template();

    let mut fs_rng = FS::from_seed(b"Initialised with some input");
    let mut proof = Schnorr::prove(&mut rng, &crs, &pk, &sk, &mut fs_rng).unwrap();
    proof.opening = proof.opening.add(&Scalar::one());

    let mut fs_rng = FS::from_seed(b"Initialised with some input");
    assert_eq!(
        Schnorr::verify(&crs, &pk, &proof, &mut fs_rng),
        Err(CryptoError::ProofVerificationError(String::from(
            "Schnorr Identification"
        )))
    );
}
