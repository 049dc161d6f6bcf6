use proof_essentials::error::CryptoError;
use proof_essentials::field::Scalar;
use proof_essentials::group::Point;
use proof_essentials::zkp::proofs::chaum_pedersen_dl_equality::{
    DLEquality, Parameters, Statement,
};
use proof_essentials::zkp::transcript::Transcript;
use proof_essentials::zkp::ArgumentOfKnowledge;
use rand::rngs::StdRng;
use rand::SeedableRng;

type AffinePoint = Point;
type FS = Transcript;

fn setup(rng: &mut StdRng) -> (AffinePoint, AffinePoint) {
    (Point::rand(rng), Point::rand(rng))
}

fn test_template() -> (StdRng, AffinePoint, AffinePoint, Scalar) {
    let mut rng = StdRng::from_entropy();
    let (g, h) = setup(&mut rng);
    let secret = Scalar::rand(&mut rng);

    (rng, g, h, secret)
}

#[test]
fn test_test_honest_prover() {
    let (mut rng, g, h, secret) = test_template();

    let point_a = g.mul(&secret);
    let point_b = h.mul(&secret);

    let crs = Parameters::new(&g, &h);
    let statement = Statement::new(&point_a, &point_b);
    let witness = &secret;

    let mut fs_rng = FS::from_seed(b"Initialised with some input");
    let proof = DLEquality::prove(&mut rng, &crs, &statement, witness, &mut fs_rng).unwrap();

    let mut fs_rng = FS::from_seed(b"Initialised with some input");
    assert_eq!(
        DLEquality::verify(&crs, &statement, &proof, &mut fs_rng),
        Ok(())
    );

    assert_ne! {point_a, point_b};
}

#[test]
fn test_test_malicious_prover() {
    let (mut rng, g, h, secret) = test_template();

    let point_a = g.mul(&secret);
    let point_b = h.mul(&secret);

    let another_scalar = Scalar::rand(&mut rng);

    let crs = Parameters::new(&g, &h);
    let statement = Statement::new(&point_a, &point_b);

    let wrong_witness = &another_scalar;

    let mut fs_rng = FS::from_seed(b"Initialised with some input");
    let invalid_proof =
        DLEquality::prove(&mut rng, &crs, &statement, wrong_witness, &mut fs_rng).unwrap();

    let mut fs_rng = FS::from_seed(b"Initialised with some input");
    assert_eq!(
        DLEquality::verify(&crs, &statement, &invalid_proof, &mut fs_rng),
        Err(CryptoError::ProofVerificationError(String::from(
            "Chaum-Pedersen"
        )))
    );
}

#[test]
fn equality_proof_for_a_wrong_second_point_is_rejected() {
    let (mut rng, g, h, secret) = test_template();

    let point_a = g.mul(&secret);
    let wrong_b = h.mul(&secret.add(&Scalar::one()));

    let crs = Parameters::new(&g, &h);
    let statement = Statement::new(&point_a, &wrong_b);

    let mut fs_rng = FS::from_seed(b"Initialised with some input");
    let proof = DLEquality::prove(&mut rng, &crs, &statement, &secret, &mut fs_rng).unwrap();

    let mut fs_rng = FS::from_seed(b"Initialised with some input");
    assert_eq!(
        DLEquality::verify(&crs, &statement, &proof, &mut fs_rng),
        Err(CryptoError::ProofVerificationError(String::from(
            "Chaum-Pedersen"
        )))
    );
}
