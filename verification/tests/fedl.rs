use proof_essentials::error::CryptoError;
use proof_essentials::group::Point;
use proof_essentials::vuf::fedl::{try_and_increment, Parameters, FEDL};
use proof_essentials::vuf::VerifiableUnpredictableFunction;
use rand::rngs::StdRng;
use rand::SeedableRng;

type AffinePoint = Point;

fn setup(rng: &mut StdRng) -> AffinePoint {
    Point::rand(rng)
}

fn test_template() -> (StdRng, AffinePoint) {
    let mut rng = StdRng::from_entropy();
    let g = setup(&mut rng);

    (rng, g)
}

#[test]
fn test_signing_and_uniqueness() {
    let (mut rng, g) = test_template();

    let pp = Parameters { g };

    let keypair = FEDL::keygen(&pp, &mut rng).unwrap();

    let message = b"MESSAGE!!!";

    let signature =
        FEDL::sign(&pp, &mut rng, (&keypair.0, &keypair.1), message.as_slice()).unwrap();
    FEDL::verify(&pp, &keypair.0, message.as_slice(), &signature).unwrap();
    let signature2 =
        FEDL::sign(&pp, &mut rng, (&keypair.0, &keypair.1), message.as_slice()).unwrap();
    FEDL::verify(&pp, &keypair.0, message.as_slice(), &signature2).unwrap();
    assert_eq!(
        FEDL::extract_token(&signature),
        FEDL::extract_token(&signature2),
    );
}

#[test]
#[should_panic]
fn test_bad_signing() {
    let (mut rng, g) = test_template();

    let pp = Parameters { g };

    let keypair = FEDL::keygen(&pp, &mut rng).unwrap();
    let keypair2 = FEDL::keygen(&pp, &mut rng).unwrap();

    let message = b"MESSAGE!!!";

    let signature =
        FEDL::sign(&pp, &mut rng, (&keypair.0, &keypair.1), message.as_slice()).unwrap();
    FEDL::verify(&pp, &keypair2.0, message.as_slice(), &signature).unwrap();
}

#[test]
fn signature_under_another_key_is_rejected() {
    let (mut rng, g) = test_template();
    let pp = Parameters { g };
    let keypair = FEDL::keygen(&pp, &mut rng).unwrap();
    let keypair2 = FEDL::keygen(&pp, &mut rng).unwrap();
    let message = b"MESSAGE!!!";

    let signature =
        FEDL::sign(&pp, &mut rng, (&keypair.0, &keypair.1), message.as_slice()).unwrap();
    assert_eq!(
        FEDL::verify(&pp, &keypair2.0, message.as_slice(), &signature),
        Err(CryptoError::ProofVerificationError(String::from(
            "Chaum-Pedersen"
        )))
    );
}

#[test]
fn token_is_the_hash_of_the_message_times_the_key() {
    let (mut rng, g) = test_template();
    let pp = Parameters { g };
    let keypair = FEDL::keygen(&pp, &mut rng).unwrap();
    let message = b"MESSAGE!!!";

    let signature =
        FEDL::sign(&pp, &mut rng, (&keypair.0, &keypair.1), message.as_slice()).unwrap();
    let hash = try_and_increment(message.as_slice()).unwrap();
    assert_eq!(FEDL::extract_token(&signature), Ok(hash.mul(&keypair.1)));
}

#[test]
fn hashing_to_the_curve_depends_on_the_message() {
    let first = try_and_increment(b"MESSAGE!!!".as_slice()).unwrap();
    let again = try_and_increment(b"MESSAGE!!!".as_slice()).unwrap();
    let other = try_and_increment(b"MESSAGE???".as_slice()).unwrap();
    assert_eq!(first, again);
    assert_ne!(first, other);
}
