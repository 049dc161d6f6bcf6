use proof_essentials::error::CryptoError;
use proof_essentials::field::Scalar;
use proof_essentials::group::Point;
use proof_essentials::homomorphic_encryption::el_gamal::{
    Ciphertext, ElGamal, Generator, Plaintext,
};
use proof_essentials::utils::random::sample_vector;
use proof_essentials::vector_commitment::pedersen::{CommitKey, Commitment, PedersenCommitment};
use rand::rngs::StdRng;
use rand::SeedableRng;

#[test]
fn commitment_is_the_combination_of_the_bases() {
    let mut rng = StdRng::seed_from_u64(1);
    let g: Vec<Point> = (0..3).map(|_| Point::rand(&mut rng)).collect();
    let h = Point::rand(&mut rng);
    let commit_key = CommitKey::new(g.clone(), h);
    assert_eq!(commit_key.len(), 3);
    let x = vec![Scalar::from_u64(2), Scalar::from_u64(3)];
    let r = Scalar::from_u64(5);
    let expected = h.mul(&r).add(&g[0].mul(&x[0])).add(&g[1].mul(&x[1]));
    assert_eq!(
        PedersenCommitment::commit(&commit_key, &x, r),
        Ok(Commitment(expected))
    );
    assert_eq!(
        PedersenCommitment::commit(&commit_key, &Vec::new(), Scalar::zero()),
        Ok(Commitment::zero())
    );
}

#[test]
fn commitment_to_more_values_than_bases_fails() {
    let mut rng = StdRng::seed_from_u64(2);
    let commit_key = PedersenCommitment::setup(&mut rng, 3);
    let x = sample_vector(&mut rng, 4);
    assert_eq!(
        PedersenCommitment::commit(&commit_key, &x, Scalar::one()),
        Err(CryptoError::CommitmentLengthError(
            String::from("Pedersen"),
            4,
            3
        ))
    );
}

#[test]
fn commitments_are_homomorphic() {
    let mut rng = StdRng::seed_from_u64(3);
    let commit_key = PedersenCommitment::setup(&mut rng, 5);
    let x = sample_vector(&mut rng, 5);
    let y = sample_vector(&mut rng, 5);
    let r = Scalar::rand(&mut rng);
    let s = Scalar::rand(&mut rng);
    let alpha = Scalar::rand(&mut rng);
    let cx = PedersenCommitment::commit(&commit_key, &x, r).unwrap();
    let cy = PedersenCommitment::commit(&commit_key, &y, s).unwrap();

    let sum: Vec<Scalar> = x.iter().zip(y.iter()).map(|(a, b)| a.add(b)).collect();
    assert_eq!(
        cx.add(&cy),
        PedersenCommitment::commit(&commit_key, &sum, r.add(&s)).unwrap()
    );

    let scaled: Vec<Scalar> = x.iter().map(|a| alpha.mul(a)).collect();
    assert_eq!(
        cx.mul(&alpha),
        PedersenCommitment::commit(&commit_key, &scaled, alpha.mul(&r)).unwrap()
    );
    assert!(cx.equals(&cx));
    assert!(!cx.equals(&cy));
}

#[test]
fn dot_product_of_commitments_adds_their_multiples() {
    let mut rng = StdRng::seed_from_u64(4);
    let commitments: Vec<Commitment> = (0..3).map(|_| Commitment(Point::rand(&mut rng))).collect();
    let scalars = sample_vector(&mut rng, 3);
    let expected = commitments[0]
        .mul(&scalars[0])
        .add(&commitments[1].mul(&scalars[1]))
        .add(&commitments[2].mul(&scalars[2]));
    assert_eq!(Commitment::dot_product(&scalars, &commitments), Ok(expected));
    assert_eq!(
        Commitment::dot_product(&scalars[..2].to_vec(), &commitments),
        Err(CryptoError::DotProductLengthError(2, 3))
    );
}

#[test]
fn encryption_is_undone_by_decryption() {
    let mut rng = StdRng::seed_from_u64(5);
    let parameters = ElGamal::setup(&mut rng).unwrap();
    let (public_key, secret_key) = ElGamal::keygen(&parameters, &mut rng).unwrap();
    assert_eq!(public_key, parameters.generator.mul(&secret_key));
    let message = Plaintext::rand(&mut rng);
    let randomness = Scalar::rand(&mut rng);
    let cipher = ElGamal::encrypt(&parameters, &public_key, &message, &randomness).unwrap();
    assert_eq!(
        cipher,
        Ciphertext(
            parameters.generator.mul(&randomness),
            message.0.add(&public_key.mul(&randomness))
        )
    );
    assert_eq!(
        ElGamal::decrypt(&parameters, &secret_key, &cipher),
        Ok(message)
    );
    let other = Scalar::rand(&mut rng);
    assert_ne!(ElGamal::decrypt(&parameters, &other, &cipher), Ok(message));
}

#[test]
fn ciphertexts_are_homomorphic() {
    let mut rng = StdRng::seed_from_u64(6);
    let parameters = ElGamal::setup(&mut rng).unwrap();
    let (public_key, secret_key) = ElGamal::keygen(&parameters, &mut rng).unwrap();
    let generator = Generator::rand(&mut rng);
    let (a, b) = (Scalar::from_u64(20), Scalar::from_u64(22));
    let (r, s) = (Scalar::rand(&mut rng), Scalar::rand(&mut rng));
    let first = ElGamal::encrypt(&parameters, &public_key, &generator.mul(&a), &r).unwrap();
    let second = ElGamal::encrypt(&parameters, &public_key, &generator.mul(&b), &s).unwrap();

    let sum = first.add(&second);
    assert_eq!(
        sum,
        ElGamal::encrypt(&parameters, &public_key, &generator.mul(&a.add(&b)), &r.add(&s)).unwrap()
    );
    assert_eq!(
        ElGamal::decrypt(&parameters, &secret_key, &sum),
        Ok(generator.mul(&Scalar::from_u64(42)))
    );
    let factor = Scalar::from_u64(3);
    assert_eq!(
        first.mul(&factor),
        ElGamal::encrypt(&parameters, &public_key, &generator.mul(&a.mul(&factor)), &r.mul(&factor))
            .unwrap()
    );
    assert_eq!(first.add(&Ciphertext::zero()), first);
    assert!(first.equals(&first));
    assert!(!first.equals(&second));
    assert_eq!(
        Ciphertext::dot_product(&vec![factor, Scalar::one()], &vec![first, second]),
        Ok(first.mul(&factor).add(&second))
    );
    assert_eq!(
        Ciphertext::dot_product(&vec![factor], &vec![first, second]),
        Err(CryptoError::DotProductLengthError(1, 2))
    );
    assert!(Plaintext::zero().equals(&Plaintext(Point::zero())));
}
