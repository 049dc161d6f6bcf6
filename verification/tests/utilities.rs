use proof_essentials::error::CryptoError;
use proof_essentials::field::Scalar;
use proof_essentials::utils::permutation::Permutation;
use proof_essentials::utils::random::sample_vector;
use proof_essentials::utils::vector_arithmetic::{dot_product, hadamard_product, reshape};
use proof_essentials::zkp::arguments::scalar_powers;
use proof_essentials::zkp::transcript::Transcript;
use rand::rngs::StdRng;
use rand::SeedableRng;

fn scalars(values: &[u64]) -> Vec<Scalar> {
    values.iter().map(|v| Scalar::from_u64(*v)).collect()
}

#[test]
fn scalar_powers_start_at_one_and_end_at_the_requested_power() {
    assert_eq!(
        scalar_powers(Scalar::from_u64(2), 5),
        scalars(&[1, 2, 4, 8, 16, 32])
    );
    assert_eq!(scalar_powers(Scalar::from_u64(7), 0), scalars(&[1]));
    assert_eq!(scalar_powers(Scalar::zero(), 2), scalars(&[1, 0, 0]));
}

#[test]
fn dot_product_adds_the_products_of_the_entries() {
    assert_eq!(
        dot_product(&scalars(&[1, 2, 3]), &scalars(&[4, 5, 6])),
        Ok(Scalar::from_u64(32))
    );
    assert_eq!(dot_product(&Vec::new(), &Vec::new()), Ok(Scalar::zero()));
    assert_eq!(
        dot_product(&scalars(&[1, 2, 3]), &scalars(&[4, 5])),
        Err(CryptoError::DotProductLengthError(3, 2))
    );
}

#[test]
fn hadamard_product_multiplies_entry_by_entry() {
    assert_eq!(
        hadamard_product(&scalars(&[1, 2, 3]), &scalars(&[4, 5, 6])),
        Ok(scalars(&[4, 10, 18]))
    );
    assert_eq!(
        hadamard_product(&scalars(&[1]), &scalars(&[4, 5, 6])),
        Err(CryptoError::HadamardProductLengthError(1, 3))
    );
}

#[test]
fn reshape_fills_the_matrix_row_by_row() {
    let v = scalars(&[1, 2, 3, 4, 5, 6]);
    assert_eq!(
        reshape(&v, 2, 3),
        Ok(vec![scalars(&[1, 2, 3]), scalars(&[4, 5, 6])])
    );
    assert_eq!(
        reshape(&v, 3, 2),
        Ok(vec![scalars(&[1, 2]), scalars(&[3, 4]), scalars(&[5, 6])])
    );
    assert_eq!(
        reshape(&v, 4, 2),
        Err(CryptoError::VectorCastingError(6, 4, 2))
    );
    assert_eq!(
        reshape(&v, 0, 0),
        Err(CryptoError::VectorCastingError(6, 0, 0))
    );
}

#[test]
fn sample_vector_draws_the_requested_number_of_scalars() {
    let mut rng = StdRng::seed_from_u64(5);
    let v = sample_vector(&mut rng, 7);
    assert_eq!(v.len(), 7);
    assert_ne!(v[0], v[1]);
    assert_eq!(sample_vector(&mut rng, 0).len(), 0);
}

#[test]
fn permutation_moves_entry_of_its_index_into_place() {
    let permutation = Permutation::from_mapping(vec![2, 0, 3, 1]).unwrap();
    assert_eq!(permutation.size(), 4);
    assert_eq!(permutation.get(0), 2);
    assert_eq!(
        permutation.permute_array(&vec![10u64, 11, 12, 13]),
        vec![12, 10, 13, 11]
    );
    assert_eq!(
        Permutation::identity(3).permute_array(&vec!['a', 'b', 'c']),
        vec!['a', 'b', 'c']
    );
}

#[test]
fn mappings_that_repeat_or_leave_the_range_are_no_permutations() {
    assert!(Permutation::from_mapping(vec![0, 1, 1]).is_none());
    assert!(Permutation::from_mapping(vec![0, 3, 1]).is_none());
    assert!(Permutation::from_mapping(vec![]).is_some());
    assert!(Permutation::from_mapping(vec![0]).is_some());
}

#[test]
fn random_permutation_holds_every_index_once() {
    let mut rng = StdRng::seed_from_u64(6);
    let permutation = Permutation::new(&mut rng, 52);
    let identity: Vec<usize> = (0..52).collect();
    let mut image = permutation.permute_array(&identity);
    assert_ne!(image, identity);
    image.sort();
    assert_eq!(image, identity);
}

#[test]
fn transcript_yields_the_same_challenges_for_the_same_history() {
    let mut first = Transcript::from_seed(b"seed");
    let mut second = Transcript::from_seed(b"seed");
    first.absorb(b"message");
    second.absorb(b"message");
    let a = first.squeeze_scalar();
    assert_eq!(a, second.squeeze_scalar());
    let b = first.squeeze_scalar();
    assert_ne!(a, b);
    assert_eq!(b, second.squeeze_scalar());
}

#[test]
fn transcript_yields_other_challenges_for_another_history() {
    let mut reference = Transcript::from_seed(b"seed");
    reference.absorb(b"message");
    let expected = reference.squeeze_scalar();

    let mut other_seed = Transcript::from_seed(b"sead");
    other_seed.absorb(b"message");
    assert_ne!(other_seed.squeeze_scalar(), expected);

    let mut other_message = Transcript::from_seed(b"seed");
    other_message.absorb(b"massage");
    assert_ne!(other_message.squeeze_scalar(), expected);

    let mut nothing_absorbed = Transcript::from_seed(b"seed");
    assert_ne!(nothing_absorbed.squeeze_scalar(), expected);
}

#[test]
fn failure_of_input_or_output_becomes_an_error_with_its_message() {
    let failure = std::io::Error::new(std::io::ErrorKind::Other, "no more bytes");
    assert_eq!(
        CryptoError::from(failure),
        CryptoError::IoError(String::from("no more bytes"))
    );
}
