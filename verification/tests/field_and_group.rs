use proof_essentials::field::Scalar;
use proof_essentials::group::{multi_scalar_mul, Point};
use rand::rngs::StdRng;
use rand::SeedableRng;

#[test]
fn scalars_add_subtract_and_multiply_modulo_the_order() {
    let five = Scalar::from_u64(5);
    let seven = Scalar::from_u64(7);
    assert_eq!(five.add(&seven), Scalar::from_u64(12));
    assert_eq!(five.mul(&seven), Scalar::from_u64(35));
    assert_eq!(seven.sub(&five), Scalar::from_u64(2));
    assert_eq!(five.sub(&seven), Scalar::from_u64(2).neg());
    assert_eq!(five.sub(&seven).add(&Scalar::from_u64(2)), Scalar::zero());
    assert!(five.equals(&Scalar::from_u64(5)));
    assert!(!five.equals(&seven));
}

#[test]
fn minus_two_is_the_order_less_two() {
    let minus_two = Scalar::from_u64(2).neg();
    assert_eq!(
        minus_two.limbs(),
        [
            4891460686036598783,
            2896914383306846353,
            13281191951274694749,
            3486998266802970665
        ]
    );
    assert_eq!(Scalar::zero().neg(), Scalar::zero());
    assert_eq!(Scalar::one().neg().mul(&Scalar::one().neg()), Scalar::one());
}

#[test]
fn scalars_are_encoded_in_32_little_endian_bytes() {
    let mut expected = vec![0u8; 32];
    expected[0] = 0x02;
    expected[1] = 0x01;
    assert_eq!(Scalar::from_u64(0x0102).to_bytes(), expected);

    let largest = Scalar::one().neg().to_bytes();
    assert_eq!(largest.len(), 32);
    assert_eq!(largest[0], 0x00);
    assert_eq!(largest[31], 0x30);
    assert_eq!(Scalar::from_u64(u64::MAX).to_bytes()[..9], [255, 255, 255, 255, 255, 255, 255, 255, 0]);
}

#[test]
fn random_scalars_differ() {
    let mut rng = StdRng::seed_from_u64(1);
    let a = Scalar::rand(&mut rng);
    let b = Scalar::rand(&mut rng);
    assert_ne!(a, b);
    assert_eq!(a.add(&b).sub(&b), a);
}

#[test]
fn points_form_a_group_with_scalar_multiplication() {
    let mut rng = StdRng::seed_from_u64(2);
    let p = Point::rand(&mut rng);
    let q = Point::rand(&mut rng);
    let zero = Point::zero();
    assert_eq!(p.add(&zero), p);
    assert_eq!(zero.add(&p), p);
    assert_eq!(p.add(&q), q.add(&p));
    assert_eq!(p.add(&p.neg()), zero);
    assert!(p.equals(&p));
    assert!(!p.equals(&q));
    assert_ne!(p.add(&q), p);

    let a = Scalar::from_u64(3);
    let b = Scalar::from_u64(4);
    assert_eq!(p.mul(&a), p.add(&p).add(&p));
    assert_eq!(p.mul(&a).add(&p.mul(&b)), p.mul(&a.add(&b)));
    assert_eq!(p.mul(&a).mul(&b), p.mul(&a.mul(&b)));
    assert_eq!(p.mul(&Scalar::zero()), zero);
    assert_eq!(p.mul(&Scalar::one()), p);
    assert_eq!(p.mul(&Scalar::one().neg()), p.neg());
}

#[test]
fn multi_scalar_multiplication_is_the_sum_of_the_products() {
    let mut rng = StdRng::seed_from_u64(3);
    let bases: Vec<Point> = (0..5).map(|_| Point::rand(&mut rng)).collect();
    let scalars: Vec<Scalar> = (0..5).map(|_| Scalar::rand(&mut rng)).collect();
    let mut expected = Point::zero();
    for i in 0..5 {
        expected = expected.add(&bases[i].mul(&scalars[i]));
    }
    assert_eq!(multi_scalar_mul(&bases, &scalars), expected);

    let fewer = scalars[..3].to_vec();
    let mut expected = Point::zero();
    for i in 0..3 {
        expected = expected.add(&bases[i].mul(&scalars[i]));
    }
    assert_eq!(multi_scalar_mul(&bases, &fewer), expected);
    assert_eq!(multi_scalar_mul(&Vec::new(), &scalars), Point::zero());
}

#[test]
fn points_are_encoded_and_decoded() {
    let mut rng = StdRng::seed_from_u64(4);
    let p = Point::rand(&mut rng);
    let q = Point::rand(&mut rng);
    assert_eq!(p.to_bytes(), p.to_bytes());
    assert_ne!(p.to_bytes(), q.to_bytes());
    assert_eq!(p.to_bytes().len(), 65);
    assert_eq!(Point::serialized_size(), 32);

    let infinity = {
        let mut bytes = vec![0u8; 32];
        bytes[31] = 0x40;
        bytes
    };
    assert_eq!(Point::from_random_bytes(&infinity), Some(Point::zero()));
    assert_eq!(Point::from_random_bytes(&[0xffu8; 32]), None);
    assert_eq!(Point::from_random_bytes(&[]), None);
}

#[test]
fn scalars_are_made_from_limbs_below_the_order_only() {
    assert_eq!(Scalar::from_limbs([42, 0, 0, 0]), Some(Scalar::from_u64(42)));
    let minus_one = Scalar::one().neg();
    assert_eq!(Scalar::from_limbs(minus_one.limbs()), Some(minus_one));
    let order = [
        4891460686036598785,
        2896914383306846353,
        13281191951274694749,
        3486998266802970665,
    ];
    assert_eq!(Scalar::from_limbs(order), None);
    assert_eq!(Scalar::from_limbs([u64::MAX; 4]), None);
    let mut rng = StdRng::seed_from_u64(7);
    let s = Scalar::rand(&mut rng);
    assert_eq!(Scalar::from_limbs(s.limbs()), Some(s));
}

#[test]
fn points_are_serialized_and_deserialized() {
    let mut rng = StdRng::seed_from_u64(8);
    let p = Point::rand(&mut rng);
    let bytes = p.serialize();
    assert_eq!(bytes.len(), 32);
    assert_eq!(Point::deserialize(&bytes), Some(p));
    assert_eq!(Point::deserialize(&Point::zero().serialize()), Some(Point::zero()));
    assert_ne!(Point::rand(&mut rng).serialize(), bytes);
    assert_eq!(Point::deserialize(&bytes[..31]), None);
    assert_eq!(Point::deserialize(&[0xffu8; 32]), None);
}
