//! ElGamal encryption of group elements.
use crate::error::{CryptoError, ErrorModel};
use crate::field::{
    fadd, fmul, fneg, lemma_congruent_reduced, lemma_fadd_congruent, lemma_fmul_congruent,
    lemma_fneg_congruent, order, scalar_values, Scalar,
};
use crate::group::{point_encoding, Point};
use crate::zkp::transcript::write_point;
use vstd::prelude::*;

verus! {

/// The ElGamal encryption scheme.
pub struct ElGamal {}

/// The public parameters of the scheme.
#[derive(Clone, Copy, Debug, PartialEq, Eq)]
pub struct Parameters {
    pub generator: Point,
}

/// A public key.
pub type PublicKey = Point;

/// A secret key.
pub type SecretKey = Scalar;

/// A generator with which scalars are turned into plaintexts.
#[derive(Clone, Copy, Debug, PartialEq, Eq)]
pub struct Generator(pub Point);

/// A plaintext: an element of the group.
#[derive(Clone, Copy, Debug, PartialEq, Eq)]
pub struct Plaintext(pub Point);

/// A ciphertext: a pair of elements of the group.
#[derive(Clone, Copy, Debug, PartialEq, Eq)]
pub struct Ciphertext(pub Point, pub Point);

impl View for Parameters {
    type V = nat;

    open spec fn view(&self) -> nat {
        self.generator@
    }
}

impl View for Generator {
    type V = nat;

    open spec fn view(&self) -> nat {
        self.0@
    }
}

impl View for Plaintext {
    type V = nat;

    open spec fn view(&self) -> nat {
        self.0@
    }
}

impl View for Ciphertext {
    type V = (nat, nat);

    open spec fn view(&self) -> (nat, nat) {
        (self.0@, self.1@)
    }
}

/// The exponents of a vector of ciphertexts.
pub open spec fn ciphertext_values(v: Seq<Ciphertext>) -> Seq<(nat, nat)> {
    v.map_values(|c: Ciphertext| c@)
}

/// The exponents of the rows of a matrix of ciphertexts.
pub open spec fn ciphertext_rows(m: Seq<Vec<Ciphertext>>) -> Seq<Seq<(nat, nat)>> {
    m.map_values(|row: Vec<Ciphertext>| ciphertext_values(row@))
}

/// The encryption of the message `m` under the key `pk` with randomness `r`.
pub open spec fn encryption(generator: nat, pk: nat, m: nat, r: nat) -> (nat, nat) {
    (fmul(r, generator), fadd(m, fmul(r, pk)))
}

/// The decryption of a ciphertext under the secret key `sk`.
pub open spec fn decryption(sk: nat, c: (nat, nat)) -> nat {
    fadd(c.1, fneg(fmul(sk, c.0)))
}

/// The sum of two ciphertexts.
pub open spec fn cipher_sum(a: (nat, nat), b: (nat, nat)) -> (nat, nat) {
    (fadd(a.0, b.0), fadd(a.1, b.1))
}

/// A ciphertext multiplied by a scalar.
pub open spec fn cipher_scaled(s: nat, c: (nat, nat)) -> (nat, nat) {
    (fmul(s, c.0), fmul(s, c.1))
}

/// The sum of the first `n` ciphertexts, each multiplied by its scalar.
pub open spec fn cipher_weighted_sum(scalars: Seq<nat>, ciphers: Seq<(nat, nat)>, n: nat) -> (
    nat,
    nat,
)
    decreases n,
{
    if n == 0 {
        (0, 0)
    } else {
        cipher_sum(
            cipher_weighted_sum(scalars, ciphers, (n - 1) as nat),
            cipher_scaled(scalars[n - 1], ciphers[n - 1]),
        )
    }
}

/// The encoding of a ciphertext: its two points, one after the other.
pub open spec fn ciphertext_encoding(c: (nat, nat)) -> Seq<u8> {
    point_encoding(c.0) + point_encoding(c.1)
}

/// The encodings of a vector of ciphertexts, one after the other.
pub open spec fn ciphertexts_encoding(v: Seq<(nat, nat)>) -> Seq<u8>
    decreases v.len(),
{
    if v.len() == 0 {
        Seq::empty()
    } else {
        ciphertexts_encoding(v.drop_last()) + ciphertext_encoding(v.last())
    }
}

/// The encodings of the rows of a matrix of ciphertexts, one after the other.
pub open spec fn ciphertext_rows_encoding(m: Seq<Seq<(nat, nat)>>) -> Seq<u8>
    decreases m.len(),
{
    if m.len() == 0 {
        Seq::empty()
    } else {
        ciphertext_rows_encoding(m.drop_last()) + ciphertexts_encoding(m.last())
    }
}

impl Generator {
    /// A generator drawn from the random number generator: some point of the group, so that
    /// its exponent lies below the order.
    pub fn rand(rng: &mut rand::rngs::StdRng) -> (r: Generator)
        ensures
            r@ < order(),
    {
        Generator(Point::rand(rng))
    }

    /// The plaintext that stands for a scalar.
    pub fn mul(&self, scalar: &Scalar) -> (r: Plaintext)
        ensures
            r@ == fmul(scalar@, self@),
    {
        Plaintext(self.0.mul(scalar))
    }
}

impl Plaintext {
    /// The neutral plaintext.
    pub fn zero() -> (r: Plaintext)
        ensures
            r@ == 0,
    {
        Plaintext(Point::zero())
    }

    /// A plaintext drawn from the random number generator: some point of the group, so that
    /// its exponent lies below the order.
    pub fn rand(rng: &mut rand::rngs::StdRng) -> (r: Plaintext)
        ensures
            r@ < order(),
    {
        Plaintext(Point::rand(rng))
    }

    /// Whether two plaintexts are the same.
    pub fn equals(&self, other: &Plaintext) -> (r: bool)
        ensures
            r == (self@ == other@),
    {
        self.0.equals(&other.0)
    }
}

impl Ciphertext {
    /// The neutral ciphertext.
    pub fn zero() -> (r: Ciphertext)
        ensures
            r@ == (0nat, 0nat),
    {
        Ciphertext(Point::zero(), Point::zero())
    }

    /// Whether two ciphertexts are the same.
    pub fn equals(&self, other: &Ciphertext) -> (r: bool)
        ensures
            r == (self@ == other@),
    {
        self.0.equals(&other.0) && self.1.equals(&other.1)
    }

    /// The sum of two ciphertexts.
    pub fn add(&self, other: &Ciphertext) -> (r: Ciphertext)
        ensures
            r@ == cipher_sum(self@, other@),
    {
        Ciphertext(self.0.add(&other.0), self.1.add(&other.1))
    }

    /// The ciphertext multiplied by a scalar.
    pub fn mul(&self, scalar: &Scalar) -> (r: Ciphertext)
        ensures
            r@ == cipher_scaled(scalar@, self@),
    {
        Ciphertext(self.0.mul(scalar), self.1.mul(scalar))
    }

    /// Appends the encoding of the ciphertext to a buffer.
    pub fn write(&self, buf: &mut Vec<u8>)
        ensures
            final(buf)@ == old(buf)@ + ciphertext_encoding(self@),
    {
        write_point(buf, &self.0);
        write_point(buf, &self.1);
        assert(final(buf)@ =~= old(buf)@ + ciphertext_encoding(self@));
    }

    /// Appends the encodings of a vector of ciphertexts to a buffer.
    pub fn write_all(buf: &mut Vec<u8>, v: &Vec<Ciphertext>)
        ensures
            final(buf)@ == old(buf)@ + ciphertexts_encoding(ciphertext_values(v@)),
    {
        let mut i: usize = 0;
        while i < v.len()
            invariant
                i <= v@.len(),
                buf@ == old(buf)@ + ciphertexts_encoding(ciphertext_values(v@).take(i as int)),
            decreases v@.len() - i,
        {
            v[i].write(buf);
            i = i + 1;
            assert(ciphertext_values(v@).take(i as int).drop_last() == ciphertext_values(v@).take(
                i - 1,
            ));
        }
        assert(ciphertext_values(v@).take(v@.len() as int) == ciphertext_values(v@));
    }

    /// Appends the encodings of the rows of a matrix of ciphertexts to a buffer.
    pub fn write_rows(buf: &mut Vec<u8>, m: &Vec<Vec<Ciphertext>>)
        ensures
            final(buf)@ == old(buf)@ + ciphertext_rows_encoding(ciphertext_rows(m@)),
    {
        let mut i: usize = 0;
        while i < m.len()
            invariant
                i <= m@.len(),
                buf@ == old(buf)@ + ciphertext_rows_encoding(ciphertext_rows(m@).take(i as int)),
            decreases m@.len() - i,
        {
            Ciphertext::write_all(buf, &m[i]);
            i = i + 1;
            assert(ciphertext_rows(m@).take(i as int).drop_last() == ciphertext_rows(m@).take(
                i - 1,
            ));
        }
        assert(ciphertext_rows(m@).take(m@.len() as int) == ciphertext_rows(m@));
    }

    /// The sum of the ciphertexts, each multiplied by its scalar; the vectors must have the
    /// same length.
    pub fn dot_product(scalars: &Vec<Scalar>, ciphers: &Vec<Ciphertext>) -> (r: Result<
        Ciphertext,
        CryptoError,
    >)
        ensures
            match r {
                Ok(c) => scalars@.len() == ciphers@.len() && c@ == cipher_weighted_sum(
                    scalar_values(scalars@),
                    ciphertext_values(ciphers@),
                    scalars@.len(),
                ),
                Err(e) => scalars@.len() != ciphers@.len() && e@ == ErrorModel::DotProductLength(
                    scalars@.len(),
                    ciphers@.len(),
                ),
            },
    {
        if scalars.len() != ciphers.len() {
            return Err(CryptoError::DotProductLengthError(scalars.len(), ciphers.len()));
        }
        let mut acc = Ciphertext::zero();
        let mut i: usize = 0;
        while i < scalars.len()
            invariant
                i <= scalars@.len(),
                scalars@.len() == ciphers@.len(),
                acc@ == cipher_weighted_sum(
                    scalar_values(scalars@),
                    ciphertext_values(ciphers@),
                    i as nat,
                ),
            decreases scalars@.len() - i,
        {
            let term = ciphers[i].mul(&scalars[i]);
            acc = acc.add(&term);
            i = i + 1;
        }
        Ok(acc)
    }
}

impl ElGamal {
    /// Parameters with a generator drawn from the random number generator. It always
    /// succeeds, and the generator is some point of the group, so that its exponent lies below
    /// the order.
    pub fn setup(rng: &mut rand::rngs::StdRng) -> (r: Result<Parameters, CryptoError>)
        ensures
            r matches Ok(pp) && pp@ < order(),
    {
        Ok(Parameters { generator: Point::rand(rng) })
    }

    /// A key pair: a secret key drawn from the random number generator, and the generator
    /// multiplied by it.
    pub fn keygen(pp: &Parameters, rng: &mut rand::rngs::StdRng) -> (r: Result<
        (PublicKey, SecretKey),
        CryptoError,
    >)
        ensures
            r matches Ok(pair) && pair.0@ == fmul(pair.1@, pp@) && pair.1@ < order(),
    {
        let secret = Scalar::rand(rng);
        let public = pp.generator.mul(&secret);
        Ok((public, secret))
    }

    /// Encrypts a message under a public key with the given randomness.
    pub fn encrypt(pp: &Parameters, pk: &PublicKey, message: &Plaintext, r: &Scalar) -> (c: Result<
        Ciphertext,
        CryptoError,
    >)
        ensures
            c matches Ok(cipher) && cipher@ == encryption(pp@, pk@, message@, r@),
    {
        let c1 = pp.generator.mul(r);
        let mask = pk.mul(r);
        let c2 = message.0.add(&mask);
        Ok(Ciphertext(c1, c2))
    }

    /// Decrypts a ciphertext with a secret key.
    pub fn decrypt(pp: &Parameters, sk: &SecretKey, cipher: &Ciphertext) -> (m: Result<
        Plaintext,
        CryptoError,
    >)
        ensures
            m matches Ok(message) && message@ == decryption(sk@, cipher@),
    {
        let mask = cipher.0.mul(sk);
        let unmask = mask.neg();
        Ok(Plaintext(cipher.1.add(&unmask)))
    }
}

/// Decryption undoes encryption: for every secret key, under the public key that belongs to
/// it, every reduced message and all randomness, the decryption of the encryption of the
/// message is the message.
pub proof fn lemma_decryption_undoes_encryption(generator: nat, sk: nat, m: nat, r: nat)
    requires
        m < order(),
    ensures
        decryption(sk, encryption(generator, fmul(sk, generator), m, r)) == m,
{
    let (g, k, mi, ri) = (generator as int, sk as int, m as int, r as int);
    let pk = fmul(sk, generator);
    let cipher = encryption(generator, pk, m, r);
    lemma_fmul_congruent(sk, generator, k, g);
    lemma_fmul_congruent(r, generator, ri, g);
    lemma_fmul_congruent(r, pk, ri, k * g);
    lemma_fadd_congruent(m, fmul(r, pk), mi, ri * (k * g));
    lemma_fmul_congruent(sk, cipher.0, k, ri * g);
    lemma_fneg_congruent(fmul(sk, cipher.0), k * (ri * g));
    lemma_fadd_congruent(
        cipher.1,
        fneg(fmul(sk, cipher.0)),
        mi + ri * (k * g),
        -(k * (ri * g)),
    );
    assert(mi + ri * (k * g) + (-(k * (ri * g))) == mi) by (nonlinear_arith);
    lemma_congruent_reduced(decryption(sk, cipher), m);
}

} // verus!
