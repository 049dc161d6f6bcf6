//! The unique signature scheme built on proofs of equality of discrete logarithms with a
//! fixed transcript seed.
use crate::error::{outcome, CryptoError, ErrorModel};
use crate::field::{fmul, order, Scalar};
use crate::group::{compressed_size, decoded_point, Point};
use crate::vuf::VerifiableUnpredictableFunction;
use crate::zkp::proofs::chaum_pedersen_dl_equality as dl_equality;
use crate::zkp::transcript::{label_encoding, seeded_state, write_bytes, Transcript};
use tiny_keccak::{Hasher, Xof};
use vstd::prelude::*;

verus! {

/// The signature scheme.
pub struct FEDL<'a> {
    _message_lifetime: core::marker::PhantomData<&'a ()>,
}

/// The public parameters: the base of the public keys.
#[derive(Clone, Copy, Debug, PartialEq, Eq)]
pub struct Parameters {
    pub g: Point,
}

impl View for Parameters {
    type V = nat;

    open spec fn view(&self) -> nat {
        self.g@
    }
}

/// A signature: the unique token `b`, and the proof that it has the discrete logarithm of the
/// public key.
#[derive(Clone, Copy, Debug, PartialEq, Eq)]
pub struct Signature {
    pub proof: dl_equality::verification::Proof,
    pub b: Point,
}

/// The mathematical content of a signature.
pub struct SignatureModel {
    pub proof: dl_equality::verification::ProofModel,
    pub b: nat,
}

impl View for Signature {
    type V = SignatureModel;

    open spec fn view(&self) -> SignatureModel {
        SignatureModel { proof: self.proof@, b: self.b@ }
    }
}

/// The output of the extendable-output function SHAKE-128 on an input, for a requested
/// number of bytes.
pub uninterp spec fn shake128(input: Seq<u8>, length: nat) -> Seq<u8>;

/// `Shake::v128`, `Hasher::update` and `Xof::squeeze` of `tiny_keccak`: the requested number
/// of bytes of output, which depend on the input and that number alone.
#[verifier::external_body]
fn shake128_bytes(input: &[u8], length: usize) -> (output: Vec<u8>)
    ensures
        output@ == shake128(input@, length as nat),
        output@.len() == length,
{
    let mut hasher = tiny_keccak::Shake::v128();
    hasher.update(input);
    let mut output = vec![0u8; length];
    hasher.squeeze(&mut output);
    output
}

/// The point that the attempt with the given nonce arrives at, if it arrives at one: the
/// nonce is put in front of the message, the result is hashed to as many bytes as a
/// compressed point has, and those are decoded.
pub open spec fn candidate(nonce: nat, message: Seq<u8>) -> Option<nat> {
    decoded_point(shake128(seq![nonce as u8] + message, compressed_size()))
}

/// The point of the first attempt that arrives at one, among those with a nonce from `from`
/// to 255.
pub open spec fn first_candidate(message: Seq<u8>, from: nat) -> Option<nat>
    decreases 256 - from,
{
    if from >= 256 {
        None
    } else if candidate(from, message) is Some {
        candidate(from, message)
    } else {
        first_candidate(message, from + 1)
    }
}

/// The point that a message is hashed to, if any of the 256 attempts arrives at one.
pub open spec fn hash_to_curve(message: Seq<u8>) -> Option<nat> {
    first_candidate(message, 0)
}

/// The seed of the transcript of every signature.
pub open spec fn seed() -> Seq<u8> {
    label_encoding("FEDL")
}

/// The parameters of the proof of equality of discrete logarithms for a message that hashes
/// to the point `h`.
pub open spec fn equality_parameters(pp: nat, h: nat) -> dl_equality::ParametersModel {
    dl_equality::ParametersModel { g: pp, h }
}

/// The unique token of a message under a secret key: the hash of the message multiplied by
/// the key.
pub open spec fn token(sk: nat, message: Seq<u8>) -> Option<nat> {
    match hash_to_curve(message) {
        Some(h) => Some(fmul(sk, h)),
        None => None,
    }
}

/// The signature that the signer gives when it drew the random scalar `omega`.
pub open spec fn signature(pp: nat, pk: nat, sk: nat, message: Seq<u8>, omega: nat) -> Result<
    SignatureModel,
    ErrorModel,
> {
    match hash_to_curve(message) {
        None => Err(ErrorModel::CannotHashToCurve),
        Some(h) => {
            let b = fmul(sk, h);
            Ok(
                SignatureModel {
                    proof: dl_equality::prover::response(
                        equality_parameters(pp, h),
                        (pk, b),
                        sk,
                        omega,
                        seeded_state(seed()),
                    ),
                    b,
                },
            )
        },
    }
}

/// What the verifier returns on a signature.
pub open spec fn verification(pp: nat, pk: nat, message: Seq<u8>, signature: SignatureModel) -> Result<
    (),
    ErrorModel,
> {
    match hash_to_curve(message) {
        None => Err(ErrorModel::CannotHashToCurve),
        Some(h) => dl_equality::verification::verification(
            equality_parameters(pp, h),
            (pk, signature.b),
            signature.proof,
            seeded_state(seed()),
        ),
    }
}

/// The model of what the signer returns.
pub open spec fn signing_outcome(r: Result<Signature, CryptoError>) -> Result<
    SignatureModel,
    ErrorModel,
> {
    match r {
        Ok(s) => Ok(s@),
        Err(e) => Err(e@),
    }
}

/// Whether a run of the signer that drew the random scalar `omega` returns `result`.
pub open spec fn signed_with(
    pp: nat,
    pk: nat,
    sk: nat,
    message: Seq<u8>,
    omega: nat,
    result: Result<SignatureModel, ErrorModel>,
) -> bool {
    omega < order() && result == signature(pp, pk, sk, message, omega)
}

/// Hashes a message to a point by trying the nonces 0 to 255 in turn.
pub fn try_and_increment(msg: &[u8]) -> (r: Result<Point, CryptoError>)
    ensures
        match r {
            Ok(p) => hash_to_curve(msg@) == Some(p@),
            Err(e) => hash_to_curve(msg@) is None && e@ == ErrorModel::CannotHashToCurve,
        },
{
    let output_size = Point::serialized_size();
    let mut nonce: u16 = 0;
    while nonce <= 255
        invariant
            nonce <= 256,
            output_size == compressed_size(),
            hash_to_curve(msg@) == first_candidate(msg@, nonce as nat),
        decreases 256 - nonce,
    {
        let mut input: Vec<u8> = Vec::new();
        input.push(nonce as u8);
        write_bytes(&mut input, msg);
        assert(input@ =~= seq![nonce as u8] + msg@);
        let output = shake128_bytes(input.as_slice(), output_size);
        match Point::from_random_bytes(output.as_slice()) {
            Some(p) => {
                return Ok(p);
            },
            None => {},
        }
        nonce = nonce + 1;
    }
    Err(CryptoError::CannotHashToCurve)
}

/// The transcript with the fixed seed of the scheme.
fn seeded_transcript() -> (t: Transcript)
    ensures
        t@ == seeded_state(seed()),
{
    Transcript::from_seed("FEDL".as_bytes())
}

impl<'a> FEDL<'a> {
    /// Signs a message with the given random scalar.
    pub fn sign_with(
        omega: &Scalar,
        pp: &Parameters,
        keypair: (&Point, &Scalar),
        message: &'a [u8],
    ) -> (r: Result<Signature, CryptoError>)
        ensures
            signing_outcome(r) == signature(pp@, keypair.0@, keypair.1@, message@, omega@),
    {
        let hash_of_message = match try_and_increment(message) {
            Ok(p) => p,
            Err(e) => {
                return Err(e);
            },
        };
        let chaum_pedersen_parameters = dl_equality::Parameters::new(&pp.g, &hash_of_message);
        let b = hash_of_message.mul(keypair.1);
        let statement = dl_equality::Statement::new(keypair.0, &b);
        let mut fs_rng = seeded_transcript();
        match dl_equality::prover::Prover::create_proof_with(
            omega,
            &chaum_pedersen_parameters,
            &statement,
            keypair.1,
            &mut fs_rng,
        ) {
            Ok(proof) => Ok(Signature { proof, b }),
            Err(e) => Err(e),
        }
    }
}

impl<'a> VerifiableUnpredictableFunction for FEDL<'a> {
    type Message = &'a [u8];

    type Parameters = Parameters;

    type PublicKey = Point;

    type SecretKey = Scalar;

    type Signature = Signature;

    type UniqueToken = Point;

    /// A key pair: a secret key drawn from the random number generator, and the base
    /// multiplied by it.
    fn keygen(pp: &Parameters, rng: &mut rand::rngs::StdRng) -> (r: Result<
        (Point, Scalar),
        CryptoError,
    >)
        ensures
            r matches Ok(pair) && pair.0@ == fmul(pair.1@, pp@) && pair.1@ < order(),
    {
        let secret_key = Scalar::rand(rng);
        let public_key = pp.g.mul(&secret_key);
        Ok((public_key, secret_key))
    }

    /// Signs a message: the token is the hash of the message multiplied by the secret key,
    /// and the proof shows that the token and the public key have the same discrete
    /// logarithm. It fails exactly when the message cannot be hashed to a point.
    fn sign(
        pp: &Parameters,
        rng: &mut rand::rngs::StdRng,
        keypair: (&Point, &Scalar),
        message: &'a [u8],
    ) -> (r: Result<Signature, CryptoError>)
        ensures
            exists|omega: nat| #[trigger]
                signed_with(
                    pp@,
                    keypair.0@,
                    keypair.1@,
                    message@,
                    omega,
                    signing_outcome(r),
                ),
    {
        let omega = Scalar::rand(rng);
        let r = Self::sign_with(&omega, pp, keypair, message);
        assert(signed_with(
            pp@,
            keypair.0@,
            keypair.1@,
            message@,
            omega@,
            signing_outcome(r),
        ));
        r
    }

    /// The unique token of a signature.
    fn extract_token(signature: &Signature) -> (r: Result<Point, CryptoError>)
        ensures
            r matches Ok(t) && t@ == signature@.b,
    {
        Ok(signature.b)
    }

    /// Verifies a signature on a message under a public key.
    fn verify(pp: &Parameters, pk: &Point, message: &'a [u8], signature: &Signature) -> (r: Result<
        (),
        CryptoError,
    >)
        ensures
            outcome(r) == verification(pp@, pk@, message@, signature@),
    {
        let hash_of_message = match try_and_increment(message) {
            Ok(p) => p,
            Err(e) => {
                return Err(e);
            },
        };
        let chaum_pedersen_parameters = dl_equality::Parameters::new(&pp.g, &hash_of_message);
        let statement = dl_equality::Statement::new(pk, &signature.b);
        let mut fs_rng = seeded_transcript();
        signature.proof.verify(&chaum_pedersen_parameters, &statement, &mut fs_rng)
    }
}

/// The token of a signature is unique: two signatures of the same message under the same
/// secret key hold the same token, whatever random scalars the signer drew.
pub proof fn lemma_token_is_unique(
    pp: nat,
    pk: nat,
    sk: nat,
    message: Seq<u8>,
    omega_1: nat,
    omega_2: nat,
    signature_1: SignatureModel,
    signature_2: SignatureModel,
)
    requires
        signature(pp, pk, sk, message, omega_1) == Ok::<SignatureModel, ErrorModel>(signature_1),
        signature(pp, pk, sk, message, omega_2) == Ok::<SignatureModel, ErrorModel>(signature_2),
    ensures
        signature_1.b == signature_2.b,
        token(sk, message) == Some(signature_1.b),
{
}

/// The signatures of the signer verify: for every secret key, the public key that belongs to
/// it, every message and every random scalar of the signer, the signature that the signer
/// gives, if it gives one, verifies under the public key.
pub proof fn lemma_signature_verifies(pp: nat, sk: nat, message: Seq<u8>, omega: nat)
    requires
        signature(pp, fmul(sk, pp), sk, message, omega) is Ok,
    ensures
        verification(
            pp,
            fmul(sk, pp),
            message,
            signature(pp, fmul(sk, pp), sk, message, omega)->Ok_0,
        ) is Ok,
{
    let h = hash_to_curve(message)->Some_0;
    dl_equality::completeness::lemma_honest_proof_is_accepted(
        equality_parameters(pp, h),
        sk,
        omega,
        seeded_state(seed()),
    );
}

} // verus!
