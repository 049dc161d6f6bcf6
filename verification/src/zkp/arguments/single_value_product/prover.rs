//! The prover of the single-value-product argument.
use super::{Parameters, ParametersModel, Statement, StatementModel, Witness, WitnessModel};
use super::verification::{derive_challenge, transcript, Proof, ProofModel};
use crate::error::{CryptoError, ErrorModel};
use crate::field::{fadd, fmul, fneg, fsub, order, reduced, scalar_values, Scalar};
use crate::utils::random::sample_vector;
use crate::vector_commitment::pedersen::{commitment, PedersenCommitment};
use crate::zkp::transcript::{challenge, squeezed_state, Transcript};
use vstd::prelude::*;

verus! {

/// The random values that the prover draws: the blinders of the vector, the blinders of the
/// running products but for the first and the last, and the randomness of three commitments.
pub struct Randomness {
    pub d: Vec<Scalar>,
    pub delta: Vec<Scalar>,
    pub r_d: Scalar,
    pub s_1: Scalar,
    pub s_x: Scalar,
}

/// The mathematical content of the random values.
pub struct RandomnessModel {
    pub d: Seq<nat>,
    pub delta: Seq<nat>,
    pub r_d: nat,
    pub s_1: nat,
    pub s_x: nat,
}

impl View for Randomness {
    type V = RandomnessModel;

    open spec fn view(&self) -> RandomnessModel {
        RandomnessModel {
            d: scalar_values(self.d@),
            delta: scalar_values(self.delta@),
            r_d: self.r_d@,
            s_1: self.s_1@,
            s_x: self.s_x@,
        }
    }
}

/// Whether the witness and the random values have the dimensions of the parameters: the
/// vector has `n` entries, and `n` is at least two.
pub open spec fn valid_dimensions(
    params: ParametersModel,
    witness: WitnessModel,
    rho: RandomnessModel,
) -> bool {
    &&& params.n >= 2
    &&& witness.a.len() == params.n
    &&& rho.d.len() == params.n
    &&& rho.delta.len() == params.n - 2
}

/// The product of the entries `a[0], .., a[i]`.
pub open spec fn running_product(a: Seq<nat>, i: nat) -> nat
    decreases i,
{
    if i == 0 {
        a[0]
    } else {
        fmul(running_product(a, (i - 1) as nat), a[i as int])
    }
}

/// The running products of a vector.
pub open spec fn running_products(a: Seq<nat>) -> Seq<nat> {
    Seq::new(a.len(), |i: int| running_product(a, i as nat))
}

/// The blinders of the running products: the first blinder of the vector, the blinders that
/// were drawn, and zero.
pub open spec fn deltas(rho: RandomnessModel) -> Seq<nat> {
    seq![rho.d[0]] + rho.delta + seq![0nat]
}

/// The vector `(-delta[i] * d[i+1])` over the indices `i` that have a successor.
pub open spec fn delta_products(rho: RandomnessModel) -> Seq<nat> {
    Seq::new(
        (rho.d.len() - 1) as nat,
        |i: int| fneg(fmul(deltas(rho)[i], rho.d[i + 1])),
    )
}

/// The vector `(delta[i+1] - a[i+1] * delta[i] - b[i] * d[i+1])` over the indices `i` that
/// have a successor, where `b` holds the running products of `a`.
pub open spec fn differences(witness: WitnessModel, rho: RandomnessModel) -> Seq<nat> {
    Seq::new(
        (rho.d.len() - 1) as nat,
        |i: int|
            fsub(
                fsub(deltas(rho)[i + 1], fmul(witness.a[i + 1], deltas(rho)[i])),
                fmul(running_product(witness.a, i as nat), rho.d[i + 1]),
            ),
    )
}

/// The vector `(x * v[i] + blinders[i])`.
pub open spec fn blinded(v: Seq<nat>, blinders: Seq<nat>, x: nat) -> Seq<nat> {
    Seq::new(v.len(), |i: int| fadd(fmul(x, v[i]), blinders[i]))
}

/// The proof that the prover gives on the challenge `x`.
pub open spec fn response(
    params: ParametersModel,
    witness: WitnessModel,
    rho: RandomnessModel,
    x: nat,
) -> ProofModel {
    ProofModel {
        d_commit: commitment(params.commit_key, rho.d, rho.r_d),
        delta_commit: commitment(params.commit_key, delta_products(rho), rho.s_1),
        diff_commit: commitment(params.commit_key, differences(witness, rho), rho.s_x),
        a_blinded: blinded(witness.a, rho.d, x),
        b_blinded: blinded(running_products(witness.a), deltas(rho), x),
        r_blinded: fadd(fmul(x, witness.random_for_a_commit), rho.r_d),
        s_blinded: fadd(fmul(x, rho.s_x), rho.s_1),
    }
}

/// The state of the transcript when the prover squeezes the challenge.
pub open spec fn proving_transcript(
    params: ParametersModel,
    statement: StatementModel,
    witness: WitnessModel,
    rho: RandomnessModel,
    state: Seq<u8>,
) -> Seq<u8> {
    transcript(
        params,
        statement,
        commitment(params.commit_key, rho.d, rho.r_d),
        commitment(params.commit_key, delta_products(rho), rho.s_1),
        commitment(params.commit_key, differences(witness, rho), rho.s_x),
        state,
    )
}

/// What the prover returns for the given random values, for a transcript in the given state.
pub open spec fn proving(
    params: ParametersModel,
    statement: StatementModel,
    witness: WitnessModel,
    rho: RandomnessModel,
    state: Seq<u8>,
) -> Result<ProofModel, ErrorModel> {
    if !valid_dimensions(params, witness, rho) {
        Err(ErrorModel::DotProductLength(witness.a.len(), params.n))
    } else if params.n > params.commit_key.g.len() {
        Err(ErrorModel::CommitmentLength("Pedersen"@, params.n, params.commit_key.g.len()))
    } else {
        Ok(
            response(
                params,
                witness,
                rho,
                challenge(proving_transcript(params, statement, witness, rho, state)),
            ),
        )
    }
}

/// The state in which the prover leaves the transcript.
pub open spec fn proved_state(
    params: ParametersModel,
    statement: StatementModel,
    witness: WitnessModel,
    rho: RandomnessModel,
    state: Seq<u8>,
) -> Seq<u8> {
    if proving(params, statement, witness, rho, state) is Err {
        state
    } else {
        squeezed_state(proving_transcript(params, statement, witness, rho, state))
    }
}

/// The model of what a prover returns.
pub open spec fn proof_outcome(r: Result<Proof, CryptoError>) -> Result<ProofModel, ErrorModel> {
    match r {
        Ok(p) => Ok(p@),
        Err(e) => Err(e@),
    }
}

/// Whether a run of the prover that drew the random values `rho` returns `result` and leaves
/// the transcript in the state `after`.
pub open spec fn run_with(
    params: ParametersModel,
    statement: StatementModel,
    witness: WitnessModel,
    rho: RandomnessModel,
    state: Seq<u8>,
    result: Result<ProofModel, ErrorModel>,
    after: Seq<u8>,
) -> bool {
    &&& rho.d.len() == params.n
    &&& params.n >= 2 ==> rho.delta.len() == params.n - 2
    &&& reduced(rho.d)
    &&& reduced(rho.delta)
    &&& rho.r_d < order()
    &&& rho.s_1 < order()
    &&& rho.s_x < order()
    &&& result == proving(params, statement, witness, rho, state)
    &&& after == proved_state(params, statement, witness, rho, state)
}

/// The prover of the single-value-product argument.
pub struct Prover<'a> {
    parameters: &'a Parameters<'a>,
    statement: &'a Statement<'a>,
    witness: &'a Witness<'a>,
}

impl<'a> Prover<'a> {
    /// The prover for the given parameters, statement and witness.
    pub fn new(
        parameters: &'a Parameters<'a>,
        statement: &'a Statement<'a>,
        witness: &'a Witness<'a>,
    ) -> (r: Prover<'a>)
        ensures
            r.parameters() == parameters,
            r.statement() == statement,
            r.witness() == witness,
    {
        Prover { parameters, statement, witness }
    }

    /// The parameters that the prover was made with.
    pub closed spec fn parameters(&self) -> &'a Parameters<'a> {
        self.parameters
    }

    /// The statement that the prover was made with.
    pub closed spec fn statement(&self) -> &'a Statement<'a> {
        self.statement
    }

    /// The witness that the prover was made with.
    pub closed spec fn witness(&self) -> &'a Witness<'a> {
        self.witness
    }

    /// The vector `(challenge * x[i] + blinders[i])`.
    pub fn blind(x: &Vec<Scalar>, blinders: &Vec<Scalar>, challenge: Scalar) -> (r: Vec<Scalar>)
        requires
            x@.len() <= blinders@.len(),
        ensures
            scalar_values(r@) == blinded(scalar_values(x@), scalar_values(blinders@), challenge@),
    {
        let mut r: Vec<Scalar> = Vec::new();
        let mut i: usize = 0;
        while i < x.len()
            invariant
                i <= x@.len(),
                x@.len() <= blinders@.len(),
                r@.len() == i,
                forall|k: int|
                    0 <= k < i ==> (#[trigger] r@[k])@ == fadd(
                        fmul(challenge@, x@[k]@),
                        blinders@[k]@,
                    ),
            decreases x@.len() - i,
        {
            r.push(challenge.mul(&x[i]).add(&blinders[i]));
            i = i + 1;
        }
        assert(scalar_values(r@) =~= blinded(
            scalar_values(x@),
            scalar_values(blinders@),
            challenge@,
        ));
        r
    }

    /// Proves the statement with the given random values.
    pub fn prove_with(&self, randomness: &Randomness, fs_rng: &mut Transcript) -> (r: Result<
        Proof,
        CryptoError,
    >)
        ensures
            proof_outcome(r) == proving(
                self.parameters()@,
                self.statement()@,
                self.witness()@,
                randomness@,
                old(fs_rng)@,
            ),
            final(fs_rng)@ == proved_state(
                self.parameters()@,
                self.statement()@,
                self.witness()@,
                randomness@,
                old(fs_rng)@,
            ),
    {
        let n = self.parameters.n;
        let a = self.witness.a;
        let d = &randomness.d;
        if !(n >= 2 && a.len() == n && d.len() == n && randomness.delta.len() == n - 2) {
            return Err(CryptoError::DotProductLengthError(a.len(), n));
        }
        let ghost rho = randomness@;
        let ghost w = self.witness@;

        // The running products of the vector.
        let mut b: Vec<Scalar> = Vec::new();
        b.push(a[0]);
        let mut i: usize = 1;
        while i < n
            invariant
                1 <= i <= n,
                a@.len() == n,
                b@.len() == i,
                forall|k: int|
                    0 <= k < i ==> (#[trigger] b@[k])@ == running_product(
                        scalar_values(a@),
                        k as nat,
                    ),
            decreases n - i,
        {
            b.push(b[i - 1].mul(&a[i]));
            i = i + 1;
        }
        assert(scalar_values(b@) =~= running_products(w.a));

        // The blinders of the running products.
        let mut deltas: Vec<Scalar> = Vec::new();
        deltas.push(d[0]);
        let mut i: usize = 0;
        while i < n - 2
            invariant
                i <= n - 2,
                randomness.delta@.len() == n - 2,
                deltas@.len() == i + 1,
                deltas@[0] == d@[0],
                forall|k: int| 1 <= k <= i ==> (#[trigger] deltas@[k]) == randomness.delta@[k - 1],
            decreases n - 2 - i,
        {
            deltas.push(randomness.delta[i]);
            i = i + 1;
        }
        deltas.push(Scalar::zero());
        assert(scalar_values(deltas@) =~= super::prover::deltas(rho));

        let d_commit = match PedersenCommitment::commit(
            self.parameters.commit_key,
            d,
            randomness.r_d,
        ) {
            Ok(c) => c,
            Err(e) => {
                return Err(e);
            },
        };

        let mut delta_ds: Vec<Scalar> = Vec::new();
        let mut i: usize = 0;
        while i < n - 1
            invariant
                i <= n - 1,
                n >= 2,
                d@.len() == n,
                deltas@.len() == n,
                delta_ds@.len() == i,
                forall|k: int|
                    0 <= k < i ==> (#[trigger] delta_ds@[k])@ == fneg(
                        fmul(deltas@[k]@, d@[k + 1]@),
                    ),
            decreases n - 1 - i,
        {
            delta_ds.push(deltas[i].mul(&d[i + 1]).neg());
            i = i + 1;
        }
        assert(scalar_values(delta_ds@) =~= delta_products(rho));
        let delta_commit = match PedersenCommitment::commit(
            self.parameters.commit_key,
            &delta_ds,
            randomness.s_1,
        ) {
            Ok(c) => c,
            Err(e) => {
                assert(false);
                return Err(e);
            },
        };

        let mut diffs: Vec<Scalar> = Vec::new();
        let mut i: usize = 0;
        while i < n - 1
            invariant
                i <= n - 1,
                n >= 2,
                a@.len() == n,
                b@.len() == n,
                d@.len() == n,
                deltas@.len() == n,
                diffs@.len() == i,
                forall|k: int|
                    0 <= k < n ==> (#[trigger] b@[k])@ == running_product(
                        scalar_values(a@),
                        k as nat,
                    ),
                forall|k: int|
                    0 <= k < i ==> (#[trigger] diffs@[k])@ == fsub(
                        fsub(deltas@[k + 1]@, fmul(a@[k + 1]@, deltas@[k]@)),
                        fmul(running_product(scalar_values(a@), k as nat), d@[k + 1]@),
                    ),
            decreases n - 1 - i,
        {
            let first = deltas[i + 1].sub(&a[i + 1].mul(&deltas[i]));
            diffs.push(first.sub(&b[i].mul(&d[i + 1])));
            i = i + 1;
        }
        assert(scalar_values(diffs@) =~= differences(w, rho));
        let diff_commit = match PedersenCommitment::commit(
            self.parameters.commit_key,
            &diffs,
            randomness.s_x,
        ) {
            Ok(c) => c,
            Err(e) => {
                assert(false);
                return Err(e);
            },
        };

        let x = derive_challenge(
            self.parameters,
            self.statement,
            &d_commit,
            &delta_commit,
            &diff_commit,
            fs_rng,
        );

        let a_blinded = Self::blind(a, d, x);
        let r_blinded = x.mul(self.witness.random_for_a_commit).add(&randomness.r_d);
        let b_blinded = Self::blind(&b, &deltas, x);
        let s_blinded = x.mul(&randomness.s_x).add(&randomness.s_1);

        Ok(
            Proof {
                d_commit,
                delta_commit,
                diff_commit,
                a_blinded,
                b_blinded,
                r_blinded,
                s_blinded,
            },
        )
    }

    /// Proves the statement, drawing the random values from the random number generator.
    pub fn prove(&self, rng: &mut rand::rngs::StdRng, fs_rng: &mut Transcript) -> (r: Result<
        Proof,
        CryptoError,
    >)
        ensures
            exists|rho: RandomnessModel| #[trigger]
                run_with(
                    self.parameters()@,
                    self.statement()@,
                    self.witness()@,
                    rho,
                    old(fs_rng)@,
                    proof_outcome(r),
                    final(fs_rng)@,
                ),
    {
        let n = self.parameters.n;
        let d = sample_vector(rng, n);
        let delta = sample_vector(rng, if n >= 2 {
            n - 2
        } else {
            0
        });
        let r_d = Scalar::rand(rng);
        let s_1 = Scalar::rand(rng);
        let s_x = Scalar::rand(rng);
        let randomness = Randomness { d, delta, r_d, s_1, s_x };
        let r = self.prove_with(&randomness, fs_rng);
        proof {
            assert(run_with(
                self.parameters()@,
                self.statement()@,
                self.witness()@,
                randomness@,
                old(fs_rng)@,
                proof_outcome(r),
                fs_rng@,
            ));
        }
        r
    }
}

} // verus!
