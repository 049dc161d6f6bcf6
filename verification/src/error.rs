//! The errors of the library.
use vstd::prelude::*;

verus! {

/// An error that a cryptographic primitive can report.
#[derive(Debug, PartialEq, Clone, Eq)]
pub enum CryptoError {
    ProofVerificationError(String),
    CommitmentLengthError(String, usize, usize),
    DotProductLengthError(usize, usize),
    BilinearMapLengthError(usize, usize),
    HadamardProductLengthError(usize, usize),
    VectorCastingError(usize, usize, usize),
    DiagonalLengthError(usize, usize),
    InvalidProductArgumentStatement,
    InvalidShuffleStatement,
    CannotHashToCurve,
    IoError(String),
}

/// The mathematical content of a [`CryptoError`]: labels and messages as sequences of characters.
pub enum ErrorModel {
    ProofVerification(Seq<char>),
    CommitmentLength(Seq<char>, nat, nat),
    DotProductLength(nat, nat),
    BilinearMapLength(nat, nat),
    HadamardProductLength(nat, nat),
    VectorCasting(nat, nat, nat),
    DiagonalLength(nat, nat),
    InvalidProductArgumentStatement,
    InvalidShuffleStatement,
    CannotHashToCurve,
    Io(Seq<char>),
}

impl View for CryptoError {
    type V = ErrorModel;

    open spec fn view(&self) -> ErrorModel {
        match *self {
            CryptoError::ProofVerificationError(label) => ErrorModel::ProofVerification(label@),
            CryptoError::CommitmentLengthError(scheme, values, bases) => ErrorModel::CommitmentLength(
                scheme@,
                values as nat,
                bases as nat,
            ),
            CryptoError::DotProductLengthError(left, right) => ErrorModel::DotProductLength(
                left as nat,
                right as nat,
            ),
            CryptoError::BilinearMapLengthError(left, right) => ErrorModel::BilinearMapLength(
                left as nat,
                right as nat,
            ),
            CryptoError::HadamardProductLengthError(left, right) => ErrorModel::HadamardProductLength(
                left as nat,
                right as nat,
            ),
            CryptoError::VectorCastingError(size, m, n) => ErrorModel::VectorCasting(
                size as nat,
                m as nat,
                n as nat,
            ),
            CryptoError::DiagonalLengthError(left, right) => ErrorModel::DiagonalLength(
                left as nat,
                right as nat,
            ),
            CryptoError::InvalidProductArgumentStatement => ErrorModel::InvalidProductArgumentStatement,
            CryptoError::InvalidShuffleStatement => ErrorModel::InvalidShuffleStatement,
            CryptoError::CannotHashToCurve => ErrorModel::CannotHashToCurve,
            CryptoError::IoError(message) => ErrorModel::Io(message@),
        }
    }
}

/// What a fallible operation that returns no value yields, with the error taken by its model.
pub open spec fn outcome(r: Result<(), CryptoError>) -> Result<(), ErrorModel> {
    match r {
        Ok(_) => Ok(()),
        Err(e) => Err(e@),
    }
}

/// The model of the error with which a verifier rejects a proof of the protocol `label`.
pub open spec fn rejection(label: Seq<char>) -> Result<(), ErrorModel> {
    Err(ErrorModel::ProofVerification(label))
}

impl CryptoError {
    /// The error with which a verifier rejects a proof of the protocol `label`.
    pub fn verification_failure(label: &str) -> (e: CryptoError)
        ensures
            e@ == ErrorModel::ProofVerification(label@),
    {
        CryptoError::ProofVerificationError(label.to_owned())
    }
}

/// The error type `std::io::Error`, of which nothing is known.
#[verifier::external_type_specification]
#[verifier::external_body]
pub struct ExIoError(std::io::Error);

/// `ToString::to_string` of `std::io::Error`: the message of the error, of which nothing is
/// known.
#[verifier::external_body]
fn io_error_message(err: &std::io::Error) -> (message: String) {
    err.to_string()
}

impl From<std::io::Error> for CryptoError {
    /// The error that stands for a failure of input or output: it holds the message of the
    /// failure.
    fn from(err: std::io::Error) -> (e: CryptoError)
        ensures
            e is IoError,
    {
        CryptoError::IoError(io_error_message(&err))
    }
}

impl vstd::std_specs::convert::FromSpecImpl<std::io::Error> for CryptoError {
    open spec fn obeys_from_spec() -> bool {
        false
    }

    open spec fn from_spec(err: std::io::Error) -> CryptoError {
        arbitrary()
    }
}

} // verus!
