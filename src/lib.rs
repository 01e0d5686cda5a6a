//! Linkable ring signatures (MLSAG) over BLS12-381 G1, combined with Pedersen
//! commitments and single-value range proofs into confidential transactions.
use vstd::prelude::*;

pub mod group;
pub mod hash;
pub mod commitment;
pub mod mlsag;
pub mod ringct;

verus! {

/// The error type of the range-proof library.
#[verifier::external_type_specification]
#[verifier::external_body]
pub struct ExProofError(bls_bulletproofs::ProofError);

/// Why a signature or a transaction was rejected.
#[derive(Debug)]
pub enum Error {
    /// The ring and the list of ledger commitments differ in length.
    ExpectedAPublicCommitmentsForEachRingEntry,
    /// A hidden commitment of the ring is not `ledger commitment - pseudo-commitment`.
    InvalidHiddenCommitmentInRing,
    /// The key image is not a point of the group other than the identity.
    KeyImageNotOnCurve,
    /// The challenge chain does not close.
    InvalidRingSignature,
    /// The pseudo-commitments of the inputs do not add up to the output commitments.
    InputPseudoCommitmentsDoNotSumToOutputCommitments,
    /// The range-proof library failed to prove or to verify.
    Bulletproofs(bls_bulletproofs::ProofError),
}

} // verus!
