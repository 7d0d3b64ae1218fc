//! The errors that the message layer reports.

use crate::base_types::ObjectID;
use vstd::prelude::*;

verus! {

/// Why an operation on a message was refused.
#[derive(Clone, Debug, PartialEq, Eq)]
pub enum SuiError {
    /// Two inputs of one transaction name the same object.
    DuplicateObjectRefInput,
    /// A batch is empty or holds a kind that cannot stand in a batch.
    InvalidBatchTransaction { error: String },
    /// An authority contributed to one certificate twice.
    CertificateAuthorityReuse,
    /// A signer has no stake in the committee.
    UnknownSigner,
    /// A signature does not verify.
    InvalidSignature,
    /// A signature was made in another epoch than the committee's.
    WrongEpoch,
    /// The signers of a certificate hold less than a quorum of the stake.
    CertificateRequiresQuorum,
    /// A set of signatures cannot be combined.
    InvalidAuthenticator,
    /// A committee has no member, names one twice, or holds no or too much stake.
    InvalidCommittee,
    /// The two proposals of a checkpoint fragment are for different checkpoints.
    InconsistentCheckpointFragment,
    /// A package that a transaction depends on is not in the store.
    DependentPackageNotFound { package_id: ObjectID },
    /// An object that a transaction names is not in the store.
    ObjectNotFound { object_id: ObjectID },
}

/// The result of an operation that can be refused.
pub type SuiResult<T = ()> = Result<T, SuiError>;

} // verus!
