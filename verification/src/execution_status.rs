//! How the execution of a transaction ended, and why it failed where it did.

use crate::base_types::{ObjectID, SuiAddress};
use crate::move_types::ModuleId;
use vstd::prelude::*;

verus! {

/// The position of an argument or a local of a function.
pub type LocalIndex = u8;

/// How an object left the store.
#[derive(Clone, Copy, Debug, PartialEq, Eq, Hash, Structural)]
pub enum DeleteKind {
    /// An object is provided in the call input, and gets deleted.
    Normal,
    /// An object is not provided in the call input, but gets unwrapped from another
    /// object, and then gets deleted.
    UnwrapThenDelete,
    /// An object is provided in the call input, and gets wrapped into another object.
    Wrap,
}

/// How an object came to be written.
#[derive(Clone, Copy, Debug, PartialEq, Eq, Hash, Structural)]
pub enum WriteKind {
    /// The object was in the store and is changed.
    Mutate,
    /// The object is new.
    Create,
    /// The object was inside another and is taken out of it.
    Unwrap,
}

/// What is wrong with an argument of an entry function.
#[derive(Clone, Copy, Debug, PartialEq, Eq, Hash, Structural)]
pub enum EntryArgumentErrorKind {
    TypeMismatch,
    InvalidObjectByValue,
    InvalidObjectByMuteRef,
    ObjectKindMismatch,
    UnsupportedPureArg,
    ArityMismatch,
}

/// An argument of an entry function and what is wrong with it.
#[derive(Clone, Copy, Debug, PartialEq, Eq, Hash, Structural)]
pub struct EntryArgumentError {
    pub argument_idx: LocalIndex,
    pub kind: EntryArgumentErrorKind,
}

/// An object on a cycle of ownership.
#[derive(Clone, Copy, Debug, PartialEq, Eq, Hash)]
pub struct CircularObjectOwnership {
    pub object: ObjectID,
}

/// A child object whose parent is missing.
#[derive(Clone, Copy, Debug, PartialEq, Eq, Hash)]
pub struct MissingObjectOwner {
    pub child: ObjectID,
    pub parent: SuiAddress,
}

/// A child of a shared object, passed by value to a function of a module that defines
/// the type of neither.
#[derive(Clone, Copy, Debug, PartialEq, Eq, Hash)]
pub struct InvalidSharedChildUse {
    pub child: ObjectID,
    pub ancestor: ObjectID,
}

/// A shared object, passed by value to a function of a module that does not define its
/// type.
#[derive(Clone, Copy, Debug, PartialEq, Eq, Hash)]
pub struct InvalidSharedByValue {
    pub object: ObjectID,
}

/// Why the execution of a transaction failed.
#[derive(Debug, PartialEq, Eq)]
pub enum ExecutionFailureStatus {
    // General transaction errors.
    InsufficientGas,
    InvalidGasObject,
    InvalidTransactionUpdate,
    ModuleNotFound,
    FunctionNotFound,
    InvariantViolation,
    // Transfer errors.
    InvalidTransferObject,
    InvalidTransferSui,
    InvalidTransferSuiInsufficientBalance,
    InvalidCoinObject,
    // Pay errors.
    /// Supplied 0 input coins.
    EmptyInputCoins,
    /// Supplied an empty list of recipient addresses for the payment.
    EmptyRecipients,
    /// Supplied a different number of recipient addresses and recipient amounts.
    RecipientsAmountsArityMismatch,
    /// Not enough funds to perform the requested payment.
    InsufficientBalance,
    // MoveCall errors.
    NonEntryFunctionInvoked,
    EntryTypeArityMismatch,
    EntryArgumentError(EntryArgumentError),
    CircularObjectOwnership(CircularObjectOwnership),
    MissingObjectOwner(MissingObjectOwner),
    InvalidSharedChildUse(InvalidSharedChildUse),
    InvalidSharedByValue(InvalidSharedByValue),
    TooManyChildObjects { object: ObjectID },
    InvalidParentDeletion { parent: ObjectID, kind: Option<DeleteKind> },
    InvalidParentFreezing { parent: ObjectID },
    // MovePublish errors.
    PublishErrorEmptyPackage,
    PublishErrorNonZeroAddress,
    PublishErrorDuplicateModule,
    SuiMoveVerificationError,
    // Errors from the Move VM.
    MovePrimitiveRuntimeError,
    /// An `abort` from inside Move code, with the module it came from and its code.
    MoveAbort(ModuleId, u64),
    VMVerificationOrDeserializationError,
    VMInvariantViolation,
}

/// How the execution of a transaction ended.
#[derive(Debug, PartialEq, Eq)]
pub enum ExecutionStatus {
    Success,
    Failure { error: ExecutionFailureStatus },
}

impl ExecutionFailureStatus {
    /// The failure for the argument at `argument_idx`, wrong in the way of `kind`.
    pub fn entry_argument_error(argument_idx: LocalIndex, kind: EntryArgumentErrorKind) -> (r: Self)
        ensures
            r == ExecutionFailureStatus::EntryArgumentError(EntryArgumentError { argument_idx,
                kind }),
    {
        ExecutionFailureStatus::EntryArgumentError(EntryArgumentError { argument_idx, kind })
    }

    /// The failure for `object` on a cycle of ownership.
    pub fn circular_object_ownership(object: ObjectID) -> (r: Self)
        ensures
            r == ExecutionFailureStatus::CircularObjectOwnership(CircularObjectOwnership { object }),
    {
        ExecutionFailureStatus::CircularObjectOwnership(CircularObjectOwnership { object })
    }

    /// The failure for `child`, whose owner `parent` is missing.
    pub fn missing_object_owner(child: ObjectID, parent: SuiAddress) -> (r: Self)
        ensures
            r == ExecutionFailureStatus::MissingObjectOwner(MissingObjectOwner { child, parent }),
    {
        ExecutionFailureStatus::MissingObjectOwner(MissingObjectOwner { child, parent })
    }

    /// The failure for `child` of the shared object `ancestor`, passed by value.
    pub fn invalid_shared_child_use(child: ObjectID, ancestor: ObjectID) -> (r: Self)
        ensures
            r == ExecutionFailureStatus::InvalidSharedChildUse(
                InvalidSharedChildUse { child, ancestor },
            ),
    {
        ExecutionFailureStatus::InvalidSharedChildUse(InvalidSharedChildUse { child, ancestor })
    }

    /// The failure for the shared object `object`, passed by value.
    pub fn invalid_shared_by_value(object: ObjectID) -> (r: Self)
        ensures
            r == ExecutionFailureStatus::InvalidSharedByValue(InvalidSharedByValue { object }),
    {
        ExecutionFailureStatus::InvalidSharedByValue(InvalidSharedByValue { object })
    }
}

impl ExecutionStatus {
    /// The status of an execution that failed with `error`.
    pub fn new_failure(error: ExecutionFailureStatus) -> (r: ExecutionStatus)
        ensures
            r == (ExecutionStatus::Failure { error }),
    {
        ExecutionStatus::Failure { error }
    }

    /// Whether the execution succeeded.
    pub fn is_ok(&self) -> (r: bool)
        ensures
            r == (self is Success),
    {
        matches!(self, ExecutionStatus::Success { .. })
    }

    /// Whether the execution failed.
    pub fn is_err(&self) -> (r: bool)
        ensures
            r == (self is Failure),
    {
        matches!(self, ExecutionStatus::Failure { .. })
    }

    /// Confirms that the execution succeeded. It is for a status that did.
    pub fn unwrap(self)
        requires
            self is Success,
    {
    }

    /// Why the execution failed. It is for a status that did.
    pub fn unwrap_err(self) -> (r: ExecutionFailureStatus)
        requires
            self is Failure,
        ensures
            self == (ExecutionStatus::Failure { error: r }),
    {
        match self {
            ExecutionStatus::Success { .. } => unreached(),
            ExecutionStatus::Failure { error } => error,
        }
    }
}

} // verus!
