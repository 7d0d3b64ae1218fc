//! The descriptions of failures, transactions and effects that people read.

use crate::base_types::{AccountAddress, ObjectID, SuiAddress};
use crate::execution_status::{
    CircularObjectOwnership, DeleteKind, EntryArgumentError, EntryArgumentErrorKind,
    ExecutionFailureStatus, InvalidSharedByValue, InvalidSharedChildUse, MissingObjectOwner,
};
use crate::move_types::ModuleId;
use crate::object::Owner;
use crate::text::{
    decimal_text, hex_text, push_decimal, push_hex, push_short_hex, short_hex_text, text,
};
use vstd::prelude::*;
use vstd::string::StringExecFns;

verus! {
pub const KIND_TYPE_MISMATCH: &'static str = "Type mismatch.";
pub const KIND_INVALID_OBJECT_BY_VALUE: &'static str = "Immutable and shared objects cannot be passed by-value.";
pub const KIND_INVALID_OBJECT_BY_MUTE_REF: &'static str = "Immutable objects cannot be passed by mutable reference, &mut.";
pub const KIND_OBJECT_KIND_MISMATCH: &'static str = "Mismtach with object argument kind and its actual kind.";
pub const KIND_UNSUPPORTED_PURE_ARG: &'static str = "Unsupported non-object argument; if it is an object, it must be populated by an object ID.";
pub const KIND_ARITY_MISMATCH: &'static str = "Mismatch between the number of actual versus expected argument.";
pub const FAILURE_INSUFFICIENT_GAS: &'static str = "Insufficient Gas.";
pub const FAILURE_INVALID_GAS_OBJECT: &'static str = "Invalid Gas Object. Possibly not address-owned or possibly not a SUI coin.";
pub const FAILURE_INVALID_TRANSACTION_UPDATE: &'static str = "Invalid Transaction Update.";
pub const FAILURE_MODULE_NOT_FOUND: &'static str = "Module Not Found.";
pub const FAILURE_FUNCTION_NOT_FOUND: &'static str = "Function Not Found.";
pub const FAILURE_INVARIANT_VIOLATION: &'static str = "INVARIANT VIOLATION.";
pub const FAILURE_INVALID_TRANSFER_OBJECT: &'static str = "Invalid Transfer Object Transaction. Possibly not address-owned or possibly does not have public transfer.";
pub const FAILURE_INVALID_TRANSFER_SUI: &'static str = "Invalid Transfer SUI. Possibly not address-owned or possibly not a SUI coin.";
pub const FAILURE_INVALID_TRANSFER_SUI_INSUFFICIENT_BALANCE: &'static str = "Invalid Transfer SUI, Insufficient Balance.";
pub const FAILURE_INVALID_COIN_OBJECT: &'static str = "Invalid coin::Coin object bytes.";
pub const FAILURE_EMPTY_INPUT_COINS: &'static str = "Expected a non-empty list of input Coin objects";
pub const FAILURE_EMPTY_RECIPIENTS: &'static str = "Expected a non-empty list of recipient addresses";
pub const FAILURE_RECIPIENTS_AMOUNTS_ARITY_MISMATCH: &'static str = "Expected recipient and amounts lists to be the same length";
pub const FAILURE_INSUFFICIENT_BALANCE: &'static str = "Value of input coins is insufficient to cover outgoing amounts";
pub const FAILURE_NON_ENTRY_FUNCTION_INVOKED: &'static str = "Non Entry Function Invoked. Move Call must start with an entry function";
pub const FAILURE_ENTRY_TYPE_ARITY_MISMATCH: &'static str = "Number of type arguments does not match the expected value";
pub const FAILURE_PUBLISH_ERROR_EMPTY_PACKAGE: &'static str = "Publish Error, Empty Package. A package must have at least one module.";
pub const FAILURE_PUBLISH_ERROR_NON_ZERO_ADDRESS: &'static str = "Publish Error, Non-zero Address. The modules in the package must have their address set to zero.";
pub const FAILURE_PUBLISH_ERROR_DUPLICATE_MODULE: &'static str = "Publish Error, Duplicate Module. More than one module with a given name.";
pub const FAILURE_SUI_MOVE_VERIFICATION_ERROR: &'static str = "Sui Move Bytecode Verification Error. Please run the Sui Move Verifier for more information.";
pub const FAILURE_MOVE_PRIMITIVE_RUNTIME_ERROR: &'static str = "Move Primitive Runtime Error. Arithmetic error, stack overflow, max value depth, etc.";
pub const FAILURE_VM_VERIFICATION_OR_DESERIALIZATION_ERROR: &'static str = "Move Bytecode Verification Error. Please run the Bytecode Verifier for more information.";
pub const FAILURE_VM_INVARIANT_VIOLATION: &'static str = "MOVE VM INVARIANT VIOLATION.";

/// The text of an object identifier: `0x` and its bytes in base sixteen.
pub open spec fn object_id_text(id: ObjectID) -> Seq<char> {
    "0x"@ + hex_text(id.0@, false)
}

/// The text of an address: `0x` and its bytes in base sixteen.
pub open spec fn address_text(a: SuiAddress) -> Seq<char> {
    "0x"@ + hex_text(a.0@, false)
}

/// The text of the name of a module: the address in base sixteen, in upper case, two
/// colons, and the identifier, which is ASCII.
pub open spec fn module_id_text(address: AccountAddress, name: Seq<u8>) -> Seq<char> {
    hex_text(address.0@, true) + "::"@ + Seq::new(name.len(), |i: int| name[i] as char)
}

/// What the variant of an entry argument error kind says.
pub open spec fn entry_kind_text(k: EntryArgumentErrorKind) -> Seq<char> {
    match k {
        EntryArgumentErrorKind::TypeMismatch => KIND_TYPE_MISMATCH@,
        EntryArgumentErrorKind::InvalidObjectByValue => KIND_INVALID_OBJECT_BY_VALUE@,
        EntryArgumentErrorKind::InvalidObjectByMuteRef => KIND_INVALID_OBJECT_BY_MUTE_REF@,
        EntryArgumentErrorKind::ObjectKindMismatch => KIND_OBJECT_KIND_MISMATCH@,
        EntryArgumentErrorKind::UnsupportedPureArg => KIND_UNSUPPORTED_PURE_ARG@,
        EntryArgumentErrorKind::ArityMismatch => KIND_ARITY_MISMATCH@,
    }
}

/// What an entry argument error says.
pub open spec fn entry_argument_error_text(e: EntryArgumentError) -> Seq<char> {
    "Error for argument at index "@ + decimal_text(e.argument_idx as nat) + ": "@
        + entry_kind_text(e.kind)
}

/// What a circular ownership says.
pub open spec fn circular_ownership_text(e: CircularObjectOwnership) -> Seq<char> {
    "Circular object ownership, including object "@ + object_id_text(e.object) + "."@
}

/// What a missing owner says.
pub open spec fn missing_owner_text(e: MissingObjectOwner) -> Seq<char> {
    "Missing object owner, the parent object "@ + address_text(e.parent) + " for child object "@
        + object_id_text(e.child) + "."@
}

/// What an invalid use of a shared object's child says.
pub open spec fn shared_child_text(e: InvalidSharedChildUse) -> Seq<char> {
    "When a child object (either direct or indirect) of a shared object is passed by-value to an entry function, either the child object's type or the shared object's type must be defined in the same module as the called function. This is violated by object "@
        + object_id_text(e.child) + ", whose ancestor "@ + object_id_text(e.ancestor)
        + " is a shared object, and neither are defined in this module."@
}

/// What an invalid use of a shared object by value says.
pub open spec fn shared_by_value_text(e: InvalidSharedByValue) -> Seq<char> {
    "When a shared object is passed as an owned Move value in an entry function, either the the shared object's type must be defined in the same module as the called function. The shared object "@
        + object_id_text(e.object) + " is not defined in this module"@
}

/// How a parent object left, in words.
pub open spec fn deletion_text(kind: Option<DeleteKind>) -> Seq<char> {
    match kind {
        Some(DeleteKind::Normal) => "deleted"@,
        Some(DeleteKind::UnwrapThenDelete) => "unwrapped then deleted"@,
        Some(DeleteKind::Wrap) => "wrapped in another object"@,
        None => "created and destroyed"@,
    }
}

/// What a failure says.
pub open spec fn failure_text(e: ExecutionFailureStatus) -> Seq<char> {
    match e {
        ExecutionFailureStatus::InsufficientGas => FAILURE_INSUFFICIENT_GAS@,
        ExecutionFailureStatus::InvalidGasObject => FAILURE_INVALID_GAS_OBJECT@,
        ExecutionFailureStatus::InvalidTransactionUpdate => FAILURE_INVALID_TRANSACTION_UPDATE@,
        ExecutionFailureStatus::ModuleNotFound => FAILURE_MODULE_NOT_FOUND@,
        ExecutionFailureStatus::FunctionNotFound => FAILURE_FUNCTION_NOT_FOUND@,
        ExecutionFailureStatus::InvariantViolation => FAILURE_INVARIANT_VIOLATION@,
        ExecutionFailureStatus::InvalidTransferObject => FAILURE_INVALID_TRANSFER_OBJECT@,
        ExecutionFailureStatus::InvalidTransferSui => FAILURE_INVALID_TRANSFER_SUI@,
        ExecutionFailureStatus::InvalidTransferSuiInsufficientBalance =>
            FAILURE_INVALID_TRANSFER_SUI_INSUFFICIENT_BALANCE@,
        ExecutionFailureStatus::InvalidCoinObject => FAILURE_INVALID_COIN_OBJECT@,
        ExecutionFailureStatus::EmptyInputCoins => FAILURE_EMPTY_INPUT_COINS@,
        ExecutionFailureStatus::EmptyRecipients => FAILURE_EMPTY_RECIPIENTS@,
        ExecutionFailureStatus::RecipientsAmountsArityMismatch =>
            FAILURE_RECIPIENTS_AMOUNTS_ARITY_MISMATCH@,
        ExecutionFailureStatus::InsufficientBalance => FAILURE_INSUFFICIENT_BALANCE@,
        ExecutionFailureStatus::NonEntryFunctionInvoked => FAILURE_NON_ENTRY_FUNCTION_INVOKED@,
        ExecutionFailureStatus::EntryTypeArityMismatch => FAILURE_ENTRY_TYPE_ARITY_MISMATCH@,
        ExecutionFailureStatus::PublishErrorEmptyPackage => FAILURE_PUBLISH_ERROR_EMPTY_PACKAGE@,
        ExecutionFailureStatus::PublishErrorNonZeroAddress =>
            FAILURE_PUBLISH_ERROR_NON_ZERO_ADDRESS@,
        ExecutionFailureStatus::PublishErrorDuplicateModule =>
            FAILURE_PUBLISH_ERROR_DUPLICATE_MODULE@,
        ExecutionFailureStatus::SuiMoveVerificationError => FAILURE_SUI_MOVE_VERIFICATION_ERROR@,
        ExecutionFailureStatus::MovePrimitiveRuntimeError => FAILURE_MOVE_PRIMITIVE_RUNTIME_ERROR@,
        ExecutionFailureStatus::VMVerificationOrDeserializationError =>
            FAILURE_VM_VERIFICATION_OR_DESERIALIZATION_ERROR@,
        ExecutionFailureStatus::VMInvariantViolation => FAILURE_VM_INVARIANT_VIOLATION@,
        ExecutionFailureStatus::EntryArgumentError(data) => "Entry Argument Type Error. "@
            + entry_argument_error_text(data),
        ExecutionFailureStatus::CircularObjectOwnership(data) => "Circular  Object Ownership. "@
            + circular_ownership_text(data),
        ExecutionFailureStatus::MissingObjectOwner(data) => "Missing Object Owner. "@
            + missing_owner_text(data),
        ExecutionFailureStatus::InvalidSharedChildUse(data) => "Invalid Shared Child Object Usage. "@
            + shared_child_text(data) + "."@,
        ExecutionFailureStatus::InvalidSharedByValue(data) => "Invalid Shared Object By-Value Usage. "@
            + shared_by_value_text(data) + "."@,
        ExecutionFailureStatus::TooManyChildObjects { object } => "Object "@ + object_id_text(
            object,
        )
            + " has too many child objects. The number of child objects cannot exceed 2^32 - 1."@,
        ExecutionFailureStatus::InvalidParentDeletion { parent, kind } => "Invalid Deletion of Parent Object with Children. Parent object "@
            + object_id_text(parent) + " was "@ + deletion_text(kind)
            + " before its children were deleted or transferred."@,
        ExecutionFailureStatus::InvalidParentFreezing { parent } => "Invalid Freezing of Parent Object with Children. Parent object "@
            + object_id_text(parent)
            + " was made immutable before its children were deleted or transferred."@,
        ExecutionFailureStatus::MoveAbort(m, c) => "Move Runtime Abort. Module: "@
            + module_id_text(m.address, m.name@) + ", Status Code: "@ + decimal_text(c as nat),
    }
}

impl ObjectID {
    /// The text of the identifier: `0x` and its bytes in base sixteen.
    pub fn to_string(&self) -> (r: String)
        ensures
            r@ == object_id_text(*self),
    {
        let mut out = text("0x");
        push_hex(&mut out, self.as_bytes(), false);
        out
    }

    /// The text of the identifier without the zeros at its head.
    pub fn to_hex_literal(&self) -> (r: String)
        ensures
            r@ == "0x"@ + short_hex_text(self.0@),
    {
        let mut out = text("0x");
        push_short_hex(&mut out, self.as_bytes());
        out
    }
}

impl SuiAddress {
    /// The text of the address: `0x` and its bytes in base sixteen.
    pub fn to_string(&self) -> (r: String)
        ensures
            r@ == address_text(*self),
    {
        let mut out = text("0x");
        push_hex(&mut out, self.as_bytes(), false);
        out
    }
}

/// Appends the characters that the ASCII bytes `bytes` stand for.
fn push_ascii(out: &mut String, bytes: &[u8])
    requires
        forall|i: int| 0 <= i < bytes@.len() ==> bytes@[i] < 128,
    ensures
        final(out)@ == old(out)@ + Seq::new(bytes@.len(), |i: int| bytes@[i] as char),
{
    let ghost start = out@;
    let ghost chars = Seq::new(bytes@.len(), |i: int| bytes@[i] as char);
    let mut i: usize = 0;
    while i < bytes.len()
        invariant
            i <= bytes.len(),
            chars == Seq::new(bytes@.len(), |i: int| bytes@[i] as char),
            forall|j: int| 0 <= j < bytes@.len() ==> bytes@[j] < 128,
            out@ == start + chars.take(i as int),
        decreases bytes.len() - i,
    {
        push_char(out, bytes[i]);
        assert(out@ =~= start + chars.take(i as int + 1));
        i += 1;
    }
    assert(chars.take(bytes@.len() as int) =~= chars);
}

/// `String::push`: appends the character that the ASCII byte `byte` stands for.
#[verifier::external_body]
fn push_char(out: &mut String, byte: u8)
    requires
        byte < 128,
    ensures
        final(out)@ == old(out)@.push(byte as char),
{
    out.push(byte as char)
}

/// Appends the text of the identifier `id`.
pub fn push_identifier(out: &mut String, id: &crate::move_types::Identifier)
    ensures
        final(out)@ == old(out)@ + Seq::new(id@.len(), |i: int| id@[i] as char),
{
    let name = id.as_bytes();
    proof {
        crate::move_types::lemma_identifier_is_ascii(name@);
    }
    push_ascii(out, name);
}

impl ModuleId {
    /// The text of the name: the address in base sixteen, two colons, the identifier.
    pub fn to_string(&self) -> (r: String)
        ensures
            r@ == module_id_text(self.address, self.name@),
    {
        let mut out = text("");
        proof {
            reveal_strlit("");
        }
        push_hex(&mut out, self.address.as_bytes(), true);
        out.append("::");
        let name = self.name.as_bytes();
        proof {
            crate::move_types::lemma_identifier_is_ascii(name@);
        }
        push_ascii(&mut out, name);
        assert(out@ =~= module_id_text(self.address, self.name@));
        out
    }
}

impl EntryArgumentErrorKind {
    /// What the kind says.
    pub fn to_string(&self) -> (r: String)
        ensures
            r@ == entry_kind_text(*self),
    {
        match self {
            EntryArgumentErrorKind::TypeMismatch => text(KIND_TYPE_MISMATCH),
            EntryArgumentErrorKind::InvalidObjectByValue => text(KIND_INVALID_OBJECT_BY_VALUE),
            EntryArgumentErrorKind::InvalidObjectByMuteRef => text(KIND_INVALID_OBJECT_BY_MUTE_REF),
            EntryArgumentErrorKind::ObjectKindMismatch => text(KIND_OBJECT_KIND_MISMATCH),
            EntryArgumentErrorKind::UnsupportedPureArg => text(KIND_UNSUPPORTED_PURE_ARG),
            EntryArgumentErrorKind::ArityMismatch => text(KIND_ARITY_MISMATCH),
        }
    }
}

impl EntryArgumentError {
    /// What the error says.
    pub fn to_string(&self) -> (r: String)
        ensures
            r@ == entry_argument_error_text(*self),
    {
        let mut out = text("Error for argument at index ");
        push_decimal(&mut out, self.argument_idx as u64);
        out.append(": ");
        let kind = self.kind.to_string();
        out.append(kind.as_str());
        out
    }
}

impl CircularObjectOwnership {
    /// What the error says.
    pub fn to_string(&self) -> (r: String)
        ensures
            r@ == circular_ownership_text(*self),
    {
        let mut out = text("Circular object ownership, including object ");
        out.append(self.object.to_string().as_str());
        out.append(".");
        out
    }
}

impl MissingObjectOwner {
    /// What the error says.
    pub fn to_string(&self) -> (r: String)
        ensures
            r@ == missing_owner_text(*self),
    {
        let mut out = text("Missing object owner, the parent object ");
        out.append(self.parent.to_string().as_str());
        out.append(" for child object ");
        out.append(self.child.to_string().as_str());
        out.append(".");
        out
    }
}

impl InvalidSharedChildUse {
    /// What the error says.
    pub fn to_string(&self) -> (r: String)
        ensures
            r@ == shared_child_text(*self),
    {
        let mut out = text(
            "When a child object (either direct or indirect) of a shared object is passed by-value to an entry function, either the child object's type or the shared object's type must be defined in the same module as the called function. This is violated by object ",
        );
        out.append(self.child.to_string().as_str());
        out.append(", whose ancestor ");
        out.append(self.ancestor.to_string().as_str());
        out.append(" is a shared object, and neither are defined in this module.");
        out
    }
}

impl InvalidSharedByValue {
    /// What the error says.
    pub fn to_string(&self) -> (r: String)
        ensures
            r@ == shared_by_value_text(*self),
    {
        let mut out = text(
            "When a shared object is passed as an owned Move value in an entry function, either the the shared object's type must be defined in the same module as the called function. The shared object ",
        );
        out.append(self.object.to_string().as_str());
        out.append(" is not defined in this module");
        out
    }
}

impl ExecutionFailureStatus {
    /// What the failure says.
    pub fn to_string(&self) -> (r: String)
        ensures
            r@ == failure_text(*self),
    {
        match self {
            ExecutionFailureStatus::InsufficientGas => text(FAILURE_INSUFFICIENT_GAS),
            ExecutionFailureStatus::InvalidGasObject => text(FAILURE_INVALID_GAS_OBJECT),
            ExecutionFailureStatus::InvalidTransactionUpdate =>
                text(FAILURE_INVALID_TRANSACTION_UPDATE),
            ExecutionFailureStatus::ModuleNotFound => text(FAILURE_MODULE_NOT_FOUND),
            ExecutionFailureStatus::FunctionNotFound => text(FAILURE_FUNCTION_NOT_FOUND),
            ExecutionFailureStatus::InvariantViolation => text(FAILURE_INVARIANT_VIOLATION),
            ExecutionFailureStatus::InvalidTransferObject => text(FAILURE_INVALID_TRANSFER_OBJECT),
            ExecutionFailureStatus::InvalidTransferSui => text(FAILURE_INVALID_TRANSFER_SUI),
            ExecutionFailureStatus::InvalidTransferSuiInsufficientBalance =>
                text(FAILURE_INVALID_TRANSFER_SUI_INSUFFICIENT_BALANCE),
            ExecutionFailureStatus::InvalidCoinObject => text(FAILURE_INVALID_COIN_OBJECT),
            ExecutionFailureStatus::EmptyInputCoins => text(FAILURE_EMPTY_INPUT_COINS),
            ExecutionFailureStatus::EmptyRecipients => text(FAILURE_EMPTY_RECIPIENTS),
            ExecutionFailureStatus::RecipientsAmountsArityMismatch =>
                text(FAILURE_RECIPIENTS_AMOUNTS_ARITY_MISMATCH),
            ExecutionFailureStatus::InsufficientBalance => text(FAILURE_INSUFFICIENT_BALANCE),
            ExecutionFailureStatus::NonEntryFunctionInvoked =>
                text(FAILURE_NON_ENTRY_FUNCTION_INVOKED),
            ExecutionFailureStatus::EntryTypeArityMismatch =>
                text(FAILURE_ENTRY_TYPE_ARITY_MISMATCH),
            ExecutionFailureStatus::PublishErrorEmptyPackage =>
                text(FAILURE_PUBLISH_ERROR_EMPTY_PACKAGE),
            ExecutionFailureStatus::PublishErrorNonZeroAddress =>
                text(FAILURE_PUBLISH_ERROR_NON_ZERO_ADDRESS),
            ExecutionFailureStatus::PublishErrorDuplicateModule =>
                text(FAILURE_PUBLISH_ERROR_DUPLICATE_MODULE),
            ExecutionFailureStatus::SuiMoveVerificationError =>
                text(FAILURE_SUI_MOVE_VERIFICATION_ERROR),
            ExecutionFailureStatus::MovePrimitiveRuntimeError =>
                text(FAILURE_MOVE_PRIMITIVE_RUNTIME_ERROR),
            ExecutionFailureStatus::VMVerificationOrDeserializationError =>
                text(FAILURE_VM_VERIFICATION_OR_DESERIALIZATION_ERROR),
            ExecutionFailureStatus::VMInvariantViolation => text(FAILURE_VM_INVARIANT_VIOLATION),
            ExecutionFailureStatus::EntryArgumentError(data) => {
                let mut out = text("Entry Argument Type Error. ");
                out.append(data.to_string().as_str());
                out
            },
            ExecutionFailureStatus::CircularObjectOwnership(data) => {
                let mut out = text("Circular  Object Ownership. ");
                out.append(data.to_string().as_str());
                out
            },
            ExecutionFailureStatus::MissingObjectOwner(data) => {
                let mut out = text("Missing Object Owner. ");
                out.append(data.to_string().as_str());
                out
            },
            ExecutionFailureStatus::InvalidSharedChildUse(data) => {
                let mut out = text("Invalid Shared Child Object Usage. ");
                out.append(data.to_string().as_str());
                out.append(".");
                out
            },
            ExecutionFailureStatus::InvalidSharedByValue(data) => {
                let mut out = text("Invalid Shared Object By-Value Usage. ");
                out.append(data.to_string().as_str());
                out.append(".");
                out
            },
            ExecutionFailureStatus::TooManyChildObjects { object } => {
                let mut out = text("Object ");
                out.append(object.to_string().as_str());
                out.append(
                    " has too many child objects. The number of child objects cannot exceed 2^32 - 1.",
                );
                out
            },
            ExecutionFailureStatus::InvalidParentDeletion { parent, kind } => {
                let method = match kind {
                    Some(DeleteKind::Normal) => "deleted",
                    Some(DeleteKind::UnwrapThenDelete) => "unwrapped then deleted",
                    Some(DeleteKind::Wrap) => "wrapped in another object",
                    None => "created and destroyed",
                };
                let mut out = text(
                    "Invalid Deletion of Parent Object with Children. Parent object ",
                );
                out.append(parent.to_string().as_str());
                out.append(" was ");
                out.append(method);
                out.append(" before its children were deleted or transferred.");
                out
            },
            ExecutionFailureStatus::InvalidParentFreezing { parent } => {
                let mut out = text(
                    "Invalid Freezing of Parent Object with Children. Parent object ",
                );
                out.append(parent.to_string().as_str());
                out.append(" was made immutable before its children were deleted or transferred.");
                out
            },
            ExecutionFailureStatus::MoveAbort(m, c) => {
                let mut out = text("Move Runtime Abort. Module: ");
                out.append(m.to_string().as_str());
                out.append(", Status Code: ");
                push_decimal(&mut out, *c);
                out
            },
        }
    }
}

} // verus!
