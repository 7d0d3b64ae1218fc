use sui_types::base_types::{
    AccountAddress, ObjectDigest, ObjectID, SequenceNumber, SuiAddress, TransactionDigest,
};
use sui_types::effects::{GasCostSummary, TransactionEffects};
use sui_types::execution_status::{
    CircularObjectOwnership, DeleteKind, EntryArgumentError, EntryArgumentErrorKind,
    ExecutionFailureStatus, ExecutionStatus, InvalidSharedByValue, InvalidSharedChildUse,
    MissingObjectOwner,
};
use sui_types::move_types::{Identifier, ModuleId};
use sui_types::object::Owner;
use sui_types::text::{push_decimal, push_hex, push_short_hex};
use sui_types::transaction::{
    ChangeEpoch, MoveCall, MoveModulePublish, Pay, SingleTransactionKind, TransactionKind,
    TransferObject, TransferSui,
};

fn oid(last: u8) -> ObjectID {
    let mut bytes = [0u8; 20];
    bytes[19] = last;
    ObjectID(bytes)
}

fn id_text(last: u8) -> String {
    format!("0x{}{:02x}", "00".repeat(19), last)
}

#[test]
fn numbers_are_written_in_base_ten() {
    for (n, expected) in [(0u64, "0"), (7, "7"), (10, "10"), (1905, "1905"), (u64::MAX, "18446744073709551615")] {
        let mut out = String::from("n=");
        push_decimal(&mut out, n);
        assert_eq!(out, format!("n={}", expected));
    }
}

#[test]
fn bytes_are_written_in_base_sixteen() {
    let mut lower = String::new();
    push_hex(&mut lower, &[0x00, 0x1f, 0xab], false);
    assert_eq!(lower, "001fab");
    let mut upper = String::new();
    push_hex(&mut upper, &[0x00, 0x1f, 0xab], true);
    assert_eq!(upper, "001FAB");
    let mut short = String::new();
    push_short_hex(&mut short, &[0x00, 0x0f, 0xa0]);
    assert_eq!(short, "fa0");
    let mut zero = String::new();
    push_short_hex(&mut zero, &[0, 0]);
    assert_eq!(zero, "0");
}

#[test]
fn identifiers_and_addresses_have_their_texts() {
    assert_eq!(oid(0xab).to_string(), id_text(0xab));
    assert_eq!(oid(0xab).to_hex_literal(), "0xab");
    assert_eq!(ObjectID::zero().to_hex_literal(), "0x0");
    assert_eq!(SuiAddress([0x1c; 20]).to_string(), format!("0x{}", "1c".repeat(20)));
    let module = ModuleId::new(
        AccountAddress([0xa1; 20]),
        Identifier::new(b"coin".to_vec()).unwrap(),
    );
    assert_eq!(module.to_string(), format!("{}::coin", "A1".repeat(20)));
}

#[test]
fn failures_without_data_say_their_sentence() {
    let cases = [
        (ExecutionFailureStatus::InsufficientGas, "Insufficient Gas."),
        (
            ExecutionFailureStatus::InvalidGasObject,
            "Invalid Gas Object. Possibly not address-owned or possibly not a SUI coin.",
        ),
        (ExecutionFailureStatus::InvalidTransactionUpdate, "Invalid Transaction Update."),
        (ExecutionFailureStatus::ModuleNotFound, "Module Not Found."),
        (ExecutionFailureStatus::FunctionNotFound, "Function Not Found."),
        (ExecutionFailureStatus::InvariantViolation, "INVARIANT VIOLATION."),
        (
            ExecutionFailureStatus::InvalidTransferObject,
            "Invalid Transfer Object Transaction. Possibly not address-owned or possibly does not have public transfer.",
        ),
        (
            ExecutionFailureStatus::InvalidTransferSui,
            "Invalid Transfer SUI. Possibly not address-owned or possibly not a SUI coin.",
        ),
        (
            ExecutionFailureStatus::InvalidTransferSuiInsufficientBalance,
            "Invalid Transfer SUI, Insufficient Balance.",
        ),
        (ExecutionFailureStatus::InvalidCoinObject, "Invalid coin::Coin object bytes."),
        (
            ExecutionFailureStatus::EmptyInputCoins,
            "Expected a non-empty list of input Coin objects",
        ),
        (
            ExecutionFailureStatus::EmptyRecipients,
            "Expected a non-empty list of recipient addresses",
        ),
        (
            ExecutionFailureStatus::RecipientsAmountsArityMismatch,
            "Expected recipient and amounts lists to be the same length",
        ),
        (
            ExecutionFailureStatus::InsufficientBalance,
            "Value of input coins is insufficient to cover outgoing amounts",
        ),
        (
            ExecutionFailureStatus::NonEntryFunctionInvoked,
            "Non Entry Function Invoked. Move Call must start with an entry function",
        ),
        (
            ExecutionFailureStatus::EntryTypeArityMismatch,
            "Number of type arguments does not match the expected value",
        ),
        (
            ExecutionFailureStatus::PublishErrorEmptyPackage,
            "Publish Error, Empty Package. A package must have at least one module.",
        ),
        (
            ExecutionFailureStatus::PublishErrorNonZeroAddress,
            "Publish Error, Non-zero Address. The modules in the package must have their address set to zero.",
        ),
        (
            ExecutionFailureStatus::PublishErrorDuplicateModule,
            "Publish Error, Duplicate Module. More than one module with a given name.",
        ),
        (
            ExecutionFailureStatus::SuiMoveVerificationError,
            "Sui Move Bytecode Verification Error. Please run the Sui Move Verifier for more information.",
        ),
        (
            ExecutionFailureStatus::MovePrimitiveRuntimeError,
            "Move Primitive Runtime Error. Arithmetic error, stack overflow, max value depth, etc.",
        ),
        (
            ExecutionFailureStatus::VMVerificationOrDeserializationError,
            "Move Bytecode Verification Error. Please run the Bytecode Verifier for more information.",
        ),
        (ExecutionFailureStatus::VMInvariantViolation, "MOVE VM INVARIANT VIOLATION."),
    ];
    for (failure, expected) in cases {
        assert_eq!(failure.to_string(), expected);
    }
}

#[test]
fn failures_with_data_name_the_objects() {
    assert_eq!(
        ExecutionFailureStatus::entry_argument_error(3, EntryArgumentErrorKind::TypeMismatch)
            .to_string(),
        "Entry Argument Type Error. Error for argument at index 3: Type mismatch."
    );
    assert_eq!(
        ExecutionFailureStatus::circular_object_ownership(oid(1)).to_string(),
        format!(
            "Circular  Object Ownership. Circular object ownership, including object {}.",
            id_text(1)
        )
    );
    assert_eq!(
        ExecutionFailureStatus::missing_object_owner(oid(1), SuiAddress([2; 20])).to_string(),
        format!(
            "Missing Object Owner. Missing object owner, the parent object 0x{} for child object {}.",
            "02".repeat(20),
            id_text(1)
        )
    );
    assert_eq!(
        ExecutionFailureStatus::invalid_shared_child_use(oid(1), oid(2)).to_string(),
        format!(
            "Invalid Shared Child Object Usage. When a child object (either direct or indirect) of a shared object is passed by-value to an entry function, either the child object's type or the shared object's type must be defined in the same module as the called function. This is violated by object {}, whose ancestor {} is a shared object, and neither are defined in this module..",
            id_text(1),
            id_text(2)
        )
    );
    assert_eq!(
        ExecutionFailureStatus::invalid_shared_by_value(oid(1)).to_string(),
        format!(
            "Invalid Shared Object By-Value Usage. When a shared object is passed as an owned Move value in an entry function, either the the shared object's type must be defined in the same module as the called function. The shared object {} is not defined in this module.",
            id_text(1)
        )
    );
    assert_eq!(
        ExecutionFailureStatus::TooManyChildObjects { object: oid(1) }.to_string(),
        format!(
            "Object {} has too many child objects. The number of child objects cannot exceed 2^32 - 1.",
            id_text(1)
        )
    );
    let deletions = [
        (Some(DeleteKind::Normal), "deleted"),
        (Some(DeleteKind::UnwrapThenDelete), "unwrapped then deleted"),
        (Some(DeleteKind::Wrap), "wrapped in another object"),
        (None, "created and destroyed"),
    ];
    for (kind, method) in deletions {
        assert_eq!(
            ExecutionFailureStatus::InvalidParentDeletion { parent: oid(1), kind }.to_string(),
            format!(
                "Invalid Deletion of Parent Object with Children. Parent object {} was {} before its children were deleted or transferred.",
                id_text(1),
                method
            )
        );
    }
    assert_eq!(
        ExecutionFailureStatus::InvalidParentFreezing { parent: oid(1) }.to_string(),
        format!(
            "Invalid Freezing of Parent Object with Children. Parent object {} was made immutable before its children were deleted or transferred.",
            id_text(1)
        )
    );
    let module = ModuleId::new(AccountAddress([0; 20]), Identifier::new(b"m".to_vec()).unwrap());
    assert_eq!(
        ExecutionFailureStatus::MoveAbort(module, 42).to_string(),
        format!("Move Runtime Abort. Module: {}::m, Status Code: 42", "00".repeat(20))
    );
}

#[test]
fn the_parts_of_failures_have_their_own_texts() {
    let kinds = [
        (EntryArgumentErrorKind::TypeMismatch, "Type mismatch."),
        (
            EntryArgumentErrorKind::InvalidObjectByValue,
            "Immutable and shared objects cannot be passed by-value.",
        ),
        (
            EntryArgumentErrorKind::InvalidObjectByMuteRef,
            "Immutable objects cannot be passed by mutable reference, &mut.",
        ),
        (
            EntryArgumentErrorKind::ObjectKindMismatch,
            "Mismtach with object argument kind and its actual kind.",
        ),
        (
            EntryArgumentErrorKind::UnsupportedPureArg,
            "Unsupported non-object argument; if it is an object, it must be populated by an object ID.",
        ),
        (
            EntryArgumentErrorKind::ArityMismatch,
            "Mismatch between the number of actual versus expected argument.",
        ),
    ];
    for (kind, expected) in kinds {
        assert_eq!(kind.to_string(), expected);
    }
    assert_eq!(
        EntryArgumentError { argument_idx: 255, kind: EntryArgumentErrorKind::ArityMismatch }
            .to_string(),
        "Error for argument at index 255: Mismatch between the number of actual versus expected argument."
    );
    assert_eq!(
        CircularObjectOwnership { object: oid(1) }.to_string(),
        format!("Circular object ownership, including object {}.", id_text(1))
    );
    assert_eq!(
        MissingObjectOwner { child: oid(1), parent: SuiAddress([0; 20]) }.to_string(),
        format!(
            "Missing object owner, the parent object 0x{} for child object {}.",
            "00".repeat(20),
            id_text(1)
        )
    );
    assert!(InvalidSharedChildUse { child: oid(1), ancestor: oid(2) }
        .to_string()
        .ends_with("is a shared object, and neither are defined in this module."));
    assert!(InvalidSharedByValue { object: oid(1) }
        .to_string()
        .ends_with(" is not defined in this module"));
}

#[test]
fn single_transactions_are_described_line_by_line() {
    let digest_hex = "07".repeat(32);
    let transfer = SingleTransactionKind::TransferObject(TransferObject {
        recipient: SuiAddress([1; 20]),
        object_ref: (oid(2), SequenceNumber::from_u64(5), ObjectDigest([7; 32])),
    });
    assert_eq!(
        transfer.to_string(),
        format!(
            "Transaction Kind : Transfer Object\nRecipient : 0x{}\nObject ID : {}\nSequence Number : SequenceNumber(5)\nObject Digest : {}\n",
            "01".repeat(20),
            id_text(2),
            digest_hex
        )
    );
    let all = SingleTransactionKind::TransferSui(TransferSui {
        recipient: SuiAddress([1; 20]),
        amount: None,
    });
    assert_eq!(
        all.to_string(),
        format!("Transaction Kind : Transfer SUI\nRecipient : 0x{}\nAmount: Full Balance\n", "01".repeat(20))
    );
    let some = SingleTransactionKind::TransferSui(TransferSui {
        recipient: SuiAddress([1; 20]),
        amount: Some(12),
    });
    assert!(some.to_string().ends_with("Amount: 12\n"));
    let pay = SingleTransactionKind::Pay(Pay {
        coins: vec![(oid(2), SequenceNumber::from_u64(5), ObjectDigest([7; 32]))],
        recipients: vec![SuiAddress([1; 20]), SuiAddress([2; 20])],
        amounts: vec![3, 4],
    });
    assert_eq!(
        pay.to_string(),
        format!(
            "Transaction Kind : Pay\nCoins:\nObject ID : {}\nSequence Number : SequenceNumber(5)\nObject Digest : {}\nRecipients:\n0x{}\n0x{}\nAmounts:\n3\n4\n",
            id_text(2),
            digest_hex,
            "01".repeat(20),
            "02".repeat(20)
        )
    );
    let publish =
        SingleTransactionKind::Publish(MoveModulePublish { modules: vec![], compiled: vec![] });
    assert_eq!(publish.to_string(), "Transaction Kind : Publish\n");
    let change = SingleTransactionKind::ChangeEpoch(ChangeEpoch {
        epoch: 7,
        storage_charge: 1000,
        computation_charge: 500,
    });
    assert_eq!(
        change.to_string(),
        "Transaction Kind: Epoch Change\nNew epoch ID: 7\nStorage gas reward: 1000\nComputation gas reward: 500\n"
    );
    let call = SingleTransactionKind::Call(MoveCall {
        package: (oid(2), SequenceNumber::from_u64(1), ObjectDigest([0; 32])),
        module: Identifier::new(b"coin".to_vec()).unwrap(),
        function: Identifier::new(b"split".to_vec()).unwrap(),
        type_arguments: vec![],
        arguments: vec![],
    });
    assert_eq!(
        call.to_string(),
        "Transaction Kind : Call\nPackage ID : 0x2\nModule : coin\nFunction : split\nArguments : []\nType Arguments : []\n"
    );
    let batch = TransactionKind::Batch(vec![publish.clone(), change.clone()]);
    assert_eq!(
        batch.to_string(),
        format!(
            "Transaction Kind : Batch\nList of transactions in the batch:\n{}\n{}\n",
            publish.to_string(),
            change.to_string()
        )
    );
    assert_eq!(TransactionKind::Single(change.clone()).to_string(), change.to_string());
}

#[test]
fn effects_are_described_section_by_section() {
    let owner = Owner::AddressOwner(SuiAddress([1; 20]));
    let object = (oid(2), SequenceNumber::from_u64(5), ObjectDigest([7; 32]));
    let effects = TransactionEffects {
        status: ExecutionStatus::Success,
        gas_used: GasCostSummary { computation_cost: 0, storage_cost: 0, storage_rebate: 0 },
        shared_objects: vec![],
        transaction_digest: TransactionDigest([0; 32]),
        created: vec![(object, owner)],
        mutated: vec![],
        unwrapped: vec![(object, Owner::Shared)],
        deleted: vec![object],
        wrapped: vec![],
        gas_object: (object, owner),
        events: vec![],
        dependencies: vec![],
    };
    assert_eq!(
        effects.to_string(),
        format!(
            "Status : Success\nCreated Objects:\n  - ID: {id} , Owner: Account Address ( 0x{a} )\nDeleted Objects:\n  - ID: {id}\nUnwrapped Objects:\n  - ID: {id} , Owner: Shared\n",
            id = id_text(2),
            a = "01".repeat(20)
        )
    );
    assert_eq!(Owner::Immutable.to_string(), "Immutable");
    assert_eq!(
        Owner::ObjectOwner(SuiAddress([3; 20])).to_string(),
        format!("Object ID: ( 0x{} )", "03".repeat(20))
    );
}
