use sui_types::base_types::{
    sui_system_state_object_id, AccountAddress, ObjectDigest, ObjectID, ObjectRef, SequenceNumber,
    SuiAddress,
};
use sui_types::error::SuiError;
use sui_types::move_types::{CompiledModule, Identifier, ModuleId, TypeTag};
use sui_types::transaction::{
    CallArg, ChangeEpoch, InputObjectKind, MoveCall, MoveModulePublish, ObjectArg, Pay,
    SingleTransactionKind, TransactionKind, TransferObject, TransferSui,
};
use sui_types::transaction_data::TransactionData;

fn oid(last: u8) -> ObjectID {
    let mut bytes = [0u8; 20];
    bytes[19] = last;
    ObjectID(bytes)
}

fn oref(last: u8) -> ObjectRef {
    (oid(last), SequenceNumber::from_u64(last as u64), ObjectDigest([last; 32]))
}

fn addr(fill: u8) -> SuiAddress {
    SuiAddress([fill; 20])
}

fn ident(name: &str) -> Identifier {
    Identifier::new(name.as_bytes().to_vec()).unwrap()
}

fn call(arguments: Vec<CallArg>) -> SingleTransactionKind {
    SingleTransactionKind::Call(MoveCall {
        package: oref(0x50),
        module: ident("coin"),
        function: ident("split"),
        type_arguments: vec![TypeTag::u64()],
        arguments,
    })
}

fn transfer_object(last: u8) -> SingleTransactionKind {
    SingleTransactionKind::TransferObject(TransferObject { recipient: addr(9), object_ref: oref(last) })
}

fn invalid_batch_message(result: Result<(), SuiError>) -> String {
    match result {
        Err(SuiError::InvalidBatchTransaction { error }) => error,
        other => panic!("expected an invalid batch, got {:?}", other),
    }
}

#[test]
fn an_empty_batch_is_invalid() {
    let kind = TransactionKind::Batch(vec![]);
    assert_eq!(invalid_batch_message(kind.validity_check()), "Batch Transaction cannot be empty");
}

#[test]
fn a_batch_with_a_transfer_of_sui_is_invalid() {
    let kind = TransactionKind::Batch(vec![
        call(vec![]),
        SingleTransactionKind::TransferSui(TransferSui { recipient: addr(1), amount: None }),
    ]);
    assert_eq!(
        invalid_batch_message(kind.validity_check()),
        "Batch transaction contains non-batchable transactions. Only Call and TransferObject are allowed"
    );
}

#[test]
fn a_batch_with_a_publication_is_invalid() {
    let publish =
        SingleTransactionKind::Publish(MoveModulePublish { modules: vec![], compiled: vec![] });
    let kind = TransactionKind::Batch(vec![publish]);
    assert!(matches!(kind.validity_check(), Err(SuiError::InvalidBatchTransaction { .. })));
}

#[test]
fn a_batch_with_a_change_of_epoch_is_invalid() {
    let change = SingleTransactionKind::ChangeEpoch(ChangeEpoch {
        epoch: 1,
        storage_charge: 2,
        computation_charge: 3,
    });
    let kind = TransactionKind::Batch(vec![transfer_object(1), change]);
    assert!(matches!(kind.validity_check(), Err(SuiError::InvalidBatchTransaction { .. })));
}

#[test]
fn a_batch_of_calls_transfers_and_payments_is_valid() {
    let pay = SingleTransactionKind::Pay(Pay {
        coins: vec![oref(3)],
        recipients: vec![addr(1)],
        amounts: vec![7],
    });
    let kind = TransactionKind::Batch(vec![call(vec![]), transfer_object(1), pay]);
    assert_eq!(kind.validity_check(), Ok(()));
    assert_eq!(kind.batch_size(), 3);
    assert!(!kind.is_system_tx());
}

#[test]
fn every_single_transaction_is_valid_as_a_kind() {
    let change = SingleTransactionKind::ChangeEpoch(ChangeEpoch {
        epoch: 1,
        storage_charge: 2,
        computation_charge: 3,
    });
    let kind = TransactionKind::Single(change);
    assert_eq!(kind.validity_check(), Ok(()));
    assert_eq!(kind.batch_size(), 1);
    assert!(kind.is_system_tx());
    assert!(kind.is_change_epoch_tx());
}

#[test]
fn a_payment_keeps_lists_of_different_lengths() {
    let data = TransactionData::new_pay(
        addr(1),
        vec![oref(1)],
        vec![addr(2), addr(3)],
        vec![5],
        oref(9),
        100,
    );
    match &data.kind {
        TransactionKind::Single(SingleTransactionKind::Pay(pay)) => {
            assert_eq!(pay.recipients.len(), 2);
            assert_eq!(pay.amounts, vec![5]);
        }
        other => panic!("expected a payment, got {:?}", other),
    }
    assert_eq!(data.kind.validity_check(), Ok(()));
    assert_eq!(
        data.input_objects(),
        Ok(vec![
            InputObjectKind::ImmOrOwnedMoveObject(oref(1)),
            InputObjectKind::ImmOrOwnedMoveObject(oref(9))
        ])
    );
}

#[test]
fn a_change_of_epoch_has_the_system_state_as_its_only_input() {
    let kind = TransactionKind::Single(SingleTransactionKind::ChangeEpoch(ChangeEpoch {
        epoch: 7,
        storage_charge: 1000,
        computation_charge: 500,
    }));
    let data = TransactionData::new(
        kind,
        SuiAddress::default(),
        (ObjectID::zero(), SequenceNumber::default(), ObjectDigest::min()),
        0,
    );
    assert_eq!(
        data.input_objects(),
        Ok(vec![InputObjectKind::SharedMoveObject(sui_system_state_object_id())])
    );
    assert_eq!(sui_system_state_object_id().0[19], 5);
    assert_eq!(data.kind.shared_input_objects(), vec![sui_system_state_object_id()]);
    match &data.kind {
        TransactionKind::Single(single) => {
            assert!(single.contains_shared_object());
            assert_eq!(single.shared_input_objects(), vec![sui_system_state_object_id()]);
        },
        TransactionKind::Batch(_) => panic!("a single transaction was built"),
    }
}

#[test]
fn a_call_names_its_arguments_then_its_package_then_the_gas() {
    let arguments = vec![
        CallArg::Pure(vec![1, 2, 3]),
        CallArg::Object(ObjectArg::ImmOrOwnedObject(oref(1))),
        CallArg::Object(ObjectArg::SharedObject(oid(2))),
        CallArg::ObjVec(vec![ObjectArg::SharedObject(oid(3)), ObjectArg::ImmOrOwnedObject(oref(4))]),
    ];
    let data = TransactionData::new_move_call(
        addr(1),
        oref(0x50),
        ident("coin"),
        ident("split"),
        vec![],
        oref(0x60),
        arguments,
        1000,
    );
    assert_eq!(
        data.input_objects(),
        Ok(vec![
            InputObjectKind::ImmOrOwnedMoveObject(oref(1)),
            InputObjectKind::SharedMoveObject(oid(2)),
            InputObjectKind::SharedMoveObject(oid(3)),
            InputObjectKind::ImmOrOwnedMoveObject(oref(4)),
            InputObjectKind::MovePackage(oid(0x50)),
            InputObjectKind::ImmOrOwnedMoveObject(oref(0x60)),
        ])
    );
    assert_eq!(data.kind.shared_input_objects(), vec![oid(2), oid(3)]);
    assert_eq!(data.move_calls().len(), 1);
    assert_eq!(data.move_calls()[0].package, oref(0x50));
    assert_eq!(data.kind_as_str(), "Single");
    assert_eq!(data.gas(), oref(0x60));
    assert_eq!(data.signer(), addr(1));
    assert_eq!(data.gas_price, 1);
}

#[test]
fn an_object_that_is_argument_and_gas_is_a_duplicate() {
    let data = TransactionData::new_transfer(addr(2), oref(1), addr(1), oref(1), 10);
    assert_eq!(data.input_objects(), Err(SuiError::DuplicateObjectRefInput));
}

#[test]
fn a_shared_object_named_twice_in_one_call_is_a_duplicate() {
    let single = call(vec![
        CallArg::Object(ObjectArg::SharedObject(oid(2))),
        CallArg::ObjVec(vec![ObjectArg::SharedObject(oid(2))]),
    ]);
    assert_eq!(single.input_objects(), Err(SuiError::DuplicateObjectRefInput));
    assert!(single.contains_shared_object());
    assert_eq!(single.shared_input_objects(), vec![oid(2), oid(2)]);
}

#[test]
fn a_batch_refuses_a_member_with_duplicates_and_concatenates_the_rest() {
    let good = TransactionKind::Batch(vec![transfer_object(1), transfer_object(2)]);
    assert_eq!(
        good.input_objects(),
        Ok(vec![
            InputObjectKind::ImmOrOwnedMoveObject(oref(1)),
            InputObjectKind::ImmOrOwnedMoveObject(oref(2))
        ])
    );
    let pay = SingleTransactionKind::Pay(Pay {
        coins: vec![oref(3), oref(3)],
        recipients: vec![],
        amounts: vec![],
    });
    let bad = TransactionKind::Batch(vec![transfer_object(1), pay]);
    assert_eq!(bad.input_objects(), Err(SuiError::DuplicateObjectRefInput));
    let data = TransactionData::new(good, addr(1), oref(9), 5);
    assert_eq!(data.kind_as_str(), "Batch");
    assert_eq!(data.input_objects().unwrap().len(), 3);
}

fn module(address: u8, name: &str, handles: &[(u8, &str)]) -> CompiledModule {
    CompiledModule {
        self_id: ModuleId::new(AccountAddress([address; 20]), ident(name)),
        module_handles: handles
            .iter()
            .map(|(a, n)| ModuleId::new(AccountAddress([*a; 20]), ident(n)))
            .collect(),
    }
}

#[test]
fn a_publication_depends_on_the_packages_of_foreign_handles() {
    // Two modules of one package refer to each other, to themselves, and to modules
    // at the addresses 7 and 2; the address 7 is named twice.
    let compiled = vec![
        module(0, "a", &[(0, "a"), (0, "b"), (7, "x"), (2, "y")]),
        module(0, "b", &[(0, "b"), (7, "z"), (0, "a")]),
    ];
    let data = TransactionData::new_module(
        addr(1),
        oref(9),
        vec![vec![1], vec![2], vec![0xff]],
        compiled,
        100,
    );
    assert_eq!(
        data.input_objects(),
        Ok(vec![
            InputObjectKind::MovePackage(ObjectID([2; 20])),
            InputObjectKind::MovePackage(ObjectID([7; 20])),
            InputObjectKind::ImmOrOwnedMoveObject(oref(9)),
        ])
    );
}

#[test]
fn a_handle_to_a_module_of_the_same_name_elsewhere_is_foreign() {
    let compiled = vec![module(0, "a", &[(0, "a"), (3, "a")])];
    let publish = SingleTransactionKind::Publish(MoveModulePublish { modules: vec![], compiled });
    assert_eq!(
        publish.input_objects(),
        Ok(vec![InputObjectKind::MovePackage(ObjectID([3; 20]))])
    );
}

#[test]
fn a_transfer_of_sui_has_no_input_of_its_own() {
    let data = TransactionData::new_transfer_sui(addr(2), addr(1), Some(5), oref(9), 10);
    assert_eq!(data.input_objects(), Ok(vec![InputObjectKind::ImmOrOwnedMoveObject(oref(9))]));
    let custom = TransactionData::new_with_gas_price(
        TransactionKind::Single(SingleTransactionKind::TransferSui(TransferSui {
            recipient: addr(2),
            amount: None,
        })),
        addr(1),
        oref(9),
        10,
        3,
    );
    assert_eq!(custom.gas_price, 3);
    assert_eq!(custom.gas_budget, 10);
}

#[test]
fn identifiers_follow_the_rules_of_move() {
    assert!(Identifier::new(b"coin".to_vec()).is_some());
    assert!(Identifier::new(b"Coin_2".to_vec()).is_some());
    assert!(Identifier::new(b"_x".to_vec()).is_some());
    assert!(Identifier::new(b"<SELF>".to_vec()).is_some());
    assert!(Identifier::new(b"".to_vec()).is_none());
    assert!(Identifier::new(b"_".to_vec()).is_none());
    assert!(Identifier::new(b"2coin".to_vec()).is_none());
    assert!(Identifier::new(b"co in".to_vec()).is_none());
    assert!(Identifier::new(b"<SELF".to_vec()).is_none());
    assert_eq!(ident("coin").as_bytes(), b"coin");
}

#[test]
fn input_kinds_give_their_identifier_version_and_error() {
    let package = InputObjectKind::MovePackage(oid(1));
    let owned = InputObjectKind::ImmOrOwnedMoveObject(oref(2));
    let shared = InputObjectKind::SharedMoveObject(oid(3));
    assert_eq!(package.object_id(), oid(1));
    assert_eq!(owned.object_id(), oid(2));
    assert_eq!(shared.object_id(), oid(3));
    assert_eq!(package.version(), SequenceNumber::from_u64(1));
    assert_eq!(owned.version(), SequenceNumber::from_u64(2));
    assert_eq!(shared.version(), SequenceNumber::from_u64(1));
    assert_eq!(
        package.object_not_found_error(),
        SuiError::DependentPackageNotFound { package_id: oid(1) }
    );
    assert_eq!(owned.object_not_found_error(), SuiError::ObjectNotFound { object_id: oid(2) });
    assert_eq!(shared.object_not_found_error(), SuiError::ObjectNotFound { object_id: oid(3) });
}

#[test]
fn type_tags_are_held_in_their_encoding() {
    assert_eq!(TypeTag::bool().as_bytes(), [0]);
    assert_eq!(TypeTag::u8().as_bytes(), [1]);
    assert_eq!(TypeTag::u64().as_bytes(), [2]);
    assert_eq!(TypeTag::u128().as_bytes(), [3]);
    assert_eq!(TypeTag::address().as_bytes(), [4]);
    assert_eq!(TypeTag::signer().as_bytes(), [5]);
    assert_eq!(TypeTag::vector(&TypeTag::vector(&TypeTag::u8())).as_bytes(), [6, 6, 1]);
    let coin = TypeTag::struct_tag(
        AccountAddress([2; 20]),
        &ident("coin"),
        &ident("Coin"),
        &vec![TypeTag::u64()],
    );
    let mut expected = vec![7u8];
    expected.extend_from_slice(&[2; 20]);
    expected.extend_from_slice(&[4, b'c', b'o', b'i', b'n']);
    expected.extend_from_slice(&[4, b'C', b'o', b'i', b'n']);
    expected.extend_from_slice(&[1, 2]);
    assert_eq!(coin.as_bytes(), expected.as_slice());
}

#[test]
fn the_shared_inputs_are_the_shared_entries_of_the_inputs_in_order() {
    let first = call(vec![
        CallArg::Object(ObjectArg::ImmOrOwnedObject(oref(1))),
        CallArg::ObjVec(vec![ObjectArg::SharedObject(oid(2)), ObjectArg::SharedObject(oid(3))]),
    ]);
    let second = call(vec![CallArg::Pure(vec![9]), CallArg::Object(ObjectArg::SharedObject(oid(4)))]);
    let pay = SingleTransactionKind::Pay(Pay {
        coins: vec![oref(5)],
        recipients: vec![addr(1)],
        amounts: vec![1],
    });
    let kind = TransactionKind::Batch(vec![first, transfer_object(6), second, pay]);
    let shared: Vec<ObjectID> = kind
        .input_objects()
        .unwrap_or_default()
        .iter()
        .filter_map(|input| match input {
            InputObjectKind::SharedMoveObject(id) => Some(*id),
            _ => None,
        })
        .collect();
    assert_eq!(kind.shared_input_objects(), vec![oid(2), oid(3), oid(4)]);
    assert_eq!(kind.shared_input_objects(), shared);

    assert!(!transfer_object(1).contains_shared_object());
    assert_eq!(transfer_object(1).shared_input_objects(), Vec::<ObjectID>::new());
    let sui = SingleTransactionKind::TransferSui(TransferSui { recipient: addr(1), amount: None });
    assert!(!sui.contains_shared_object());
    let publication = SingleTransactionKind::Publish(MoveModulePublish {
        modules: vec![],
        compiled: vec![module(1, "a", &[(2, "b")])],
    });
    assert_eq!(publication.input_objects().unwrap().len(), 1);
    assert!(!publication.contains_shared_object());
}
