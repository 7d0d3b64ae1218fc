use sui_types::base_types::{
    ObjectDigest, ObjectID, ObjectRef, SequenceNumber, SuiAddress, TransactionDigest,
};
use sui_types::input_objects::InputObjects;
use sui_types::object::{Object, Owner};
use sui_types::transaction::InputObjectKind;

fn oid(last: u8) -> ObjectID {
    let mut bytes = [0u8; 20];
    bytes[19] = last;
    ObjectID(bytes)
}

fn oref(last: u8) -> ObjectRef {
    (oid(last), SequenceNumber::from_u64(2), ObjectDigest([last; 32]))
}

fn object(last: u8, owner: Owner, previous: u8) -> Object {
    Object {
        id: oid(last),
        version: SequenceNumber::from_u64(2),
        is_package: false,
        contents: vec![last],
        owner,
        previous_transaction: TransactionDigest([previous; 32]),
        storage_rebate: 0,
    }
}

fn address() -> Owner {
    Owner::AddressOwner(SuiAddress([1; 20]))
}

fn inputs() -> InputObjects {
    let mut package = object(1, Owner::Immutable, 30);
    package.is_package = true;
    InputObjects::new(vec![
        (InputObjectKind::MovePackage(oid(1)), package),
        (InputObjectKind::ImmOrOwnedMoveObject(oref(2)), object(2, address(), 20)),
        (InputObjectKind::ImmOrOwnedMoveObject(oref(3)), object(3, Owner::Immutable, 20)),
        (InputObjectKind::SharedMoveObject(oid(4)), object(4, Owner::Shared, 10)),
        (InputObjectKind::ImmOrOwnedMoveObject(oref(5)), object(5, address(), 30)),
    ])
}

#[test]
fn the_inputs_are_counted() {
    assert_eq!(inputs().len(), 5);
    assert!(!inputs().is_empty());
    assert!(InputObjects::new(vec![]).is_empty());
    assert_eq!(InputObjects::new(vec![]).len(), 0);
}

#[test]
fn the_owned_objects_are_those_named_by_reference_that_can_change() {
    assert_eq!(inputs().filter_owned_objects(), vec![oref(2), oref(5)]);
}

#[test]
fn the_shared_objects_are_given_by_their_computed_references() {
    let shared = object(4, Owner::Shared, 10);
    assert_eq!(inputs().filter_shared_objects(), vec![shared.compute_object_reference()]);
    assert_eq!(shared.compute_object_reference().0, oid(4));
    assert_eq!(shared.compute_object_reference().2, shared.digest());
}

#[test]
fn the_mutable_inputs_are_the_owned_and_the_shared() {
    let shared = object(4, Owner::Shared, 10);
    assert_eq!(
        inputs().mutable_inputs(),
        vec![oref(2), shared.compute_object_reference(), oref(5)]
    );
}

#[test]
fn the_dependencies_are_sorted_and_without_repetition() {
    assert_eq!(
        inputs().transaction_dependencies(),
        vec![TransactionDigest([10; 32]), TransactionDigest([20; 32]), TransactionDigest([30; 32])]
    );
    assert!(InputObjects::new(vec![]).transaction_dependencies().is_empty());
}

#[test]
fn the_object_map_is_sorted_and_the_last_entry_of_an_identifier_stands() {
    let first = object(7, address(), 1);
    let mut second = object(7, address(), 2);
    second.contents = vec![42];
    let other = object(3, address(), 3);
    let map = InputObjects::new(vec![
        (InputObjectKind::ImmOrOwnedMoveObject(oref(7)), first),
        (InputObjectKind::ImmOrOwnedMoveObject(oref(3)), other.clone()),
        (InputObjectKind::ImmOrOwnedMoveObject(oref(7)), second.clone()),
    ])
    .into_object_map();
    assert_eq!(map, vec![(oid(3), other), (oid(7), second)]);
}

#[test]
fn objects_become_the_inputs_that_they_are_by_nature() {
    let mut package = object(1, Owner::Immutable, 1);
    package.is_package = true;
    let owned = object(2, address(), 1);
    let shared = object(3, Owner::Shared, 1);
    assert_eq!(package.input_object_kind(), InputObjectKind::MovePackage(oid(1)));
    assert_eq!(
        owned.input_object_kind(),
        InputObjectKind::ImmOrOwnedMoveObject(owned.compute_object_reference())
    );
    assert_eq!(shared.input_object_kind(), InputObjectKind::SharedMoveObject(oid(3)));
    let expected_shared = shared.compute_object_reference();
    let expected_owned = owned.compute_object_reference();
    let inputs = InputObjects::from_objects(vec![package, owned, shared]);
    assert_eq!(inputs.len(), 3);
    assert_eq!(inputs.filter_shared_objects(), vec![expected_shared]);
    assert_eq!(inputs.filter_owned_objects(), vec![expected_owned]);
    assert!(object(9, Owner::Immutable, 1).is_immutable());
    assert!(!object(9, address(), 1).is_immutable());
    assert_eq!(object(9, address(), 1).id(), oid(9));
    assert_eq!(object(9, address(), 1).version(), SequenceNumber::from_u64(2));
}

#[test]
fn the_digest_of_an_object_depends_on_its_contents() {
    let a = object(1, address(), 1);
    let mut b = object(1, address(), 1);
    assert_eq!(a.digest(), b.digest());
    b.contents = vec![2];
    assert_ne!(a.digest(), b.digest());
}
