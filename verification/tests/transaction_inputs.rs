use sui_types::base_types::{ObjectDigest, ObjectID, SequenceNumber, SuiAddress};
use sui_types::error::SuiError;
use sui_types::transaction::InputObjectKind;
use sui_types::transaction_data::TransactionData;

fn id(last: u8) -> ObjectID {
    let mut bytes = [0u8; 20];
    bytes[19] = last;
    ObjectID(bytes)
}

#[test]
fn pay_with_the_same_coin_twice_is_refused() {
    let coin = (id(0xA), SequenceNumber::from_u64(1), ObjectDigest([7u8; 32]));
    let gas = (id(0xB), SequenceNumber::from_u64(1), ObjectDigest([8u8; 32]));
    let data = TransactionData::new_pay(
        SuiAddress([1u8; 20]),
        vec![coin, coin],
        vec![SuiAddress([2u8; 20])],
        vec![5],
        gas,
        1000,
    );
    assert_eq!(data.input_objects(), Err(SuiError::DuplicateObjectRefInput));
}

#[test]
fn transfer_names_the_object_then_the_gas() {
    let object = (id(0x01), SequenceNumber::from_u64(5), ObjectDigest([1u8; 32]));
    let gas = (id(0x02), SequenceNumber::from_u64(1), ObjectDigest([2u8; 32]));
    let data =
        TransactionData::new_transfer(SuiAddress([2u8; 20]), object, SuiAddress([1u8; 20]), gas, 10);
    assert_eq!(
        data.input_objects(),
        Ok(vec![
            InputObjectKind::ImmOrOwnedMoveObject(object),
            InputObjectKind::ImmOrOwnedMoveObject(gas)
        ])
    );
}
