use sui_types::base_types::{
    AuthorityName, ObjectDigest, ObjectID, ObjectRef, SequenceNumber, SuiAddress,
};
use sui_types::certified::{CertifiedTransaction, SignedTransaction, Transaction};
use sui_types::codec::Encode;
use sui_types::committee::Committee;
use sui_types::crypto::{AuthoritySignature, Signature, AUTHORITY_DST};
use sui_types::move_types::{Identifier, TypeTag};
use sui_types::reading::{decode_all, read_bytes, read_len, Decode};
use sui_types::transaction::{
    CallArg, ChangeEpoch, MoveCall, MoveModulePublish, ObjectArg, Pay, SingleTransactionKind,
    TransactionKind, TransferObject, TransferSui,
};
use sui_types::transaction_data::TransactionData;

fn oid(last: u8) -> ObjectID {
    let mut bytes = [0u8; 20];
    bytes[19] = last;
    ObjectID(bytes)
}

fn oref(last: u8) -> ObjectRef {
    (oid(last), SequenceNumber::from_u64(last as u64), ObjectDigest([last; 32]))
}

fn ident(name: &str) -> Identifier {
    Identifier::new(name.as_bytes().to_vec()).unwrap()
}

fn every_kind() -> Vec<SingleTransactionKind> {
    vec![
        SingleTransactionKind::TransferObject(TransferObject {
            recipient: SuiAddress([1; 20]),
            object_ref: oref(1),
        }),
        SingleTransactionKind::Publish(MoveModulePublish {
            modules: vec![vec![1, 2, 3], vec![], vec![0xff; 200]],
            compiled: vec![],
        }),
        SingleTransactionKind::Call(MoveCall {
            package: oref(2),
            module: ident("coin"),
            function: ident("split_vec"),
            type_arguments: vec![TypeTag::u64(), TypeTag::vector(&TypeTag::address())],
            arguments: vec![
                CallArg::Pure(vec![7; 130]),
                CallArg::Object(ObjectArg::ImmOrOwnedObject(oref(3))),
                CallArg::Object(ObjectArg::SharedObject(oid(4))),
                CallArg::ObjVec(vec![ObjectArg::SharedObject(oid(5)), ObjectArg::ImmOrOwnedObject(oref(6))]),
                CallArg::ObjVec(vec![]),
            ],
        }),
        SingleTransactionKind::TransferSui(TransferSui { recipient: SuiAddress([2; 20]), amount: None }),
        SingleTransactionKind::TransferSui(TransferSui {
            recipient: SuiAddress([2; 20]),
            amount: Some(u64::MAX),
        }),
        SingleTransactionKind::Pay(Pay {
            coins: vec![oref(7), oref(8)],
            recipients: vec![SuiAddress([3; 20])],
            amounts: vec![1, 2, 3],
        }),
        SingleTransactionKind::ChangeEpoch(ChangeEpoch {
            epoch: 9,
            storage_charge: 10,
            computation_charge: 11,
        }),
    ]
}

fn data(kind: TransactionKind) -> TransactionData {
    TransactionData::new_with_gas_price(kind, SuiAddress([8; 20]), oref(9), 1000, 3)
}

fn authority(seed: u8) -> (blst::min_sig::SecretKey, AuthorityName) {
    let secret = blst::min_sig::SecretKey::key_gen(&[seed; 32], &[]).unwrap();
    let name = AuthorityName(secret.sk_to_pk().to_bytes());
    (secret, name)
}

fn sign(secret: &blst::min_sig::SecretKey, message: &[u8]) -> AuthoritySignature {
    AuthoritySignature(secret.sign(message, AUTHORITY_DST.as_bytes(), &[]).to_bytes())
}

#[test]
fn every_single_transaction_reads_back() {
    for kind in every_kind() {
        let mut bytes = Vec::new();
        kind.encode(&mut bytes);
        assert_eq!(decode_all::<SingleTransactionKind>(&bytes), Some(kind.clone()));
        let single = data(TransactionKind::Single(kind));
        assert_eq!(TransactionData::from_bytes(&single.to_bytes()), Some(single));
    }
    let batch = data(TransactionKind::Batch(every_kind()));
    assert_eq!(TransactionData::from_bytes(&batch.to_bytes()), Some(batch));
    let empty = data(TransactionKind::Batch(vec![]));
    assert_eq!(TransactionData::from_bytes(&empty.to_bytes()), Some(empty));
}

#[test]
fn what_was_read_of_published_modules_is_not_encoded() {
    let compiled = sui_types::move_types::CompiledModule {
        self_id: sui_types::move_types::ModuleId::new(
            sui_types::base_types::AccountAddress([0; 20]),
            ident("m"),
        ),
        module_handles: vec![],
    };
    let with = TransactionData::new_module(SuiAddress([1; 20]), oref(1), vec![vec![1]], vec![compiled], 5);
    let without = TransactionData::new_module(SuiAddress([1; 20]), oref(1), vec![vec![1]], vec![], 5);
    assert_eq!(with.to_bytes(), without.to_bytes());
    assert_eq!(TransactionData::from_bytes(&with.to_bytes()), Some(without));
}

#[test]
fn bytes_that_are_cut_short_or_go_on_are_refused() {
    let bytes = data(TransactionKind::Batch(every_kind())).to_bytes();
    for cut in 0..bytes.len() {
        assert_eq!(TransactionData::from_bytes(&bytes[..cut]), None, "cut at {}", cut);
    }
    let mut longer = bytes.clone();
    longer.push(0);
    assert_eq!(TransactionData::from_bytes(&longer), None);
    assert!(TransactionData::from_bytes(&bytes).is_some());
}

#[test]
fn unknown_variants_are_refused() {
    let single = data(TransactionKind::Single(every_kind().remove(0)));
    let mut bytes = single.to_bytes();
    bytes[0] = 2;
    assert_eq!(TransactionData::from_bytes(&bytes), None);
    let mut bytes = single.to_bytes();
    bytes[1] = 6;
    assert_eq!(TransactionData::from_bytes(&bytes), None);
    assert_eq!(decode_all::<ObjectArg>(&[2]), None);
    assert_eq!(decode_all::<CallArg>(&[3, 0]), None);
    let mut amount = vec![3u8];
    amount.extend_from_slice(&[2; 20]);
    amount.push(2);
    assert_eq!(decode_all::<SingleTransactionKind>(&amount), None);
}

#[test]
fn lengths_are_read_in_their_shortest_form_only() {
    assert_eq!(read_len(&[0], 0), Some((0, 1)));
    assert_eq!(read_len(&[9, 0x7f], 1), Some((127, 2)));
    assert_eq!(read_len(&[0x80, 1], 0), Some((128, 2)));
    assert_eq!(read_len(&[0xac, 2, 5], 0), Some((300, 2)));
    assert_eq!(read_len(&[0x80, 0x80, 1], 0), Some((16384, 3)));
    assert_eq!(read_len(&[], 0), None);
    assert_eq!(read_len(&[0x80], 0), None);
    // Zero in two bytes and one hundred and twenty-eight in three are not shortest.
    assert_eq!(read_len(&[0x80, 0], 0), None);
    assert_eq!(read_len(&[0x80, 0x81, 0], 0), None);
    // More than a usize holds.
    assert_eq!(read_len(&[0xff, 0xff, 0xff, 0xff, 0xff, 0xff, 0xff, 0xff, 0xff, 0x03], 0), None);
    assert_eq!(
        read_len(&[0xff, 0xff, 0xff, 0xff, 0xff, 0xff, 0xff, 0xff, 0xff, 0x01], 0),
        Some((usize::MAX, 10))
    );
    assert_eq!(read_bytes(&[2, 7, 8, 9], 0), Some((vec![7, 8], 3)));
    assert_eq!(read_bytes(&[3, 7, 8], 0), None);
}

#[test]
fn names_that_are_no_identifiers_are_refused() {
    assert_eq!(decode_all::<Identifier>(&[4, b'c', b'o', b'i', b'n']), Some(ident("coin")));
    assert_eq!(decode_all::<Identifier>(&[4, b'c', b'o', b' ', b'n']), None);
    assert_eq!(decode_all::<Identifier>(&[0]), None);
    assert_eq!(Identifier::decode(&[1, b'a', 9], 0), Some((ident("a"), 2)));
}

#[test]
fn envelopes_read_back_in_their_own_state_only() {
    let transfer = data(TransactionKind::Single(every_kind().remove(0)));
    let mut signature = [0u8; 97];
    signature[5] = 9;
    let transaction = Transaction::new(transfer, Signature::from_bytes(&signature).unwrap());
    let plain = transaction.to_bytes();
    assert!(Transaction::from_bytes(&plain) == Some(transaction.clone()));
    assert!(SignedTransaction::from_bytes(&plain).is_none());
    assert!(CertifiedTransaction::from_bytes(&plain).is_none());

    let keys: Vec<_> = (1..=4u8).map(authority).collect();
    let message = transaction.signed_data().to_bytes();
    let signed = SignedTransaction::new(3, transaction.clone(), keys[0].1, sign(&keys[0].0, &message));
    let bytes = signed.to_bytes();
    assert!(SignedTransaction::from_bytes(&bytes) == Some(signed.clone()));
    assert!(Transaction::from_bytes(&bytes).is_none());
    assert!(CertifiedTransaction::from_bytes(&bytes).is_none());
    assert!(SignedTransaction::from_bytes(&bytes[..bytes.len() - 1]).is_none());

    let committee = Committee::new(3, keys.iter().map(|(_, n)| (*n, 1)).collect()).unwrap();
    let signatures = keys.iter().skip(1).map(|(s, n)| (*n, sign(s, &message))).collect();
    let certificate =
        CertifiedTransaction::new_with_signatures(transaction.clone(), signatures, &committee).unwrap();
    let bytes = certificate.to_bytes();
    let read = CertifiedTransaction::from_bytes(&bytes).unwrap();
    assert!(read == certificate);
    assert_eq!(read.auth_sign_info().signature, certificate.auth_sign_info().signature);
    assert_eq!(read.epoch(), 3);
    assert_eq!(read.verify(&committee), certificate.verify(&committee));
    assert!(!read.is_verified());
    assert!(Transaction::from_bytes(&bytes).is_none());
    assert!(SignedTransaction::from_bytes(&bytes).is_none());

    let mut marked = transaction.clone();
    marked.set_verified(true);
    assert!(!Transaction::from_bytes(&marked.to_bytes()).unwrap().is_verified());
}

#[test]
fn signers_must_increase() {
    let transfer = data(TransactionKind::Single(every_kind().remove(0)));
    let transaction = Transaction::new(transfer, Signature::sentinel());
    let empty = CertifiedTransaction::new(5, transaction);
    let bytes = empty.to_bytes();
    let head = bytes[..bytes.len() - 1].to_vec();
    let with = |signers: &[u64]| {
        let mut bytes = head.clone();
        bytes.push(signers.len() as u8);
        for s in signers {
            bytes.extend_from_slice(&s.to_le_bytes());
        }
        bytes
    };
    let signers = |bytes: &[u8]| {
        CertifiedTransaction::from_bytes(bytes)
            .map(|c| c.auth_sign_info().signers_map.iter().collect::<Vec<u32>>())
    };
    assert_eq!(signers(&with(&[])), Some(vec![]));
    assert_eq!(signers(&with(&[0, 2, u32::MAX as u64])), Some(vec![0, 2, u32::MAX]));
    assert_eq!(signers(&with(&[2, 0])), None);
    assert_eq!(signers(&with(&[1, 1])), None);
    assert_eq!(signers(&with(&[u32::MAX as u64 + 1])), None);
    let mut short = with(&[1, 2]);
    short.pop();
    assert_eq!(signers(&short), None);
}
