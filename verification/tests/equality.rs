use std::collections::hash_map::DefaultHasher;
use std::collections::HashSet;
use std::hash::{Hash, Hasher};
use sui_types::base_types::{
    AuthorityName, ObjectDigest, ObjectID, SequenceNumber, SuiAddress, TransactionDigest,
};
use sui_types::certified::{CertifiedTransaction, SignedTransaction, Transaction};
use sui_types::committee::Committee;
use sui_types::crypto::{AuthoritySignature, Signature, AUTHORITY_DST};
use sui_types::effects::{GasCostSummary, TransactionEffects};
use sui_types::execution_status::ExecutionStatus;
use sui_types::object::Owner;
use sui_types::sign_info::same_members;
use sui_types::transaction_data::TransactionData;

fn object(last: u8) -> (ObjectID, SequenceNumber, ObjectDigest) {
    let mut bytes = [0u8; 20];
    bytes[19] = last;
    (ObjectID(bytes), SequenceNumber::from_u64(3), ObjectDigest([last; 32]))
}

fn transaction(budget: u64) -> Transaction {
    let data = TransactionData::new_transfer(
        SuiAddress([9; 20]),
        object(1),
        SuiAddress([8; 20]),
        object(2),
        budget,
    );
    Transaction::new(data, Signature::sentinel())
}

fn authority(seed: u8) -> (blst::min_sig::SecretKey, AuthorityName) {
    let secret = blst::min_sig::SecretKey::key_gen(&[seed; 32], &[]).unwrap();
    let name = AuthorityName(secret.sk_to_pk().to_bytes());
    (secret, name)
}

fn sign(secret: &blst::min_sig::SecretKey, message: &[u8]) -> AuthoritySignature {
    AuthoritySignature(secret.sign(message, AUTHORITY_DST.as_bytes(), &[]).to_bytes())
}

#[test]
fn transactions_are_equal_by_their_signed_data_alone() {
    let mut a = transaction(10);
    let mut b = transaction(10);
    assert!(a == b);
    // Neither the kept digest nor the mark of verification takes part.
    a.digest();
    b.set_verified(true);
    assert!(a == b);
    assert!(a != transaction(11));
    assert!(a.clone() == a);
}

#[test]
fn signed_transactions_are_equal_by_data_and_signature() {
    let (secret, name) = authority(1);
    let message = transaction(10).signed_data().to_bytes();
    let signature = sign(&secret, &message);
    let a = SignedTransaction::new(0, transaction(10), name, signature);
    let b = SignedTransaction::new(0, transaction(10), name, signature);
    assert!(a == b);
    assert!(a != SignedTransaction::new(1, transaction(10), name, signature));
    assert!(a != SignedTransaction::new(0, transaction(11), name, signature));
    assert!(a != SignedTransaction::new(0, transaction(10), authority(2).1, signature));
    assert!(a != SignedTransaction::new(0, transaction(10), name, sign(&secret, b"other")));
}

#[test]
fn certificates_are_equal_by_data_and_signers() {
    let keys: Vec<_> = (1..=4u8).map(authority).collect();
    let committee = Committee::new(0, keys.iter().map(|(_, n)| (*n, 1)).collect()).unwrap();
    let message = transaction(10).signed_data().to_bytes();
    let of = |members: &[usize]| {
        let signatures = members.iter().map(|i| (keys[*i].1, sign(&keys[*i].0, &message))).collect();
        CertifiedTransaction::new_with_signatures(transaction(10), signatures, &committee).unwrap()
    };
    assert!(of(&[0, 1, 2]) == of(&[2, 1, 0]));
    assert!(of(&[0, 1, 2]) != of(&[0, 1, 3]));
    assert!(of(&[0, 1]) != of(&[0, 1, 2]));
    assert!(CertifiedTransaction::new(0, transaction(10)) == CertifiedTransaction::new(0, transaction(10)));
    assert!(CertifiedTransaction::new(0, transaction(10)) != of(&[0]));
    let a = of(&[0, 1, 2]);
    let b = of(&[0, 1, 3]);
    assert!(same_members(&a.auth_sign_info().signers_map, &a.clone().auth_sign_info().signers_map));
    assert!(!same_members(&a.auth_sign_info().signers_map, &b.auth_sign_info().signers_map));
}

#[test]
fn signed_effects_are_equal_by_effects_and_signature() {
    let owner = Owner::AddressOwner(SuiAddress([1; 20]));
    let effects = |cost: u64| TransactionEffects {
        status: ExecutionStatus::Success,
        gas_used: GasCostSummary { computation_cost: cost, storage_cost: 0, storage_rebate: 0 },
        shared_objects: vec![],
        transaction_digest: TransactionDigest([0; 32]),
        created: vec![],
        mutated: vec![(object(2), owner)],
        unwrapped: vec![],
        deleted: vec![],
        wrapped: vec![],
        gas_object: (object(2), owner),
        events: vec![],
        dependencies: vec![],
    };
    let (secret, name) = authority(1);
    let signature = sign(&secret, &effects(1).to_bytes());
    let mut a = effects(1).to_sign_effects(0, &name, signature);
    let b = effects(1).to_sign_effects(0, &name, signature);
    a.digest();
    assert!(a == b);
    assert!(a != effects(2).to_sign_effects(0, &name, signature));
    assert!(a != effects(1).to_sign_effects(1, &name, signature));
}

fn hash_of<T: Hash>(value: &T) -> u64 {
    let mut hasher = DefaultHasher::new();
    value.hash(&mut hasher);
    hasher.finish()
}

#[test]
fn transactions_that_are_equal_hash_alike() {
    let mut a = transaction(10);
    let mut b = transaction(10);
    a.digest();
    b.set_verified(true);
    assert_eq!(hash_of(&a), hash_of(&b));
    assert_ne!(hash_of(&a), hash_of(&transaction(11)));
    let mut expected = DefaultHasher::new();
    expected.write(&a.signed_data().to_bytes());
    assert_eq!(hash_of(&a), expected.finish());

    let mut set = HashSet::new();
    assert!(set.insert(a));
    assert!(!set.insert(b));
    assert!(set.insert(transaction(11)));
    assert_eq!(set.len(), 2);
}

#[test]
fn signed_transactions_that_are_equal_hash_alike() {
    let (secret, name) = authority(1);
    let message = transaction(10).signed_data().to_bytes();
    let signature = sign(&secret, &message);
    let mut a = SignedTransaction::new(0, transaction(10), name, signature);
    let b = SignedTransaction::new(0, transaction(10), name, signature);
    a.digest();
    assert_eq!(hash_of(&a), hash_of(&b));
    let later = SignedTransaction::new(1, transaction(10), name, signature);
    assert_ne!(hash_of(&a), hash_of(&later));
    let (_, other) = authority(2);
    let elsewhere = SignedTransaction::new(0, transaction(10), other, signature);
    assert_ne!(hash_of(&a), hash_of(&elsewhere));
    assert_ne!(hash_of(&a), hash_of(&SignedTransaction::new(0, transaction(11), name, signature)));
}
