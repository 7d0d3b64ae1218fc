use sha3::Digest;
use sui_types::base_types::{
    AuthorityName, ObjectDigest, ObjectID, ObjectRef, SequenceNumber, SuiAddress,
    TransactionDigest, TransactionEffectsDigest,
};
use sui_types::committee::Committee;
use sui_types::crypto::{AuthoritySignature, AUTHORITY_DST};
use sui_types::effects::{
    CertifiedTransactionEffects, Event, GasCostSummary, TransactionEffects,
};
use sui_types::error::SuiError;
use sui_types::execution_status::{ExecutionFailureStatus, ExecutionStatus, WriteKind};
use sui_types::object::Owner;

fn oid(last: u8) -> ObjectID {
    let mut bytes = [0u8; 20];
    bytes[19] = last;
    ObjectID(bytes)
}

fn oref(last: u8, version: u64) -> ObjectRef {
    (oid(last), SequenceNumber::from_u64(version), ObjectDigest([last; 32]))
}

fn owner(fill: u8) -> Owner {
    Owner::AddressOwner(SuiAddress([fill; 20]))
}

fn effects() -> TransactionEffects {
    TransactionEffects {
        status: ExecutionStatus::Success,
        gas_used: GasCostSummary { computation_cost: 10, storage_cost: 20, storage_rebate: 5 },
        shared_objects: vec![],
        transaction_digest: TransactionDigest([4; 32]),
        created: vec![(oref(1, 1), owner(1))],
        mutated: vec![(oref(2, 6), owner(1)), (oref(9, 3), owner(1))],
        unwrapped: vec![(oref(3, 2), Owner::Shared)],
        deleted: vec![oref(4, 7)],
        wrapped: vec![oref(5, 8)],
        gas_object: (oref(9, 3), owner(1)),
        events: vec![Event { contents: vec![1, 2] }],
        dependencies: vec![TransactionDigest([8; 32])],
    }
}

fn authority(seed: u8) -> (blst::min_sig::SecretKey, AuthorityName) {
    let secret = blst::min_sig::SecretKey::key_gen(&[seed; 32], &[]).unwrap();
    let name = AuthorityName(secret.sk_to_pk().to_bytes());
    (secret, name)
}

fn sign(secret: &blst::min_sig::SecretKey, message: &[u8]) -> AuthoritySignature {
    AuthoritySignature(secret.sign(message, AUTHORITY_DST.as_bytes(), &[]).to_bytes())
}

#[test]
fn all_mutated_lists_mutated_created_and_unwrapped() {
    assert_eq!(
        effects().all_mutated(),
        vec![
            (oref(2, 6), owner(1), WriteKind::Mutate),
            (oref(9, 3), owner(1), WriteKind::Mutate),
            (oref(1, 1), owner(1), WriteKind::Create),
            (oref(3, 2), Owner::Shared, WriteKind::Unwrap),
        ]
    );
}

#[test]
fn mutated_excluding_gas_leaves_the_gas_object_out() {
    let e = effects();
    assert_eq!(e.mutated_excluding_gas(), vec![(oref(2, 6), owner(1))]);
    assert_eq!(e.gas_cost_summary().storage_cost, 20);
    // The gas object with another owner is another entry.
    let mut other = effects();
    other.gas_object = (oref(9, 3), owner(2));
    assert_eq!(other.mutated_excluding_gas().len(), 2);
}

#[test]
fn an_object_is_mutated_here_when_written_deleted_or_wrapped() {
    let e = effects();
    assert!(e.is_object_mutated_here(oref(2, 6)));
    assert!(e.is_object_mutated_here(oref(1, 1)));
    assert!(e.is_object_mutated_here(oref(3, 2)));
    // Another version or digest of a written object is not the one written.
    assert!(!e.is_object_mutated_here(oref(2, 7)));
    assert!(!e.is_object_mutated_here((oid(2), SequenceNumber::from_u64(6), ObjectDigest([0; 32]))));
    // Deleted at version 7: the next version with the sentinel of deletion.
    let deleted = ObjectDigest::deleted();
    let wrapped = ObjectDigest::wrapped();
    assert!(e.is_object_mutated_here((oid(4), SequenceNumber::from_u64(8), deleted)));
    assert!(!e.is_object_mutated_here((oid(4), SequenceNumber::from_u64(7), deleted)));
    assert!(!e.is_object_mutated_here((oid(4), SequenceNumber::from_u64(9), deleted)));
    assert!(!e.is_object_mutated_here((oid(4), SequenceNumber::from_u64(8), wrapped)));
    assert!(e.is_object_mutated_here((oid(5), SequenceNumber::from_u64(9), wrapped)));
    assert!(!e.is_object_mutated_here((oid(5), SequenceNumber::from_u64(9), deleted)));
    assert!(!e.is_object_mutated_here((oid(6), SequenceNumber::from_u64(1), deleted)));
}

#[test]
fn a_deletion_at_the_last_version_has_no_next_version() {
    let mut e = effects();
    e.deleted = vec![(oid(4), SequenceNumber::from_u64(u64::MAX), ObjectDigest([4; 32]))];
    assert!(!e.is_object_mutated_here((oid(4), SequenceNumber::from_u64(0), ObjectDigest::deleted())));
}

#[test]
fn the_sentinels_of_deletion_and_wrapping_differ() {
    assert_eq!(ObjectDigest::deleted(), ObjectDigest([99; 32]));
    assert_eq!(ObjectDigest::wrapped(), ObjectDigest([88; 32]));
    assert_eq!(ObjectDigest::min(), ObjectDigest([0; 32]));
}

#[test]
fn the_digest_of_effects_is_the_hash_of_their_encoding() {
    let e = effects();
    let expected: [u8; 32] = sha3::Sha3_256::digest(&e.to_bytes()).into();
    assert_eq!(e.digest(), TransactionEffectsDigest(expected));
    assert_eq!(e.digest(), effects().digest());
    let mut other = effects();
    other.gas_used.storage_rebate = 6;
    assert_ne!(other.digest(), e.digest());
}

#[test]
fn the_encoding_of_effects_starts_with_status_and_gas() {
    let bytes = effects().to_bytes();
    let mut head = vec![0u8];
    head.extend_from_slice(&10u64.to_le_bytes());
    head.extend_from_slice(&20u64.to_le_bytes());
    head.extend_from_slice(&5u64.to_le_bytes());
    head.push(0);
    head.extend_from_slice(&[4; 32]);
    head.push(1);
    assert_eq!(bytes[..head.len()], head[..]);
    let mut failed = effects();
    failed.status = ExecutionStatus::new_failure(ExecutionFailureStatus::InsufficientGas);
    assert_eq!(failed.to_bytes()[..2], [1, 0]);
}

#[test]
fn effects_read_back() {
    let mut e = effects();
    assert_eq!(TransactionEffects::from_bytes(&e.to_bytes()), Some(effects()));
    let module = sui_types::move_types::ModuleId::new(
        sui_types::base_types::AccountAddress([3; 20]),
        sui_types::move_types::Identifier::new(b"m".to_vec()).unwrap(),
    );
    let failures = vec![
        ExecutionFailureStatus::InsufficientGas,
        ExecutionFailureStatus::VMInvariantViolation,
        ExecutionFailureStatus::entry_argument_error(
            7,
            sui_types::execution_status::EntryArgumentErrorKind::ArityMismatch,
        ),
        ExecutionFailureStatus::circular_object_ownership(oid(1)),
        ExecutionFailureStatus::missing_object_owner(oid(1), SuiAddress([2; 20])),
        ExecutionFailureStatus::invalid_shared_child_use(oid(1), oid(2)),
        ExecutionFailureStatus::invalid_shared_by_value(oid(1)),
        ExecutionFailureStatus::TooManyChildObjects { object: oid(1) },
        ExecutionFailureStatus::InvalidParentDeletion { parent: oid(1), kind: None },
        ExecutionFailureStatus::InvalidParentDeletion {
            parent: oid(1),
            kind: Some(sui_types::execution_status::DeleteKind::Wrap),
        },
        ExecutionFailureStatus::InvalidParentFreezing { parent: oid(1) },
        ExecutionFailureStatus::MoveAbort(module, 77),
    ];
    for failure in failures {
        e.status = ExecutionStatus::new_failure(failure);
        let bytes = e.to_bytes();
        let read = TransactionEffects::from_bytes(&bytes).unwrap();
        assert_eq!(read, e);
        assert_eq!(read.digest(), e.digest());
        for cut in 0..bytes.len() {
            assert_eq!(TransactionEffects::from_bytes(&bytes[..cut]), None);
        }
    }
    let mut bytes = effects().to_bytes();
    bytes[0] = 2;
    assert_eq!(TransactionEffects::from_bytes(&bytes), None);
    let mut bytes = e.to_bytes();
    bytes[1] = 32;
    assert_eq!(TransactionEffects::from_bytes(&bytes), None);
    let mut bytes = effects().to_bytes();
    bytes.push(0);
    assert_eq!(TransactionEffects::from_bytes(&bytes), None);
}

#[test]
fn signed_effects_verify_under_the_committee_of_the_authority() {
    let (secret, name) = authority(1);
    let committee = Committee::new(2, vec![(name, 1), (authority(2).1, 1)]).unwrap();
    let e = effects();
    let digest = e.digest();
    let signature = sign(&secret, &e.to_bytes());
    let mut signed = e.to_sign_effects(2, &name, signature);
    assert_eq!(signed.verify(&committee), Ok(()));
    assert_eq!(signed.digest(), digest);
    assert_eq!(signed.digest(), digest);
    assert_eq!(*signed.effects_ref(), effects());
    assert_eq!(signed.auth_signature().authority, name);

    let wrong = effects().to_sign_effects(2, &name, sign(&secret, b"other"));
    assert_eq!(wrong.verify(&committee), Err(SuiError::InvalidSignature));
    let late = effects().to_sign_effects(3, &name, signature);
    assert_eq!(late.verify(&committee), Err(SuiError::WrongEpoch));
    let (stranger_secret, stranger) = authority(3);
    let unknown =
        effects().to_sign_effects(2, &stranger, sign(&stranger_secret, &effects().to_bytes()));
    assert_eq!(unknown.verify(&committee), Err(SuiError::UnknownSigner));
}

#[test]
fn certified_effects_hold_the_signers_and_become_unsigned() {
    let keys: Vec<_> = (1..=4u8).map(authority).collect();
    let committee = Committee::new(0, keys.iter().map(|(_, n)| (*n, 1)).collect()).unwrap();
    let e = effects();
    let bytes = e.to_bytes();
    let signatures: Vec<_> = keys.iter().take(3).map(|(s, n)| (*n, sign(s, &bytes))).collect();
    let mut certified = CertifiedTransactionEffects::new(e, signatures, &committee).unwrap();
    assert_eq!(certified.auth_signature().signers_map.len(), 3);
    assert_eq!(certified.verify(&committee), Ok(()));
    let two: Vec<_> = keys.iter().take(2).map(|(s, n)| (*n, sign(s, &bytes))).collect();
    let short = CertifiedTransactionEffects::new(effects(), two, &committee).unwrap();
    assert_eq!(short.verify(&committee), Err(SuiError::CertificateRequiresQuorum));
    let mixed: Vec<_> = keys.iter().take(3).map(|(s, n)| (*n, sign(s, b"other"))).collect();
    let forged = CertifiedTransactionEffects::new(effects(), mixed, &committee).unwrap();
    assert_eq!(forged.verify(&committee), Err(SuiError::InvalidSignature));
    assert_eq!(certified.auth_signature().epoch, 0);
    let digest = certified.digest();
    let mut unsigned = certified.to_unsigned_effects();
    assert_eq!(unsigned.digest(), digest);
    assert_eq!(*unsigned.effects_ref(), effects());

    let (stranger_secret, stranger) = authority(9);
    let unknown = vec![(stranger, sign(&stranger_secret, &bytes))];
    assert_eq!(
        CertifiedTransactionEffects::new(effects(), unknown, &committee).err(),
        Some(SuiError::UnknownSigner)
    );
    assert_eq!(
        CertifiedTransactionEffects::new(effects(), vec![], &committee).err(),
        Some(SuiError::InvalidSignature)
    );
}
