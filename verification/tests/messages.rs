use ed25519_dalek::Signer;
use sui_types::base_types::{
    AccountAddress, AuthorityName, ObjectDigest, ObjectID, ObjectRef, SequenceNumber, SuiAddress,
    TransactionDigest,
};
use sui_types::certified::{CertifiedTransaction, SignedTransaction, Transaction};
use sui_types::checkpoint::{
    CheckpointFragment, CheckpointProposalSummary, SignedCheckpointProposalSummary,
};
use sui_types::codec::Encode;
use sui_types::committee::Committee;
use sui_types::consensus::{ConsensusTransaction, ConsensusTransactionKind};
use sui_types::crypto::{AuthoritySignature, Signature, AUTHORITY_DST};
use sui_types::effects::{
    CertifiedTransactionEffects, Event, GasCostSummary, SignedTransactionEffects,
    TransactionEffects, UnsignedTransactionEffects,
};
use sui_types::envelope::TransactionEnvelope;
use sui_types::execution_status::ExecutionStatus;
use sui_types::move_types::{CompiledModule, Identifier, ModuleId};
use sui_types::object::Owner;
use sui_types::quorum::AuthorityStrongQuorumSignInfo;
use sui_types::quorum_wire::read_signers;
use sui_types::reading::{decode_all, Decode};
use sui_types::sign_info::{AuthoritySignInfo, EmptySignInfo};
use sui_types::transaction::{
    InputObjectKind, MoveModulePublish, SingleTransactionKind, TransactionKind, TransferObject,
};
use sui_types::transaction_data::TransactionData;

fn oid(last: u8) -> ObjectID {
    let mut bytes = [0u8; 20];
    bytes[19] = last;
    ObjectID(bytes)
}

fn oref(last: u8) -> ObjectRef {
    (oid(last), SequenceNumber::from_u64(last as u64), ObjectDigest([last; 32]))
}

fn authority(seed: u8) -> (blst::min_sig::SecretKey, AuthorityName) {
    let secret = blst::min_sig::SecretKey::key_gen(&[seed; 32], &[]).unwrap();
    let name = AuthorityName(secret.sk_to_pk().to_bytes());
    (secret, name)
}

fn sign(secret: &blst::min_sig::SecretKey, message: &[u8]) -> AuthoritySignature {
    AuthoritySignature(secret.sign(message, AUTHORITY_DST.as_bytes(), &[]).to_bytes())
}

fn transfer() -> Transaction {
    let kind = TransactionKind::Single(SingleTransactionKind::TransferObject(TransferObject {
        recipient: SuiAddress([1; 20]),
        object_ref: oref(1),
    }));
    let key = ed25519_dalek::SigningKey::from_bytes(&[7; 32]);
    let sender = SuiAddress::from_public_key(&key.verifying_key().to_bytes());
    let data = TransactionData::new_with_gas_price(kind, sender, oref(9), 1000, 3);
    let mut signature = vec![0u8];
    signature.extend_from_slice(&key.sign(&data.to_bytes()).to_bytes());
    signature.extend_from_slice(&key.verifying_key().to_bytes());
    Transaction::new(data, Signature::from_bytes(&signature).unwrap())
}

fn effects() -> TransactionEffects {
    let owner = Owner::AddressOwner(SuiAddress([1; 20]));
    TransactionEffects {
        status: ExecutionStatus::Success,
        gas_used: GasCostSummary { computation_cost: 10, storage_cost: 20, storage_rebate: 5 },
        shared_objects: vec![],
        transaction_digest: TransactionDigest([4; 32]),
        created: vec![(oref(1), owner)],
        mutated: vec![(oref(9), owner)],
        unwrapped: vec![],
        deleted: vec![oref(4)],
        wrapped: vec![],
        gas_object: (oref(9), owner),
        events: vec![Event { contents: vec![1, 2] }],
        dependencies: vec![TransactionDigest([8; 32])],
    }
}

fn proposal(number: u64, seed: u8) -> SignedCheckpointProposalSummary {
    let (secret, name) = authority(seed);
    let summary = CheckpointProposalSummary { sequence_number: number, waypoint: vec![seed; 3] };
    let mut message = Vec::new();
    summary.encode(&mut message);
    let signature = sign(&secret, &message);
    SignedCheckpointProposalSummary {
        summary,
        auth_signature: AuthoritySignInfo { epoch: 1, authority: name, signature },
    }
}

fn fragment() -> CheckpointFragment {
    CheckpointFragment { proposer: proposal(12, 1), other: proposal(12, 2), diff: vec![5, 6, 7, 8] }
}

fn certificate() -> (CertifiedTransaction, Committee) {
    let keys: Vec<_> = (1..=4u8).map(authority).collect();
    let committee = Committee::new(3, keys.iter().map(|(_, n)| (*n, 1)).collect()).unwrap();
    let transaction = transfer();
    let message = transaction.signed_data().to_bytes();
    let signatures = keys.iter().take(3).map(|(s, n)| (*n, sign(s, &message))).collect();
    let certificate =
        CertifiedTransaction::new_with_signatures(transaction, signatures, &committee).unwrap();
    (certificate, committee)
}

#[test]
fn each_kind_of_input_reads_back() {
    let kinds = vec![
        InputObjectKind::MovePackage(oid(1)),
        InputObjectKind::ImmOrOwnedMoveObject(oref(2)),
        InputObjectKind::SharedMoveObject(oid(3)),
    ];
    for (index, kind) in kinds.iter().enumerate() {
        let mut bytes = Vec::new();
        kind.encode(&mut bytes);
        assert_eq!(bytes[0] as usize, index);
        assert_eq!(bytes.len(), if index == 1 { 1 + 20 + 8 + 32 } else { 21 });
        assert_eq!(decode_all::<InputObjectKind>(&bytes), Some(*kind));
        assert_eq!(decode_all::<InputObjectKind>(&bytes[..bytes.len() - 1]), None);
        bytes[0] = 3;
        assert_eq!(decode_all::<InputObjectKind>(&bytes), None);
    }
}

#[test]
fn a_committee_is_encoded_as_its_epoch_and_its_authorities_in_order() {
    let a = AuthorityName([1; 96]);
    let b = AuthorityName([2; 96]);
    let committee = Committee::new(7, vec![(b, 5), (a, 3)]).unwrap();
    let bytes = committee.to_bytes();
    let mut expected = 7u64.to_le_bytes().to_vec();
    expected.push(2);
    expected.extend_from_slice(&[1; 96]);
    expected.extend_from_slice(&3u64.to_le_bytes());
    expected.extend_from_slice(&[2; 96]);
    expected.extend_from_slice(&5u64.to_le_bytes());
    assert_eq!(bytes, expected);

    let read = Committee::from_bytes(&bytes).unwrap();
    assert_eq!(read.epoch(), 7);
    assert_eq!(read.voting_rights(), &vec![(a, 3), (b, 5)]);
    assert_eq!(read.total_votes(), 8);
    assert_eq!(read.quorum_threshold(), 6);
    assert_eq!(read.to_bytes(), bytes);
}

#[test]
fn bytes_that_are_the_encoding_of_no_committee_are_refused() {
    let entry = |fill: u8, stake: u64| {
        let mut bytes = vec![fill; 96];
        bytes.extend_from_slice(&stake.to_le_bytes());
        bytes
    };
    let with = |entries: &[Vec<u8>]| {
        let mut bytes = 1u64.to_le_bytes().to_vec();
        bytes.push(entries.len() as u8);
        for e in entries {
            bytes.extend_from_slice(e);
        }
        bytes
    };
    assert!(Committee::from_bytes(&with(&[entry(1, 1), entry(2, 1)])).is_some());
    assert!(Committee::from_bytes(&with(&[])).is_none());
    assert!(Committee::from_bytes(&with(&[entry(2, 1), entry(1, 1)])).is_none());
    assert!(Committee::from_bytes(&with(&[entry(1, 1), entry(1, 2)])).is_none());
    assert!(Committee::from_bytes(&with(&[entry(1, 0), entry(2, 0)])).is_none());
    assert!(Committee::from_bytes(&with(&[entry(1, u64::MAX), entry(2, 1)])).is_none());
    assert!(Committee::from_bytes(&with(&[entry(1, u64::MAX - 1), entry(2, 1)])).is_some());
    let mut long = with(&[entry(1, 1)]);
    long.push(0);
    assert!(Committee::from_bytes(&long).is_none());
    let short = with(&[entry(1, 1)]);
    assert!(Committee::from_bytes(&short[..short.len() - 1]).is_none());
}

#[test]
fn a_committee_of_ordered_authorities_is_taken_as_it_stands() {
    let a = AuthorityName([1; 96]);
    let b = AuthorityName([2; 96]);
    let committee = Committee::from_ordered(4, vec![(a, 1), (b, 2)]).unwrap();
    assert_eq!(committee.epoch(), 4);
    assert_eq!(committee.voting_rights(), &vec![(a, 1), (b, 2)]);
    assert_eq!(committee.total_votes(), 3);
    assert_eq!(committee.authority_index(&b), Some(1));
    assert!(Committee::from_ordered(4, vec![(b, 2), (a, 1)]).is_none());
    assert!(Committee::from_ordered(4, vec![(a, 1), (a, 2)]).is_none());
    assert!(Committee::from_ordered(4, vec![]).is_none());
    assert!(Committee::from_ordered(4, vec![(a, 0)]).is_none());
    assert!(Committee::from_ordered(4, vec![(a, u64::MAX), (b, 1)]).is_none());
}

#[test]
fn unsigned_effects_are_encoded_as_the_effects_alone() {
    let (certificate_keys, _) = (authority(1), ());
    let committee = Committee::new(0, vec![(certificate_keys.1, 1)]).unwrap();
    let bytes = effects().to_bytes();
    let signatures = vec![(certificate_keys.1, sign(&certificate_keys.0, &bytes))];
    let certified = CertifiedTransactionEffects::new(effects(), signatures, &committee).unwrap();
    let unsigned = certified.to_unsigned_effects();
    assert_eq!(unsigned.to_bytes(), bytes);
    let mut read = UnsignedTransactionEffects::from_bytes(&bytes).unwrap();
    assert_eq!(*read.effects_ref(), effects());
    assert_eq!(*read.auth_signature(), EmptySignInfo {});
    assert_eq!(read.digest(), effects().digest());
    assert!(UnsignedTransactionEffects::from_bytes(&bytes[..bytes.len() - 1]).is_none());
}

#[test]
fn signed_effects_read_back_with_their_signature() {
    let (secret, name) = authority(1);
    let committee = Committee::new(2, vec![(name, 1)]).unwrap();
    let signature = sign(&secret, &effects().to_bytes());
    let mut signed = effects().to_sign_effects(2, &name, signature);
    let before = signed.to_bytes();
    let digest = signed.digest();
    let bytes = signed.to_bytes();
    assert_eq!(bytes, before);

    let mut expected = effects().to_bytes();
    expected.extend_from_slice(&2u64.to_le_bytes());
    expected.extend_from_slice(&name.0);
    expected.extend_from_slice(&signature.0);
    assert_eq!(bytes, expected);

    let mut read = SignedTransactionEffects::from_bytes(&bytes).unwrap();
    assert!(read == signed);
    assert_eq!(*read.auth_signature(), AuthoritySignInfo { epoch: 2, authority: name, signature });
    assert_eq!(read.verify(&committee), Ok(()));
    assert_eq!(read.digest(), digest);
    for cut in 0..bytes.len() {
        assert!(SignedTransactionEffects::from_bytes(&bytes[..cut]).is_none());
    }
    assert!(UnsignedTransactionEffects::from_bytes(&bytes).is_none());
}

#[test]
fn certified_effects_read_back_with_their_signers() {
    let keys: Vec<_> = (1..=4u8).map(authority).collect();
    let committee = Committee::new(0, keys.iter().map(|(_, n)| (*n, 1)).collect()).unwrap();
    let message = effects().to_bytes();
    let signatures: Vec<_> = keys.iter().skip(1).map(|(s, n)| (*n, sign(s, &message))).collect();
    let certified = CertifiedTransactionEffects::new(effects(), signatures, &committee).unwrap();
    let bytes = certified.to_bytes();
    let read = CertifiedTransactionEffects::from_bytes(&bytes).unwrap();
    assert_eq!(*read.effects_ref(), effects());
    assert_eq!(read.auth_signature().epoch, 0);
    assert_eq!(read.auth_signature().signature, certified.auth_signature().signature);
    assert_eq!(
        read.auth_signature().signers_map.iter().collect::<Vec<u32>>(),
        certified.auth_signature().signers_map.iter().collect::<Vec<u32>>()
    );
    assert_eq!(read.auth_signature().signers_map.len(), 3);
    assert_eq!(read.verify(&committee), Ok(()));
    assert_eq!(read.to_bytes(), bytes);
    assert!(CertifiedTransactionEffects::from_bytes(&bytes[..bytes.len() - 8]).is_none());
    assert!(SignedTransactionEffects::from_bytes(&bytes).is_none());
}

#[test]
fn what_a_quorum_adds_is_its_epoch_its_signature_and_its_signers_in_order() {
    let mut map = roaring::RoaringBitmap::new();
    map.insert(300);
    map.insert(2);
    let info = AuthorityStrongQuorumSignInfo {
        epoch: 9,
        signature: sui_types::crypto::AggregateAuthoritySignature([6; 48]),
        signers_map: map,
    };
    let mut bytes = Vec::new();
    info.encode(&mut bytes);
    let mut expected = 9u64.to_le_bytes().to_vec();
    expected.extend_from_slice(&[6; 48]);
    expected.push(2);
    expected.extend_from_slice(&2u64.to_le_bytes());
    expected.extend_from_slice(&300u64.to_le_bytes());
    assert_eq!(bytes, expected);

    let (read, next) = AuthorityStrongQuorumSignInfo::decode(&bytes, 0).unwrap();
    assert_eq!(next, bytes.len());
    assert_eq!(read.epoch, 9);
    assert_eq!(read.signature.0, [6; 48]);
    assert_eq!(read.signers_map.iter().collect::<Vec<u32>>(), vec![2, 300]);

    let (signers, next) = read_signers(&bytes, 56).unwrap();
    assert_eq!(next, bytes.len());
    assert_eq!(signers.iter().collect::<Vec<u32>>(), vec![2, 300]);
    let mut swapped = expected[..57].to_vec();
    swapped.extend_from_slice(&300u64.to_le_bytes());
    swapped.extend_from_slice(&2u64.to_le_bytes());
    assert!(read_signers(&swapped, 56).is_none());
    assert!(AuthorityStrongQuorumSignInfo::decode(&swapped, 0).is_none());
}

#[test]
fn a_fragment_reads_back() {
    let bytes = fragment().to_bytes();
    assert_eq!(CheckpointFragment::from_bytes(&bytes), Some(fragment()));
    let one = proposal(12, 1);
    let mut expected = Vec::new();
    for p in [&one, &proposal(12, 2)] {
        expected.extend_from_slice(&12u64.to_le_bytes());
        expected.push(3);
        expected.extend_from_slice(&p.summary.waypoint);
        expected.extend_from_slice(&1u64.to_le_bytes());
        expected.extend_from_slice(&p.auth_signature.authority.0);
        expected.extend_from_slice(&p.auth_signature.signature.0);
    }
    expected.push(4);
    expected.extend_from_slice(&[5, 6, 7, 8]);
    assert_eq!(bytes, expected);
    for cut in 0..bytes.len() {
        assert_eq!(CheckpointFragment::from_bytes(&bytes[..cut]), None);
    }
    let mut long = bytes.clone();
    long.push(0);
    assert_eq!(CheckpointFragment::from_bytes(&long), None);
}

#[test]
fn a_message_with_a_certificate_reads_back() {
    let (certificate, committee) = certificate();
    let (_, name) = authority(1);
    let inner = certificate.to_bytes();
    let message = ConsensusTransaction::new_certificate_message(&name, certificate);
    let bytes = message.to_bytes();
    let mut expected = message.tracking_id.to_vec();
    expected.push(0);
    expected.extend_from_slice(&inner);
    assert_eq!(bytes, expected);

    let read = ConsensusTransaction::from_bytes(&bytes).unwrap();
    assert_eq!(read.tracking_id, message.tracking_id);
    assert_eq!(read.get_tracking_id(), message.get_tracking_id());
    match &read.kind {
        ConsensusTransactionKind::UserTransaction(c) => {
            assert_eq!(c.to_bytes(), inner);
            assert_eq!(c.verify(&committee), Ok(()));
        },
        ConsensusTransactionKind::Checkpoint(_) => panic!("a certificate was encoded"),
    }
    assert_eq!(read.verify(&committee), Ok(()));
    assert_eq!(read.to_bytes(), bytes);
    assert!(ConsensusTransaction::from_bytes(&bytes[..bytes.len() - 1]).is_none());
    let mut other = bytes.clone();
    other[8] = 2;
    assert!(ConsensusTransaction::from_bytes(&other).is_none());
    other[8] = 1;
    if let Some(fragment) = ConsensusTransaction::from_bytes(&other) {
        assert_eq!(fragment.to_bytes(), other);
        assert!(matches!(fragment.kind, ConsensusTransactionKind::Checkpoint(_)));
    }
}

#[test]
fn a_message_with_a_fragment_reads_back() {
    let message = ConsensusTransaction::new_checkpoint_message(fragment());
    let bytes = message.to_bytes();
    let mut expected = message.tracking_id.to_vec();
    expected.push(1);
    expected.extend_from_slice(&fragment().to_bytes());
    assert_eq!(bytes, expected);
    let read = ConsensusTransaction::from_bytes(&bytes).unwrap();
    assert_eq!(read.tracking_id, message.tracking_id);
    match read.kind {
        ConsensusTransactionKind::Checkpoint(f) => assert_eq!(*f, fragment()),
        ConsensusTransactionKind::UserTransaction(_) => panic!("a fragment was encoded"),
    }
    let mut other = bytes.clone();
    other[8] = 0;
    assert!(ConsensusTransaction::from_bytes(&other).is_none());
    other[8] = 2;
    assert!(ConsensusTransaction::from_bytes(&other).is_none());
}

#[test]
fn the_states_of_a_transaction_are_read_where_they_stand() {
    let transaction = transfer();
    let (secret, name) = authority(1);
    let message = transaction.signed_data().to_bytes();
    let signed = SignedTransaction::new(3, transaction.clone(), name, sign(&secret, &message));
    let (certificate, _) = certificate();

    let mut bytes = vec![0xaa, 0xbb];
    transaction.encode(&mut bytes);
    let first = bytes.len();
    signed.encode(&mut bytes);
    let second = bytes.len();
    certificate.encode(&mut bytes);
    assert_eq!(bytes[2..first], transaction.to_bytes()[..]);
    assert_eq!(bytes[first..second], signed.to_bytes()[..]);
    assert_eq!(bytes[second..], certificate.to_bytes()[..]);

    let (read, next) = Transaction::decode(&bytes, 2).unwrap();
    assert!(read == transaction);
    assert_eq!(next, first);
    let (read, next) = SignedTransaction::decode(&bytes, first).unwrap();
    assert!(read == signed);
    assert_eq!(next, second);
    let (read, next) = CertifiedTransaction::decode(&bytes, second).unwrap();
    assert!(read == certificate);
    assert_eq!(next, bytes.len());

    assert!(SignedTransaction::decode(&bytes, 2).is_none());
    assert!(CertifiedTransaction::decode(&bytes, first).is_none());
    assert!(Transaction::decode(&bytes, second).is_none());
    assert!(decode_all::<CertifiedTransaction>(&certificate.to_bytes()) == Some(certificate));
}

fn module(address: u8, name: &str, handles: &[(u8, &str)]) -> CompiledModule {
    let id = |address: u8, name: &str| {
        ModuleId::new(AccountAddress([address; 20]), Identifier::new(name.as_bytes().to_vec()).unwrap())
    };
    CompiledModule {
        self_id: id(address, name),
        module_handles: handles.iter().map(|(a, n)| id(*a, n)).collect(),
    }
}

fn publication() -> TransactionData {
    let kind = TransactionKind::Single(SingleTransactionKind::Publish(MoveModulePublish {
        modules: vec![vec![1, 2, 3], vec![4]],
        compiled: vec![module(0, "a", &[(0, "a"), (7, "x")])],
    }));
    let key = ed25519_dalek::SigningKey::from_bytes(&[7; 32]);
    let sender = SuiAddress::from_public_key(&key.verifying_key().to_bytes());
    TransactionData::new(kind, sender, oref(9), 1000)
}

#[test]
fn what_was_read_of_published_modules_is_put_back_after_reading() {
    let data = publication();
    let package = InputObjectKind::MovePackage(ObjectID([7; 20]));
    let gas = InputObjectKind::ImmOrOwnedMoveObject(oref(9));
    assert_eq!(data.input_objects(), Ok(vec![package, gas]));

    let bytes = data.to_bytes();
    let read = TransactionData::from_bytes(&bytes).unwrap();
    assert_eq!(read.input_objects(), Ok(vec![gas]));
    let filled = read.with_compiled(&vec![vec![module(0, "a", &[(0, "a"), (7, "x")])]]);
    assert_eq!(filled, data);
    assert_eq!(filled.input_objects(), Ok(vec![package, gas]));
    assert_eq!(filled.to_bytes(), bytes);

    // Without a list, and for a transaction that publishes nothing, nothing changes.
    let same = TransactionData::from_bytes(&bytes).unwrap().with_compiled(&vec![]);
    assert_eq!(same.input_objects(), Ok(vec![gas]));
    let plain = transfer().signed_data().data.clone();
    let encoded = plain.to_bytes();
    let still = plain.with_compiled(&vec![vec![module(0, "a", &[(7, "x")])]]);
    assert_eq!(still.to_bytes(), encoded);
    assert_eq!(still.input_objects().unwrap().len(), 2);
}

#[test]
fn members_of_a_batch_take_their_modules_by_position() {
    let publish = |fill: u8| {
        SingleTransactionKind::Publish(MoveModulePublish { modules: vec![vec![fill]], compiled: vec![] })
    };
    let transfer = SingleTransactionKind::TransferObject(TransferObject {
        recipient: SuiAddress([1; 20]),
        object_ref: oref(1),
    });
    let kind = TransactionKind::Batch(vec![publish(1), transfer, publish(2), publish(3)]);
    let mut before = Vec::new();
    kind.encode(&mut before);
    let filled = kind.with_compiled(&vec![
        vec![module(0, "a", &[(5, "x")])],
        vec![module(0, "b", &[(6, "x")])],
        vec![module(0, "c", &[(7, "x")])],
    ]);
    let mut after = Vec::new();
    filled.encode(&mut after);
    assert_eq!(after, before);
    assert_eq!(
        filled.input_objects(),
        Ok(vec![
            InputObjectKind::MovePackage(ObjectID([5; 20])),
            InputObjectKind::ImmOrOwnedMoveObject(oref(1)),
            InputObjectKind::MovePackage(ObjectID([7; 20])),
        ])
    );
}

#[test]
fn an_envelope_keeps_its_digest_and_its_signatures_when_modules_are_put_in() {
    let keys: Vec<_> = (1..=4u8).map(authority).collect();
    let committee = Committee::new(3, keys.iter().map(|(_, n)| (*n, 1)).collect()).unwrap();
    let data = publication();
    let key = ed25519_dalek::SigningKey::from_bytes(&[7; 32]);
    let mut signature = vec![0u8];
    signature.extend_from_slice(&key.sign(&data.to_bytes()).to_bytes());
    signature.extend_from_slice(&key.verifying_key().to_bytes());
    let transaction = Transaction::new(data, Signature::from_bytes(&signature).unwrap());
    let message = transaction.signed_data().to_bytes();
    let signatures = keys.iter().take(3).map(|(s, n)| (*n, sign(s, &message))).collect();
    let mut certificate =
        CertifiedTransaction::new_with_signatures(transaction, signatures, &committee).unwrap();
    let digest = certificate.digest();
    let bytes = certificate.to_bytes();

    let mut read = CertifiedTransaction::from_bytes(&bytes).unwrap();
    assert_eq!(read.input_objects().unwrap().len(), 1);
    read.set_verified(true);
    let mut filled = read.with_compiled(&vec![vec![module(0, "a", &[(7, "x")])]]);
    assert_eq!(
        filled.input_objects(),
        Ok(vec![
            InputObjectKind::MovePackage(ObjectID([7; 20])),
            InputObjectKind::ImmOrOwnedMoveObject(oref(9)),
        ])
    );
    assert!(filled.is_verified());
    assert_eq!(filled.to_bytes(), bytes);
    assert_eq!(filled.digest(), digest);
    assert!(filled == certificate);
    assert_eq!(filled.auth_sign_info().signature, certificate.auth_sign_info().signature);
    filled.set_verified(false);
    assert_eq!(filled.verify(&committee), Ok(()));

    // The digest that an envelope keeps stays with it.
    let kept = certificate.with_compiled(&vec![]);
    assert_eq!(kept.to_bytes(), bytes);

    // An envelope can be put together from its parts as they come over the wire.
    let parts = SignedTransaction::from_bytes(
        &SignedTransaction::new(3, transfer(), keys[0].1, sign(&keys[0].0, b"x")).to_bytes(),
    )
    .unwrap();
    let again = TransactionEnvelope::assemble(parts.signed_data().clone(), *parts.auth_sign_info());
    assert!(again == parts);
    assert!(!again.is_verified());
}
