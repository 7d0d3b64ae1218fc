use sha3::Digest;
use sui_types::base_types::{
    AuthorityName, ObjectDigest, ObjectID, ObjectRef, SequenceNumber, SuiAddress,
};
use sui_types::certified::CertifiedTransaction;
use sui_types::checkpoint::{
    CheckpointFragment, CheckpointProposalSummary, SignedCheckpointProposalSummary,
};
use sui_types::codec::{write_bytes, write_raw, write_tag, write_u64, write_uleb128, Encode};
use sui_types::committee::Committee;
use sui_types::consensus::{u64_to_be_bytes, ConsensusTransaction, ConsensusTransactionKind};
use sui_types::crypto::{AuthoritySignature, Signature, AUTHORITY_DST};
use sui_types::error::SuiError;
use sui_types::execution_status::{ExecutionFailureStatus, ExecutionStatus};
use sui_types::move_types::{Identifier, TypeTag};
use sui_types::requests::{
    AccountInfoRequest, CheckpointStreamRequest, CommitteeInfoResponse, ObjectFormatOptions,
    ObjectInfoRequest, ObjectInfoRequestKind, TransactionInfoRequest,
};
use sui_types::sign_info::{AuthoritySignInfo, VerificationObligation};
use sui_types::transaction::{CallArg, ObjectArg, Pay, SingleTransactionKind, TransactionKind};
use sui_types::transaction_data::TransactionData;
use sui_types::base_types::TransactionDigest;
use sui_types::certified::Transaction;

fn oid(last: u8) -> ObjectID {
    let mut bytes = [0u8; 20];
    bytes[19] = last;
    ObjectID(bytes)
}

fn oref(last: u8) -> ObjectRef {
    (oid(last), SequenceNumber::from_u64(last as u64), ObjectDigest([last; 32]))
}

fn oref_bytes(last: u8) -> Vec<u8> {
    let mut bytes = oid(last).0.to_vec();
    bytes.extend_from_slice(&(last as u64).to_le_bytes());
    bytes.extend_from_slice(&[last; 32]);
    bytes
}

fn authority(seed: u8) -> (blst::min_sig::SecretKey, AuthorityName) {
    let secret = blst::min_sig::SecretKey::key_gen(&[seed; 32], &[]).unwrap();
    let name = AuthorityName(secret.sk_to_pk().to_bytes());
    (secret, name)
}

fn sign(secret: &blst::min_sig::SecretKey, message: &[u8]) -> AuthoritySignature {
    AuthoritySignature(secret.sign(message, AUTHORITY_DST.as_bytes(), &[]).to_bytes())
}

#[test]
fn lengths_are_written_seven_bits_at_a_time() {
    for (n, expected) in [
        (0usize, vec![0u8]),
        (1, vec![1]),
        (127, vec![127]),
        (128, vec![0x80, 1]),
        (300, vec![0xac, 2]),
        (16384, vec![0x80, 0x80, 1]),
    ] {
        let mut out = vec![9u8];
        write_uleb128(&mut out, n);
        assert_eq!(out[1..], expected[..]);
    }
}

#[test]
fn the_primitives_append_to_what_is_there() {
    let mut out = vec![1u8];
    write_u64(&mut out, 0x0102030405060708);
    write_bytes(&mut out, &[7, 7]);
    write_raw(&mut out, &[5]);
    write_tag(&mut out, 3);
    assert_eq!(out, vec![1, 8, 7, 6, 5, 4, 3, 2, 1, 2, 7, 7, 5, 3]);
}

#[test]
fn a_transfer_is_encoded_field_by_field() {
    let data =
        TransactionData::new_transfer(SuiAddress([7; 20]), oref(1), SuiAddress([8; 20]), oref(2), 500);
    let mut expected = vec![0u8, 0u8];
    expected.extend_from_slice(&[7; 20]);
    expected.extend_from_slice(&oref_bytes(1));
    expected.extend_from_slice(&[8; 20]);
    expected.extend_from_slice(&oref_bytes(2));
    expected.extend_from_slice(&1u64.to_le_bytes());
    expected.extend_from_slice(&500u64.to_le_bytes());
    assert_eq!(data.to_bytes(), expected);
}

#[test]
fn a_batch_with_a_call_and_a_payment_is_encoded_in_order() {
    let call = SingleTransactionKind::Call(sui_types::transaction::MoveCall {
        package: oref(3),
        module: Identifier::new(b"m".to_vec()).unwrap(),
        function: Identifier::new(b"f".to_vec()).unwrap(),
        type_arguments: vec![TypeTag::bool(), TypeTag::vector(&TypeTag::u8())],
        arguments: vec![
            CallArg::Pure(vec![9, 9]),
            CallArg::Object(ObjectArg::SharedObject(oid(4))),
            CallArg::ObjVec(vec![ObjectArg::ImmOrOwnedObject(oref(5))]),
        ],
    });
    let pay = SingleTransactionKind::Pay(Pay {
        coins: vec![oref(6)],
        recipients: vec![SuiAddress([1; 20]), SuiAddress([2; 20])],
        amounts: vec![10],
    });
    let kind = TransactionKind::Batch(vec![call, pay]);
    let mut bytes = Vec::new();
    kind.encode(&mut bytes);

    let mut expected = vec![1u8, 2u8];
    // The call.
    expected.push(2);
    expected.extend_from_slice(&oref_bytes(3));
    expected.extend_from_slice(&[1, b'm', 1, b'f']);
    expected.extend_from_slice(&[2, 1, 0, 2, 6, 1]);
    expected.push(3);
    expected.extend_from_slice(&[0, 2, 9, 9]);
    expected.extend_from_slice(&[1, 1]);
    expected.extend_from_slice(&oid(4).0);
    expected.extend_from_slice(&[2, 1, 0]);
    expected.extend_from_slice(&oref_bytes(5));
    // The payment.
    expected.push(4);
    expected.push(1);
    expected.extend_from_slice(&oref_bytes(6));
    expected.push(2);
    expected.extend_from_slice(&[1; 20]);
    expected.extend_from_slice(&[2; 20]);
    expected.push(1);
    expected.extend_from_slice(&10u64.to_le_bytes());
    assert_eq!(bytes, expected);
}

#[test]
fn the_states_of_an_envelope_have_their_own_index() {
    let data =
        TransactionData::new_transfer(SuiAddress([7; 20]), oref(1), SuiAddress([8; 20]), oref(2), 500);
    let transaction = Transaction::new(data, Signature::sentinel());
    let signed_data = transaction.signed_data().to_bytes();
    let plain = transaction.to_bytes();
    assert_eq!(plain[0], 0);
    assert_eq!(plain[1..], signed_data[..]);

    let (secret, name) = authority(1);
    let signature = sign(&secret, &signed_data);
    let signed = sui_types::certified::SignedTransaction::new(4, transaction, name, signature);
    let mut expected = vec![1u8];
    expected.extend_from_slice(&signed_data);
    expected.extend_from_slice(&4u64.to_le_bytes());
    expected.extend_from_slice(&name.0);
    expected.extend_from_slice(&signature.0);
    assert_eq!(signed.to_bytes(), expected);

    let committee =
        Committee::new(4, (1..=4u8).map(|s| (authority(s).1, 1)).collect()).unwrap();
    let signatures = vec![(name, signature), (authority(3).1, sign(&authority(3).0, &signed_data))];
    let certificate = CertifiedTransaction::new_with_signatures(
        signed.to_transaction(),
        signatures,
        &committee,
    )
    .unwrap();
    let bytes = certificate.to_bytes();
    let mut head = vec![2u8];
    head.extend_from_slice(&signed_data);
    head.extend_from_slice(&4u64.to_le_bytes());
    head.extend_from_slice(&certificate.auth_sign_info().signature.0);
    assert_eq!(bytes[..head.len()], head[..]);
    let signers: Vec<u32> = certificate.auth_sign_info().signers_map.iter().collect();
    assert_eq!(signers.len(), 2);
    let mut tail = vec![2u8];
    tail.extend_from_slice(&(signers[0] as u64).to_le_bytes());
    tail.extend_from_slice(&(signers[1] as u64).to_le_bytes());
    assert_eq!(bytes[head.len()..], tail[..]);

    let empty = CertifiedTransaction::new(0, signed_transfer_for_bytes());
    let bytes = empty.to_bytes();
    assert_eq!(bytes[0], 2);
    assert_eq!(bytes[bytes.len() - 1], 0);
}

fn signed_transfer_for_bytes() -> Transaction {
    let data =
        TransactionData::new_transfer(SuiAddress([7; 20]), oref(1), SuiAddress([8; 20]), oref(2), 500);
    Transaction::new(data, Signature::sentinel())
}

#[test]
fn failures_are_encoded_by_their_index_and_their_data() {
    let mut bytes = Vec::new();
    ExecutionStatus::new_failure(ExecutionFailureStatus::TooManyChildObjects { object: oid(1) })
        .encode(&mut bytes);
    let mut expected = vec![1u8, 21];
    expected.extend_from_slice(&oid(1).0);
    assert_eq!(bytes, expected);
    let mut success = Vec::new();
    ExecutionStatus::Success.encode(&mut success);
    assert_eq!(success, vec![0]);
}

#[test]
fn statuses_tell_success_from_failure() {
    let failure = ExecutionStatus::new_failure(ExecutionFailureStatus::InsufficientGas);
    assert!(failure.is_err() && !failure.is_ok());
    assert_eq!(failure.unwrap_err(), ExecutionFailureStatus::InsufficientGas);
    assert!(ExecutionStatus::Success.is_ok() && !ExecutionStatus::Success.is_err());
    ExecutionStatus::Success.unwrap();
}

#[test]
fn the_digest_of_a_committee_answer_is_the_hash_of_its_encoding() {
    let none = CommitteeInfoResponse { epoch: 3, committee_info: None };
    let mut expected = 3u64.to_le_bytes().to_vec();
    expected.push(0);
    assert_eq!(none.to_bytes(), expected);
    let hash: [u8; 32] = sha3::Sha3_256::digest(&expected).into();
    assert_eq!(none.digest(), hash);

    let some = CommitteeInfoResponse {
        epoch: 3,
        committee_info: Some(vec![(AuthorityName([1; 96]), 5)]),
    };
    let mut expected = 3u64.to_le_bytes().to_vec();
    expected.extend_from_slice(&[1, 1]);
    expected.extend_from_slice(&[1; 96]);
    expected.extend_from_slice(&5u64.to_le_bytes());
    assert_eq!(some.to_bytes(), expected);
    assert_ne!(some.digest(), none.digest());
}

#[test]
fn the_hash_of_nothing_is_the_known_one() {
    // SHA3-256 of the empty string, through the address of an empty key: the hash of
    // the single byte of the scheme is what the address starts from.
    let one: [u8; 32] = sha3::Sha3_256::digest([0u8]).into();
    assert_eq!(SuiAddress::from_public_key(&[]).0, one[..20]);
    assert_eq!(
        one[..4],
        [0x5d, 0x53, 0x46, 0x9f],
        "SHA3-256 of a zero byte starts with 5d53469f"
    );
}

#[test]
fn requests_are_made_from_their_parts() {
    assert_eq!(
        ObjectInfoRequest::past_object_info_request(oid(1), SequenceNumber::from_u64(4)),
        ObjectInfoRequest {
            object_id: oid(1),
            request_kind: ObjectInfoRequestKind::PastObjectInfo(SequenceNumber::from_u64(4)),
        }
    );
    let layout = Some(ObjectFormatOptions { include_types: true });
    assert_eq!(
        ObjectInfoRequest::latest_object_info_request(oid(1), layout),
        ObjectInfoRequest {
            object_id: oid(1),
            request_kind: ObjectInfoRequestKind::LatestObjectInfo(layout),
        }
    );
    assert_eq!(AccountInfoRequest::from(SuiAddress([1; 20])).account, SuiAddress([1; 20]));
    assert_eq!(
        TransactionInfoRequest::from(TransactionDigest([2; 32])).transaction_digest,
        TransactionDigest([2; 32])
    );
    let _ = CheckpointStreamRequest::new();
}

fn fragment(seed_a: u8, seed_b: u8, seq_a: u64, seq_b: u64) -> CheckpointFragment {
    let proposal = |seed: u8, sequence_number: u64| {
        let (secret, name) = authority(seed);
        let summary = CheckpointProposalSummary { sequence_number, waypoint: vec![seed] };
        let mut bytes = Vec::new();
        summary.encode(&mut bytes);
        SignedCheckpointProposalSummary {
            summary,
            auth_signature: AuthoritySignInfo {
                epoch: 0,
                authority: name,
                signature: sign(&secret, &bytes),
            },
        }
    };
    CheckpointFragment { proposer: proposal(seed_a, seq_a), other: proposal(seed_b, seq_b), diff: vec![] }
}

#[test]
fn a_consensus_message_verifies_what_it_carries() {
    let committee =
        Committee::new(0, (1..=4u8).map(|s| (authority(s).1, 1)).collect()).unwrap();
    let message = ConsensusTransaction::new_checkpoint_message(fragment(1, 2, 8, 8));
    assert_eq!(message.verify(&committee), Ok(()));
    assert!(matches!(message.kind, ConsensusTransactionKind::Checkpoint(_)));
    let same = ConsensusTransaction::new_checkpoint_message(fragment(1, 2, 8, 8));
    assert_eq!(message.get_tracking_id(), same.get_tracking_id());
    assert_eq!(message.tracking_id, message.get_tracking_id().to_be_bytes());

    let mixed = ConsensusTransaction::new_checkpoint_message(fragment(1, 2, 8, 9));
    assert_eq!(mixed.verify(&committee), Err(SuiError::InconsistentCheckpointFragment));
    let stranger = ConsensusTransaction::new_checkpoint_message(fragment(1, 9, 8, 8));
    assert_eq!(stranger.verify(&committee), Err(SuiError::UnknownSigner));

    let data =
        TransactionData::new_transfer(SuiAddress([7; 20]), oref(1), SuiAddress([8; 20]), oref(2), 500);
    let transaction = Transaction::new(data, Signature::sentinel());
    let certificate = CertifiedTransaction::new(0, transaction);
    let carried = ConsensusTransaction::new_certificate_message(&authority(1).1, certificate);
    assert_eq!(carried.verify(&committee), Err(SuiError::InvalidSignature));
    match &carried.kind {
        ConsensusTransactionKind::UserTransaction(c) => assert_eq!(c.epoch(), 0),
        other => panic!("expected a certificate, got {:?}", other),
    }
}

#[test]
fn the_tracking_id_is_read_the_most_significant_byte_first() {
    let mut message = ConsensusTransaction::new_checkpoint_message(fragment(1, 2, 8, 8));
    message.tracking_id = [0, 0, 0, 0, 0, 0, 1, 2];
    assert_eq!(message.get_tracking_id(), 258);
    message.tracking_id = [1, 2, 3, 4, 5, 6, 7, 8];
    assert_eq!(message.get_tracking_id(), 0x0102030405060708);
    assert_eq!(u64_to_be_bytes(0x0102030405060708), [1, 2, 3, 4, 5, 6, 7, 8]);
    assert_eq!(u64_to_be_bytes(u64::MAX), [255; 8]);
    assert_eq!(u64_to_be_bytes(0), [0; 8]);
}

#[test]
fn an_obligation_fails_as_a_whole_and_names_the_first_bad_entry() {
    let (secret, name) = authority(1);
    let mut obligation = VerificationObligation::new();
    assert_eq!(obligation.first_invalid(), None);
    let first = obligation.add_message(b"one".to_vec());
    let second = obligation.add_message(b"two".to_vec());
    assert_eq!((first, second), (0, 1));
    assert!(obligation.add_signature(first, name, sign(&secret, b"one")));
    assert!(obligation.add_signature(second, name, sign(&secret, b"one")));
    assert!(!obligation.add_signature(2, name, sign(&secret, b"one")));
    assert_eq!(obligation.entries.len(), 2);
    assert_eq!(obligation.first_invalid(), Some(1));
    assert_eq!(obligation.verify_all(), Err(SuiError::InvalidSignature));

    let mut good = VerificationObligation::new();
    let idx = good.add_message(b"one".to_vec());
    let (other_secret, other_name) = authority(2);
    assert!(good.add_signature(idx, name, sign(&secret, b"one")));
    assert!(good.add_signature(idx, other_name, sign(&other_secret, b"one")));
    assert_eq!(good.verify_all(), Ok(()));

    // An entry without signatures does not verify.
    let mut empty = VerificationObligation::new();
    empty.add_message(b"one".to_vec());
    assert_eq!(empty.first_invalid(), Some(0));
}

#[test]
fn the_error_of_an_obligation_comes_with_the_position_of_the_first_bad_entry() {
    let (secret, name) = authority(1);
    let build = |messages: &[&[u8]]| {
        let mut obligation = VerificationObligation::new();
        for message in messages {
            let idx = obligation.add_message(b"one".to_vec());
            assert!(obligation.add_signature(idx, name, sign(&secret, message)));
        }
        obligation
    };
    assert_eq!(build(&[]).verify_all_naming_first(), Ok(()));
    assert_eq!(build(&[b"one", b"one"]).verify_all_naming_first(), Ok(()));
    assert_eq!(
        build(&[b"two", b"one"]).verify_all_naming_first(),
        Err((0, SuiError::InvalidSignature))
    );
    assert_eq!(
        build(&[b"one", b"one", b"two", b"one", b"two"]).verify_all_naming_first(),
        Err((2, SuiError::InvalidSignature))
    );
    let mut last = build(&[b"one", b"one"]);
    last.add_message(b"one".to_vec());
    assert_eq!(last.first_invalid(), Some(2));
    assert_eq!(last.verify_all_naming_first(), Err((2, SuiError::InvalidSignature)));
}
