use ed25519_dalek::Signer;
use sui_types::aggregator::SignatureAggregator;
use sui_types::base_types::{AuthorityName, ObjectDigest, ObjectID, SequenceNumber, SuiAddress};
use sui_types::certified::{CertifiedTransaction, Transaction};
use sui_types::committee::Committee;
use sui_types::crypto::{AuthoritySignature, Signature, AUTHORITY_DST};
use sui_types::error::SuiError;
use sui_types::transaction_data::TransactionData;

fn authority_key(seed: u8) -> (blst::min_sig::SecretKey, AuthorityName) {
    let secret = blst::min_sig::SecretKey::key_gen(&[seed; 32], &[]).unwrap();
    let name = AuthorityName(secret.sk_to_pk().to_bytes());
    (secret, name)
}

fn authority_sign(secret: &blst::min_sig::SecretKey, message: &[u8]) -> AuthoritySignature {
    AuthoritySignature(secret.sign(message, AUTHORITY_DST.as_bytes(), &[]).to_bytes())
}

fn sender_key(seed: u8) -> (ed25519_dalek::SigningKey, SuiAddress) {
    let key = ed25519_dalek::SigningKey::from_bytes(&[seed; 32]);
    let address = SuiAddress::from_public_key(&key.verifying_key().to_bytes());
    (key, address)
}

fn sender_sign(key: &ed25519_dalek::SigningKey, message: &[u8]) -> Signature {
    let mut bytes = vec![0u8];
    bytes.extend_from_slice(&key.sign(message).to_bytes());
    bytes.extend_from_slice(&key.verifying_key().to_bytes());
    Signature::from_bytes(&bytes).unwrap()
}

fn object_id(last: u8) -> ObjectID {
    let mut bytes = [0u8; 20];
    bytes[19] = last;
    ObjectID(bytes)
}

fn transfer(sender_seed: u8) -> Transaction {
    let (key, sender) = sender_key(sender_seed);
    let (_, recipient) = sender_key(sender_seed + 1);
    let data = TransactionData::new_transfer(
        recipient,
        (object_id(0x01), SequenceNumber::from_u64(5), ObjectDigest([0xD1; 32])),
        sender,
        (object_id(0x02), SequenceNumber::from_u64(1), ObjectDigest([0xD2; 32])),
        10_000,
    );
    let signature = sender_sign(&key, &data.to_bytes());
    Transaction::new(data, signature)
}

fn committee_of_four() -> (Committee, Vec<(blst::min_sig::SecretKey, AuthorityName)>) {
    let keys: Vec<_> = (1..=4u8).map(authority_key).collect();
    let rights = keys.iter().map(|(_, name)| (*name, 1u64)).collect();
    (Committee::new(0, rights).unwrap(), keys)
}

fn signers_of(certificate: &CertifiedTransaction) -> Vec<u32> {
    certificate.auth_sign_info().signers_map.iter().collect()
}

#[test]
fn three_of_four_authorities_make_a_certificate() {
    let (committee, keys) = committee_of_four();
    assert_eq!(committee.quorum_threshold(), 3);
    let mut transaction = transfer(10);
    let digest_before = transaction.digest();
    let message = transaction.signed_data().to_bytes();
    let mut aggregator = SignatureAggregator::try_new(transaction, &committee).unwrap();

    let first = aggregator.append(keys[0].1, authority_sign(&keys[0].0, &message)).unwrap();
    assert!(first.is_none());
    let second = aggregator.append(keys[1].1, authority_sign(&keys[1].0, &message)).unwrap();
    assert!(second.is_none());
    let third = aggregator.append(keys[2].1, authority_sign(&keys[2].0, &message)).unwrap();
    let mut certificate = third.expect("the third signature reaches the quorum");

    assert_eq!(signers_of(&certificate).len(), 3);
    assert_eq!(certificate.digest(), digest_before);
    assert_eq!(certificate.verify(&committee), Ok(()));
    assert_eq!(certificate.epoch(), 0);
}

#[test]
fn the_signers_do_not_depend_on_the_order_of_the_signatures() {
    let (committee, keys) = committee_of_four();
    let message = transfer(10).signed_data().to_bytes();
    let mut forward = SignatureAggregator::new_unsafe(transfer(10), &committee);
    let mut backward = SignatureAggregator::new_unsafe(transfer(10), &committee);
    let mut a = None;
    for i in [0usize, 1, 3] {
        a = forward.append(keys[i].1, authority_sign(&keys[i].0, &message)).unwrap();
    }
    let mut b = None;
    for i in [3usize, 1, 0] {
        b = backward.append(keys[i].1, authority_sign(&keys[i].0, &message)).unwrap();
    }
    let (a, b) = (a.unwrap(), b.unwrap());
    assert_eq!(signers_of(&a), signers_of(&b));
    assert_eq!(a.auth_sign_info().signature, b.auth_sign_info().signature);
    assert_eq!(b.verify(&committee), Ok(()));
}

#[test]
fn an_authority_cannot_vote_twice() {
    let (committee, keys) = committee_of_four();
    let transaction = transfer(10);
    let message = transaction.signed_data().to_bytes();
    let mut aggregator = SignatureAggregator::new_unsafe(transaction, &committee);
    let signature = authority_sign(&keys[0].0, &message);
    assert!(aggregator.append(keys[0].1, signature).unwrap().is_none());
    assert_eq!(
        aggregator.append(keys[0].1, signature).err(),
        Some(SuiError::CertificateAuthorityReuse)
    );
    // The refused vote left no trace: two more votes are still needed.
    assert!(aggregator
        .append(keys[1].1, authority_sign(&keys[1].0, &message))
        .unwrap()
        .is_none());
    let certificate = aggregator
        .append(keys[2].1, authority_sign(&keys[2].0, &message))
        .unwrap()
        .unwrap();
    assert_eq!(signers_of(&certificate).len(), 3);
}

#[test]
fn a_signer_outside_the_committee_is_unknown() {
    let (committee, _) = committee_of_four();
    let transaction = transfer(10);
    let message = transaction.signed_data().to_bytes();
    let mut aggregator = SignatureAggregator::new_unsafe(transaction, &committee);
    let (secret, name) = authority_key(5);
    assert_eq!(
        aggregator.append(name, authority_sign(&secret, &message)).err(),
        Some(SuiError::UnknownSigner)
    );
}

#[test]
fn a_signature_on_other_data_is_invalid() {
    let (committee, keys) = committee_of_four();
    let mut aggregator = SignatureAggregator::new_unsafe(transfer(10), &committee);
    let other = transfer(20).signed_data().to_bytes();
    assert_eq!(
        aggregator.append(keys[0].1, authority_sign(&keys[0].0, &other)).err(),
        Some(SuiError::InvalidSignature)
    );
}

#[test]
fn the_quorum_is_reached_at_the_threshold_and_not_before() {
    let keys: Vec<_> = (1..=3u8).map(authority_key).collect();
    // Stakes 4, 3 and 3: the threshold is 2 * 10 / 3 + 1 = 7.
    let rights = vec![(keys[0].1, 4u64), (keys[1].1, 3), (keys[2].1, 3)];
    let committee = Committee::new(7, rights).unwrap();
    assert_eq!(committee.total_votes(), 10);
    assert_eq!(committee.quorum_threshold(), 7);
    assert_eq!(committee.validity_threshold(), 4);
    let message = transfer(10).signed_data().to_bytes();

    // 3 + 3 = 6 is one short of the threshold.
    let mut short = SignatureAggregator::new_unsafe(transfer(10), &committee);
    assert!(short.append(keys[1].1, authority_sign(&keys[1].0, &message)).unwrap().is_none());
    assert!(short.append(keys[2].1, authority_sign(&keys[2].0, &message)).unwrap().is_none());

    // 4 + 3 = 7 is the threshold.
    let mut exact = SignatureAggregator::new_unsafe(transfer(10), &committee);
    assert!(exact.append(keys[0].1, authority_sign(&keys[0].0, &message)).unwrap().is_none());
    let certificate = exact.append(keys[1].1, authority_sign(&keys[1].0, &message)).unwrap();
    let certificate = certificate.expect("the quorum is reached");
    assert_eq!(certificate.verify(&committee), Ok(()));

    // A later signature is taken, and the certificate stays the one made first.
    let later = exact
        .append(keys[2].1, authority_sign(&keys[2].0, &message))
        .unwrap()
        .expect("the quorum was reached before");
    assert_eq!(signers_of(&later), signers_of(&certificate));
    assert_eq!(later.auth_sign_info().signature, certificate.auth_sign_info().signature);
}

#[test]
fn try_new_refuses_a_transaction_with_a_forged_sender() {
    let (committee, _) = committee_of_four();
    let (key, _) = sender_key(10);
    let (_, victim) = sender_key(30);
    let data = TransactionData::new_transfer(
        victim,
        (object_id(0x01), SequenceNumber::from_u64(5), ObjectDigest([0xD1; 32])),
        victim,
        (object_id(0x02), SequenceNumber::from_u64(1), ObjectDigest([0xD2; 32])),
        10_000,
    );
    let signature = sender_sign(&key, &data.to_bytes());
    let transaction = Transaction::new(data, signature);
    assert_eq!(
        SignatureAggregator::try_new(transaction, &committee).err(),
        Some(SuiError::InvalidSignature)
    );
}

#[test]
fn a_certificate_with_too_little_stake_requires_a_quorum() {
    let (committee, keys) = committee_of_four();
    let transaction = transfer(10);
    let message = transaction.signed_data().to_bytes();
    let signatures = vec![
        (keys[0].1, authority_sign(&keys[0].0, &message)),
        (keys[1].1, authority_sign(&keys[1].0, &message)),
    ];
    let certificate =
        CertifiedTransaction::new_with_signatures(transaction, signatures, &committee).unwrap();
    assert_eq!(certificate.verify(&committee), Err(SuiError::CertificateRequiresQuorum));
}

#[test]
fn a_certificate_of_another_epoch_is_refused() {
    let (committee, keys) = committee_of_four();
    let rights = keys.iter().map(|(_, name)| (*name, 1u64)).collect();
    let next = Committee::new(1, rights).unwrap();
    let transaction = transfer(10);
    let message = transaction.signed_data().to_bytes();
    let signatures =
        keys.iter().take(3).map(|(secret, name)| (*name, authority_sign(secret, &message))).collect();
    let certificate =
        CertifiedTransaction::new_with_signatures(transaction, signatures, &committee).unwrap();
    assert_eq!(certificate.verify(&committee), Ok(()));
    assert_eq!(certificate.verify(&next), Err(SuiError::WrongEpoch));
}

#[test]
fn a_certificate_that_names_a_signer_twice_is_refused() {
    let (committee, keys) = committee_of_four();
    let transaction = transfer(10);
    let message = transaction.signed_data().to_bytes();
    let signature = authority_sign(&keys[0].0, &message);
    let signatures = vec![(keys[0].1, signature), (keys[0].1, signature)];
    assert_eq!(
        CertifiedTransaction::new_with_signatures(transaction, signatures, &committee).err(),
        Some(SuiError::CertificateAuthorityReuse)
    );
}

#[test]
fn a_certificate_with_a_swapped_signature_is_invalid() {
    let (committee, keys) = committee_of_four();
    let transaction = transfer(10);
    let message = transaction.signed_data().to_bytes();
    let other = transfer(20).signed_data().to_bytes();
    let signatures = vec![
        (keys[0].1, authority_sign(&keys[0].0, &message)),
        (keys[1].1, authority_sign(&keys[1].0, &message)),
        (keys[2].1, authority_sign(&keys[2].0, &other)),
    ];
    let certificate =
        CertifiedTransaction::new_with_signatures(transaction, signatures, &committee).unwrap();
    assert_eq!(certificate.verify(&committee), Err(SuiError::InvalidSignature));
}

#[test]
fn signatures_are_added_up_exactly_where_each_is_a_point_of_the_group() {
    let (committee, keys) = committee_of_four();
    let transaction = transfer(1);
    let message = transaction.signed_data().to_bytes();
    let good: Vec<_> = keys.iter().take(3).map(|(s, n)| (*n, authority_sign(s, &message))).collect();
    assert!(CertifiedTransaction::new_with_signatures(transaction.clone(), good.clone(), &committee)
        .is_ok());

    // Signatures on other data are points of the group all the same: they add up, and
    // the certificate fails when it is verified.
    let other: Vec<_> = keys.iter().take(3).map(|(s, n)| (*n, authority_sign(s, b"other"))).collect();
    let certificate =
        CertifiedTransaction::new_with_signatures(transaction.clone(), other, &committee).unwrap();
    assert_eq!(certificate.verify(&committee), Err(SuiError::InvalidSignature));

    // Bytes that stand for no point cannot be added, and neither can no signatures.
    let mut bad = good.clone();
    bad[1].1 = AuthoritySignature([0xff; 48]);
    assert_eq!(
        CertifiedTransaction::new_with_signatures(transaction.clone(), bad, &committee).err(),
        Some(SuiError::InvalidSignature)
    );
    assert_eq!(
        CertifiedTransaction::new_with_signatures(transaction.clone(), vec![], &committee).err(),
        Some(SuiError::InvalidSignature)
    );
    // Such bytes do not pass the check of a single signature either, so that an
    // aggregator never holds them.
    assert_eq!(
        AuthoritySignature([0xff; 48]).verify(&message, &keys[1].1),
        Err(SuiError::InvalidSignature)
    );
    let mut aggregator = SignatureAggregator::try_new(transaction, &committee).unwrap();
    assert_eq!(
        aggregator.append(keys[1].1, AuthoritySignature([0xff; 48])).err(),
        Some(SuiError::InvalidSignature)
    );
    for (index, (secret, name)) in keys.iter().take(3).enumerate() {
        let result = aggregator.append(*name, authority_sign(secret, &message)).unwrap();
        assert_eq!(result.is_some(), index == 2);
    }
}
