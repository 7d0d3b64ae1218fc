use base64ct::Encoding;
use ed25519_dalek::Signer;
use sha3::Digest;
use sui_types::base_types::{
    AuthorityName, ObjectDigest, ObjectID, SequenceNumber, SuiAddress, TransactionDigest,
};
use sui_types::certified::{change_epoch_data, CertifiedTransaction, SignedTransaction, Transaction};
use sui_types::committee::Committee;
use sui_types::crypto::{AuthoritySignature, Signature, SignatureScheme, AUTHORITY_DST};
use sui_types::error::SuiError;
use sui_types::transaction::InputObjectKind;
use sui_types::transaction_data::TransactionData;

fn authority_secret(seed: u8) -> (blst::min_sig::SecretKey, AuthorityName) {
    let secret = blst::min_sig::SecretKey::key_gen(&[seed; 32], &[]).unwrap();
    let name = AuthorityName(secret.sk_to_pk().to_bytes());
    (secret, name)
}

fn authority_signature(secret: &blst::min_sig::SecretKey, message: &[u8]) -> AuthoritySignature {
    AuthoritySignature(secret.sign(message, AUTHORITY_DST.as_bytes(), &[]).to_bytes())
}

fn sender_secret(seed: u8) -> (ed25519_dalek::SigningKey, SuiAddress) {
    let key = ed25519_dalek::SigningKey::from_bytes(&[seed; 32]);
    let address = SuiAddress::from_public_key(&key.verifying_key().to_bytes());
    (key, address)
}

fn sender_signature(key: &ed25519_dalek::SigningKey, message: &[u8]) -> Signature {
    let mut bytes = vec![0u8];
    bytes.extend_from_slice(&key.sign(message).to_bytes());
    bytes.extend_from_slice(&key.verifying_key().to_bytes());
    Signature::from_bytes(&bytes).unwrap()
}

fn object(last: u8) -> (ObjectID, SequenceNumber, ObjectDigest) {
    let mut bytes = [0u8; 20];
    bytes[19] = last;
    (ObjectID(bytes), SequenceNumber::from_u64(3), ObjectDigest([last; 32]))
}

fn transfer_data(sender: SuiAddress) -> TransactionData {
    TransactionData::new_transfer(SuiAddress([9; 20]), object(1), sender, object(2), 1000)
}

fn signed_transfer(seed: u8) -> Transaction {
    let (key, sender) = sender_secret(seed);
    let data = transfer_data(sender);
    let signature = sender_signature(&key, &data.to_bytes());
    Transaction::new(data, signature)
}

fn committee(seeds: &[u8], epoch: u64) -> Committee {
    Committee::new(epoch, seeds.iter().map(|s| (authority_secret(*s).1, 1)).collect()).unwrap()
}

#[test]
fn the_address_is_the_head_of_the_hash_of_the_flagged_key() {
    let key = ed25519_dalek::SigningKey::from_bytes(&[7; 32]);
    let public = key.verifying_key().to_bytes();
    let mut hasher = sha3::Sha3_256::default();
    hasher.update([0u8]);
    hasher.update(public);
    let hash = hasher.finalize();
    assert_eq!(SuiAddress::from_public_key(&public).0, hash[..20]);
}

#[test]
fn a_transaction_signed_by_its_sender_verifies() {
    let transaction = signed_transfer(1);
    assert_eq!(transaction.verify(), Ok(()));
    assert_eq!(transaction.verify_sender_signature(), Ok(()));
    assert_eq!(transaction.sender_address(), sender_secret(1).1);
    assert!(!transaction.is_verified());
    assert!(!transaction.is_system_tx());
    assert_eq!(*transaction.gas_payment_object_ref(), object(2));
}

#[test]
fn a_key_that_does_not_hash_to_the_sender_is_refused() {
    let (key, _) = sender_secret(1);
    let (_, other) = sender_secret(2);
    let data = transfer_data(other);
    let signature = sender_signature(&key, &data.to_bytes());
    assert_eq!(Transaction::new(data, signature).verify(), Err(SuiError::InvalidSignature));
}

#[test]
fn a_signature_on_other_data_is_refused() {
    let (key, sender) = sender_secret(1);
    let data = transfer_data(sender);
    let mut other = transfer_data(sender);
    other.gas_budget = 7;
    let signature = sender_signature(&key, &other.to_bytes());
    assert_eq!(Transaction::new(data, signature).verify(), Err(SuiError::InvalidSignature));
}

#[test]
fn a_mark_of_verification_skips_the_check() {
    let (_, sender) = sender_secret(1);
    let mut transaction = Transaction::new(transfer_data(sender), Signature::sentinel());
    assert_eq!(transaction.verify(), Err(SuiError::InvalidSignature));
    transaction.set_verified(true);
    assert!(transaction.is_verified());
    assert_eq!(transaction.verify(), Ok(()));
    transaction.set_verified(false);
    assert_eq!(transaction.verify(), Err(SuiError::InvalidSignature));
}

#[test]
fn verification_gives_the_same_verdict_twice() {
    let good = signed_transfer(1);
    assert_eq!(good.verify(), Ok(()));
    assert_eq!(good.verify(), Ok(()));
    let (_, sender) = sender_secret(1);
    let bad = Transaction::new(transfer_data(sender), Signature::sentinel());
    assert_eq!(bad.verify(), Err(SuiError::InvalidSignature));
    assert_eq!(bad.verify(), Err(SuiError::InvalidSignature));
}

#[test]
fn signatures_of_the_wrong_shape_are_no_signatures() {
    assert!(Signature::from_bytes(&[0u8; 96]).is_none());
    assert!(Signature::from_bytes(&[0u8; 98]).is_none());
    let mut other_scheme = [0u8; 97];
    other_scheme[0] = 1;
    assert!(Signature::from_bytes(&other_scheme).is_none());
    let signature = Signature::from_bytes(&[0u8; 97]).unwrap();
    assert_eq!(signature, Signature::sentinel());
    assert_eq!(signature.scheme(), SignatureScheme::ED25519);
    assert_eq!(signature.scheme().flag(), 0);
    assert_eq!(signature.signature_bytes().len(), 64);
    assert_eq!(signature.public_key_bytes().len(), 32);
    assert_eq!(Signature::LENGTH, 97);
}

#[test]
fn the_digest_is_the_hash_of_the_signed_data_and_is_kept() {
    let mut transaction = signed_transfer(1);
    let bytes = transaction.signed_data().to_bytes();
    let expected: [u8; 32] = sha3::Sha3_256::digest(&bytes).into();
    assert_eq!(transaction.compute_digest(), TransactionDigest(expected));
    let first = transaction.digest();
    let second = transaction.digest();
    assert_eq!(first, TransactionDigest(expected));
    assert_eq!(second, first);
    // The sender-signed data ends with the signature of the sender.
    let data = transaction.signed_data().data.to_bytes();
    assert_eq!(bytes[..data.len()], data[..]);
    assert_eq!(bytes[data.len()..], transaction.signed_data().tx_signature.0[..]);
}

#[test]
fn the_digest_is_the_same_through_the_states_of_the_envelope() {
    let mut transaction = signed_transfer(1);
    let digest = transaction.digest();
    let (secret, name) = authority_secret(1);
    let message = transaction.signed_data().to_bytes();
    let mut signed =
        SignedTransaction::new(0, transaction, name, authority_signature(&secret, &message));
    assert_eq!(signed.digest(), digest);
    let mut certificate = CertifiedTransaction::new(0, signed.to_transaction());
    assert_eq!(certificate.digest(), digest);
    assert_eq!(certificate.to_transaction().digest(), digest);
    // Other data have another digest.
    assert_ne!(signed_transfer(2).digest(), digest);
}

#[test]
fn a_signed_transaction_verifies_under_the_committee_of_its_authority() {
    let transaction = signed_transfer(1);
    let (secret, name) = authority_secret(1);
    let message = transaction.signed_data().to_bytes();
    let signed =
        SignedTransaction::new(3, transaction, name, authority_signature(&secret, &message));
    assert_eq!(signed.auth_sign_info().epoch, 3);
    assert_eq!(signed.auth_sign_info().authority, name);
    assert_eq!(signed.verify(&committee(&[1, 2, 3, 4], 3)), Ok(()));
    assert_eq!(signed.verify(&committee(&[1, 2, 3, 4], 3)), Ok(()));
    assert_eq!(signed.verify(&committee(&[1, 2, 3, 4], 4)), Err(SuiError::WrongEpoch));
    assert_eq!(signed.verify(&committee(&[2, 3, 4], 3)), Err(SuiError::UnknownSigner));
}

#[test]
fn a_signed_transaction_with_the_signature_of_another_authority_is_invalid() {
    let transaction = signed_transfer(1);
    let (_, name) = authority_secret(1);
    let (other, _) = authority_secret(2);
    let message = transaction.signed_data().to_bytes();
    let signed = SignedTransaction::new(0, transaction, name, authority_signature(&other, &message));
    assert_eq!(signed.verify(&committee(&[1, 2], 0)), Err(SuiError::InvalidSignature));
}

#[test]
fn a_signed_transaction_with_a_forged_sender_is_invalid() {
    let (_, sender) = sender_secret(1);
    let transaction = Transaction::new(transfer_data(sender), Signature::sentinel());
    let (secret, name) = authority_secret(1);
    let message = transaction.signed_data().to_bytes();
    let signed =
        SignedTransaction::new(0, transaction, name, authority_signature(&secret, &message));
    assert_eq!(signed.verify(&committee(&[1, 2], 0)), Err(SuiError::InvalidSignature));
}

#[test]
fn a_change_of_epoch_needs_no_signature_of_a_sender() {
    let (secret, name) = authority_secret(1);
    let message = change_epoch_data(7, 1000, 500).to_bytes();
    let signed =
        SignedTransaction::new_change_epoch(7, 1000, 500, name, authority_signature(&secret, &message));
    assert!(signed.is_system_tx());
    assert_eq!(signed.signed_data().tx_signature, Signature::sentinel());
    assert_eq!(signed.sender_address(), SuiAddress::default());
    assert_eq!(signed.signed_data().data.gas_budget, 0);
    assert_eq!(
        *signed.gas_payment_object_ref(),
        (ObjectID::zero(), SequenceNumber::default(), ObjectDigest::min())
    );
    assert_eq!(signed.verify_sender_signature(), Ok(()));
    assert_eq!(signed.verify(&committee(&[1, 2, 3, 4], 7)), Ok(()));
    assert_eq!(signed.input_objects().unwrap().len(), 1);
    assert!(matches!(signed.input_objects().unwrap()[0], InputObjectKind::SharedMoveObject(_)));
    assert!(signed.contains_shared_object());
    assert_eq!(
        signed.shared_input_objects(),
        vec![sui_types::base_types::sui_system_state_object_id()]
    );

    // With a signature on other data the sender still passes and the authority does not.
    let other = change_epoch_data(8, 1000, 500).to_bytes();
    let forged =
        SignedTransaction::new_change_epoch(7, 1000, 500, name, authority_signature(&secret, &other));
    assert_eq!(forged.verify_sender_signature(), Ok(()));
    assert_eq!(forged.verify(&committee(&[1, 2, 3, 4], 7)), Err(SuiError::InvalidSignature));
}

#[test]
fn an_authority_signature_verifies_under_its_key_alone() {
    let (secret, name) = authority_secret(1);
    let (_, stranger) = authority_secret(2);
    let signature = authority_signature(&secret, b"message");
    assert_eq!(signature.verify(b"message", &name), Ok(()));
    assert_eq!(signature.verify(b"massage", &name), Err(SuiError::InvalidSignature));
    assert_eq!(signature.verify(b"message", &stranger), Err(SuiError::InvalidSignature));
    assert_eq!(
        AuthoritySignature([0; 48]).verify(b"message", &name),
        Err(SuiError::InvalidSignature)
    );
    assert_eq!(
        signature.verify(b"message", &AuthorityName([0; 96])),
        Err(SuiError::InvalidSignature)
    );
}

#[test]
fn the_network_form_of_a_transaction_is_base64() {
    let transaction = signed_transfer(1);
    let (data, scheme, signature, public_key) = transaction.to_network_data_for_execution();
    assert_eq!(data.0, base64ct::Base64::encode_string(&transaction.signed_data().data.to_bytes()));
    assert_eq!(data.0, transaction.signed_data().data.to_base64());
    assert_eq!(scheme, SignatureScheme::ED25519);
    assert_eq!(signature.0.len(), 88);
    assert_eq!(public_key.0.len(), 44);
    assert_eq!(
        public_key.0,
        base64ct::Base64::encode_string(
            &ed25519_dalek::SigningKey::from_bytes(&[1; 32]).verifying_key().to_bytes()
        )
    );
    assert_eq!(sui_types::base64::Base64::from_bytes(b"hello").0, "aGVsbG8=");
    assert_eq!(sui_types::base64::Base64::try_from_bytes(b"").unwrap().encoded().as_str(), "");
}
