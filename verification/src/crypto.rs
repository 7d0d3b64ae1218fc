//! Hashing and signatures: the digest of a byte string, the signature of a sender, and
//! the signatures of authorities, alone and combined.

use crate::base_types::{AuthorityName, SuiAddress};
use crate::error::{SuiError, SuiResult};
use ed25519_dalek::Verifier;
use sha3::Digest;
use vstd::prelude::*;
use vstd::slice::slice_subrange;

verus! {

/// The SHA3-256 digest of `data`.
pub uninterp spec fn sha3_256(data: Seq<u8>) -> [u8; 32];

/// Whether `signature` is an Ed25519 signature of `message` under `public_key`.
pub uninterp spec fn ed25519_valid(message: Seq<u8>, signature: Seq<u8>,
    public_key: Seq<u8>) -> bool;

/// Whether `signature` is a BLS12-381 signature of `message` under `public_key`, with
/// the domain separation tag `dst`.
pub uninterp spec fn bls_valid(
    message: Seq<u8>,
    dst: Seq<char>,
    signature: Seq<u8>,
    public_key: Seq<u8>,
) -> bool;

/// Whether `signature` is a BLS12-381 signature of `message` under the sum of
/// `public_keys`, with the domain separation tag `dst`.
pub uninterp spec fn bls_aggregate_valid(
    message: Seq<u8>,
    dst: Seq<char>,
    signature: Seq<u8>,
    public_keys: Seq<Seq<u8>>,
) -> bool;

/// The sum of the BLS12-381 signatures `signatures`, where they can be added.
pub uninterp spec fn bls_aggregated(signatures: Seq<Seq<u8>>) -> Option<[u8; 48]>;

/// Whether `signature` decodes to a point of the group of signatures: whether
/// `blst::min_sig::Signature::sig_validate` accepts it, without the check for the point
/// at infinity.
pub uninterp spec fn bls_signature_in_group(signature: Seq<u8>) -> bool;

/// `sha3::Sha3_256::digest`: the result is the SHA3-256 digest of `data`, a function of
/// the bytes alone.
#[verifier::external_body]
pub(crate) fn sha3_hash_bytes(data: &[u8]) -> (r: [u8; 32])
    ensures
        r == sha3_256(data@),
{
    sha3::Sha3_256::digest(data).into()
}

/// `ed25519_dalek::VerifyingKey::verify`: the result says whether the key and the
/// signature have the lengths of Ed25519, the key decodes to a point, and the signature
/// verifies for `message` under it.
#[verifier::external_body]
pub(crate) fn ed25519_verify(message: &[u8], signature: &[u8], public_key: &[u8]) -> (r: bool)
    ensures
        r == ed25519_valid(message@, signature@, public_key@),
{
    let (Ok(sig), Ok(pk)) = (<[u8; 64]>::try_from(signature), <[u8; 32]>::try_from(public_key))
    else {
        return false;
    };
    match ed25519_dalek::VerifyingKey::from_bytes(&pk) {
        Ok(key) => key.verify(message, &ed25519_dalek::Signature::from_bytes(&sig)).is_ok(),
        Err(_) => false,
    }
}

/// `blst::min_sig::Signature::verify`, with group checks on the signature and on the
/// key: the result says whether both decode and the signature verifies for `message`
/// under the key. The call succeeds only for a signature that decodes and passes the
/// group check, which it makes itself.
#[verifier::external_body]
pub(crate) fn bls_verify(
    message: &[u8],
    dst: &str,
    signature: &[u8],
    public_key: &[u8],
) -> (r: bool)
    ensures
        r == bls_valid(message@, dst@, signature@, public_key@),
        r ==> bls_signature_in_group(signature@),
{
    let (Ok(sig), Ok(pk)) = (
        blst::min_sig::Signature::from_bytes(signature),
        blst::min_sig::PublicKey::from_bytes(public_key),
    ) else {
        return false;
    };
    sig.verify(true, message, dst.as_bytes(), &[], &pk, true) == blst::BLST_ERROR::BLST_SUCCESS
}

/// `blst::min_sig::Signature::fast_aggregate_verify`, with a group check on the
/// signature: the result says whether the signature and every key decode and the
/// signature verifies for `message` under the sum of the keys. Without keys it is false.
#[verifier::external_body]
pub(crate) fn bls_fast_aggregate_verify(
    message: &[u8],
    dst: &str,
    signature: &[u8],
    public_keys: &Vec<AuthorityName>,
) -> (r: bool)
    ensures
        r == bls_aggregate_valid(message@, dst@, signature@, key_bytes(public_keys@)),
{
    let Ok(sig) = blst::min_sig::Signature::from_bytes(signature) else {
        return false;
    };
    let mut keys = Vec::with_capacity(public_keys.len());
    for name in public_keys {
        match blst::min_sig::PublicKey::from_bytes(&name.0) {
            Ok(pk) => keys.push(pk),
            Err(_) => return false,
        }
    }
    let refs: Vec<&blst::min_sig::PublicKey> = keys.iter().collect();
    sig.fast_aggregate_verify(true, message, dst.as_bytes(), &refs)
        == blst::BLST_ERROR::BLST_SUCCESS
}

/// `blst::min_sig::AggregateSignature::aggregate`, with group checks: the result is the
/// sum of the signatures. There is one exactly where there is at least one signature
/// and each decodes to a point of the group: the call fails on no other ground.
#[verifier::external_body]
pub(crate) fn bls_aggregate(signatures: &Vec<AuthoritySignature>) -> (r: Option<[u8; 48]>)
    ensures
        r == bls_aggregated(signature_bytes(signatures@)),
        r.is_some() == can_be_added(signatures@),
{
    let mut sigs = Vec::with_capacity(signatures.len());
    for s in signatures {
        match blst::min_sig::Signature::from_bytes(&s.0) {
            Ok(sig) => sigs.push(sig),
            Err(_) => return None,
        }
    }
    let refs: Vec<&blst::min_sig::Signature> = sigs.iter().collect();
    match blst::min_sig::AggregateSignature::aggregate(&refs, true) {
        Ok(sum) => Some(sum.to_signature().to_bytes()),
        Err(_) => None,
    }
}

/// The domain separation tag of authority signatures.
pub const AUTHORITY_DST: &'static str = "BLS_SIG_BLS12381G1_XMD:SHA-256_SSWU_RO_NUL_";

/// The bytes of the names `names`.
pub open spec fn key_bytes(names: Seq<AuthorityName>) -> Seq<Seq<u8>> {
    Seq::new(names.len(), |i: int| names[i].0@)
}

/// The bytes of the signatures `signatures`.
pub open spec fn signature_bytes(signatures: Seq<AuthoritySignature>) -> Seq<Seq<u8>> {
    Seq::new(signatures.len(), |i: int| signatures[i].0@)
}

/// The signature of one authority: a point of BLS12-381, compressed.
#[derive(Clone, Copy, Debug, PartialEq, Eq, Hash)]
pub struct AuthoritySignature(pub [u8; 48]);

/// The sum of the signatures of several authorities.
#[derive(Clone, Copy, Debug, PartialEq, Eq, Hash)]
pub struct AggregateAuthoritySignature(pub [u8; 48]);

/// Whether `signature` is the signature of `author` on `message`.
pub open spec fn authority_signature_valid(
    message: Seq<u8>,
    signature: AuthoritySignature,
    author: AuthorityName,
) -> bool {
    bls_valid(message, AUTHORITY_DST@, signature.0@, author.0@)
}

/// Whether the signatures `signatures` can be added up: there is at least one, and each
/// decodes to a point of the group of signatures.
pub open spec fn can_be_added(signatures: Seq<AuthoritySignature>) -> bool {
    &&& signatures.len() > 0
    &&& forall|i: int|
        0 <= i < signatures.len() ==> bls_signature_in_group((#[trigger] signatures[i]).0@)
}

impl AuthoritySignature {
    /// Checks that `self` is the signature of `author` on `message`. A signature that
    /// passes is a point of the group of signatures, and so can be added to others.
    pub fn verify(&self, message: &[u8], author: &AuthorityName) -> (r: SuiResult)
        ensures
            r.is_ok() == authority_signature_valid(message@, *self, *author),
            r matches Err(e) ==> e == SuiError::InvalidSignature,
            r.is_ok() ==> bls_signature_in_group(self.0@),
    {
        if bls_verify(message, AUTHORITY_DST, self.0.as_slice(), author.0.as_slice()) {
            Ok(())
        } else {
            Err(SuiError::InvalidSignature)
        }
    }
}

/// The scheme of a sender's signature.
#[derive(Clone, Copy, Debug, PartialEq, Eq, Hash, Structural)]
pub enum SignatureScheme {
    ED25519,
}

impl SignatureScheme {
    /// The byte that stands for the scheme at the head of a signature.
    pub fn flag(&self) -> (r: u8)
        ensures
            r == 0,
    {
        0x00
    }
}

/// The signature of a sender as it goes over the wire: the byte of the scheme, the 64
/// bytes of the signature, the 32 bytes of the public key.
#[derive(Clone, Copy, Debug, PartialEq, Eq, Hash)]
pub struct Signature(pub [u8; 97]);

/// The address of the account with the Ed25519 public key `public_key`: the first 20
/// bytes of the digest of the scheme's byte and the key.
pub open spec fn address_of_key(public_key: Seq<u8>) -> SuiAddress {
    let h = sha3_256(seq![0u8] + public_key);
    SuiAddress(
        [
            h[0],
            h[1],
            h[2],
            h[3],
            h[4],
            h[5],
            h[6],
            h[7],
            h[8],
            h[9],
            h[10],
            h[11],
            h[12],
            h[13],
            h[14],
            h[15],
            h[16],
            h[17],
            h[18],
            h[19],
        ],
    )
}

/// Whether `signature` is a signature of `message` by the account `author`: it is of
/// the Ed25519 scheme, its public key belongs to `author`, and it verifies under that
/// key.
pub open spec fn sender_signature_valid(
    message: Seq<u8>,
    signature: Signature,
    author: SuiAddress,
) -> bool {
    &&& signature.0[0] == 0
    &&& address_of_key(signature.0@.subrange(65, 97)) == author
    &&& ed25519_valid(message, signature.0@.subrange(1, 65), signature.0@.subrange(65, 97))
}

impl SuiAddress {
    /// The address of the account with the Ed25519 public key `public_key`.
    pub fn from_public_key(public_key: &[u8]) -> (r: SuiAddress)
        ensures
            r == address_of_key(public_key@),
    {
        let mut input: Vec<u8> = Vec::new();
        input.push(0x00);
        crate::codec::write_raw(&mut input, public_key);
        assert(input@ =~= seq![0u8] + public_key@);
        let h = sha3_hash_bytes(input.as_slice());
        SuiAddress(
            [
                h[0],
                h[1],
                h[2],
                h[3],
                h[4],
                h[5],
                h[6],
                h[7],
                h[8],
                h[9],
                h[10],
                h[11],
                h[12],
                h[13],
                h[14],
                h[15],
                h[16],
                h[17],
                h[18],
                h[19],
            ],
        )
    }
}

impl Signature {
    /// The number of bytes of a signature.
    pub const LENGTH: usize = 97;

    /// The signature with the bytes `bytes`, where they are 97 and the first stands
    /// for the Ed25519 scheme.
    pub fn from_bytes(bytes: &[u8]) -> (r: Option<Signature>)
        ensures
            r.is_some() == (bytes@.len() == 97 && bytes@[0] == 0),
            r matches Some(s) ==> s.0@ == bytes@,
    {
        if bytes.len() != 97 || bytes[0] != 0x00 {
            return None;
        }
        let mut raw = [0u8; 97];
        let mut i: usize = 0;
        while i < 97
            invariant
                i <= 97,
                bytes@.len() == 97,
                forall|j: int| 0 <= j < i ==> raw@[j] == bytes@[j],
            decreases 97 - i,
        {
            raw[i] = bytes[i];
            i += 1;
        }
        assert(raw@ =~= bytes@);
        Some(Signature(raw))
    }

    /// The signature that stands in a system transaction, which no user signed: all
    /// bytes zero. It is never verified.
    pub fn sentinel() -> (r: Signature)
        ensures
            forall|i: int| 0 <= i < 97 ==> r.0@[i] == 0,
    {
        Signature([0u8; 97])
    }

    /// The scheme of the signature.
    pub fn scheme(&self) -> (r: SignatureScheme)
        ensures
            r == SignatureScheme::ED25519,
    {
        SignatureScheme::ED25519
    }

    /// The bytes of the signature proper.
    pub fn signature_bytes(&self) -> (r: &[u8])
        ensures
            r@ == self.0@.subrange(1, 65),
    {
        slice_subrange(self.0.as_slice(), 1, 65)
    }

    /// The bytes of the public key.
    pub fn public_key_bytes(&self) -> (r: &[u8])
        ensures
            r@ == self.0@.subrange(65, 97),
    {
        slice_subrange(self.0.as_slice(), 65, 97)
    }

    /// Checks that `self` is a signature of `message` by the account `author`.
    pub fn verify_bytes(&self, message: &[u8], author: SuiAddress) -> (r: SuiResult)
        ensures
            r.is_ok() == sender_signature_valid(message@, *self, author),
            r matches Err(e) ==> e == SuiError::InvalidSignature,
    {
        if self.0[0] != 0x00 {
            return Err(SuiError::InvalidSignature);
        }
        let public_key = self.public_key_bytes();
        if SuiAddress::from_public_key(public_key) != author {
            return Err(SuiError::InvalidSignature);
        }
        if ed25519_verify(message, self.signature_bytes(), public_key) {
            Ok(())
        } else {
            Err(SuiError::InvalidSignature)
        }
    }
}

} // verus!
