//! When two envelopes are the same. Neither the digest that an envelope keeps nor its
//! mark of verification takes part.

use crate::effects::{enc_effects, TransactionEffectsEnvelope};
use crate::envelope::{enc_sender_signed_data, TransactionEnvelope};
use crate::lex::bytes_eq;
use crate::quorum::AuthorityStrongQuorumSignInfo;
use crate::sign_info::{same_members, AuthoritySignInfo, EmptySignInfo};
use std::hash::{Hash, Hasher};
use vstd::prelude::*;
use vstd::std_specs::cmp::PartialEqSpecImpl;

verus! {

/// `std::hash::Hasher::write`: feeds `bytes` to the hasher. What the hasher makes of
/// them is its own affair; nothing is claimed of it.
#[verifier::external_body]
fn feed<H: Hasher>(state: &mut H, bytes: &[u8]) {
    state.write(bytes)
}

impl Hash for TransactionEnvelope<EmptySignInfo> {
    /// Feeds the hasher the encoding of the sender-signed data and nothing else, so
    /// that transactions that are the same hash alike.
    fn hash<H: Hasher>(&self, state: &mut H) {
        let bytes = self.signed_data().to_bytes();
        feed(state, bytes.as_slice());
    }
}

impl Hash for TransactionEnvelope<AuthoritySignInfo> {
    /// Feeds the hasher the encoding of the sender-signed data and what the authority
    /// added, so that signed transactions that are the same hash alike.
    fn hash<H: Hasher>(&self, state: &mut H) {
        let bytes = self.signed_data().to_bytes();
        feed(state, bytes.as_slice());
        let info = self.auth_sign_info();
        let mut added: Vec<u8> = Vec::new();
        crate::codec::write_u64(&mut added, info.epoch);
        crate::codec::write_raw(&mut added, info.authority.as_bytes());
        crate::codec::write_raw(&mut added, info.signature.0.as_slice());
        feed(state, added.as_slice());
    }
}

impl PartialEq for TransactionEnvelope<EmptySignInfo> {
    /// Whether the two transactions have the same sender-signed data, by their
    /// encoding.
    fn eq(&self, other: &Self) -> (r: bool) {
        let a = self.signed_data().to_bytes();
        let b = other.signed_data().to_bytes();
        bytes_eq(a.as_slice(), b.as_slice())
    }
}

impl PartialEqSpecImpl for TransactionEnvelope<EmptySignInfo> {
    open spec fn obeys_eq_spec() -> bool {
        true
    }

    open spec fn eq_spec(&self, other: &Self) -> bool {
        enc_sender_signed_data(self.data()) == enc_sender_signed_data(other.data())
    }
}

impl Eq for TransactionEnvelope<EmptySignInfo> {

}

impl PartialEq for TransactionEnvelope<AuthoritySignInfo> {
    /// Whether the two transactions have the same sender-signed data, by their
    /// encoding, and the same signature of the same authority in the same epoch.
    fn eq(&self, other: &Self) -> (r: bool) {
        let a = self.signed_data().to_bytes();
        let b = other.signed_data().to_bytes();
        let x = self.auth_sign_info();
        let y = other.auth_sign_info();
        let same = x.epoch == y.epoch && x.authority == y.authority && bytes_eq(
            x.signature.0.as_slice(),
            y.signature.0.as_slice(),
        );
        assert(same == (*x == *y)) by {
            if x.signature.0@ == y.signature.0@ {
                assert(x.signature.0 =~= y.signature.0);
            }
        }
        bytes_eq(a.as_slice(), b.as_slice()) && same
    }
}

impl PartialEqSpecImpl for TransactionEnvelope<AuthoritySignInfo> {
    open spec fn obeys_eq_spec() -> bool {
        true
    }

    open spec fn eq_spec(&self, other: &Self) -> bool {
        enc_sender_signed_data(self.data()) == enc_sender_signed_data(other.data())
            && self.auth() == other.auth()
    }
}

impl Eq for TransactionEnvelope<AuthoritySignInfo> {

}

impl PartialEq for TransactionEnvelope<AuthorityStrongQuorumSignInfo> {
    /// Whether the two certificates have the same sender-signed data, by their
    /// encoding, and the same signers.
    fn eq(&self, other: &Self) -> (r: bool) {
        let a = self.signed_data().to_bytes();
        let b = other.signed_data().to_bytes();
        bytes_eq(a.as_slice(), b.as_slice()) && same_members(
            &self.auth_sign_info().signers_map,
            &other.auth_sign_info().signers_map,
        )
    }
}

impl PartialEqSpecImpl for TransactionEnvelope<AuthorityStrongQuorumSignInfo> {
    open spec fn obeys_eq_spec() -> bool {
        true
    }

    open spec fn eq_spec(&self, other: &Self) -> bool {
        enc_sender_signed_data(self.data()) == enc_sender_signed_data(other.data())
            && self.auth().signers() == other.auth().signers()
    }
}

impl Eq for TransactionEnvelope<AuthorityStrongQuorumSignInfo> {

}

impl PartialEq for TransactionEffectsEnvelope<AuthoritySignInfo> {
    /// Whether the two envelopes hold the same effects, by their encoding, and the same
    /// signature of the same authority in the same epoch.
    fn eq(&self, other: &Self) -> (r: bool) {
        let a = self.effects_ref().to_bytes();
        let b = other.effects_ref().to_bytes();
        let x = self.auth_signature();
        let y = other.auth_signature();
        let same = x.epoch == y.epoch && x.authority == y.authority && bytes_eq(
            x.signature.0.as_slice(),
            y.signature.0.as_slice(),
        );
        assert(same == (*x == *y)) by {
            if x.signature.0@ == y.signature.0@ {
                assert(x.signature.0 =~= y.signature.0);
            }
        }
        bytes_eq(a.as_slice(), b.as_slice()) && same
    }
}

impl PartialEqSpecImpl for TransactionEffectsEnvelope<AuthoritySignInfo> {
    open spec fn obeys_eq_spec() -> bool {
        true
    }

    open spec fn eq_spec(&self, other: &Self) -> bool {
        enc_effects(self.effects()) == enc_effects(other.effects()) && self.auth() == other.auth()
    }
}

} // verus!
