//! What the message layer reads of an object of the ledger.

use crate::base_types::{
    ObjectDigest, ObjectID, ObjectRef, SequenceNumber, SuiAddress, TransactionDigest,
};
use crate::codec::{bytes_with_len, u64_le, variant_tag, write_bytes, write_tag, write_u64, Encode};
use crate::crypto::{sha3_256, sha3_hash_bytes};
use crate::transaction::InputObjectKind;
use vstd::prelude::*;

verus! {

/// Who owns an object.
#[derive(Clone, Copy, Debug, PartialEq, Eq, Hash)]
pub enum Owner {
    /// The object is owned by an address.
    AddressOwner(SuiAddress),
    /// The object is owned by another object, whose identifier stands as an address.
    ObjectOwner(SuiAddress),
    /// The object is shared: anybody may read and write it.
    Shared,
    /// The object cannot change.
    Immutable,
}

impl Owner {
    /// Whether the two owners are the same.
    pub fn same(&self, other: &Owner) -> (r: bool)
        ensures
            r == (*self == *other),
    {
        match (self, other) {
            (Owner::AddressOwner(a), Owner::AddressOwner(b)) => *a == *b,
            (Owner::ObjectOwner(a), Owner::ObjectOwner(b)) => *a == *b,
            (Owner::Shared, Owner::Shared) => true,
            (Owner::Immutable, Owner::Immutable) => true,
            _ => false,
        }
    }
}

/// An object of the ledger: a Move value or a package, with its owner and the
/// transaction that wrote it last.
#[derive(Debug, PartialEq, Eq)]
pub struct Object {
    pub id: ObjectID,
    pub version: SequenceNumber,
    /// Whether the object is a package.
    pub is_package: bool,
    /// The contents of the Move value, or the modules of the package.
    pub contents: Vec<u8>,
    pub owner: Owner,
    /// The digest of the transaction that created or last mutated the object.
    pub previous_transaction: TransactionDigest,
    /// The storage rebate that deleting the object pays back.
    pub storage_rebate: u64,
}

/// The mathematical form of an `Object`.
pub struct ObjectView {
    pub id: ObjectID,
    pub version: SequenceNumber,
    pub is_package: bool,
    pub contents: Seq<u8>,
    pub owner: Owner,
    pub previous_transaction: TransactionDigest,
    pub storage_rebate: u64,
}

impl View for Object {
    type V = ObjectView;

    open spec fn view(&self) -> ObjectView {
        ObjectView {
            id: self.id,
            version: self.version,
            is_package: self.is_package,
            contents: self.contents@,
            owner: self.owner,
            previous_transaction: self.previous_transaction,
            storage_rebate: self.storage_rebate,
        }
    }
}

impl Clone for Object {
    fn clone(&self) -> (r: Self)
        ensures
            r@ == self@,
    {
        Object {
            id: self.id,
            version: self.version,
            is_package: self.is_package,
            contents: self.contents.clone(),
            owner: self.owner,
            previous_transaction: self.previous_transaction,
            storage_rebate: self.storage_rebate,
        }
    }
}

/// The encoding of an object.
pub open spec fn enc_object(o: ObjectView) -> Seq<u8> {
    o.id.0@ + u64_le(o.version.0) + variant_tag(
        if o.is_package {
            1
        } else {
            0
        },
    ) + bytes_with_len(o.contents) + o.owner.encoding() + o.previous_transaction.0@ + u64_le(
        o.storage_rebate,
    )
}

/// The digest of an object: that of its encoding.
pub open spec fn object_digest(o: ObjectView) -> ObjectDigest {
    ObjectDigest(sha3_256(enc_object(o)))
}

/// The reference to an object: its identifier, its version and its digest.
pub open spec fn object_reference(o: ObjectView) -> ObjectRef {
    (o.id, o.version, object_digest(o))
}

/// How an object enters a transaction as input: a package by its identifier, a shared
/// object by its identifier, any other by its reference.
pub open spec fn input_kind_of(o: ObjectView) -> InputObjectKind {
    if o.is_package {
        InputObjectKind::MovePackage(o.id)
    } else if o.owner is Shared {
        InputObjectKind::SharedMoveObject(o.id)
    } else {
        InputObjectKind::ImmOrOwnedMoveObject(object_reference(o))
    }
}

impl Encode for Object {
    open spec fn encoding(&self) -> Seq<u8> {
        enc_object(self@)
    }

    fn encode(&self, out: &mut Vec<u8>) {
        assert(self.encoding() == enc_object(self@));
        let ghost start = out@;
        self.id.encode(out);
        write_u64(out, self.version.value());
        write_tag(
            out,
            if self.is_package {
                1
            } else {
                0
            },
        );
        write_bytes(out, self.contents.as_slice());
        self.owner.encode(out);
        crate::codec::write_raw(out, self.previous_transaction.as_bytes());
        write_u64(out, self.storage_rebate);
        assert(out@ =~= start + enc_object(self@));
    }
}

impl Object {
    /// The identifier of the object.
    pub fn id(&self) -> (r: ObjectID)
        ensures
            r == self.id,
    {
        self.id
    }

    /// The version of the object.
    pub fn version(&self) -> (r: SequenceNumber)
        ensures
            r == self.version,
    {
        self.version
    }

    /// Whether the object cannot change.
    pub fn is_immutable(&self) -> (r: bool)
        ensures
            r == (self.owner is Immutable),
    {
        matches!(self.owner, Owner::Immutable)
    }

    /// Whether the object is shared.
    pub fn is_shared(&self) -> (r: bool)
        ensures
            r == (self.owner is Shared),
    {
        matches!(self.owner, Owner::Shared)
    }

    /// The digest of the object.
    pub fn digest(&self) -> (r: ObjectDigest)
        ensures
            r == object_digest(self@),
    {
        let mut bytes: Vec<u8> = Vec::new();
        self.encode(&mut bytes);
        ObjectDigest(sha3_hash_bytes(bytes.as_slice()))
    }

    /// The reference to the object.
    pub fn compute_object_reference(&self) -> (r: ObjectRef)
        ensures
            r == object_reference(self@),
    {
        (self.id, self.version, self.digest())
    }

    /// How the object enters a transaction as input.
    pub fn input_object_kind(&self) -> (r: InputObjectKind)
        ensures
            r == input_kind_of(self@),
    {
        if self.is_package {
            InputObjectKind::MovePackage(self.id)
        } else if self.is_shared() {
            InputObjectKind::SharedMoveObject(self.id)
        } else {
            InputObjectKind::ImmOrOwnedMoveObject(self.compute_object_reference())
        }
    }
}

} // verus!
