//! Identifiers, versions and digests of the ledger's objects and transactions.

use crate::lex::{bytes_eq, bytes_lt, ByteKey};
use vstd::prelude::*;
use vstd::std_specs::cmp::PartialEqSpecImpl;

verus! {

/// The position of a transaction in an authority's log.
pub type TxSequenceNumber = u64;

/// One version of one object: its identifier, its version and the digest of its contents.
pub type ObjectRef = (ObjectID, SequenceNumber, ObjectDigest);

/// The identifier of an object.
#[derive(Clone, Copy, Debug, Eq, Hash)]
pub struct ObjectID(pub [u8; 20]);

impl PartialEq for ObjectID {
    fn eq(&self, other: &Self) -> (r: bool) {
        let r = bytes_eq(self.0.as_slice(), other.0.as_slice());
        assert(r == (self.0 =~= other.0));
        r
    }
}

impl PartialEqSpecImpl for ObjectID {
    open spec fn obeys_eq_spec() -> bool {
        true
    }

    open spec fn eq_spec(&self, other: &Self) -> bool {
        *self == *other
    }
}

impl ObjectID {
    /// The number of bytes of a value.
    pub const LENGTH: usize = 20;

    /// The bytes of the value.
    pub fn as_bytes(&self) -> (r: &[u8])
        ensures
            r@ == self.0@,
    {
        self.0.as_slice()
    }
}

impl ByteKey for ObjectID {
    open spec fn key(&self) -> Seq<u8> {
        self.0@
    }

    fn key_lt(&self, other: &Self) -> (r: bool) {
        bytes_lt(self.0.as_slice(), other.0.as_slice())
    }

    fn key_eq(&self, other: &Self) -> (r: bool) {
        bytes_eq(self.0.as_slice(), other.0.as_slice())
    }
}

impl ObjectID {
    /// The identifier whose bytes are all zero.
    pub open spec fn spec_zero() -> ObjectID {
        ObjectID([0, 0, 0, 0, 0, 0, 0, 0, 0, 0, 0, 0, 0, 0, 0, 0, 0, 0, 0, 0])
    }

    /// The identifier whose bytes are all zero.
    #[verifier::when_used_as_spec(spec_zero)]
    pub fn zero() -> (r: ObjectID)
        ensures
            r == Self::spec_zero(),
    {
        ObjectID([0, 0, 0, 0, 0, 0, 0, 0, 0, 0, 0, 0, 0, 0, 0, 0, 0, 0, 0, 0])
    }
}

/// The identifier of the shared object that holds the system state.
pub open spec fn spec_system_state_object_id() -> ObjectID {
    ObjectID([0, 0, 0, 0, 0, 0, 0, 0, 0, 0, 0, 0, 0, 0, 0, 0, 0, 0, 0, 5])
}

/// The identifier of the shared object that holds the system state.
#[verifier::when_used_as_spec(spec_system_state_object_id)]
pub fn sui_system_state_object_id() -> (r: ObjectID)
    ensures
        r == spec_system_state_object_id(),
{
    ObjectID([0, 0, 0, 0, 0, 0, 0, 0, 0, 0, 0, 0, 0, 0, 0, 0, 0, 0, 0, 5])
}

/// The address under which a package publishes its modules.
#[derive(Clone, Copy, Debug, Eq, Hash)]
pub struct AccountAddress(pub [u8; 20]);

impl PartialEq for AccountAddress {
    fn eq(&self, other: &Self) -> (r: bool) {
        let r = bytes_eq(self.0.as_slice(), other.0.as_slice());
        assert(r == (self.0 =~= other.0));
        r
    }
}

impl PartialEqSpecImpl for AccountAddress {
    open spec fn obeys_eq_spec() -> bool {
        true
    }

    open spec fn eq_spec(&self, other: &Self) -> bool {
        *self == *other
    }
}

impl AccountAddress {
    /// The number of bytes of a value.
    pub const LENGTH: usize = 20;

    /// The bytes of the value.
    pub fn as_bytes(&self) -> (r: &[u8])
        ensures
            r@ == self.0@,
    {
        self.0.as_slice()
    }
}

impl ObjectID {
    /// The identifier of the package that lives at `address`.
    pub fn from_address(address: AccountAddress) -> (r: ObjectID)
        ensures
            r.0 == address.0,
    {
        ObjectID(address.0)
    }
}

/// The address of an account, derived from its public key.
#[derive(Clone, Copy, Debug, Eq, Hash)]
pub struct SuiAddress(pub [u8; 20]);

impl PartialEq for SuiAddress {
    fn eq(&self, other: &Self) -> (r: bool) {
        let r = bytes_eq(self.0.as_slice(), other.0.as_slice());
        assert(r == (self.0 =~= other.0));
        r
    }
}

impl PartialEqSpecImpl for SuiAddress {
    open spec fn obeys_eq_spec() -> bool {
        true
    }

    open spec fn eq_spec(&self, other: &Self) -> bool {
        *self == *other
    }
}

impl SuiAddress {
    /// The number of bytes of a value.
    pub const LENGTH: usize = 20;

    /// The bytes of the value.
    pub fn as_bytes(&self) -> (r: &[u8])
        ensures
            r@ == self.0@,
    {
        self.0.as_slice()
    }
}

impl SuiAddress {
    /// The address whose bytes are all zero: the sender of system transactions.
    pub open spec fn spec_zero() -> SuiAddress {
        SuiAddress([0, 0, 0, 0, 0, 0, 0, 0, 0, 0, 0, 0, 0, 0, 0, 0, 0, 0, 0, 0])
    }
}

impl Default for SuiAddress {
    fn default() -> (r: Self)
        ensures
            r == SuiAddress::spec_zero(),
    {
        SuiAddress([0, 0, 0, 0, 0, 0, 0, 0, 0, 0, 0, 0, 0, 0, 0, 0, 0, 0, 0, 0])
    }
}

/// The digest of the contents of an object, or one of two sentinels.
#[derive(Clone, Copy, Debug, Eq, Hash)]
pub struct ObjectDigest(pub [u8; 32]);

impl PartialEq for ObjectDigest {
    fn eq(&self, other: &Self) -> (r: bool) {
        let r = bytes_eq(self.0.as_slice(), other.0.as_slice());
        assert(r == (self.0 =~= other.0));
        r
    }
}

impl PartialEqSpecImpl for ObjectDigest {
    open spec fn obeys_eq_spec() -> bool {
        true
    }

    open spec fn eq_spec(&self, other: &Self) -> bool {
        *self == *other
    }
}

impl ObjectDigest {
    /// The number of bytes of a value.
    pub const LENGTH: usize = 32;

    /// The bytes of the value.
    pub fn as_bytes(&self) -> (r: &[u8])
        ensures
            r@ == self.0@,
    {
        self.0.as_slice()
    }
}

impl ObjectDigest {
    /// The least digest: all bytes zero.
    pub open spec fn spec_min() -> ObjectDigest {
        ObjectDigest([
            0, 0, 0, 0, 0, 0, 0, 0, 0, 0, 0, 0, 0, 0, 0, 0,
            0, 0, 0, 0, 0, 0, 0, 0, 0, 0, 0, 0, 0, 0, 0, 0,
        ])
    }

    /// The sentinel that marks a deleted object.
    pub open spec fn spec_deleted() -> ObjectDigest {
        ObjectDigest([
            99, 99, 99, 99, 99, 99, 99, 99, 99, 99, 99, 99, 99, 99, 99, 99,
            99, 99, 99, 99, 99, 99, 99, 99, 99, 99, 99, 99, 99, 99, 99, 99,
        ])
    }

    /// The sentinel that marks a wrapped object.
    pub open spec fn spec_wrapped() -> ObjectDigest {
        ObjectDigest([
            88, 88, 88, 88, 88, 88, 88, 88, 88, 88, 88, 88, 88, 88, 88, 88,
            88, 88, 88, 88, 88, 88, 88, 88, 88, 88, 88, 88, 88, 88, 88, 88,
        ])
    }

    /// The least digest: all bytes zero.
    #[verifier::when_used_as_spec(spec_min)]
    pub fn min() -> (r: ObjectDigest)
        ensures
            r == Self::spec_min(),
    {
        ObjectDigest([
            0, 0, 0, 0, 0, 0, 0, 0, 0, 0, 0, 0, 0, 0, 0, 0,
            0, 0, 0, 0, 0, 0, 0, 0, 0, 0, 0, 0, 0, 0, 0, 0,
        ])
    }

    /// The sentinel that marks a deleted object.
    #[verifier::when_used_as_spec(spec_deleted)]
    pub fn deleted() -> (r: ObjectDigest)
        ensures
            r == Self::spec_deleted(),
    {
        ObjectDigest([
            99, 99, 99, 99, 99, 99, 99, 99, 99, 99, 99, 99, 99, 99, 99, 99,
            99, 99, 99, 99, 99, 99, 99, 99, 99, 99, 99, 99, 99, 99, 99, 99,
        ])
    }

    /// The sentinel that marks a wrapped object.
    #[verifier::when_used_as_spec(spec_wrapped)]
    pub fn wrapped() -> (r: ObjectDigest)
        ensures
            r == Self::spec_wrapped(),
    {
        ObjectDigest([
            88, 88, 88, 88, 88, 88, 88, 88, 88, 88, 88, 88, 88, 88, 88, 88,
            88, 88, 88, 88, 88, 88, 88, 88, 88, 88, 88, 88, 88, 88, 88, 88,
        ])
    }
}

/// The digest of a transaction as its sender signed it.
#[derive(Clone, Copy, Debug, Eq, Hash)]
pub struct TransactionDigest(pub [u8; 32]);

impl PartialEq for TransactionDigest {
    fn eq(&self, other: &Self) -> (r: bool) {
        let r = bytes_eq(self.0.as_slice(), other.0.as_slice());
        assert(r == (self.0 =~= other.0));
        r
    }
}

impl PartialEqSpecImpl for TransactionDigest {
    open spec fn obeys_eq_spec() -> bool {
        true
    }

    open spec fn eq_spec(&self, other: &Self) -> bool {
        *self == *other
    }
}

impl TransactionDigest {
    /// The number of bytes of a value.
    pub const LENGTH: usize = 32;

    /// The bytes of the value.
    pub fn as_bytes(&self) -> (r: &[u8])
        ensures
            r@ == self.0@,
    {
        self.0.as_slice()
    }
}

impl ByteKey for TransactionDigest {
    open spec fn key(&self) -> Seq<u8> {
        self.0@
    }

    fn key_lt(&self, other: &Self) -> (r: bool) {
        bytes_lt(self.0.as_slice(), other.0.as_slice())
    }

    fn key_eq(&self, other: &Self) -> (r: bool) {
        bytes_eq(self.0.as_slice(), other.0.as_slice())
    }
}

impl TransactionDigest {
    /// The digest with the given bytes.
    pub fn new(bytes: [u8; 32]) -> (r: TransactionDigest)
        ensures
            r.0 == bytes,
    {
        TransactionDigest(bytes)
    }
}

/// The digest of the effects of a transaction.
#[derive(Clone, Copy, Debug, Eq, Hash)]
pub struct TransactionEffectsDigest(pub [u8; 32]);

impl PartialEq for TransactionEffectsDigest {
    fn eq(&self, other: &Self) -> (r: bool) {
        let r = bytes_eq(self.0.as_slice(), other.0.as_slice());
        assert(r == (self.0 =~= other.0));
        r
    }
}

impl PartialEqSpecImpl for TransactionEffectsDigest {
    open spec fn obeys_eq_spec() -> bool {
        true
    }

    open spec fn eq_spec(&self, other: &Self) -> bool {
        *self == *other
    }
}

impl TransactionEffectsDigest {
    /// The number of bytes of a value.
    pub const LENGTH: usize = 32;

    /// The bytes of the value.
    pub fn as_bytes(&self) -> (r: &[u8])
        ensures
            r@ == self.0@,
    {
        self.0.as_slice()
    }
}

/// The name of an authority: the bytes of its public key.
#[derive(Clone, Copy, Debug, Eq, Hash)]
pub struct AuthorityName(pub [u8; 96]);

impl PartialEq for AuthorityName {
    fn eq(&self, other: &Self) -> (r: bool) {
        let r = bytes_eq(self.0.as_slice(), other.0.as_slice());
        assert(r == (self.0 =~= other.0));
        r
    }
}

impl PartialEqSpecImpl for AuthorityName {
    open spec fn obeys_eq_spec() -> bool {
        true
    }

    open spec fn eq_spec(&self, other: &Self) -> bool {
        *self == *other
    }
}

impl AuthorityName {
    /// The number of bytes of a value.
    pub const LENGTH: usize = 96;

    /// The bytes of the value.
    pub fn as_bytes(&self) -> (r: &[u8])
        ensures
            r@ == self.0@,
    {
        self.0.as_slice()
    }
}

impl ByteKey for AuthorityName {
    open spec fn key(&self) -> Seq<u8> {
        self.0@
    }

    fn key_lt(&self, other: &Self) -> (r: bool) {
        bytes_lt(self.0.as_slice(), other.0.as_slice())
    }

    fn key_eq(&self, other: &Self) -> (r: bool) {
        bytes_eq(self.0.as_slice(), other.0.as_slice())
    }
}

/// The version of an object.
#[derive(Clone, Copy, Debug, PartialEq, Eq, Hash, Structural)]
pub struct SequenceNumber(pub u64);

/// The version that a new object starts with.
pub open spec fn spec_object_start_version() -> SequenceNumber {
    SequenceNumber(1)
}

/// The version that a new object starts with.
#[verifier::when_used_as_spec(spec_object_start_version)]
pub fn object_start_version() -> (r: SequenceNumber)
    ensures
        r == spec_object_start_version(),
{
    SequenceNumber(1)
}

impl SequenceNumber {
    /// Version zero.
    pub fn new() -> (r: SequenceNumber)
        ensures
            r.0 == 0,
    {
        SequenceNumber(0)
    }

    /// The version with the given number.
    pub fn from_u64(u: u64) -> (r: SequenceNumber)
        ensures
            r.0 == u,
    {
        SequenceNumber(u)
    }

    /// The number of the version.
    pub fn value(&self) -> (r: u64)
        ensures
            r == self.0,
    {
        self.0
    }

    /// The next version.
    pub fn increment(&self) -> (r: SequenceNumber)
        requires
            self.0 < u64::MAX,
        ensures
            r.0 == self.0 + 1,
    {
        SequenceNumber(self.0 + 1)
    }

    /// Whether `next` is the version that follows `self`.
    pub fn is_followed_by(&self, next: &SequenceNumber) -> (r: bool)
        ensures
            r == (self.0 + 1 == next.0),
    {
        self.0 < u64::MAX && self.0 + 1 == next.0
    }
}

impl Default for SequenceNumber {
    fn default() -> (r: Self)
        ensures
            r.0 == 0,
    {
        SequenceNumber(0)
    }
}

/// Whether two object references are the same.
pub fn object_ref_eq(a: &ObjectRef, b: &ObjectRef) -> (r: bool)
    ensures
        r == (*a == *b),
{
    a.0 == b.0 && a.1 == b.1 && a.2 == b.2
}

} // verus!
