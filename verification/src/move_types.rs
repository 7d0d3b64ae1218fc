//! What the message layer holds of the Move language: identifiers, type tags in their
//! canonical form, and the handles of a compiled module.

use crate::base_types::AccountAddress;
use crate::codec::{
    bytes_with_len, concat_map, encode_seq, lemma_concat_map_step, write_bytes, write_raw,
    write_uleb128,
};
use crate::lex::bytes_eq;
use vstd::prelude::*;

verus! {

/// Whether `c` may stand in an identifier: a letter, a digit or an underscore.
pub open spec fn is_identifier_char(c: u8) -> bool {
    c == 0x5f || (0x61 <= c <= 0x7a) || (0x41 <= c <= 0x5a) || (0x30 <= c <= 0x39)
}

/// Whether `c` is a letter.
pub open spec fn is_letter(c: u8) -> bool {
    (0x61 <= c <= 0x7a) || (0x41 <= c <= 0x5a)
}

/// The bytes of the name `<SELF>`.
pub open spec fn self_name() -> Seq<u8> {
    seq![0x3cu8, 0x53, 0x45, 0x4c, 0x46, 0x3e]
}

/// Whether `s` is an identifier: `<SELF>`, a letter followed by identifier characters,
/// or an underscore followed by at least one identifier character.
pub open spec fn is_valid_identifier(s: Seq<u8>) -> bool {
    s == self_name() || (s.len() > 0 && (is_letter(s[0]) || (s[0] == 0x5f && s.len() > 1))
        && forall|i: int| 1 <= i < s.len() ==> is_identifier_char(#[trigger] s[i]))
}

/// An identifier is ASCII.
pub proof fn lemma_identifier_is_ascii(s: Seq<u8>)
    requires
        is_valid_identifier(s),
    ensures
        forall|i: int| 0 <= i < s.len() ==> s[i] < 128,
{
    assert forall|i: int| 0 <= i < s.len() implies s[i] < 128 by {
        if s == self_name() {
            if i == 0 {
            } else if i == 1 {
            } else if i == 2 {
            } else if i == 3 {
            } else if i == 4 {
            } else {
            }
        } else if i >= 1 {
            assert(is_identifier_char(s[i]));
        }
    }
}

/// The name of a module, a function or a type.
#[derive(Debug, PartialEq, Eq, Hash)]
pub struct Identifier {
    bytes: Vec<u8>,
}

impl View for Identifier {
    type V = Seq<u8>;

    closed spec fn view(&self) -> Seq<u8> {
        self.bytes@
    }
}

impl Identifier {
    /// Whether the value is an identifier.
    #[verifier::type_invariant]
    pub closed spec fn is_valid(&self) -> bool {
        is_valid_identifier(self.bytes@)
    }

    /// The identifier with the text `bytes`, where that is one.
    pub fn new(bytes: Vec<u8>) -> (r: Option<Identifier>)
        ensures
            r.is_some() == is_valid_identifier(bytes@),
            r matches Some(id) ==> id@ == bytes@,
    {
        if bytes.len() == 6 && bytes[0] == 0x3c && bytes[1] == 0x53 && bytes[2] == 0x45
            && bytes[3] == 0x4c && bytes[4] == 0x46 && bytes[5] == 0x3e {
            assert(bytes@ =~= self_name());
            return Some(Identifier { bytes });
        }
        assert(bytes@ != self_name()) by {
            if bytes@ == self_name() {
                assert(bytes@.len() == 6);
                assert(bytes@[0] == self_name()[0]);
                assert(bytes@[1] == self_name()[1]);
                assert(bytes@[2] == self_name()[2]);
                assert(bytes@[3] == self_name()[3]);
                assert(bytes@[4] == self_name()[4]);
                assert(bytes@[5] == self_name()[5]);
            }
        }
        if bytes.len() == 0 {
            return None;
        }
        let first = bytes[0];
        let letter = (0x61 <= first && first <= 0x7a) || (0x41 <= first && first <= 0x5a);
        if !(letter || (first == 0x5f && bytes.len() > 1)) {
            return None;
        }
        let mut i: usize = 1;
        while i < bytes.len()
            invariant
                1 <= i <= bytes.len(),
                bytes@ != self_name(),
                forall|j: int| 1 <= j < i ==> is_identifier_char(#[trigger] bytes@[j]),
            decreases bytes.len() - i,
        {
            let c = bytes[i];
            if !(c == 0x5f || (0x61 <= c && c <= 0x7a) || (0x41 <= c && c <= 0x5a) || (0x30 <= c
                && c <= 0x39)) {
                assert(!is_identifier_char(bytes@[i as int]));
                return None;
            }
            i += 1;
        }
        Some(Identifier { bytes })
    }

    /// The text of the identifier.
    pub fn as_bytes(&self) -> (r: &[u8])
        ensures
            r@ == self@,
            is_valid_identifier(self@),
    {
        proof {
            use_type_invariant(self);
        }
        self.bytes.as_slice()
    }

    /// Whether the two identifiers have the same text.
    pub fn same(&self, other: &Identifier) -> (r: bool)
        ensures
            r == (self@ == other@),
    {
        bytes_eq(self.bytes.as_slice(), other.bytes.as_slice())
    }
}

impl Clone for Identifier {
    fn clone(&self) -> (r: Self)
        ensures
            r@ == self@,
    {
        proof {
            use_type_invariant(self);
        }
        Identifier { bytes: self.bytes.clone() }
    }
}

/// The tag of a Move type, held in its canonical encoding: the index of the variant,
/// then what the variant carries.
#[derive(Debug, PartialEq, Eq, Hash)]
pub struct TypeTag {
    encoded: Vec<u8>,
}

impl View for TypeTag {
    type V = Seq<u8>;

    closed spec fn view(&self) -> Seq<u8> {
        self.encoded@
    }
}

/// The canonical encodings of a sequence of type tags, one after the other.
pub open spec fn concat_tags(tags: Seq<TypeTag>) -> Seq<u8> {
    concat_map(tags, |t: TypeTag| t@)
}

impl TypeTag {
    /// The tag of `bool`.
    pub fn bool() -> (r: TypeTag)
        ensures
            r@ == seq![0u8],
    {
        TypeTag { encoded: vec![0u8] }
    }

    /// The tag of `u8`.
    pub fn u8() -> (r: TypeTag)
        ensures
            r@ == seq![1u8],
    {
        TypeTag { encoded: vec![1u8] }
    }

    /// The tag of `u64`.
    pub fn u64() -> (r: TypeTag)
        ensures
            r@ == seq![2u8],
    {
        TypeTag { encoded: vec![2u8] }
    }

    /// The tag of `u128`.
    pub fn u128() -> (r: TypeTag)
        ensures
            r@ == seq![3u8],
    {
        TypeTag { encoded: vec![3u8] }
    }

    /// The tag of `address`.
    pub fn address() -> (r: TypeTag)
        ensures
            r@ == seq![4u8],
    {
        TypeTag { encoded: vec![4u8] }
    }

    /// The tag of `signer`.
    pub fn signer() -> (r: TypeTag)
        ensures
            r@ == seq![5u8],
    {
        TypeTag { encoded: vec![5u8] }
    }

    /// The tag of a vector whose items have the tag `inner`.
    pub fn vector(inner: &TypeTag) -> (r: TypeTag)
        ensures
            r@ == seq![6u8] + inner@,
    {
        let mut encoded: Vec<u8> = vec![6u8];
        write_raw(&mut encoded, inner.encoded.as_slice());
        TypeTag { encoded }
    }

    /// The tag of the struct `name` of the module `module` at `address`, applied to
    /// `type_params`.
    pub fn struct_tag(
        address: AccountAddress,
        module: &Identifier,
        name: &Identifier,
        type_params: &Vec<TypeTag>,
    ) -> (r: TypeTag)
        ensures
            r@ == seq![7u8] + address.0@ + bytes_with_len(module@) + bytes_with_len(name@)
                + encode_seq(type_params@, |t: TypeTag| t@),
    {
        let mut encoded: Vec<u8> = vec![7u8];
        write_raw(&mut encoded, address.as_bytes());
        write_bytes(&mut encoded, module.as_bytes());
        write_bytes(&mut encoded, name.as_bytes());
        write_uleb128(&mut encoded, type_params.len());
        let ghost head = encoded@;
        let mut i: usize = 0;
        while i < type_params.len()
            invariant
                i <= type_params.len(),
                encoded@ == head + concat_tags(type_params@.take(i as int)),
            decreases type_params.len() - i,
        {
            proof {
                lemma_concat_map_step(type_params@, |t: TypeTag| t@, i as int);
            }
            write_raw(&mut encoded, type_params[i].encoded.as_slice());
            assert(encoded@ =~= head + concat_tags(type_params@.take(i as int + 1)));
            i += 1;
        }
        assert(type_params@.take(type_params.len() as int) =~= type_params@);
        let r = TypeTag { encoded };
        assert(r@ =~= seq![7u8] + address.0@ + bytes_with_len(module@) + bytes_with_len(name@)
            + encode_seq(type_params@, |t: TypeTag| t@));
        r
    }

    /// The canonical encoding of the tag.
    pub fn as_bytes(&self) -> (r: &[u8])
        ensures
            r@ == self@,
    {
        self.encoded.as_slice()
    }

    /// The tag with the canonical encoding `encoded`, as it comes over the wire. The
    /// message layer hands tags on and does not look inside them.
    pub fn from_encoding(encoded: Vec<u8>) -> (r: TypeTag)
        ensures
            r@ == encoded@,
    {
        TypeTag { encoded }
    }
}

impl Clone for TypeTag {
    fn clone(&self) -> (r: Self)
        ensures
            r@ == self@,
    {
        TypeTag { encoded: self.encoded.clone() }
    }
}

/// The name of a module: the address that published it and its identifier.
#[derive(Debug, PartialEq, Eq, Hash)]
pub struct ModuleId {
    pub address: AccountAddress,
    pub name: Identifier,
}

impl View for ModuleId {
    type V = (AccountAddress, Seq<u8>);

    open spec fn view(&self) -> (AccountAddress, Seq<u8>) {
        (self.address, self.name@)
    }
}

impl ModuleId {
    /// The name of the module `name` at `address`.
    pub fn new(address: AccountAddress, name: Identifier) -> (r: ModuleId)
        ensures
            r@ == (address, name@),
    {
        ModuleId { address, name }
    }

    /// Whether the two names are the same.
    pub fn same(&self, other: &ModuleId) -> (r: bool)
        ensures
            r == (self@ == other@),
    {
        self.address == other.address && self.name.same(&other.name)
    }
}

impl Clone for ModuleId {
    fn clone(&self) -> (r: Self)
        ensures
            r@ == self@,
    {
        ModuleId { address: self.address, name: self.name.clone() }
    }
}

/// What the message layer reads of a compiled module: its own name, and the names of
/// the modules that its handles refer to.
#[derive(Debug, PartialEq, Eq, Hash)]
pub struct CompiledModule {
    pub self_id: ModuleId,
    pub module_handles: Vec<ModuleId>,
}

/// The mathematical form of a `CompiledModule`.
pub struct CompiledModuleView {
    pub self_id: (AccountAddress, Seq<u8>),
    pub module_handles: Seq<(AccountAddress, Seq<u8>)>,
}

impl View for CompiledModule {
    type V = CompiledModuleView;

    open spec fn view(&self) -> CompiledModuleView {
        CompiledModuleView {
            self_id: self.self_id@,
            module_handles: Seq::new(
                self.module_handles@.len(),
                |i: int| self.module_handles@[i]@,
            ),
        }
    }
}

impl Clone for CompiledModule {
    fn clone(&self) -> (r: Self)
        ensures
            r@ == self@,
    {
        let mut handles: Vec<ModuleId> = Vec::new();
        let mut i: usize = 0;
        while i < self.module_handles.len()
            invariant
                i <= self.module_handles.len(),
                handles.len() == i,
                forall|j: int| 0 <= j < i ==> handles@[j]@ == self.module_handles@[j]@,
            decreases self.module_handles.len() - i,
        {
            handles.push(self.module_handles[i].clone());
            i += 1;
        }
        let r = CompiledModule { self_id: self.self_id.clone(), module_handles: handles };
        assert(r@.module_handles =~= self@.module_handles);
        r
    }
}

} // verus!
