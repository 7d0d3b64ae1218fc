//! The encoding of effects, written and read back.

use crate::base_types::{ObjectDigest, ObjectID, SequenceNumber, SuiAddress, TransactionDigest};
use crate::codec::{encode_vec, variant_tag, write_tag, Encode};
use crate::effects::{Event, GasCostSummary, TransactionEffects};
use crate::execution_status::ExecutionStatus;
use crate::framing::{lemma_cancel_tail, lemma_regroup, lemma_same_length_split};
use crate::object::Owner;
use crate::reading::{all_readable, decode_all, lemma_join, lemma_skip_splits, read_tag, Decode};
use crate::reading_kinds::{lemma_vec_split, read_vec, vec_encoding};
use crate::wire_laws::lemma_tag_split;
use vstd::prelude::*;

verus! {

/// The index of the variant of `w`.
pub open spec fn owner_index(w: Owner) -> u8 {
    match w {
        Owner::AddressOwner(_) => 0,
        Owner::ObjectOwner(_) => 1,
        Owner::Shared => 2,
        Owner::Immutable => 3,
    }
}

/// The encoding of what the variant of `w` carries.
pub open spec fn owner_payload(w: Owner) -> Seq<u8> {
    match w {
        Owner::AddressOwner(inner) => inner.encoding(),
        Owner::ObjectOwner(inner) => inner.encoding(),
        Owner::Shared => Seq::empty(),
        Owner::Immutable => Seq::empty(),
    }
}

impl Encode for Owner {
    open spec fn encoding(&self) -> Seq<u8> {
        variant_tag(owner_index(*self)) + owner_payload(*self)
    }

    fn encode(&self, out: &mut Vec<u8>) {
        assert(self.encoding() == variant_tag(owner_index(*self)) + owner_payload(*self));
        let ghost start = out@;
        match self {
            Owner::AddressOwner(x) => {
                write_tag(out, 0);
                x.encode(out);
                assert((*x).encoding() == x.encoding());
            },
            Owner::ObjectOwner(x) => {
                write_tag(out, 1);
                x.encode(out);
                assert((*x).encoding() == x.encoding());
            },
            Owner::Shared => {
                write_tag(out, 2);
            },
            Owner::Immutable => {
                write_tag(out, 3);
            },
        }
        assert(out@ =~= start + (variant_tag(owner_index(*self)) + owner_payload(*self)));
    }
}

impl Decode for Owner {
    open spec fn is_readable(&self) -> bool {
        true
    }

    proof fn lemma_split(a: Self, b: Self, ra: Seq<u8>, rb: Seq<u8>) {
        assert(a.encoding() == variant_tag(owner_index(a)) + owner_payload(a));
        assert(b.encoding() == variant_tag(owner_index(b)) + owner_payload(b));
        lemma_regroup(variant_tag(owner_index(a)), owner_payload(a), ra);
        lemma_regroup(variant_tag(owner_index(b)), owner_payload(b), rb);
        lemma_tag_split(owner_index(a), owner_index(b), owner_payload(a) + ra, owner_payload(b)
            + rb);
        match (a, b) {
            (Owner::AddressOwner(x_v), Owner::AddressOwner(y_v)) => {
                SuiAddress::lemma_split(x_v, y_v, ra, rb);
            },
            (Owner::ObjectOwner(x_v), Owner::ObjectOwner(y_v)) => {
                SuiAddress::lemma_split(x_v, y_v, ra, rb);
            },
            _ => {
                lemma_same_length_split(owner_payload(a), owner_payload(b), ra, rb);
            },
        }
        lemma_cancel_tail(a.encoding(), b.encoding(), ra);
    }

    fn decode(bytes: &[u8], pos: usize) -> (r: Option<(Self, usize)>) {
        let ghost at = bytes@.skip(pos as int);
        let (tag, at1) = match read_tag(bytes, pos) {
            Some(found) => found,
            None => {
                assert forall|w: Self, tail: Seq<u8>| at != #[trigger] (w.encoding() + tail) by {
                    assert(w.encoding() == variant_tag(owner_index(w)) + owner_payload(w));
                    assert(at.len() == 0);
                    assert((w.encoding() + tail).len() > 0);
                }
                return None;
            },
        };
        proof {
            lemma_skip_splits(bytes@, pos as int, at1 as int);
            assert(bytes@.subrange(pos as int, at1 as int) =~= variant_tag(tag));
            assert forall|w: Self, tail: Seq<u8>| at == #[trigger] (w.encoding() + tail)
                implies owner_index(w) == tag && bytes@.skip(at1 as int) == owner_payload(w)
                    + tail by {
                assert(w.encoding() == variant_tag(owner_index(w)) + owner_payload(w));
                lemma_regroup(variant_tag(owner_index(w)), owner_payload(w), tail);
                lemma_tag_split(tag, owner_index(w), bytes@.skip(at1 as int), owner_payload(w)
                    + tail);
            }
        }
        if tag == 0 {
            match SuiAddress::decode(bytes, at1) {
                Some((x, at2)) => {
                    let ghost held = x.encoding();
                    let v = Owner::AddressOwner(x);
                    proof {
                        lemma_join(bytes@, pos as int, at1 as int, at2 as int);
                        assert(owner_payload(v) == held);
                        assert(v.encoding() == variant_tag(0) + held);
                        assert(v.is_readable());
                    }
                    Some((v, at2))
                },
                None => {
                    assert forall|w: Self, tail: Seq<u8>| w.is_readable()
                        implies at != #[trigger] (w.encoding() + tail) by {
                        if at == w.encoding() + tail {
                            let x = w->AddressOwner_0;
                            assert(x.is_readable());
                            assert(bytes@.skip(at1 as int) == x.encoding() + tail);
                        }
                    }
                    None
                },
            }
        } else if tag == 1 {
            match SuiAddress::decode(bytes, at1) {
                Some((x, at2)) => {
                    let ghost held = x.encoding();
                    let v = Owner::ObjectOwner(x);
                    proof {
                        lemma_join(bytes@, pos as int, at1 as int, at2 as int);
                        assert(owner_payload(v) == held);
                        assert(v.encoding() == variant_tag(1) + held);
                        assert(v.is_readable());
                    }
                    Some((v, at2))
                },
                None => {
                    assert forall|w: Self, tail: Seq<u8>| w.is_readable()
                        implies at != #[trigger] (w.encoding() + tail) by {
                        if at == w.encoding() + tail {
                            let x = w->ObjectOwner_0;
                            assert(x.is_readable());
                            assert(bytes@.skip(at1 as int) == x.encoding() + tail);
                        }
                    }
                    None
                },
            }
        } else if tag == 2 {
            let v = Owner::Shared;
            proof {
                assert(v.encoding() =~= variant_tag(2));
                assert(v.is_readable());
            }
            Some((v, at1))
        } else if tag == 3 {
            let v = Owner::Immutable;
            proof {
                assert(v.encoding() =~= variant_tag(3));
                assert(v.is_readable());
            }
            Some((v, at1))
        } else {
            None
        }
    }
}

/// The encoding of a value of this type, followed by anything, is its parts one
/// after the other, followed by the same.
pub proof fn lemma_parts_of_owned_reference(
    w: ((ObjectID, SequenceNumber, ObjectDigest), Owner),
    tail: Seq<u8>,
)
    ensures
        w.encoding() == w.0.encoding() + (w.1.encoding()),
        w.encoding() + tail == w.0.encoding() + (w.1.encoding() + tail),
{
    lemma_regroup(w.0.encoding(), w.1.encoding(), tail);
}

impl Encode for ((ObjectID, SequenceNumber, ObjectDigest), Owner) {
    open spec fn encoding(&self) -> Seq<u8> {
        self.0.encoding() + (self.1.encoding())
    }

    fn encode(&self, out: &mut Vec<u8>) {
        assert(self.encoding() == self.0.encoding() + (self.1.encoding()));
        let ghost s0 = out@;
        self.0.encode(out);
        self.1.encode(out);
        proof {
            lemma_regroup(s0, self.0.encoding(), self.1.encoding());
        }
    }
}

impl Decode for ((ObjectID, SequenceNumber, ObjectDigest), Owner) {
    open spec fn is_readable(&self) -> bool {
        true
    }

    proof fn lemma_split(a: Self, b: Self, ra: Seq<u8>, rb: Seq<u8>) {
        lemma_parts_of_owned_reference(a, ra);
        lemma_parts_of_owned_reference(b, rb);
        <(ObjectID, SequenceNumber, ObjectDigest)>::lemma_split(a.0, b.0, a.1.encoding() + ra,
            b.1.encoding() + rb);
        Owner::lemma_split(a.1, b.1, ra, rb);
        lemma_cancel_tail(a.encoding(), b.encoding(), ra);
    }

    fn decode(bytes: &[u8], pos: usize) -> (r: Option<(Self, usize)>) {
        let ghost at = bytes@.skip(pos as int);
        let (x1, at1) = match <(ObjectID, SequenceNumber, ObjectDigest)>::decode(bytes, pos) {
            Some(found) => found,
            None => {
                assert forall|w: Self, tail: Seq<u8>| w.is_readable()
                    implies at != #[trigger] (w.encoding() + tail) by {
                    if at == w.encoding() + tail {
                        lemma_parts_of_owned_reference(w, tail);
                        assert(w.0.is_readable());
                    }
                }
                return None;
            },
        };
        proof {
            lemma_skip_splits(bytes@, pos as int, at1 as int);
            assert forall|w: Self, tail: Seq<u8>| at == #[trigger] (w.encoding() + tail)
                implies bytes@.skip(at1 as int) == w.1.encoding() + tail by {
                lemma_parts_of_owned_reference(w, tail);
                <(ObjectID, SequenceNumber, ObjectDigest)>::lemma_split(x1, w.0,
                    bytes@.skip(at1 as int), w.1.encoding() + tail);
            }
        }
        let (x2, at2) = match Owner::decode(bytes, at1) {
            Some(found) => found,
            None => {
                assert forall|w: Self, tail: Seq<u8>| w.is_readable()
                    implies at != #[trigger] (w.encoding() + tail) by {
                    if at == w.encoding() + tail {
                        assert(bytes@.skip(at1 as int) == w.1.encoding() + tail);
                        assert(w.1.is_readable());
                    }
                }
                return None;
            },
        };
        proof {
            lemma_skip_splits(bytes@, at1 as int, at2 as int);
        }
        let v = (x1, x2);
        proof {
            lemma_parts_of_owned_reference(v, Seq::empty());
            lemma_join(bytes@, pos as int, at1 as int, at2 as int);
            assert(v.is_readable());
        }
        Some((v, at2))
    }
}

/// The encoding of a value of this type, followed by anything, is its parts one
/// after the other, followed by the same.
pub proof fn lemma_parts_of_gas_cost_summary(w: GasCostSummary, tail: Seq<u8>)
    ensures
        w.encoding() == w.computation_cost.encoding()
            + (w.storage_cost.encoding() + (w.storage_rebate.encoding())),
        w.encoding() + tail == w.computation_cost.encoding()
            + (w.storage_cost.encoding() + (w.storage_rebate.encoding() + tail)),
{
    lemma_regroup(w.storage_cost.encoding(), w.storage_rebate.encoding(), tail);
    lemma_regroup(w.computation_cost.encoding(), w.storage_cost.encoding()
        + (w.storage_rebate.encoding()), tail);
}

impl Encode for GasCostSummary {
    open spec fn encoding(&self) -> Seq<u8> {
        self.computation_cost.encoding()
            + (self.storage_cost.encoding() + (self.storage_rebate.encoding()))
    }

    fn encode(&self, out: &mut Vec<u8>) {
        assert(self.encoding() == self.computation_cost.encoding()
            + (self.storage_cost.encoding() + (self.storage_rebate.encoding())));
        let ghost s0 = out@;
        self.computation_cost.encode(out);
        let ghost s1 = out@;
        self.storage_cost.encode(out);
        self.storage_rebate.encode(out);
        proof {
            lemma_regroup(s1, self.storage_cost.encoding(), self.storage_rebate.encoding());
            lemma_regroup(s0, self.computation_cost.encoding(), self.storage_cost.encoding()
                + (self.storage_rebate.encoding()));
        }
    }
}

impl Decode for GasCostSummary {
    open spec fn is_readable(&self) -> bool {
        true
    }

    proof fn lemma_split(a: Self, b: Self, ra: Seq<u8>, rb: Seq<u8>) {
        lemma_parts_of_gas_cost_summary(a, ra);
        lemma_parts_of_gas_cost_summary(b, rb);
        u64::lemma_split(a.computation_cost, b.computation_cost, a.storage_cost.encoding()
            + (a.storage_rebate.encoding() + ra), b.storage_cost.encoding()
            + (b.storage_rebate.encoding() + rb));
        u64::lemma_split(a.storage_cost, b.storage_cost, a.storage_rebate.encoding() + ra,
            b.storage_rebate.encoding() + rb);
        u64::lemma_split(a.storage_rebate, b.storage_rebate, ra, rb);
        lemma_cancel_tail(a.encoding(), b.encoding(), ra);
    }

    fn decode(bytes: &[u8], pos: usize) -> (r: Option<(Self, usize)>) {
        let ghost at = bytes@.skip(pos as int);
        let (x1, at1) = match u64::decode(bytes, pos) {
            Some(found) => found,
            None => {
                assert forall|w: Self, tail: Seq<u8>| w.is_readable()
                    implies at != #[trigger] (w.encoding() + tail) by {
                    if at == w.encoding() + tail {
                        lemma_parts_of_gas_cost_summary(w, tail);
                        assert(w.computation_cost.is_readable());
                    }
                }
                return None;
            },
        };
        proof {
            lemma_skip_splits(bytes@, pos as int, at1 as int);
            assert forall|w: Self, tail: Seq<u8>| at == #[trigger] (w.encoding() + tail)
                implies bytes@.skip(at1 as int) == w.storage_cost.encoding()
                    + (w.storage_rebate.encoding() + tail) by {
                lemma_parts_of_gas_cost_summary(w, tail);
                u64::lemma_split(x1, w.computation_cost, bytes@.skip(at1 as int),
                    w.storage_cost.encoding() + (w.storage_rebate.encoding() + tail));
            }
        }
        let (x2, at2) = match u64::decode(bytes, at1) {
            Some(found) => found,
            None => {
                assert forall|w: Self, tail: Seq<u8>| w.is_readable()
                    implies at != #[trigger] (w.encoding() + tail) by {
                    if at == w.encoding() + tail {
                        assert(bytes@.skip(at1 as int) == w.storage_cost.encoding()
                            + (w.storage_rebate.encoding() + tail));
                        assert(w.storage_cost.is_readable());
                    }
                }
                return None;
            },
        };
        proof {
            lemma_skip_splits(bytes@, at1 as int, at2 as int);
            assert forall|w: Self, tail: Seq<u8>| at == #[trigger] (w.encoding() + tail)
                implies bytes@.skip(at2 as int) == w.storage_rebate.encoding() + tail by {
                u64::lemma_split(x2, w.storage_cost, bytes@.skip(at2 as int),
                    w.storage_rebate.encoding() + tail);
            }
        }
        let (x3, at3) = match u64::decode(bytes, at2) {
            Some(found) => found,
            None => {
                assert forall|w: Self, tail: Seq<u8>| w.is_readable()
                    implies at != #[trigger] (w.encoding() + tail) by {
                    if at == w.encoding() + tail {
                        assert(bytes@.skip(at2 as int) == w.storage_rebate.encoding() + tail);
                        assert(w.storage_rebate.is_readable());
                    }
                }
                return None;
            },
        };
        proof {
            lemma_skip_splits(bytes@, at2 as int, at3 as int);
        }
        let v = GasCostSummary { computation_cost: x1, storage_cost: x2, storage_rebate: x3 };
        proof {
            lemma_parts_of_gas_cost_summary(v, Seq::empty());
            lemma_join(bytes@, at1 as int, at2 as int, at3 as int);
            lemma_join(bytes@, pos as int, at1 as int, at3 as int);
            assert(v.is_readable());
        }
        Some((v, at3))
    }
}

/// The encoding of a value of this type, followed by anything, is its parts one
/// after the other, followed by the same.
pub proof fn lemma_parts_of_event(w: Event, tail: Seq<u8>)
    ensures
        w.encoding() == w.contents.encoding(),
        w.encoding() + tail == w.contents.encoding() + tail,
{
}

impl Encode for Event {
    open spec fn encoding(&self) -> Seq<u8> {
        self.contents.encoding()
    }

    fn encode(&self, out: &mut Vec<u8>) {
        assert(self.encoding() == self.contents.encoding());
        self.contents.encode(out);
    }
}

impl Decode for Event {
    open spec fn is_readable(&self) -> bool {
        true
    }

    proof fn lemma_split(a: Self, b: Self, ra: Seq<u8>, rb: Seq<u8>) {
        lemma_parts_of_event(a, ra);
        lemma_parts_of_event(b, rb);
        <Vec<u8>>::lemma_split(a.contents, b.contents, ra, rb);
        lemma_cancel_tail(a.encoding(), b.encoding(), ra);
    }

    fn decode(bytes: &[u8], pos: usize) -> (r: Option<(Self, usize)>) {
        let ghost at = bytes@.skip(pos as int);
        let (x1, at1) = match <Vec<u8>>::decode(bytes, pos) {
            Some(found) => found,
            None => {
                assert forall|w: Self, tail: Seq<u8>| w.is_readable()
                    implies at != #[trigger] (w.encoding() + tail) by {
                    if at == w.encoding() + tail {
                        lemma_parts_of_event(w, tail);
                        assert(w.contents.is_readable());
                    }
                }
                return None;
            },
        };
        proof {
            lemma_skip_splits(bytes@, pos as int, at1 as int);
        }
        let v = Event { contents: x1 };
        proof {
            lemma_parts_of_event(v, Seq::empty());
            assert(v.is_readable());
        }
        Some((v, at1))
    }
}

/// The encoding of a value of this type, followed by anything, is its parts one
/// after the other, followed by the same.
pub proof fn lemma_parts_of_effects(w: TransactionEffects, tail: Seq<u8>)
    ensures
        w.encoding() == w.status.encoding()
            + (w.gas_used.encoding()
            + (vec_encoding(w.shared_objects@)
            + (w.transaction_digest.encoding()
            + (vec_encoding(w.created@)
            + (vec_encoding(w.mutated@)
            + (vec_encoding(w.unwrapped@)
            + (vec_encoding(w.deleted@)
            + (vec_encoding(w.wrapped@)
            + (w.gas_object.encoding()
            + (vec_encoding(w.events@) + (vec_encoding(w.dependencies@)))))))))))),
        w.encoding() + tail == w.status.encoding()
            + (w.gas_used.encoding()
            + (vec_encoding(w.shared_objects@)
            + (w.transaction_digest.encoding()
            + (vec_encoding(w.created@)
            + (vec_encoding(w.mutated@)
            + (vec_encoding(w.unwrapped@)
            + (vec_encoding(w.deleted@)
            + (vec_encoding(w.wrapped@)
            + (w.gas_object.encoding()
            + (vec_encoding(w.events@) + (vec_encoding(w.dependencies@) + tail))))))))))),
{
    lemma_regroup(vec_encoding(w.events@), vec_encoding(w.dependencies@), tail);
    lemma_regroup(w.gas_object.encoding(), vec_encoding(w.events@)
        + (vec_encoding(w.dependencies@)), tail);
    lemma_regroup(vec_encoding(w.wrapped@), w.gas_object.encoding()
        + (vec_encoding(w.events@) + (vec_encoding(w.dependencies@))), tail);
    lemma_regroup(vec_encoding(w.deleted@), vec_encoding(w.wrapped@)
        + (w.gas_object.encoding() + (vec_encoding(w.events@) + (vec_encoding(w.dependencies@)))),
        tail);
    lemma_regroup(vec_encoding(w.unwrapped@), vec_encoding(w.deleted@)
        + (vec_encoding(w.wrapped@)
        + (w.gas_object.encoding() + (vec_encoding(w.events@) + (vec_encoding(w.dependencies@))))),
        tail);
    lemma_regroup(vec_encoding(w.mutated@), vec_encoding(w.unwrapped@)
        + (vec_encoding(w.deleted@)
        + (vec_encoding(w.wrapped@)
        + (w.gas_object.encoding()
        + (vec_encoding(w.events@) + (vec_encoding(w.dependencies@)))))), tail);
    lemma_regroup(vec_encoding(w.created@), vec_encoding(w.mutated@)
        + (vec_encoding(w.unwrapped@)
        + (vec_encoding(w.deleted@)
        + (vec_encoding(w.wrapped@)
        + (w.gas_object.encoding()
        + (vec_encoding(w.events@) + (vec_encoding(w.dependencies@))))))), tail);
    lemma_regroup(w.transaction_digest.encoding(), vec_encoding(w.created@)
        + (vec_encoding(w.mutated@)
        + (vec_encoding(w.unwrapped@)
        + (vec_encoding(w.deleted@)
        + (vec_encoding(w.wrapped@)
        + (w.gas_object.encoding()
        + (vec_encoding(w.events@) + (vec_encoding(w.dependencies@)))))))), tail);
    lemma_regroup(vec_encoding(w.shared_objects@), w.transaction_digest.encoding()
        + (vec_encoding(w.created@)
        + (vec_encoding(w.mutated@)
        + (vec_encoding(w.unwrapped@)
        + (vec_encoding(w.deleted@)
        + (vec_encoding(w.wrapped@)
        + (w.gas_object.encoding()
        + (vec_encoding(w.events@) + (vec_encoding(w.dependencies@))))))))), tail);
    lemma_regroup(w.gas_used.encoding(), vec_encoding(w.shared_objects@)
        + (w.transaction_digest.encoding()
        + (vec_encoding(w.created@)
        + (vec_encoding(w.mutated@)
        + (vec_encoding(w.unwrapped@)
        + (vec_encoding(w.deleted@)
        + (vec_encoding(w.wrapped@)
        + (w.gas_object.encoding()
        + (vec_encoding(w.events@) + (vec_encoding(w.dependencies@)))))))))), tail);
    lemma_regroup(w.status.encoding(), w.gas_used.encoding()
        + (vec_encoding(w.shared_objects@)
        + (w.transaction_digest.encoding()
        + (vec_encoding(w.created@)
        + (vec_encoding(w.mutated@)
        + (vec_encoding(w.unwrapped@)
        + (vec_encoding(w.deleted@)
        + (vec_encoding(w.wrapped@)
        + (w.gas_object.encoding()
        + (vec_encoding(w.events@) + (vec_encoding(w.dependencies@))))))))))), tail);
}

impl Encode for TransactionEffects {
    open spec fn encoding(&self) -> Seq<u8> {
        self.status.encoding()
            + (self.gas_used.encoding()
            + (vec_encoding(self.shared_objects@)
            + (self.transaction_digest.encoding()
            + (vec_encoding(self.created@)
            + (vec_encoding(self.mutated@)
            + (vec_encoding(self.unwrapped@)
            + (vec_encoding(self.deleted@)
            + (vec_encoding(self.wrapped@)
            + (self.gas_object.encoding()
            + (vec_encoding(self.events@) + (vec_encoding(self.dependencies@))))))))))))
    }

    fn encode(&self, out: &mut Vec<u8>) {
        assert(self.encoding() == self.status.encoding()
            + (self.gas_used.encoding()
            + (vec_encoding(self.shared_objects@)
            + (self.transaction_digest.encoding()
            + (vec_encoding(self.created@)
            + (vec_encoding(self.mutated@)
            + (vec_encoding(self.unwrapped@)
            + (vec_encoding(self.deleted@)
            + (vec_encoding(self.wrapped@)
            + (self.gas_object.encoding()
            + (vec_encoding(self.events@) + (vec_encoding(self.dependencies@)))))))))))));
        let ghost s0 = out@;
        self.status.encode(out);
        let ghost s1 = out@;
        self.gas_used.encode(out);
        let ghost s2 = out@;
        encode_vec(&self.shared_objects, out);
        assert(out@ == s2 + vec_encoding(self.shared_objects@)) by {
            lemma_regroup(s2, crate::codec::uleb128(self.shared_objects@.len()),
                crate::codec::concat_encodings(self.shared_objects@));
        }
        let ghost s3 = out@;
        self.transaction_digest.encode(out);
        let ghost s4 = out@;
        encode_vec(&self.created, out);
        assert(out@ == s4 + vec_encoding(self.created@)) by {
            lemma_regroup(s4, crate::codec::uleb128(self.created@.len()),
                crate::codec::concat_encodings(self.created@));
        }
        let ghost s5 = out@;
        encode_vec(&self.mutated, out);
        assert(out@ == s5 + vec_encoding(self.mutated@)) by {
            lemma_regroup(s5, crate::codec::uleb128(self.mutated@.len()),
                crate::codec::concat_encodings(self.mutated@));
        }
        let ghost s6 = out@;
        encode_vec(&self.unwrapped, out);
        assert(out@ == s6 + vec_encoding(self.unwrapped@)) by {
            lemma_regroup(s6, crate::codec::uleb128(self.unwrapped@.len()),
                crate::codec::concat_encodings(self.unwrapped@));
        }
        let ghost s7 = out@;
        encode_vec(&self.deleted, out);
        assert(out@ == s7 + vec_encoding(self.deleted@)) by {
            lemma_regroup(s7, crate::codec::uleb128(self.deleted@.len()),
                crate::codec::concat_encodings(self.deleted@));
        }
        let ghost s8 = out@;
        encode_vec(&self.wrapped, out);
        assert(out@ == s8 + vec_encoding(self.wrapped@)) by {
            lemma_regroup(s8, crate::codec::uleb128(self.wrapped@.len()),
                crate::codec::concat_encodings(self.wrapped@));
        }
        let ghost s9 = out@;
        self.gas_object.encode(out);
        let ghost s10 = out@;
        encode_vec(&self.events, out);
        assert(out@ == s10 + vec_encoding(self.events@)) by {
            lemma_regroup(s10, crate::codec::uleb128(self.events@.len()),
                crate::codec::concat_encodings(self.events@));
        }
        let ghost s11 = out@;
        encode_vec(&self.dependencies, out);
        assert(out@ == s11 + vec_encoding(self.dependencies@)) by {
            lemma_regroup(s11, crate::codec::uleb128(self.dependencies@.len()),
                crate::codec::concat_encodings(self.dependencies@));
        }
        proof {
            lemma_regroup(s10, vec_encoding(self.events@), vec_encoding(self.dependencies@));
            lemma_regroup(s9, self.gas_object.encoding(), vec_encoding(self.events@)
                + (vec_encoding(self.dependencies@)));
            lemma_regroup(s8, vec_encoding(self.wrapped@), self.gas_object.encoding()
                + (vec_encoding(self.events@) + (vec_encoding(self.dependencies@))));
            lemma_regroup(s7, vec_encoding(self.deleted@), vec_encoding(self.wrapped@)
                + (self.gas_object.encoding()
                + (vec_encoding(self.events@) + (vec_encoding(self.dependencies@)))));
            lemma_regroup(s6, vec_encoding(self.unwrapped@), vec_encoding(self.deleted@)
                + (vec_encoding(self.wrapped@)
                + (self.gas_object.encoding()
                + (vec_encoding(self.events@) + (vec_encoding(self.dependencies@))))));
            lemma_regroup(s5, vec_encoding(self.mutated@), vec_encoding(self.unwrapped@)
                + (vec_encoding(self.deleted@)
                + (vec_encoding(self.wrapped@)
                + (self.gas_object.encoding()
                + (vec_encoding(self.events@) + (vec_encoding(self.dependencies@)))))));
            lemma_regroup(s4, vec_encoding(self.created@), vec_encoding(self.mutated@)
                + (vec_encoding(self.unwrapped@)
                + (vec_encoding(self.deleted@)
                + (vec_encoding(self.wrapped@)
                + (self.gas_object.encoding()
                + (vec_encoding(self.events@) + (vec_encoding(self.dependencies@))))))));
            lemma_regroup(s3, self.transaction_digest.encoding(), vec_encoding(self.created@)
                + (vec_encoding(self.mutated@)
                + (vec_encoding(self.unwrapped@)
                + (vec_encoding(self.deleted@)
                + (vec_encoding(self.wrapped@)
                + (self.gas_object.encoding()
                + (vec_encoding(self.events@) + (vec_encoding(self.dependencies@)))))))));
            lemma_regroup(s2, vec_encoding(self.shared_objects@),
                self.transaction_digest.encoding()
                + (vec_encoding(self.created@)
                + (vec_encoding(self.mutated@)
                + (vec_encoding(self.unwrapped@)
                + (vec_encoding(self.deleted@)
                + (vec_encoding(self.wrapped@)
                + (self.gas_object.encoding()
                + (vec_encoding(self.events@) + (vec_encoding(self.dependencies@))))))))));
            lemma_regroup(s1, self.gas_used.encoding(), vec_encoding(self.shared_objects@)
                + (self.transaction_digest.encoding()
                + (vec_encoding(self.created@)
                + (vec_encoding(self.mutated@)
                + (vec_encoding(self.unwrapped@)
                + (vec_encoding(self.deleted@)
                + (vec_encoding(self.wrapped@)
                + (self.gas_object.encoding()
                + (vec_encoding(self.events@) + (vec_encoding(self.dependencies@)))))))))));
            lemma_regroup(s0, self.status.encoding(), self.gas_used.encoding()
                + (vec_encoding(self.shared_objects@)
                + (self.transaction_digest.encoding()
                + (vec_encoding(self.created@)
                + (vec_encoding(self.mutated@)
                + (vec_encoding(self.unwrapped@)
                + (vec_encoding(self.deleted@)
                + (vec_encoding(self.wrapped@)
                + (self.gas_object.encoding()
                + (vec_encoding(self.events@) + (vec_encoding(self.dependencies@))))))))))));
        }
    }
}

impl Decode for TransactionEffects {
    open spec fn is_readable(&self) -> bool {
        self.status.is_readable()
    }

    proof fn lemma_split(a: Self, b: Self, ra: Seq<u8>, rb: Seq<u8>) {
        lemma_parts_of_effects(a, ra);
        lemma_parts_of_effects(b, rb);
        ExecutionStatus::lemma_split(a.status, b.status, a.gas_used.encoding()
            + (vec_encoding(a.shared_objects@)
            + (a.transaction_digest.encoding()
            + (vec_encoding(a.created@)
            + (vec_encoding(a.mutated@)
            + (vec_encoding(a.unwrapped@)
            + (vec_encoding(a.deleted@)
            + (vec_encoding(a.wrapped@)
            + (a.gas_object.encoding()
            + (vec_encoding(a.events@) + (vec_encoding(a.dependencies@) + ra)))))))))),
            b.gas_used.encoding()
            + (vec_encoding(b.shared_objects@)
            + (b.transaction_digest.encoding()
            + (vec_encoding(b.created@)
            + (vec_encoding(b.mutated@)
            + (vec_encoding(b.unwrapped@)
            + (vec_encoding(b.deleted@)
            + (vec_encoding(b.wrapped@)
            + (b.gas_object.encoding()
            + (vec_encoding(b.events@) + (vec_encoding(b.dependencies@) + rb)))))))))));
        GasCostSummary::lemma_split(a.gas_used, b.gas_used, vec_encoding(a.shared_objects@)
            + (a.transaction_digest.encoding()
            + (vec_encoding(a.created@)
            + (vec_encoding(a.mutated@)
            + (vec_encoding(a.unwrapped@)
            + (vec_encoding(a.deleted@)
            + (vec_encoding(a.wrapped@)
            + (a.gas_object.encoding()
            + (vec_encoding(a.events@) + (vec_encoding(a.dependencies@) + ra))))))))),
            vec_encoding(b.shared_objects@)
            + (b.transaction_digest.encoding()
            + (vec_encoding(b.created@)
            + (vec_encoding(b.mutated@)
            + (vec_encoding(b.unwrapped@)
            + (vec_encoding(b.deleted@)
            + (vec_encoding(b.wrapped@)
            + (b.gas_object.encoding()
            + (vec_encoding(b.events@) + (vec_encoding(b.dependencies@) + rb))))))))));
        lemma_vec_split(a.shared_objects@, b.shared_objects@, a.transaction_digest.encoding()
            + (vec_encoding(a.created@)
            + (vec_encoding(a.mutated@)
            + (vec_encoding(a.unwrapped@)
            + (vec_encoding(a.deleted@)
            + (vec_encoding(a.wrapped@)
            + (a.gas_object.encoding()
            + (vec_encoding(a.events@) + (vec_encoding(a.dependencies@) + ra)))))))),
            b.transaction_digest.encoding()
            + (vec_encoding(b.created@)
            + (vec_encoding(b.mutated@)
            + (vec_encoding(b.unwrapped@)
            + (vec_encoding(b.deleted@)
            + (vec_encoding(b.wrapped@)
            + (b.gas_object.encoding()
            + (vec_encoding(b.events@) + (vec_encoding(b.dependencies@) + rb)))))))));
        TransactionDigest::lemma_split(a.transaction_digest, b.transaction_digest,
            vec_encoding(a.created@)
            + (vec_encoding(a.mutated@)
            + (vec_encoding(a.unwrapped@)
            + (vec_encoding(a.deleted@)
            + (vec_encoding(a.wrapped@)
            + (a.gas_object.encoding()
            + (vec_encoding(a.events@) + (vec_encoding(a.dependencies@) + ra))))))),
            vec_encoding(b.created@)
            + (vec_encoding(b.mutated@)
            + (vec_encoding(b.unwrapped@)
            + (vec_encoding(b.deleted@)
            + (vec_encoding(b.wrapped@)
            + (b.gas_object.encoding()
            + (vec_encoding(b.events@) + (vec_encoding(b.dependencies@) + rb))))))));
        lemma_vec_split(a.created@, b.created@, vec_encoding(a.mutated@)
            + (vec_encoding(a.unwrapped@)
            + (vec_encoding(a.deleted@)
            + (vec_encoding(a.wrapped@)
            + (a.gas_object.encoding()
            + (vec_encoding(a.events@) + (vec_encoding(a.dependencies@) + ra)))))),
            vec_encoding(b.mutated@)
            + (vec_encoding(b.unwrapped@)
            + (vec_encoding(b.deleted@)
            + (vec_encoding(b.wrapped@)
            + (b.gas_object.encoding()
            + (vec_encoding(b.events@) + (vec_encoding(b.dependencies@) + rb)))))));
        lemma_vec_split(a.mutated@, b.mutated@, vec_encoding(a.unwrapped@)
            + (vec_encoding(a.deleted@)
            + (vec_encoding(a.wrapped@)
            + (a.gas_object.encoding()
            + (vec_encoding(a.events@) + (vec_encoding(a.dependencies@) + ra))))),
            vec_encoding(b.unwrapped@)
            + (vec_encoding(b.deleted@)
            + (vec_encoding(b.wrapped@)
            + (b.gas_object.encoding()
            + (vec_encoding(b.events@) + (vec_encoding(b.dependencies@) + rb))))));
        lemma_vec_split(a.unwrapped@, b.unwrapped@, vec_encoding(a.deleted@)
            + (vec_encoding(a.wrapped@)
            + (a.gas_object.encoding()
            + (vec_encoding(a.events@) + (vec_encoding(a.dependencies@) + ra)))),
            vec_encoding(b.deleted@)
            + (vec_encoding(b.wrapped@)
            + (b.gas_object.encoding()
            + (vec_encoding(b.events@) + (vec_encoding(b.dependencies@) + rb)))));
        lemma_vec_split(a.deleted@, b.deleted@, vec_encoding(a.wrapped@)
            + (a.gas_object.encoding()
            + (vec_encoding(a.events@) + (vec_encoding(a.dependencies@) + ra))),
            vec_encoding(b.wrapped@)
            + (b.gas_object.encoding()
            + (vec_encoding(b.events@) + (vec_encoding(b.dependencies@) + rb))));
        lemma_vec_split(a.wrapped@, b.wrapped@, a.gas_object.encoding()
            + (vec_encoding(a.events@) + (vec_encoding(a.dependencies@) + ra)),
            b.gas_object.encoding()
            + (vec_encoding(b.events@) + (vec_encoding(b.dependencies@) + rb)));
        <((ObjectID, SequenceNumber, ObjectDigest), Owner)>::lemma_split(a.gas_object,
            b.gas_object, vec_encoding(a.events@) + (vec_encoding(a.dependencies@) + ra),
            vec_encoding(b.events@) + (vec_encoding(b.dependencies@) + rb));
        lemma_vec_split(a.events@, b.events@, vec_encoding(a.dependencies@) + ra,
            vec_encoding(b.dependencies@) + rb);
        lemma_vec_split(a.dependencies@, b.dependencies@, ra, rb);
        lemma_cancel_tail(a.encoding(), b.encoding(), ra);
    }

    fn decode(bytes: &[u8], pos: usize) -> (r: Option<(Self, usize)>) {
        let ghost at = bytes@.skip(pos as int);
        let (x1, at1) = match ExecutionStatus::decode(bytes, pos) {
            Some(found) => found,
            None => {
                assert forall|w: Self, tail: Seq<u8>| w.is_readable()
                    implies at != #[trigger] (w.encoding() + tail) by {
                    if at == w.encoding() + tail {
                        lemma_parts_of_effects(w, tail);
                        assert(w.status.is_readable());
                    }
                }
                return None;
            },
        };
        proof {
            lemma_skip_splits(bytes@, pos as int, at1 as int);
            assert forall|w: Self, tail: Seq<u8>| at == #[trigger] (w.encoding() + tail)
                implies bytes@.skip(at1 as int) == w.gas_used.encoding()
                    + (vec_encoding(w.shared_objects@)
                    + (w.transaction_digest.encoding()
                    + (vec_encoding(w.created@)
                    + (vec_encoding(w.mutated@)
                    + (vec_encoding(w.unwrapped@)
                    + (vec_encoding(w.deleted@)
                    + (vec_encoding(w.wrapped@)
                    + (w.gas_object.encoding()
                    + (vec_encoding(w.events@)
                    + (vec_encoding(w.dependencies@) + tail)))))))))) by {
                lemma_parts_of_effects(w, tail);
                ExecutionStatus::lemma_split(x1, w.status, bytes@.skip(at1 as int),
                    w.gas_used.encoding()
                    + (vec_encoding(w.shared_objects@)
                    + (w.transaction_digest.encoding()
                    + (vec_encoding(w.created@)
                    + (vec_encoding(w.mutated@)
                    + (vec_encoding(w.unwrapped@)
                    + (vec_encoding(w.deleted@)
                    + (vec_encoding(w.wrapped@)
                    + (w.gas_object.encoding()
                    + (vec_encoding(w.events@) + (vec_encoding(w.dependencies@) + tail)))))))))));
            }
        }
        let (x2, at2) = match GasCostSummary::decode(bytes, at1) {
            Some(found) => found,
            None => {
                assert forall|w: Self, tail: Seq<u8>| w.is_readable()
                    implies at != #[trigger] (w.encoding() + tail) by {
                    if at == w.encoding() + tail {
                        assert(bytes@.skip(at1 as int) == w.gas_used.encoding()
                            + (vec_encoding(w.shared_objects@)
                            + (w.transaction_digest.encoding()
                            + (vec_encoding(w.created@)
                            + (vec_encoding(w.mutated@)
                            + (vec_encoding(w.unwrapped@)
                            + (vec_encoding(w.deleted@)
                            + (vec_encoding(w.wrapped@)
                            + (w.gas_object.encoding()
                            + (vec_encoding(w.events@)
                            + (vec_encoding(w.dependencies@) + tail)))))))))));
                        assert(w.gas_used.is_readable());
                    }
                }
                return None;
            },
        };
        proof {
            lemma_skip_splits(bytes@, at1 as int, at2 as int);
            assert forall|w: Self, tail: Seq<u8>| at == #[trigger] (w.encoding() + tail)
                implies bytes@.skip(at2 as int) == vec_encoding(w.shared_objects@)
                    + (w.transaction_digest.encoding()
                    + (vec_encoding(w.created@)
                    + (vec_encoding(w.mutated@)
                    + (vec_encoding(w.unwrapped@)
                    + (vec_encoding(w.deleted@)
                    + (vec_encoding(w.wrapped@)
                    + (w.gas_object.encoding()
                    + (vec_encoding(w.events@)
                    + (vec_encoding(w.dependencies@) + tail))))))))) by {
                GasCostSummary::lemma_split(x2, w.gas_used, bytes@.skip(at2 as int),
                    vec_encoding(w.shared_objects@)
                    + (w.transaction_digest.encoding()
                    + (vec_encoding(w.created@)
                    + (vec_encoding(w.mutated@)
                    + (vec_encoding(w.unwrapped@)
                    + (vec_encoding(w.deleted@)
                    + (vec_encoding(w.wrapped@)
                    + (w.gas_object.encoding()
                    + (vec_encoding(w.events@) + (vec_encoding(w.dependencies@) + tail))))))))));
            }
        }
        let (x3, at3) = match read_vec::<(ObjectID, SequenceNumber, ObjectDigest)>(bytes, at2) {
            Some(found) => found,
            None => {
                assert forall|w: Self, tail: Seq<u8>| w.is_readable()
                    implies at != #[trigger] (w.encoding() + tail) by {
                    if at == w.encoding() + tail {
                        assert(bytes@.skip(at2 as int) == vec_encoding(w.shared_objects@)
                            + (w.transaction_digest.encoding()
                            + (vec_encoding(w.created@)
                            + (vec_encoding(w.mutated@)
                            + (vec_encoding(w.unwrapped@)
                            + (vec_encoding(w.deleted@)
                            + (vec_encoding(w.wrapped@)
                            + (w.gas_object.encoding()
                            + (vec_encoding(w.events@)
                            + (vec_encoding(w.dependencies@) + tail))))))))));
                        assert(all_readable(w.shared_objects@));
                    }
                }
                return None;
            },
        };
        proof {
            lemma_skip_splits(bytes@, at2 as int, at3 as int);
            assert forall|w: Self, tail: Seq<u8>| at == #[trigger] (w.encoding() + tail)
                implies bytes@.skip(at3 as int) == w.transaction_digest.encoding()
                    + (vec_encoding(w.created@)
                    + (vec_encoding(w.mutated@)
                    + (vec_encoding(w.unwrapped@)
                    + (vec_encoding(w.deleted@)
                    + (vec_encoding(w.wrapped@)
                    + (w.gas_object.encoding()
                    + (vec_encoding(w.events@)
                    + (vec_encoding(w.dependencies@) + tail)))))))) by {
                lemma_vec_split(x3@, w.shared_objects@, bytes@.skip(at3 as int),
                    w.transaction_digest.encoding()
                    + (vec_encoding(w.created@)
                    + (vec_encoding(w.mutated@)
                    + (vec_encoding(w.unwrapped@)
                    + (vec_encoding(w.deleted@)
                    + (vec_encoding(w.wrapped@)
                    + (w.gas_object.encoding()
                    + (vec_encoding(w.events@) + (vec_encoding(w.dependencies@) + tail)))))))));
            }
        }
        let (x4, at4) = match TransactionDigest::decode(bytes, at3) {
            Some(found) => found,
            None => {
                assert forall|w: Self, tail: Seq<u8>| w.is_readable()
                    implies at != #[trigger] (w.encoding() + tail) by {
                    if at == w.encoding() + tail {
                        assert(bytes@.skip(at3 as int) == w.transaction_digest.encoding()
                            + (vec_encoding(w.created@)
                            + (vec_encoding(w.mutated@)
                            + (vec_encoding(w.unwrapped@)
                            + (vec_encoding(w.deleted@)
                            + (vec_encoding(w.wrapped@)
                            + (w.gas_object.encoding()
                            + (vec_encoding(w.events@)
                            + (vec_encoding(w.dependencies@) + tail)))))))));
                        assert(w.transaction_digest.is_readable());
                    }
                }
                return None;
            },
        };
        proof {
            lemma_skip_splits(bytes@, at3 as int, at4 as int);
            assert forall|w: Self, tail: Seq<u8>| at == #[trigger] (w.encoding() + tail)
                implies bytes@.skip(at4 as int) == vec_encoding(w.created@)
                    + (vec_encoding(w.mutated@)
                    + (vec_encoding(w.unwrapped@)
                    + (vec_encoding(w.deleted@)
                    + (vec_encoding(w.wrapped@)
                    + (w.gas_object.encoding()
                    + (vec_encoding(w.events@) + (vec_encoding(w.dependencies@) + tail))))))) by {
                TransactionDigest::lemma_split(x4, w.transaction_digest, bytes@.skip(at4 as int),
                    vec_encoding(w.created@)
                    + (vec_encoding(w.mutated@)
                    + (vec_encoding(w.unwrapped@)
                    + (vec_encoding(w.deleted@)
                    + (vec_encoding(w.wrapped@)
                    + (w.gas_object.encoding()
                    + (vec_encoding(w.events@) + (vec_encoding(w.dependencies@) + tail))))))));
            }
        }
        let (x5, at5) = match read_vec::<((ObjectID, SequenceNumber, ObjectDigest), Owner)>(bytes,
            at4) {
            Some(found) => found,
            None => {
                assert forall|w: Self, tail: Seq<u8>| w.is_readable()
                    implies at != #[trigger] (w.encoding() + tail) by {
                    if at == w.encoding() + tail {
                        assert(bytes@.skip(at4 as int) == vec_encoding(w.created@)
                            + (vec_encoding(w.mutated@)
                            + (vec_encoding(w.unwrapped@)
                            + (vec_encoding(w.deleted@)
                            + (vec_encoding(w.wrapped@)
                            + (w.gas_object.encoding()
                            + (vec_encoding(w.events@)
                            + (vec_encoding(w.dependencies@) + tail))))))));
                        assert(all_readable(w.created@));
                    }
                }
                return None;
            },
        };
        proof {
            lemma_skip_splits(bytes@, at4 as int, at5 as int);
            assert forall|w: Self, tail: Seq<u8>| at == #[trigger] (w.encoding() + tail)
                implies bytes@.skip(at5 as int) == vec_encoding(w.mutated@)
                    + (vec_encoding(w.unwrapped@)
                    + (vec_encoding(w.deleted@)
                    + (vec_encoding(w.wrapped@)
                    + (w.gas_object.encoding()
                    + (vec_encoding(w.events@) + (vec_encoding(w.dependencies@) + tail)))))) by {
                lemma_vec_split(x5@, w.created@, bytes@.skip(at5 as int),
                    vec_encoding(w.mutated@)
                    + (vec_encoding(w.unwrapped@)
                    + (vec_encoding(w.deleted@)
                    + (vec_encoding(w.wrapped@)
                    + (w.gas_object.encoding()
                    + (vec_encoding(w.events@) + (vec_encoding(w.dependencies@) + tail)))))));
            }
        }
        let (x6, at6) = match read_vec::<((ObjectID, SequenceNumber, ObjectDigest), Owner)>(bytes,
            at5) {
            Some(found) => found,
            None => {
                assert forall|w: Self, tail: Seq<u8>| w.is_readable()
                    implies at != #[trigger] (w.encoding() + tail) by {
                    if at == w.encoding() + tail {
                        assert(bytes@.skip(at5 as int) == vec_encoding(w.mutated@)
                            + (vec_encoding(w.unwrapped@)
                            + (vec_encoding(w.deleted@)
                            + (vec_encoding(w.wrapped@)
                            + (w.gas_object.encoding()
                            + (vec_encoding(w.events@)
                            + (vec_encoding(w.dependencies@) + tail)))))));
                        assert(all_readable(w.mutated@));
                    }
                }
                return None;
            },
        };
        proof {
            lemma_skip_splits(bytes@, at5 as int, at6 as int);
            assert forall|w: Self, tail: Seq<u8>| at == #[trigger] (w.encoding() + tail)
                implies bytes@.skip(at6 as int) == vec_encoding(w.unwrapped@)
                    + (vec_encoding(w.deleted@)
                    + (vec_encoding(w.wrapped@)
                    + (w.gas_object.encoding()
                    + (vec_encoding(w.events@) + (vec_encoding(w.dependencies@) + tail))))) by {
                lemma_vec_split(x6@, w.mutated@, bytes@.skip(at6 as int),
                    vec_encoding(w.unwrapped@)
                    + (vec_encoding(w.deleted@)
                    + (vec_encoding(w.wrapped@)
                    + (w.gas_object.encoding()
                    + (vec_encoding(w.events@) + (vec_encoding(w.dependencies@) + tail))))));
            }
        }
        let (x7, at7) = match read_vec::<((ObjectID, SequenceNumber, ObjectDigest), Owner)>(bytes,
            at6) {
            Some(found) => found,
            None => {
                assert forall|w: Self, tail: Seq<u8>| w.is_readable()
                    implies at != #[trigger] (w.encoding() + tail) by {
                    if at == w.encoding() + tail {
                        assert(bytes@.skip(at6 as int) == vec_encoding(w.unwrapped@)
                            + (vec_encoding(w.deleted@)
                            + (vec_encoding(w.wrapped@)
                            + (w.gas_object.encoding()
                            + (vec_encoding(w.events@)
                            + (vec_encoding(w.dependencies@) + tail))))));
                        assert(all_readable(w.unwrapped@));
                    }
                }
                return None;
            },
        };
        proof {
            lemma_skip_splits(bytes@, at6 as int, at7 as int);
            assert forall|w: Self, tail: Seq<u8>| at == #[trigger] (w.encoding() + tail)
                implies bytes@.skip(at7 as int) == vec_encoding(w.deleted@)
                    + (vec_encoding(w.wrapped@)
                    + (w.gas_object.encoding()
                    + (vec_encoding(w.events@) + (vec_encoding(w.dependencies@) + tail)))) by {
                lemma_vec_split(x7@, w.unwrapped@, bytes@.skip(at7 as int),
                    vec_encoding(w.deleted@)
                    + (vec_encoding(w.wrapped@)
                    + (w.gas_object.encoding()
                    + (vec_encoding(w.events@) + (vec_encoding(w.dependencies@) + tail)))));
            }
        }
        let (x8, at8) = match read_vec::<(ObjectID, SequenceNumber, ObjectDigest)>(bytes, at7) {
            Some(found) => found,
            None => {
                assert forall|w: Self, tail: Seq<u8>| w.is_readable()
                    implies at != #[trigger] (w.encoding() + tail) by {
                    if at == w.encoding() + tail {
                        assert(bytes@.skip(at7 as int) == vec_encoding(w.deleted@)
                            + (vec_encoding(w.wrapped@)
                            + (w.gas_object.encoding()
                            + (vec_encoding(w.events@)
                            + (vec_encoding(w.dependencies@) + tail)))));
                        assert(all_readable(w.deleted@));
                    }
                }
                return None;
            },
        };
        proof {
            lemma_skip_splits(bytes@, at7 as int, at8 as int);
            assert forall|w: Self, tail: Seq<u8>| at == #[trigger] (w.encoding() + tail)
                implies bytes@.skip(at8 as int) == vec_encoding(w.wrapped@)
                    + (w.gas_object.encoding()
                    + (vec_encoding(w.events@) + (vec_encoding(w.dependencies@) + tail))) by {
                lemma_vec_split(x8@, w.deleted@, bytes@.skip(at8 as int),
                    vec_encoding(w.wrapped@)
                    + (w.gas_object.encoding()
                    + (vec_encoding(w.events@) + (vec_encoding(w.dependencies@) + tail))));
            }
        }
        let (x9, at9) = match read_vec::<(ObjectID, SequenceNumber, ObjectDigest)>(bytes, at8) {
            Some(found) => found,
            None => {
                assert forall|w: Self, tail: Seq<u8>| w.is_readable()
                    implies at != #[trigger] (w.encoding() + tail) by {
                    if at == w.encoding() + tail {
                        assert(bytes@.skip(at8 as int) == vec_encoding(w.wrapped@)
                            + (w.gas_object.encoding()
                            + (vec_encoding(w.events@)
                            + (vec_encoding(w.dependencies@) + tail))));
                        assert(all_readable(w.wrapped@));
                    }
                }
                return None;
            },
        };
        proof {
            lemma_skip_splits(bytes@, at8 as int, at9 as int);
            assert forall|w: Self, tail: Seq<u8>| at == #[trigger] (w.encoding() + tail)
                implies bytes@.skip(at9 as int) == w.gas_object.encoding()
                    + (vec_encoding(w.events@) + (vec_encoding(w.dependencies@) + tail)) by {
                lemma_vec_split(x9@, w.wrapped@, bytes@.skip(at9 as int), w.gas_object.encoding()
                    + (vec_encoding(w.events@) + (vec_encoding(w.dependencies@) + tail)));
            }
        }
        let (x10, at10) = match <((ObjectID, SequenceNumber, ObjectDigest), Owner)>::decode(bytes,
            at9) {
            Some(found) => found,
            None => {
                assert forall|w: Self, tail: Seq<u8>| w.is_readable()
                    implies at != #[trigger] (w.encoding() + tail) by {
                    if at == w.encoding() + tail {
                        assert(bytes@.skip(at9 as int) == w.gas_object.encoding()
                            + (vec_encoding(w.events@) + (vec_encoding(w.dependencies@) + tail)));
                        assert(w.gas_object.is_readable());
                    }
                }
                return None;
            },
        };
        proof {
            lemma_skip_splits(bytes@, at9 as int, at10 as int);
            assert forall|w: Self, tail: Seq<u8>| at == #[trigger] (w.encoding() + tail)
                implies bytes@.skip(at10 as int) == vec_encoding(w.events@)
                    + (vec_encoding(w.dependencies@) + tail) by {
                <((ObjectID, SequenceNumber, ObjectDigest), Owner)>::lemma_split(x10, w.gas_object,
                    bytes@.skip(at10 as int), vec_encoding(w.events@)
                    + (vec_encoding(w.dependencies@) + tail));
            }
        }
        let (x11, at11) = match read_vec::<Event>(bytes, at10) {
            Some(found) => found,
            None => {
                assert forall|w: Self, tail: Seq<u8>| w.is_readable()
                    implies at != #[trigger] (w.encoding() + tail) by {
                    if at == w.encoding() + tail {
                        assert(bytes@.skip(at10 as int) == vec_encoding(w.events@)
                            + (vec_encoding(w.dependencies@) + tail));
                        assert(all_readable(w.events@));
                    }
                }
                return None;
            },
        };
        proof {
            lemma_skip_splits(bytes@, at10 as int, at11 as int);
            assert forall|w: Self, tail: Seq<u8>| at == #[trigger] (w.encoding() + tail)
                implies bytes@.skip(at11 as int) == vec_encoding(w.dependencies@) + tail by {
                lemma_vec_split(x11@, w.events@, bytes@.skip(at11 as int),
                    vec_encoding(w.dependencies@) + tail);
            }
        }
        let (x12, at12) = match read_vec::<TransactionDigest>(bytes, at11) {
            Some(found) => found,
            None => {
                assert forall|w: Self, tail: Seq<u8>| w.is_readable()
                    implies at != #[trigger] (w.encoding() + tail) by {
                    if at == w.encoding() + tail {
                        assert(bytes@.skip(at11 as int) == vec_encoding(w.dependencies@) + tail);
                        assert(all_readable(w.dependencies@));
                    }
                }
                return None;
            },
        };
        proof {
            lemma_skip_splits(bytes@, at11 as int, at12 as int);
        }
        let v = TransactionEffects { status: x1, gas_used: x2, shared_objects: x3,
            transaction_digest: x4, created: x5, mutated: x6, unwrapped: x7, deleted: x8,
            wrapped: x9, gas_object: x10, events: x11, dependencies: x12 };
        proof {
            lemma_parts_of_effects(v, Seq::empty());
            lemma_join(bytes@, at10 as int, at11 as int, at12 as int);
            lemma_join(bytes@, at9 as int, at10 as int, at12 as int);
            lemma_join(bytes@, at8 as int, at9 as int, at12 as int);
            lemma_join(bytes@, at7 as int, at8 as int, at12 as int);
            lemma_join(bytes@, at6 as int, at7 as int, at12 as int);
            lemma_join(bytes@, at5 as int, at6 as int, at12 as int);
            lemma_join(bytes@, at4 as int, at5 as int, at12 as int);
            lemma_join(bytes@, at3 as int, at4 as int, at12 as int);
            lemma_join(bytes@, at2 as int, at3 as int, at12 as int);
            lemma_join(bytes@, at1 as int, at2 as int, at12 as int);
            lemma_join(bytes@, pos as int, at1 as int, at12 as int);
            assert(v.is_readable());
        }
        Some((v, at12))
    }
}

impl TransactionEffects {
    /// The effects whose encoding `bytes` are. Hands out nothing where they are the
    /// encoding of no effects.
    pub fn from_bytes(bytes: &[u8]) -> (r: Option<TransactionEffects>)
        ensures
            r matches Some(v) ==> v.encoding() == bytes@ && v.is_readable(),
            r is None ==> forall|w: TransactionEffects|
                w.is_readable() ==> #[trigger] w.encoding() != bytes@,
    {
        decode_all::<TransactionEffects>(bytes)
    }
}

/// Reading undoes encoding for effects: from the encoding of readable effects, every
/// reading that `from_bytes` allows hands out effects with that encoding, and so with
/// the same digest.
pub proof fn lemma_effects_read_back(
    x: TransactionEffects,
    bytes: &[u8],
    r: Option<TransactionEffects>,
)
    requires
        x.is_readable(),
        bytes@ == x.encoding(),
        call_ensures(TransactionEffects::from_bytes, (bytes,), r),
    ensures
        r matches Some(y) && y.encoding() == x.encoding()
            && crate::effects::effects_digest(y) == crate::effects::effects_digest(x),
{
}

} // verus!
